//! The wire encoding of commands: a text message of the shape
//! `{"id":<string>,"cmd":<string>,"status":<status>}` where `<status>` is
//! `"Pending"`, `{"Completed":<string>}` or `{"Failed":<string>}`. String
//! payloads escape the quote, the backslash and every control character
//! (the named escapes for backspace, form feed, newline, carriage return
//! and tab, `\u00..` for the rest), so every encoded message is valid JSON.
//! Decoding accepts exactly what encoding produces; anything else is
//! malformed and is reported as such so the session can discard it.

use vstd::prelude::*;
use vstd::string::StrSliceExecFns;
use vstd::string::StringExecFns;

use crate::command::{Command, CommandStatus, CommandView, StatusView};

verus! {

broadcast use vstd::string::group_string_axioms;

/// The lowercase hexadecimal digit with the given value.
pub open spec fn hex_digit(v: int) -> char {
    if v == 0 {
        '0'
    } else if v == 1 {
        '1'
    } else if v == 2 {
        '2'
    } else if v == 3 {
        '3'
    } else if v == 4 {
        '4'
    } else if v == 5 {
        '5'
    } else if v == 6 {
        '6'
    } else if v == 7 {
        '7'
    } else if v == 8 {
        '8'
    } else if v == 9 {
        '9'
    } else if v == 10 {
        'a'
    } else if v == 11 {
        'b'
    } else if v == 12 {
        'c'
    } else if v == 13 {
        'd'
    } else if v == 14 {
        'e'
    } else {
        'f'
    }
}

/// The value of a lowercase hexadecimal digit, if it is one.
pub open spec fn hex_value(c: char) -> Option<int> {
    if c == '0' {
        Some(0)
    } else if c == '1' {
        Some(1)
    } else if c == '2' {
        Some(2)
    } else if c == '3' {
        Some(3)
    } else if c == '4' {
        Some(4)
    } else if c == '5' {
        Some(5)
    } else if c == '6' {
        Some(6)
    } else if c == '7' {
        Some(7)
    } else if c == '8' {
        Some(8)
    } else if c == '9' {
        Some(9)
    } else if c == 'a' {
        Some(10)
    } else if c == 'b' {
        Some(11)
    } else if c == 'c' {
        Some(12)
    } else if c == 'd' {
        Some(13)
    } else if c == 'e' {
        Some(14)
    } else if c == 'f' {
        Some(15)
    } else {
        None
    }
}

/// The control character with the given code.
pub open spec fn ctrl_char(v: int) -> char {
    if v == 0 {
        '\u{00}'
    } else if v == 1 {
        '\u{01}'
    } else if v == 2 {
        '\u{02}'
    } else if v == 3 {
        '\u{03}'
    } else if v == 4 {
        '\u{04}'
    } else if v == 5 {
        '\u{05}'
    } else if v == 6 {
        '\u{06}'
    } else if v == 7 {
        '\u{07}'
    } else if v == 8 {
        '\u{08}'
    } else if v == 9 {
        '\u{09}'
    } else if v == 10 {
        '\u{0a}'
    } else if v == 11 {
        '\u{0b}'
    } else if v == 12 {
        '\u{0c}'
    } else if v == 13 {
        '\u{0d}'
    } else if v == 14 {
        '\u{0e}'
    } else if v == 15 {
        '\u{0f}'
    } else if v == 16 {
        '\u{10}'
    } else if v == 17 {
        '\u{11}'
    } else if v == 18 {
        '\u{12}'
    } else if v == 19 {
        '\u{13}'
    } else if v == 20 {
        '\u{14}'
    } else if v == 21 {
        '\u{15}'
    } else if v == 22 {
        '\u{16}'
    } else if v == 23 {
        '\u{17}'
    } else if v == 24 {
        '\u{18}'
    } else if v == 25 {
        '\u{19}'
    } else if v == 26 {
        '\u{1a}'
    } else if v == 27 {
        '\u{1b}'
    } else if v == 28 {
        '\u{1c}'
    } else if v == 29 {
        '\u{1d}'
    } else if v == 30 {
        '\u{1e}'
    } else {
        '\u{1f}'
    }
}

/// How one character is escaped inside a string payload.
pub open spec fn esc_char(c: char) -> Seq<char> {
    if c == '"' {
        seq!['\\', '"']
    } else if c == '\\' {
        seq!['\\', '\\']
    } else if c == '\u{08}' {
        seq!['\\', 'b']
    } else if c == '\u{0c}' {
        seq!['\\', 'f']
    } else if c == '\n' {
        seq!['\\', 'n']
    } else if c == '\r' {
        seq!['\\', 'r']
    } else if c == '\t' {
        seq!['\\', 't']
    } else if (c as u32) < 32 {
        seq!['\\', 'u', '0', '0', hex_digit((c as u32) as int / 16), hex_digit((c as u32) as int % 16)]
    } else {
        seq![c]
    }
}

/// The escaped form of a string payload.
pub open spec fn esc_str(s: Seq<char>) -> Seq<char>
    decreases s.len(),
{
    if s.len() == 0 {
        Seq::empty()
    } else {
        esc_char(s[0]) + esc_str(s.drop_first())
    }
}

/// The character an escape code stands for, if it is a recognised code.
pub open spec fn unesc_code(c: char) -> Option<char> {
    if c == '"' {
        Some('"')
    } else if c == '\\' {
        Some('\\')
    } else if c == 'b' {
        Some('\u{08}')
    } else if c == 'f' {
        Some('\u{0c}')
    } else if c == 'n' {
        Some('\n')
    } else if c == 'r' {
        Some('\r')
    } else if c == 't' {
        Some('\t')
    } else {
        None
    }
}

/// `{"id":"`
pub open spec fn lit_obj_open() -> Seq<char> {
    seq!['{', '"', 'i', 'd', '"', ':', '"']
}

/// `,"cmd":"`
pub open spec fn lit_cmd8() -> Seq<char> {
    seq![',', '"', 'c', 'm', 'd', '"', ':', '"']
}

/// `,"status":`
pub open spec fn lit_status10() -> Seq<char> {
    seq![',', '"', 's', 't', 'a', 't', 'u', 's', '"', ':']
}

/// `"Pending"`
pub open spec fn lit_pending() -> Seq<char> {
    seq!['"', 'P', 'e', 'n', 'd', 'i', 'n', 'g', '"']
}

/// `{"Completed":"`
pub open spec fn lit_completed() -> Seq<char> {
    seq!['{', '"', 'C', 'o', 'm', 'p', 'l', 'e', 't', 'e', 'd', '"', ':', '"']
}

/// `{"Failed":"`
pub open spec fn lit_failed() -> Seq<char> {
    seq!['{', '"', 'F', 'a', 'i', 'l', 'e', 'd', '"', ':', '"']
}

/// The encoding of a status value.
pub open spec fn spec_encode_status(st: StatusView) -> Seq<char> {
    match st {
        StatusView::Pending => lit_pending(),
        StatusView::Completed(out) => lit_completed() + esc_str(out) + seq!['"', '}'],
        StatusView::Failed(err) => lit_failed() + esc_str(err) + seq!['"', '}'],
    }
}

/// The full encoding of a command.
pub open spec fn spec_encode(c: CommandView) -> Seq<char> {
    lit_obj_open() + esc_str(c.id) + seq!['"'] + lit_cmd8() + esc_str(c.cmd) + seq!['"']
        + lit_status10() + spec_encode_status(c.status) + seq!['}']
}

/// Parses an escaped string payload up to and including its closing quote;
/// yields the unescaped content and the number of characters consumed.
pub open spec fn parse_str_body(s: Seq<char>) -> Option<(Seq<char>, nat)>
    decreases s.len(),
{
    if s.len() == 0 {
        None
    } else if s[0] == '"' {
        Some((Seq::empty(), 1 as nat))
    } else if s[0] == '\\' {
        if s.len() < 2 {
            None
        } else if s[1] == 'u' {
            if s.len() < 6 {
                None
            } else if s[2] == '0' && s[3] == '0' && (s[4] == '0' || s[4] == '1') && hex_value(
                s[5],
            ) is Some {
                let v = 16 * (if s[4] == '1' { 1int } else { 0int }) + hex_value(s[5])->0;
                match parse_str_body(s.skip(6)) {
                    None => None,
                    Some(t) => Some((seq![ctrl_char(v)] + t.0, (t.1 + 6) as nat)),
                }
            } else {
                None
            }
        } else {
            match unesc_code(s[1]) {
                None => None,
                Some(ch) => match parse_str_body(s.skip(2)) {
                    None => None,
                    Some(t) => Some((seq![ch] + t.0, (t.1 + 2) as nat)),
                },
            }
        }
    } else {
        match parse_str_body(s.skip(1)) {
            None => None,
            Some(t) => Some((seq![s[0]] + t.0, (t.1 + 1) as nat)),
        }
    }
}

/// Parses a status value; yields it and the number of characters consumed.
pub open spec fn parse_status(s: Seq<char>) -> Option<(StatusView, nat)> {
    if s.len() >= 9 && s.take(9) == lit_pending() {
        Some((StatusView::Pending, 9 as nat))
    } else if s.len() >= 14 && s.take(14) == lit_completed() {
        match parse_str_body(s.skip(14)) {
            None => None,
            Some(t) => if 14 + t.1 < s.len() && s[14 + t.1 as int] == '}' {
                Some((StatusView::Completed(t.0), (14 + t.1 + 1) as nat))
            } else {
                None
            },
        }
    } else if s.len() >= 11 && s.take(11) == lit_failed() {
        match parse_str_body(s.skip(11)) {
            None => None,
            Some(t) => if 11 + t.1 < s.len() && s[11 + t.1 as int] == '}' {
                Some((StatusView::Failed(t.0), (11 + t.1 + 1) as nat))
            } else {
                None
            },
        }
    } else {
        None
    }
}

/// The decoded command a message stands for, or nothing if the message is
/// not exactly of the wire shape.
pub open spec fn spec_decode(s: Seq<char>) -> Option<CommandView> {
    if s.len() < 7 || s.take(7) != lit_obj_open() {
        None
    } else {
        match parse_str_body(s.skip(7)) {
            None => None,
            Some(idp) => {
                let r1 = s.skip(7 + idp.1 as int);
                if r1.len() < 8 || r1.take(8) != lit_cmd8() {
                    None
                } else {
                    match parse_str_body(r1.skip(8)) {
                        None => None,
                        Some(cmdp) => {
                            let r2 = r1.skip(8 + cmdp.1 as int);
                            if r2.len() < 10 || r2.take(10) != lit_status10() {
                                None
                            } else {
                                match parse_status(r2.skip(10)) {
                                    None => None,
                                    Some(stp) => {
                                        let r3 = r2.skip(10 + stp.1 as int);
                                        if r3.len() == 1 && r3[0] == '}' {
                                            Some(
                                                CommandView {
                                                    id: idp.0,
                                                    cmd: cmdp.0,
                                                    status: stp.0,
                                                },
                                            )
                                        } else {
                                            None
                                        }
                                    },
                                }
                            }
                        },
                    }
                }
            },
        }
    }
}

/// Parsing the escaped form of a payload followed by its closing quote
/// recovers the payload exactly, whatever follows the quote.
pub proof fn lemma_parse_esc_roundtrip(s: Seq<char>, rest: Seq<char>)
    ensures
        parse_str_body(esc_str(s) + seq!['"'] + rest) == Some::<(Seq<char>, nat)>(
            (s, (esc_str(s).len() + 1) as nat),
        ),
    decreases s.len(),
{
    let full = esc_str(s) + seq!['"'] + rest;
    if s.len() == 0 {
        assert(full =~= seq!['"'] + rest);
        assert(full[0] == '"');
        assert(parse_str_body(full) == Some::<(Seq<char>, nat)>((Seq::empty(), 1 as nat)));
        assert(s =~= Seq::<char>::empty());
    } else {
        let c = s[0];
        let tail = s.drop_first();
        assert(esc_str(s) == esc_char(c) + esc_str(tail));
        lemma_parse_esc_roundtrip(tail, rest);
        if c == '"' || c == '\\' || c == '\u{08}' || c == '\u{0c}' || c == '\n' || c == '\r' || c
            == '\t' {
            let code = if c == '"' {
                '"'
            } else if c == '\\' {
                '\\'
            } else if c == '\u{08}' {
                'b'
            } else if c == '\u{0c}' {
                'f'
            } else if c == '\n' {
                'n'
            } else if c == '\r' {
                'r'
            } else {
                't'
            };
            assert(esc_char(c) =~= seq!['\\', code]);
            assert(full[0] == '\\');
            assert(full[1] == code);
            assert(code != 'u');
            assert(unesc_code(code) == Some(c));
            assert(full.len() >= 2);
            assert(full.skip(2) =~= esc_str(tail) + seq!['"'] + rest);
            let t = parse_str_body(full.skip(2))->0;
            assert(t.0 == tail && t.1 == (esc_str(tail).len() + 1) as nat);
            assert(seq![c] + tail =~= s);
            assert(esc_str(s).len() == 2 + esc_str(tail).len());
        } else if (c as u32) < 32 {
            let hi = (c as u32) as int / 16;
            let lo = (c as u32) as int % 16;
            let d1 = hex_digit(hi);
            let d2 = hex_digit(lo);
            assert(esc_char(c) =~= seq!['\\', 'u', '0', '0', d1, d2]);
            assert(full[0] == '\\');
            assert(full[1] == 'u');
            assert(full[2] == '0' && full[3] == '0' && full[4] == d1 && full[5] == d2);
            assert(0 <= hi <= 1 && 0 <= lo < 16);
            assert(d1 == '0' || d1 == '1');
            assert(hex_value(d2) == Some(lo));
            let v = 16 * (if d1 == '1' { 1int } else { 0int }) + lo;
            assert(v == (c as u32) as int);
            assert(ctrl_char(v) == c) by {
                assert(0 <= v < 32);
                assert(ctrl_char(v) as u32 == v);
                vstd::utf8::char_u32_cast(c, c as u32);
                vstd::utf8::char_u32_cast(ctrl_char(v), ctrl_char(v) as u32);
            }
            assert(full.len() >= 6);
            assert(full.skip(6) =~= esc_str(tail) + seq!['"'] + rest);
            let t = parse_str_body(full.skip(6))->0;
            assert(t.0 == tail && t.1 == (esc_str(tail).len() + 1) as nat);
            assert(seq![c] + tail =~= s);
            assert(esc_str(s).len() == 6 + esc_str(tail).len());
        } else {
            assert(esc_char(c) =~= seq![c]);
            assert(full[0] == c);
            assert(c != '"' && c != '\\');
            assert(full.skip(1) =~= esc_str(tail) + seq!['"'] + rest);
            let t = parse_str_body(full.skip(1))->0;
            assert(t.0 == tail && t.1 == (esc_str(tail).len() + 1) as nat);
            assert(seq![c] + tail =~= s);
            assert(esc_str(s).len() == 1 + esc_str(tail).len());
        }
    }
}

/// Parsing the encoding of a status recovers the status exactly, whatever
/// follows it.
pub proof fn lemma_parse_status_roundtrip(st: StatusView, rest: Seq<char>)
    ensures
        parse_status(spec_encode_status(st) + rest) == Some::<(StatusView, nat)>(
            (st, spec_encode_status(st).len() as nat),
        ),
{
    let e = spec_encode_status(st);
    let full = e + rest;
    match st {
        StatusView::Pending => {
            assert(full.take(9) =~= lit_pending());
            assert(e.len() == 9);
        },
        StatusView::Completed(out) => {
            assert(e =~= lit_completed() + esc_str(out) + seq!['"', '}']);
            assert(full.len() >= 14);
            assert(full.take(9) != lit_pending()) by {
                assert(full[0] == '{');
                assert(full.take(9)[0] == full[0]);
                assert(lit_pending()[0] == '"');
            }
            assert(full.take(14) =~= lit_completed());
            assert(full.skip(14) =~= esc_str(out) + seq!['"'] + (seq!['}'] + rest));
            lemma_parse_esc_roundtrip(out, seq!['}'] + rest);
            let t = parse_str_body(full.skip(14))->0;
            assert(t.0 == out && t.1 == (esc_str(out).len() + 1) as nat);
            assert(full.len() == 14 + esc_str(out).len() + 2 + rest.len());
            assert(14 + t.1 < full.len());
            assert(full[14 + t.1 as int] == '}');
            assert(e.len() == 14 + t.1 + 1);
        },
        StatusView::Failed(err) => {
            assert(e =~= lit_failed() + esc_str(err) + seq!['"', '}']);
            assert(full.len() >= 11);
            assert(full.take(9) != lit_pending()) by {
                assert(full[0] == '{');
                assert(full.take(9)[0] == full[0]);
                assert(lit_pending()[0] == '"');
            }
            assert(full.len() < 14 || full.take(14) != lit_completed()) by {
                if full.len() >= 14 {
                    assert(full[2] == 'F');
                    assert(full.take(14)[2] == full[2]);
                    assert(lit_completed()[2] == 'C');
                }
            }
            assert(full.take(11) =~= lit_failed());
            assert(full.skip(11) =~= esc_str(err) + seq!['"'] + (seq!['}'] + rest));
            lemma_parse_esc_roundtrip(err, seq!['}'] + rest);
            let t = parse_str_body(full.skip(11))->0;
            assert(t.0 == err && t.1 == (esc_str(err).len() + 1) as nat);
            assert(full.len() == 11 + esc_str(err).len() + 2 + rest.len());
            assert(11 + t.1 < full.len());
            assert(full[11 + t.1 as int] == '}');
            assert(e.len() == 11 + t.1 + 1);
        },
    }
}

/// Round trip: decoding the encoding of any command yields that command
/// back, its status and payloads included.
#[verifier::rlimit(100)]
pub proof fn lemma_decode_encode(c: CommandView)
    ensures
        spec_decode(spec_encode(c)) == Some(c),
{
    let e = spec_encode(c);
    let eid = esc_str(c.id);
    let ecmd = esc_str(c.cmd);
    let est = spec_encode_status(c.status);
    assert(e =~= lit_obj_open() + (eid + seq!['"'] + (lit_cmd8() + (ecmd + seq!['"'] + (
    lit_status10() + (est + seq!['}']))))));
    assert(e.len() >= 7);
    assert(e.take(7) =~= lit_obj_open());
    assert(e.skip(7) =~= eid + seq!['"'] + (lit_cmd8() + (ecmd + seq!['"'] + (lit_status10() + (est
        + seq!['}'])))));
    lemma_parse_esc_roundtrip(c.id, lit_cmd8() + (ecmd + seq!['"'] + (lit_status10() + (est
        + seq!['}']))));
    let idp = parse_str_body(e.skip(7))->0;
    assert(idp.0 == c.id && idp.1 == (eid.len() + 1) as nat);
    let r1 = e.skip(7 + idp.1 as int);
    assert(r1 =~= lit_cmd8() + (ecmd + seq!['"'] + (lit_status10() + (est + seq!['}']))));
    assert(r1.len() >= 8);
    assert(r1.take(8) =~= lit_cmd8());
    assert(r1.skip(8) =~= ecmd + seq!['"'] + (lit_status10() + (est + seq!['}'])));
    lemma_parse_esc_roundtrip(c.cmd, lit_status10() + (est + seq!['}']));
    let cmdp = parse_str_body(r1.skip(8))->0;
    assert(cmdp.0 == c.cmd && cmdp.1 == (ecmd.len() + 1) as nat);
    let r2 = r1.skip(8 + cmdp.1 as int);
    assert(r2 =~= lit_status10() + (est + seq!['}']));
    assert(r2.len() >= 10);
    assert(r2.take(10) =~= lit_status10());
    assert(r2.skip(10) =~= est + seq!['}']);
    lemma_parse_status_roundtrip(c.status, seq!['}']);
    let stp = parse_status(r2.skip(10))->0;
    assert(stp.0 == c.status && stp.1 == est.len() as nat);
    let r3 = r2.skip(10 + stp.1 as int);
    assert(r3 =~= seq!['}']);
    assert(r3.len() == 1 && r3[0] == '}');
    assert(spec_decode(e) == Some(CommandView { id: idp.0, cmd: cmdp.0, status: stp.0 }));
}

/// Escaping distributes over concatenation.
proof fn lemma_esc_str_concat(a: Seq<char>, b: Seq<char>)
    ensures
        esc_str(a + b) == esc_str(a) + esc_str(b),
    decreases a.len(),
{
    if a.len() == 0 {
        assert(a + b =~= b);
        assert(esc_str(a) =~= Seq::<char>::empty());
        assert(esc_str(a) + esc_str(b) =~= esc_str(b));
    } else {
        assert((a + b)[0] == a[0]);
        assert((a + b).drop_first() =~= a.drop_first() + b);
        lemma_esc_str_concat(a.drop_first(), b);
        assert(esc_str(a + b) == esc_char(a[0]) + (esc_str(a.drop_first()) + esc_str(b)));
        assert(esc_char(a[0]) + (esc_str(a.drop_first()) + esc_str(b)) =~= (esc_char(a[0])
            + esc_str(a.drop_first())) + esc_str(b));
    }
}

/// A single character escapes to its escape form.
proof fn lemma_esc_str_single(c: char)
    ensures
        esc_str(seq![c]) == esc_char(c),
{
    assert(seq![c].drop_first() =~= Seq::<char>::empty());
    assert(esc_str(Seq::<char>::empty()) =~= Seq::<char>::empty());
    assert(esc_str(seq![c]) == esc_char(c) + esc_str(seq![c].drop_first()));
    assert(esc_char(c) + Seq::<char>::empty() =~= esc_char(c));
}

/// Appends the escaped form of `s` to `out`.
fn append_escaped(out: &mut String, s: &str)
    ensures
        final(out)@ == old(out)@ + esc_str(s@),
{
    let ghost orig = out@;
    let n = s.unicode_len();
    let mut i: usize = 0;
    proof {
        assert(esc_str(s@.take(0)) =~= Seq::<char>::empty());
        assert(out@ =~= orig + esc_str(s@.take(0)));
    }
    while i < n
        invariant
            i <= n,
            n == s@.len(),
            out@ == orig + esc_str(s@.take(i as int)),
        decreases n - i,
    {
        let c = s.get_char(i);
        let ghost pre = out@;
        if c == '"' {
            out.append("\\\"");
            proof {
                reveal_strlit("\\\"");
                assert("\\\""@ =~= esc_char(c));
            }
        } else if c == '\\' {
            out.append("\\\\");
            proof {
                reveal_strlit("\\\\");
                assert("\\\\"@ =~= esc_char(c));
            }
        } else if c == '\u{08}' {
            out.append("\\b");
            proof {
                reveal_strlit("\\b");
                assert("\\b"@ =~= esc_char(c));
            }
        } else if c == '\u{0c}' {
            out.append("\\f");
            proof {
                reveal_strlit("\\f");
                assert("\\f"@ =~= esc_char(c));
            }
        } else if c == '\n' {
            out.append("\\n");
            proof {
                reveal_strlit("\\n");
                assert("\\n"@ =~= esc_char(c));
            }
        } else if c == '\r' {
            out.append("\\r");
            proof {
                reveal_strlit("\\r");
                assert("\\r"@ =~= esc_char(c));
            }
        } else if c == '\t' {
            out.append("\\t");
            proof {
                reveal_strlit("\\t");
                assert("\\t"@ =~= esc_char(c));
            }
        } else if (c as u32) < 32 {
            let code = c as u32;
            out.append("\\u00");
            append_hex_digit(out, (code / 16) as u8);
            append_hex_digit(out, (code % 16) as u8);
            proof {
                reveal_strlit("\\u00");
                assert("\\u00"@ =~= seq!['\\', 'u', '0', '0']);
                assert(out@ =~= pre + esc_char(c));
            }
        } else {
            let piece = s.substring_char(i, i + 1);
            out.append(piece);
            proof {
                assert(piece@ =~= esc_char(c));
            }
        }
        proof {
            assert(out@ == pre + esc_char(c));
            lemma_esc_str_concat(s@.take(i as int), seq![c]);
            lemma_esc_str_single(c);
            assert(s@.take(i as int + 1) =~= s@.take(i as int) + seq![c]);
            assert(orig + (esc_str(s@.take(i as int)) + esc_char(c)) =~= (orig + esc_str(
                s@.take(i as int),
            )) + esc_char(c));
        }
        i += 1;
    }
    proof {
        assert(s@.take(n as int) =~= s@);
    }
}

/// Appends the wire form of a status to `out`.
fn append_status(out: &mut String, st: &CommandStatus)
    ensures
        final(out)@ == old(out)@ + spec_encode_status(st@),
{
    match st {
        CommandStatus::Pending => {
            out.append("\"Pending\"");
            proof {
                reveal_strlit("\"Pending\"");
                assert("\"Pending\""@ =~= lit_pending());
            }
        },
        CommandStatus::Completed(payload) => {
            let ghost pre = out@;
            out.append("{\"Completed\":\"");
            proof {
                reveal_strlit("{\"Completed\":\"");
                assert("{\"Completed\":\""@ =~= lit_completed());
            }
            append_escaped(out, payload.as_str());
            out.append("\"}");
            proof {
                reveal_strlit("\"}");
                assert("\"}"@ =~= seq!['"', '}']);
                assert(out@ =~= pre + spec_encode_status(st@));
            }
        },
        CommandStatus::Failed(payload) => {
            let ghost pre = out@;
            out.append("{\"Failed\":\"");
            proof {
                reveal_strlit("{\"Failed\":\"");
                assert("{\"Failed\":\""@ =~= lit_failed());
            }
            append_escaped(out, payload.as_str());
            out.append("\"}");
            proof {
                reveal_strlit("\"}");
                assert("\"}"@ =~= seq!['"', '}']);
                assert(out@ =~= pre + spec_encode_status(st@));
            }
        },
    }
}

/// Encodes a command into its wire message.
#[verifier::rlimit(100)]
pub fn encode_command(c: &Command) -> (r: String)
    ensures
        r@ == spec_encode(c@),
{
    let mut out = String::new();
    out.append("{\"id\":\"");
    append_escaped(&mut out, c.id.as_str());
    out.append("\",\"cmd\":\"");
    append_escaped(&mut out, c.cmd.as_str());
    out.append("\",\"status\":");
    append_status(&mut out, &c.status);
    out.append("}");
    proof {
        reveal_strlit("{\"id\":\"");
        reveal_strlit("\",\"cmd\":\"");
        reveal_strlit("\",\"status\":");
        reveal_strlit("}");
        assert("{\"id\":\""@ =~= lit_obj_open());
        assert("\",\"cmd\":\""@ =~= seq!['"'] + lit_cmd8());
        assert("\",\"status\":"@ =~= seq!['"'] + lit_status10());
        assert("}"@ =~= seq!['}']);
        assert(out@ =~= spec_encode(c@));
    }
    out
}

/// The result of parsing a tail, recomposed after a prefix that was already
/// consumed and unescaped.
spec fn compose_body(
    prefix: Seq<char>,
    consumed: nat,
    rest: Option<(Seq<char>, nat)>,
) -> Option<(Seq<char>, nat)> {
    match rest {
        None => None,
        Some(t) => Some((prefix + t.0, (consumed + t.1) as nat)),
    }
}

/// Appends one lowercase hexadecimal digit.
fn append_hex_digit(out: &mut String, v: u8)
    requires
        v < 16,
    ensures
        final(out)@ == old(out)@ + seq![hex_digit(v as int)],
{
    if v == 0 {
        out.append("0");
        proof {
            reveal_strlit("0");
            assert("0"@ =~= seq![hex_digit(v as int)]);
        }
    } else if v == 1 {
        out.append("1");
        proof {
            reveal_strlit("1");
            assert("1"@ =~= seq![hex_digit(v as int)]);
        }
    } else if v == 2 {
        out.append("2");
        proof {
            reveal_strlit("2");
            assert("2"@ =~= seq![hex_digit(v as int)]);
        }
    } else if v == 3 {
        out.append("3");
        proof {
            reveal_strlit("3");
            assert("3"@ =~= seq![hex_digit(v as int)]);
        }
    } else if v == 4 {
        out.append("4");
        proof {
            reveal_strlit("4");
            assert("4"@ =~= seq![hex_digit(v as int)]);
        }
    } else if v == 5 {
        out.append("5");
        proof {
            reveal_strlit("5");
            assert("5"@ =~= seq![hex_digit(v as int)]);
        }
    } else if v == 6 {
        out.append("6");
        proof {
            reveal_strlit("6");
            assert("6"@ =~= seq![hex_digit(v as int)]);
        }
    } else if v == 7 {
        out.append("7");
        proof {
            reveal_strlit("7");
            assert("7"@ =~= seq![hex_digit(v as int)]);
        }
    } else if v == 8 {
        out.append("8");
        proof {
            reveal_strlit("8");
            assert("8"@ =~= seq![hex_digit(v as int)]);
        }
    } else if v == 9 {
        out.append("9");
        proof {
            reveal_strlit("9");
            assert("9"@ =~= seq![hex_digit(v as int)]);
        }
    } else if v == 10 {
        out.append("a");
        proof {
            reveal_strlit("a");
            assert("a"@ =~= seq![hex_digit(v as int)]);
        }
    } else if v == 11 {
        out.append("b");
        proof {
            reveal_strlit("b");
            assert("b"@ =~= seq![hex_digit(v as int)]);
        }
    } else if v == 12 {
        out.append("c");
        proof {
            reveal_strlit("c");
            assert("c"@ =~= seq![hex_digit(v as int)]);
        }
    } else if v == 13 {
        out.append("d");
        proof {
            reveal_strlit("d");
            assert("d"@ =~= seq![hex_digit(v as int)]);
        }
    } else if v == 14 {
        out.append("e");
        proof {
            reveal_strlit("e");
            assert("e"@ =~= seq![hex_digit(v as int)]);
        }
    } else {
        out.append("f");
        proof {
            reveal_strlit("f");
            assert("f"@ =~= seq![hex_digit(v as int)]);
        }
    }
}

/// The value of a lowercase hexadecimal digit, if it is one.
fn hex_value_of(c: char) -> (r: Option<u8>)
    ensures
        match r {
            Some(v) => hex_value(c) == Some(v as int) && v < 16,
            None => hex_value(c) is None,
        },
{
    if c == '0' {
        Some(0)
    } else if c == '1' {
        Some(1)
    } else if c == '2' {
        Some(2)
    } else if c == '3' {
        Some(3)
    } else if c == '4' {
        Some(4)
    } else if c == '5' {
        Some(5)
    } else if c == '6' {
        Some(6)
    } else if c == '7' {
        Some(7)
    } else if c == '8' {
        Some(8)
    } else if c == '9' {
        Some(9)
    } else if c == 'a' {
        Some(10)
    } else if c == 'b' {
        Some(11)
    } else if c == 'c' {
        Some(12)
    } else if c == 'd' {
        Some(13)
    } else if c == 'e' {
        Some(14)
    } else if c == 'f' {
        Some(15)
    } else {
        None
    }
}

/// Appends the control character with the given code.
fn push_ctrl(out: &mut String, v: u8)
    requires
        v < 32,
    ensures
        final(out)@ == old(out)@ + seq![ctrl_char(v as int)],
{
    if v == 0 {
        out.append("\u{00}");
        proof {
            reveal_strlit("\u{00}");
            assert("\u{00}"@ =~= seq![ctrl_char(v as int)]);
        }
    } else if v == 1 {
        out.append("\u{01}");
        proof {
            reveal_strlit("\u{01}");
            assert("\u{01}"@ =~= seq![ctrl_char(v as int)]);
        }
    } else if v == 2 {
        out.append("\u{02}");
        proof {
            reveal_strlit("\u{02}");
            assert("\u{02}"@ =~= seq![ctrl_char(v as int)]);
        }
    } else if v == 3 {
        out.append("\u{03}");
        proof {
            reveal_strlit("\u{03}");
            assert("\u{03}"@ =~= seq![ctrl_char(v as int)]);
        }
    } else if v == 4 {
        out.append("\u{04}");
        proof {
            reveal_strlit("\u{04}");
            assert("\u{04}"@ =~= seq![ctrl_char(v as int)]);
        }
    } else if v == 5 {
        out.append("\u{05}");
        proof {
            reveal_strlit("\u{05}");
            assert("\u{05}"@ =~= seq![ctrl_char(v as int)]);
        }
    } else if v == 6 {
        out.append("\u{06}");
        proof {
            reveal_strlit("\u{06}");
            assert("\u{06}"@ =~= seq![ctrl_char(v as int)]);
        }
    } else if v == 7 {
        out.append("\u{07}");
        proof {
            reveal_strlit("\u{07}");
            assert("\u{07}"@ =~= seq![ctrl_char(v as int)]);
        }
    } else if v == 8 {
        out.append("\u{08}");
        proof {
            reveal_strlit("\u{08}");
            assert("\u{08}"@ =~= seq![ctrl_char(v as int)]);
        }
    } else if v == 9 {
        out.append("\u{09}");
        proof {
            reveal_strlit("\u{09}");
            assert("\u{09}"@ =~= seq![ctrl_char(v as int)]);
        }
    } else if v == 10 {
        out.append("\u{0a}");
        proof {
            reveal_strlit("\u{0a}");
            assert("\u{0a}"@ =~= seq![ctrl_char(v as int)]);
        }
    } else if v == 11 {
        out.append("\u{0b}");
        proof {
            reveal_strlit("\u{0b}");
            assert("\u{0b}"@ =~= seq![ctrl_char(v as int)]);
        }
    } else if v == 12 {
        out.append("\u{0c}");
        proof {
            reveal_strlit("\u{0c}");
            assert("\u{0c}"@ =~= seq![ctrl_char(v as int)]);
        }
    } else if v == 13 {
        out.append("\u{0d}");
        proof {
            reveal_strlit("\u{0d}");
            assert("\u{0d}"@ =~= seq![ctrl_char(v as int)]);
        }
    } else if v == 14 {
        out.append("\u{0e}");
        proof {
            reveal_strlit("\u{0e}");
            assert("\u{0e}"@ =~= seq![ctrl_char(v as int)]);
        }
    } else if v == 15 {
        out.append("\u{0f}");
        proof {
            reveal_strlit("\u{0f}");
            assert("\u{0f}"@ =~= seq![ctrl_char(v as int)]);
        }
    } else if v == 16 {
        out.append("\u{10}");
        proof {
            reveal_strlit("\u{10}");
            assert("\u{10}"@ =~= seq![ctrl_char(v as int)]);
        }
    } else if v == 17 {
        out.append("\u{11}");
        proof {
            reveal_strlit("\u{11}");
            assert("\u{11}"@ =~= seq![ctrl_char(v as int)]);
        }
    } else if v == 18 {
        out.append("\u{12}");
        proof {
            reveal_strlit("\u{12}");
            assert("\u{12}"@ =~= seq![ctrl_char(v as int)]);
        }
    } else if v == 19 {
        out.append("\u{13}");
        proof {
            reveal_strlit("\u{13}");
            assert("\u{13}"@ =~= seq![ctrl_char(v as int)]);
        }
    } else if v == 20 {
        out.append("\u{14}");
        proof {
            reveal_strlit("\u{14}");
            assert("\u{14}"@ =~= seq![ctrl_char(v as int)]);
        }
    } else if v == 21 {
        out.append("\u{15}");
        proof {
            reveal_strlit("\u{15}");
            assert("\u{15}"@ =~= seq![ctrl_char(v as int)]);
        }
    } else if v == 22 {
        out.append("\u{16}");
        proof {
            reveal_strlit("\u{16}");
            assert("\u{16}"@ =~= seq![ctrl_char(v as int)]);
        }
    } else if v == 23 {
        out.append("\u{17}");
        proof {
            reveal_strlit("\u{17}");
            assert("\u{17}"@ =~= seq![ctrl_char(v as int)]);
        }
    } else if v == 24 {
        out.append("\u{18}");
        proof {
            reveal_strlit("\u{18}");
            assert("\u{18}"@ =~= seq![ctrl_char(v as int)]);
        }
    } else if v == 25 {
        out.append("\u{19}");
        proof {
            reveal_strlit("\u{19}");
            assert("\u{19}"@ =~= seq![ctrl_char(v as int)]);
        }
    } else if v == 26 {
        out.append("\u{1a}");
        proof {
            reveal_strlit("\u{1a}");
            assert("\u{1a}"@ =~= seq![ctrl_char(v as int)]);
        }
    } else if v == 27 {
        out.append("\u{1b}");
        proof {
            reveal_strlit("\u{1b}");
            assert("\u{1b}"@ =~= seq![ctrl_char(v as int)]);
        }
    } else if v == 28 {
        out.append("\u{1c}");
        proof {
            reveal_strlit("\u{1c}");
            assert("\u{1c}"@ =~= seq![ctrl_char(v as int)]);
        }
    } else if v == 29 {
        out.append("\u{1d}");
        proof {
            reveal_strlit("\u{1d}");
            assert("\u{1d}"@ =~= seq![ctrl_char(v as int)]);
        }
    } else if v == 30 {
        out.append("\u{1e}");
        proof {
            reveal_strlit("\u{1e}");
            assert("\u{1e}"@ =~= seq![ctrl_char(v as int)]);
        }
    } else {
        out.append("\u{1f}");
        proof {
            reveal_strlit("\u{1f}");
            assert("\u{1f}"@ =~= seq![ctrl_char(v as int)]);
        }
    }
}

/// Appends one unescaped character (always one of the five escapable ones).
fn push_unescaped(out: &mut String, c: char)
    requires
        c == '"' || c == '\\' || c == '\u{08}' || c == '\u{0c}' || c == '\n' || c == '\r' || c
            == '\t',
    ensures
        final(out)@ == old(out)@ + seq![c],
{
    if c == '"' {
        out.append("\"");
        proof {
            reveal_strlit("\"");
            assert("\""@ =~= seq![c]);
        }
    } else if c == '\\' {
        out.append("\\");
        proof {
            reveal_strlit("\\");
            assert("\\"@ =~= seq![c]);
        }
    } else if c == '\u{08}' {
        out.append("\u{08}");
        proof {
            reveal_strlit("\u{08}");
            assert("\u{08}"@ =~= seq![c]);
        }
    } else if c == '\u{0c}' {
        out.append("\u{0c}");
        proof {
            reveal_strlit("\u{0c}");
            assert("\u{0c}"@ =~= seq![c]);
        }
    } else if c == '\n' {
        out.append("\n");
        proof {
            reveal_strlit("\n");
            assert("\n"@ =~= seq![c]);
        }
    } else if c == '\r' {
        out.append("\r");
        proof {
            reveal_strlit("\r");
            assert("\r"@ =~= seq![c]);
        }
    } else {
        out.append("\t");
        proof {
            reveal_strlit("\t");
            assert("\t"@ =~= seq![c]);
        }
    }
}

/// The character an escape code stands for, if any.
fn unescape_char(e: char) -> (r: Option<char>)
    ensures
        r == unesc_code(e),
{
    if e == '"' {
        Some('"')
    } else if e == '\\' {
        Some('\\')
    } else if e == 'b' {
        Some('\u{08}')
    } else if e == 'f' {
        Some('\u{0c}')
    } else if e == 'n' {
        Some('\n')
    } else if e == 'r' {
        Some('\r')
    } else if e == 't' {
        Some('\t')
    } else {
        None
    }
}

/// Whether the characters of `lit` stand in `s` starting at `pos`.
fn has_lit_at(s: &str, pos: usize, lit: &str) -> (r: bool)
    requires
        pos <= s@.len(),
    ensures
        r == (pos + lit@.len() <= s@.len() && s@.subrange(
            pos as int,
            pos + lit@.len(),
        ) == lit@),
{
    let n = s.unicode_len();
    let m = lit.unicode_len();
    if n - pos < m {
        return false;
    }
    let mut j: usize = 0;
    while j < m
        invariant
            j <= m,
            m == lit@.len(),
            n == s@.len(),
            pos + m <= n,
            forall|k: int| 0 <= k < j ==> s@[pos + k] == lit@[k],
        decreases m - j,
    {
        if s.get_char(pos + j) != lit.get_char(j) {
            proof {
                assert(s@.subrange(pos as int, pos + lit@.len())[j as int] == s@[pos + j]);
            }
            return false;
        }
        j += 1;
    }
    proof {
        assert(s@.subrange(pos as int, pos + lit@.len()) =~= lit@);
    }
    true
}

/// Parses an escaped string payload of the message starting at `pos`, up to
/// and including its closing quote; yields the unescaped content and the
/// position just past the quote.
fn parse_string_at(s: &str, pos: usize) -> (r: Option<(String, usize)>)
    requires
        pos <= s@.len(),
    ensures
        match r {
            Some(p) => {
                &&& parse_str_body(s@.skip(pos as int)) == Some::<(Seq<char>, nat)>(
                    (p.0@, (p.1 - pos) as nat),
                )
                &&& pos < p.1 <= s@.len()
            },
            None => parse_str_body(s@.skip(pos as int)) is None,
        },
{
    let n = s.unicode_len();
    let mut out = String::new();
    let mut i: usize = pos;
    proof {
        assert(out@ + Seq::<char>::empty() =~= Seq::<char>::empty());
    }
    while i < n
        invariant
            pos <= i <= n,
            n == s@.len(),
            parse_str_body(s@.skip(pos as int)) == compose_body(
                out@,
                (i - pos) as nat,
                parse_str_body(s@.skip(i as int)),
            ),
        decreases n - i,
    {
        let c = s.get_char(i);
        if c == '"' {
            proof {
                assert(s@.skip(i as int).len() > 0);
                assert(s@.skip(i as int)[0] == '"');
                assert(parse_str_body(s@.skip(i as int)) == Some::<(Seq<char>, nat)>(
                    (Seq::empty(), 1 as nat),
                ));
                assert(out@ + Seq::<char>::empty() =~= out@);
            }
            return Some((out, i + 1));
        } else if c == '\\' {
            proof {
                assert(s@.skip(i as int)[0] == '\\');
            }
            if i + 1 == n {
                proof {
                    assert(s@.skip(i as int).len() == 1);
                    assert(parse_str_body(s@.skip(i as int)) is None);
                }
                return None;
            }
            let e = s.get_char(i + 1);
            proof {
                assert(s@.skip(i as int)[1] == e);
                assert(s@.skip(i as int).len() >= 2);
            }
            if e == 'u' {
                if n - i < 6 {
                    proof {
                        assert(s@.skip(i as int).len() < 6);
                        assert(parse_str_body(s@.skip(i as int)) is None);
                    }
                    return None;
                }
                let z1 = s.get_char(i + 2);
                let z2 = s.get_char(i + 3);
                let d1 = s.get_char(i + 4);
                let d2 = s.get_char(i + 5);
                proof {
                    assert(s@.skip(i as int).len() >= 6);
                    assert(s@.skip(i as int)[2] == z1);
                    assert(s@.skip(i as int)[3] == z2);
                    assert(s@.skip(i as int)[4] == d1);
                    assert(s@.skip(i as int)[5] == d2);
                }
                if z1 == '0' && z2 == '0' && (d1 == '0' || d1 == '1') {
                    match hex_value_of(d2) {
                        None => {
                            proof {
                                assert(parse_str_body(s@.skip(i as int)) is None);
                            }
                            return None;
                        },
                        Some(lo) => {
                            let hi: u8 = if d1 == '1' {
                                1
                            } else {
                                0
                            };
                            let v: u8 = 16 * hi + lo;
                            let ghost pre = out@;
                            push_ctrl(&mut out, v);
                            proof {
                                let ch = ctrl_char(v as int);
                                assert(s@.skip(i as int).skip(6) =~= s@.skip(i as int + 6));
                                if parse_str_body(s@.skip(i as int + 6)) is Some {
                                    let t = parse_str_body(s@.skip(i as int + 6))->0;
                                    assert(pre + (seq![ch] + t.0) =~= (pre + seq![ch]) + t.0);
                                }
                            }
                            i += 6;
                        },
                    }
                } else {
                    proof {
                        assert(parse_str_body(s@.skip(i as int)) is None);
                    }
                    return None;
                }
            } else {
                match unescape_char(e) {
                    None => {
                        proof {
                            assert(parse_str_body(s@.skip(i as int)) is None);
                        }
                        return None;
                    },
                    Some(ch) => {
                        let ghost pre = out@;
                        push_unescaped(&mut out, ch);
                        proof {
                            assert(s@.skip(i as int).skip(2) =~= s@.skip(i as int + 2));
                            if parse_str_body(s@.skip(i as int + 2)) is Some {
                                let t = parse_str_body(s@.skip(i as int + 2))->0;
                                assert(pre + (seq![ch] + t.0) =~= (pre + seq![ch]) + t.0);
                            }
                        }
                        i += 2;
                    },
                }
            }
        } else {
            let piece = s.substring_char(i, i + 1);
            let ghost pre = out@;
            out.append(piece);
            proof {
                assert(piece@ =~= seq![c]);
                assert(s@.skip(i as int)[0] == c);
                assert(s@.skip(i as int).skip(1) =~= s@.skip(i as int + 1));
                if parse_str_body(s@.skip(i as int + 1)) is Some {
                    let t = parse_str_body(s@.skip(i as int + 1))->0;
                    assert(pre + (seq![c] + t.0) =~= (pre + seq![c]) + t.0);
                }
            }
            i += 1;
        }
    }
    proof {
        assert(s@.skip(i as int).len() == 0);
        assert(parse_str_body(s@.skip(i as int)) is None);
    }
    None
}

/// Parses a status value of the message starting at `pos`; yields it and the
/// position just past it.
fn parse_status_at(s: &str, pos: usize) -> (r: Option<(CommandStatus, usize)>)
    requires
        pos <= s@.len(),
    ensures
        match r {
            Some(p) => {
                &&& parse_status(s@.skip(pos as int)) == Some::<(StatusView, nat)>(
                    (p.0@, (p.1 - pos) as nat),
                )
                &&& pos < p.1 <= s@.len()
            },
            None => parse_status(s@.skip(pos as int)) is None,
        },
{
    let n = s.unicode_len();
    let ghost sp = s@.skip(pos as int);
    let pend = has_lit_at(s, pos, "\"Pending\"");
    proof {
        reveal_strlit("\"Pending\"");
        assert("\"Pending\""@ =~= lit_pending());
        if sp.len() >= 9 {
            assert(sp.take(9) =~= s@.subrange(pos as int, pos + 9));
        }
    }
    if pend {
        return Some((CommandStatus::Pending, pos + 9));
    }
    let comp = has_lit_at(s, pos, "{\"Completed\":\"");
    proof {
        reveal_strlit("{\"Completed\":\"");
        assert("{\"Completed\":\""@ =~= lit_completed());
        if sp.len() >= 14 {
            assert(sp.take(14) =~= s@.subrange(pos as int, pos + 14));
        }
    }
    if comp {
        proof {
            assert(sp.skip(14) =~= s@.skip(pos as int + 14));
        }
        match parse_string_at(s, pos + 14) {
            None => {
                return None;
            },
            Some((content, end)) => {
                proof {
                    assert(14 + (end - (pos + 14)) == end - pos);
                }
                if end < n && s.get_char(end) == '}' {
                    proof {
                        assert(sp[(end - pos) as int] == s@[end as int]);
                    }
                    return Some((CommandStatus::Completed(content), end + 1));
                } else {
                    proof {
                        if end < n {
                            assert(sp[(end - pos) as int] == s@[end as int]);
                        }
                    }
                    return None;
                }
            },
        }
    }
    let fail = has_lit_at(s, pos, "{\"Failed\":\"");
    proof {
        reveal_strlit("{\"Failed\":\"");
        assert("{\"Failed\":\""@ =~= lit_failed());
        if sp.len() >= 11 {
            assert(sp.take(11) =~= s@.subrange(pos as int, pos + 11));
        }
    }
    if fail {
        proof {
            assert(sp.skip(11) =~= s@.skip(pos as int + 11));
        }
        match parse_string_at(s, pos + 11) {
            None => {
                return None;
            },
            Some((content, end)) => {
                proof {
                    assert(11 + (end - (pos + 11)) == end - pos);
                }
                if end < n && s.get_char(end) == '}' {
                    proof {
                        assert(sp[(end - pos) as int] == s@[end as int]);
                    }
                    return Some((CommandStatus::Failed(content), end + 1));
                } else {
                    proof {
                        if end < n {
                            assert(sp[(end - pos) as int] == s@[end as int]);
                        }
                    }
                    return None;
                }
            },
        }
    }
    None
}

/// Decodes a wire message into the command it stands for; a message that is
/// not exactly of the wire shape yields nothing, and the session discards it.
#[verifier::rlimit(100)]
pub fn decode_command(s: &str) -> (r: Option<Command>)
    ensures
        match r {
            Some(c) => spec_decode(s@) == Some(c@),
            None => spec_decode(s@) is None,
        },
{
    let n = s.unicode_len();
    let head = has_lit_at(s, 0, "{\"id\":\"");
    proof {
        reveal_strlit("{\"id\":\"");
        assert("{\"id\":\""@ =~= lit_obj_open());
        if s@.len() >= 7 {
            assert(s@.take(7) =~= s@.subrange(0, 7));
        }
    }
    if !head {
        return None;
    }
    let (id, p1) = match parse_string_at(s, 7) {
        None => {
            return None;
        },
        Some(p) => p,
    };
    let ghost idp = parse_str_body(s@.skip(7))->0;
    let ghost r1 = s@.skip(7 + idp.1 as int);
    proof {
        assert(r1 =~= s@.skip(p1 as int));
    }
    let cmd_lit = has_lit_at(s, p1, ",\"cmd\":\"");
    proof {
        reveal_strlit(",\"cmd\":\"");
        assert(",\"cmd\":\""@ =~= lit_cmd8());
        if r1.len() >= 8 {
            assert(r1.take(8) =~= s@.subrange(p1 as int, p1 + 8));
        }
    }
    if !cmd_lit {
        return None;
    }
    proof {
        assert(r1.skip(8) =~= s@.skip(p1 + 8));
    }
    let (cmd, p2) = match parse_string_at(s, p1 + 8) {
        None => {
            return None;
        },
        Some(p) => p,
    };
    let ghost cmdp = parse_str_body(r1.skip(8))->0;
    let ghost r2 = r1.skip(8 + cmdp.1 as int);
    proof {
        assert(cmdp.1 == (p2 - (p1 + 8)) as nat);
        assert(r2 =~= s@.skip(p2 as int));
    }
    let status_lit = has_lit_at(s, p2, ",\"status\":");
    proof {
        reveal_strlit(",\"status\":");
        assert(",\"status\":"@ =~= lit_status10());
        if r2.len() >= 10 {
            assert(r2.take(10) =~= s@.subrange(p2 as int, p2 + 10));
        }
    }
    if !status_lit {
        return None;
    }
    proof {
        assert(r2.skip(10) =~= s@.skip(p2 + 10));
    }
    let (st, p3) = match parse_status_at(s, p2 + 10) {
        None => {
            return None;
        },
        Some(p) => p,
    };
    let ghost stp = parse_status(r2.skip(10))->0;
    let ghost r3 = r2.skip(10 + stp.1 as int);
    proof {
        assert(stp.1 == (p3 - (p2 + 10)) as nat);
        assert(r3 =~= s@.skip(p3 as int));
    }
    if p3 < n && p3 + 1 == n {
        let close = s.get_char(p3);
        proof {
            assert(r3.len() == 1);
            assert(r3[0] == s@[p3 as int]);
        }
        if close == '}' {
            let c = Command { id, cmd, status: st };
            proof {
                assert(spec_decode(s@) == Some(
                    CommandView { id: idp.0, cmd: cmdp.0, status: stp.0 },
                ));
            }
            return Some(c);
        }
        return None;
    }
    proof {
        if p3 < n {
            assert(r3.len() != 1);
        } else {
            assert(r3.len() == 0);
        }
    }
    None
}


} // verus!
