use cmdhub::codec::{decode_command, encode_command};
use cmdhub::command::{Command, CommandStatus};

fn cmd(id: &str, text: &str, status: CommandStatus) -> Command {
    Command { id: id.to_string(), cmd: text.to_string(), status }
}

#[test]
fn encode_pending_exact() {
    let c = cmd("1", "echo hi", CommandStatus::Pending);
    assert_eq!(encode_command(&c), "{\"id\":\"1\",\"cmd\":\"echo hi\",\"status\":\"Pending\"}");
}

#[test]
fn encode_completed_exact() {
    let c = cmd("1", "echo hi", CommandStatus::Completed("hi\n".to_string()));
    assert_eq!(
        encode_command(&c),
        "{\"id\":\"1\",\"cmd\":\"echo hi\",\"status\":{\"Completed\":\"hi\\n\"}}"
    );
}

#[test]
fn encode_failed_exact() {
    let c = cmd("2", "false", CommandStatus::Failed("no such file".to_string()));
    assert_eq!(
        encode_command(&c),
        "{\"id\":\"2\",\"cmd\":\"false\",\"status\":{\"Failed\":\"no such file\"}}"
    );
}

#[test]
fn round_trip_pending() {
    let c = cmd("abc-123", "ls -l", CommandStatus::Pending);
    let back = decode_command(&encode_command(&c)).expect("must decode");
    assert_eq!(back.id, "abc-123");
    assert_eq!(back.cmd, "ls -l");
    assert!(matches!(back.status, CommandStatus::Pending));
}

#[test]
fn round_trip_completed() {
    let c = cmd("i", "echo x", CommandStatus::Completed("x".to_string()));
    let back = decode_command(&encode_command(&c)).expect("must decode");
    assert_eq!(back.id, "i");
    assert_eq!(back.cmd, "echo x");
    assert!(matches!(back.status, CommandStatus::Completed(ref out) if out == "x"));
}

#[test]
fn round_trip_failed() {
    let c = cmd("i", "bad", CommandStatus::Failed("x".to_string()));
    let back = decode_command(&encode_command(&c)).expect("must decode");
    assert!(matches!(back.status, CommandStatus::Failed(ref err) if err == "x"));
}

#[test]
fn round_trip_escaped_payloads() {
    let c = cmd(
        "q\"uote",
        "printf \"a\\tb\"",
        CommandStatus::Completed("line one\nline\ttwo\r\\end".to_string()),
    );
    let encoded = encode_command(&c);
    let back = decode_command(&encoded).expect("must decode");
    assert_eq!(back.id, "q\"uote");
    assert_eq!(back.cmd, "printf \"a\\tb\"");
    assert!(matches!(
        back.status,
        CommandStatus::Completed(ref out) if out == "line one\nline\ttwo\r\\end"
    ));
}

#[test]
fn round_trip_all_control_characters() {
    let mut payload = String::new();
    for code in 0u32..32u32 {
        payload.push(char::from_u32(code).unwrap());
    }
    let c = cmd("ctl", "echo", CommandStatus::Completed(payload.clone()));
    let encoded = encode_command(&c);
    let back = decode_command(&encoded).expect("must decode");
    assert!(matches!(back.status, CommandStatus::Completed(ref out) if *out == payload));
}

#[test]
fn encode_control_characters_exact() {
    let c = cmd("1", "x", CommandStatus::Completed("a\u{08}b\u{0c}c\u{1b}d\u{01}e".to_string()));
    assert_eq!(
        encode_command(&c),
        "{\"id\":\"1\",\"cmd\":\"x\",\"status\":{\"Completed\":\"a\\bb\\fc\\u001bd\\u0001e\"}}"
    );
}

#[test]
fn decode_hex_escape() {
    let back = decode_command("{\"id\":\"a\\u001b\",\"cmd\":\"x\",\"status\":\"Pending\"}")
        .expect("must decode");
    assert_eq!(back.id, "a\u{1b}");
}

#[test]
fn decode_hex_escape_outside_controls_is_none() {
    // only the two-digit control range is accepted
    assert!(decode_command("{\"id\":\"\\u0041\",\"cmd\":\"x\",\"status\":\"Pending\"}").is_none());
    // uppercase hex digits are not produced by the encoder and are rejected
    assert!(decode_command("{\"id\":\"\\u001B\",\"cmd\":\"x\",\"status\":\"Pending\"}").is_none());
    assert!(decode_command("{\"id\":\"\\u00\",\"cmd\":\"x\",\"status\":\"Pending\"}").is_none());
}

#[test]
fn decode_malformed_is_none() {
    assert!(decode_command("").is_none());
    assert!(decode_command("not json at all").is_none());
    assert!(decode_command("{\"id\":\"1\"}").is_none());
    assert!(decode_command("{\"id\":\"1\",\"cmd\":\"x\",\"status\":\"Running\"}").is_none());
    assert!(decode_command("{\"id\":\"1\",\"cmd\":\"x\",\"status\":\"Pending\"").is_none());
    assert!(decode_command("{\"id\":\"1\",\"cmd\":\"x\",\"status\":\"Pending\"}z").is_none());
    assert!(decode_command("{\"id\":\"1\",\"cmd\":\"x\",\"status\":{\"Completed\":\"y\"}").is_none());
}

#[test]
fn decode_bad_escape_is_none() {
    assert!(decode_command("{\"id\":\"a\\x\",\"cmd\":\"x\",\"status\":\"Pending\"}").is_none());
    assert!(decode_command("{\"id\":\"a\\").is_none());
}

#[test]
fn decode_unterminated_string_is_none() {
    assert!(decode_command("{\"id\":\"abc").is_none());
}
