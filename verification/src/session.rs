//! The connection-session protocol steps and the submission interface: what
//! the coordinator does with a message received from an agent, with a newly
//! submitted command, and with an agent's queued deliveries. The network
//! loops that feed these steps live outside the library; every decision they
//! take is made here.

use vstd::prelude::*;

use crate::codec::{decode_command, encode_command, spec_decode, spec_encode};
use crate::command::{diagnostic_command, Command, CommandStatus, CommandView};
use crate::ledger::{applied, entry_for, has_id, ids_unique, lemma_applied_sets_status, Ledger};
use crate::registry::{delivered, Registry};

verus! {

/// What one ingested command does to the ledger's sequence. A terminal
/// result is always applied; a pending command is applied only when no entry
/// with its identifier exists yet, so a re-received pending echo can never
/// wind an entry back from a terminal status (the only transitions are
/// pending to completed and pending to failed, both terminal).
pub open spec fn ingested(pre: Seq<CommandView>, c: CommandView, post: Seq<CommandView>) -> bool {
    if c.status.is_terminal() || !has_id(pre, c.id) {
        applied(pre, c, post)
    } else {
        post == pre
    }
}

/// The inbound role's step for one message read from an agent: a message
/// that does not decode is discarded silently and changes nothing; a decoded
/// terminal result is written into the ledger and re-broadcast to every
/// registered agent, so the outcome is visible network-wide; a decoded
/// pending command is stored only if its identifier is new, and is never
/// re-broadcast, so an echo can neither wind a finished entry back to
/// pending nor circulate as new work. Returns the decoded command.
pub fn ingest_message(ledger: &mut Ledger, registry: &mut Registry, msg: &str) -> (r: Option<
    Command,
>)
    requires
        old(ledger).wf(),
        old(registry).wf(),
    ensures
        final(ledger).wf(),
        final(registry).wf(),
        final(registry)@.len() == old(registry)@.len(),
        match spec_decode(msg@) {
            None => r is None && final(ledger)@ == old(ledger)@ && final(registry)@ == old(
                registry,
            )@,
            Some(cv) => {
                &&& r is Some && r->0@ == cv
                &&& ingested(old(ledger)@, cv, final(ledger)@)
                &&& (cv.status.is_terminal() ==> forall|i: int|
                    0 <= i < old(registry)@.len() ==> final(registry)@[i] == delivered(
                        old(registry)@[i],
                        cv,
                    ))
                &&& (!cv.status.is_terminal() ==> final(registry)@ == old(registry)@)
            },
        },
{
    match decode_command(msg) {
        None => None,
        Some(c) => {
            let copy = c.clone();
            if c.status.is_terminal() {
                ledger.append_or_update(c);
                registry.broadcast(&copy);
            } else if !ledger.contains_id(&c.id) {
                ledger.append_or_update(c);
            }
            Some(copy)
        },
    }
}

/// The submission interface's step: appends the command to the ledger (or
/// updates the entry sharing its identifier), then broadcasts it to every
/// registered agent.
pub fn submit_command(ledger: &mut Ledger, registry: &mut Registry, c: Command)
    requires
        old(ledger).wf(),
        old(registry).wf(),
    ensures
        final(ledger).wf(),
        final(registry).wf(),
        applied(old(ledger)@, c@, final(ledger)@),
        final(registry)@.len() == old(registry)@.len(),
        forall|i: int| 0 <= i < old(registry)@.len() ==> final(registry)@[i] == delivered(
            old(registry)@[i],
            c@,
        ),
{
    let copy = c.clone();
    ledger.append_or_update(c);
    registry.broadcast(&copy);
}

/// The outbound role's step for the agent in the given slot: takes its
/// oldest queued command, if any, encoded as the wire message to write to
/// that agent. Deliveries leave in channel order.
pub fn next_outbound(registry: &mut Registry, idx: usize) -> (r: Option<String>)
    requires
        old(registry).wf(),
        idx < old(registry)@.len(),
    ensures
        final(registry).wf(),
        final(registry)@.len() == old(registry)@.len(),
        forall|j: int| 0 <= j < old(registry)@.len() && j != idx ==> final(registry)@[j] == old(
            registry,
        )@[j],
        final(registry)@[idx as int].cap == old(registry)@[idx as int].cap,
        final(registry)@[idx as int].open == old(registry)@[idx as int].open,
        old(registry)@[idx as int].queued.len() == 0 ==> r is None && final(registry)@[idx as int]
            == old(registry)@[idx as int],
        old(registry)@[idx as int].queued.len() > 0 ==> r is Some && r->0@ == spec_encode(
            old(registry)@[idx as int].queued[0],
        ) && final(registry)@[idx as int].queued == old(registry)@[idx as int].queued.drop_first(),
{
    match registry.recv_from(idx) {
        None => None,
        Some(c) => Some(encode_command(&c)),
    }
}

/// The agent's decision on one message read from the coordinator: the
/// command to execute, if the message decodes and is still pending; terminal
/// re-echoes and malformed messages are ignored.
pub fn pending_command(msg: &str) -> (r: Option<Command>)
    ensures
        r is Some <==> (spec_decode(msg@) is Some && spec_decode(msg@)->0.status is Pending),
        r is Some ==> r->0@ == spec_decode(msg@)->0,
{
    match decode_command(msg) {
        None => None,
        Some(c) => {
            if c.status.is_terminal() {
                None
            } else {
                Some(c)
            }
        },
    }
}

/// The reply an agent transmits after executing a command: the same
/// identifier and text, carrying the execution's status, encoded for the
/// wire.
pub fn result_reply(c: Command, status: CommandStatus) -> (r: String)
    ensures
        r@ == spec_encode(CommandView { id: c@.id, cmd: c@.cmd, status: status@ }),
{
    let done = c.with_status(status);
    proof {
        assert(done@ == CommandView { id: c@.id, cmd: c@.cmd, status: status@ });
    }
    encode_command(&done)
}

/// Relies on uuid::Uuid::new_v4 and uuid's Display impl: a fresh version-4
/// UUID, printed in the hyphenated form, which is 36 characters long.
#[verifier::external_body]
fn fresh_id() -> (r: String)
    ensures
        r@.len() == 36,
{
    uuid::Uuid::new_v4().to_string()
}

/// The periodic generator's step: a synthetic pending command with a fresh
/// identifier and the fixed diagnostic text, ready to be broadcast.
pub fn make_diagnostic_command() -> (r: Command)
    ensures
        r@.id.len() == 36,
        r@.cmd == "echo hello world"@,
        r@.status is Pending,
{
    let id = fresh_id();
    diagnostic_command(id)
}

/// An ingest step never rewrites history: every entry already present keeps
/// its identifier and text, and an entry whose status is terminal never
/// returns to pending. The ledger's transitions are pending to completed and
/// pending to failed only, both terminal.
pub proof fn lemma_ingest_never_regresses(
    pre: Seq<CommandView>,
    c: CommandView,
    post: Seq<CommandView>,
    id: Seq<char>,
)
    requires
        ids_unique(pre),
        ingested(pre, c, post),
        entry_for(pre, id) is Some,
    ensures
        ids_unique(post),
        entry_for(post, id) is Some,
        entry_for(post, id)->0.id == entry_for(pre, id)->0.id,
        entry_for(post, id)->0.cmd == entry_for(pre, id)->0.cmd,
        entry_for(pre, id)->0.status.is_terminal() ==> entry_for(post, id)->0.status.is_terminal(),
{
    let i = choose|i: int| 0 <= i < pre.len() && pre[i].id == id;
    assert(pre[i].id == id);
    assert(entry_for(pre, id) == Some(pre[i]));
    if c.status.is_terminal() || !has_id(pre, c.id) {
        lemma_applied_sets_status(pre, c, post);
        if exists|k: int| 0 <= k < pre.len() && pre[k].id == c.id {
            let k = choose|k: int|
                0 <= k < pre.len() && #[trigger] pre[k].id == c.id && post == pre.update(
                    k,
                    CommandView { id: pre[k].id, cmd: pre[k].cmd, status: c.status },
                );
            assert(post[i].id == pre[i].id);
            assert(exists|w: int| 0 <= w < post.len() && post[w].id == id);
            let w = choose|w: int| 0 <= w < post.len() && post[w].id == id;
            assert(w == i) by {
                if w < i {
                    assert(post[w].id != post[i].id);
                } else if i < w {
                    assert(post[i].id != post[w].id);
                }
            }
            assert(entry_for(post, id) == Some(post[i]));
            if i == k {
                assert(has_id(pre, c.id));
                assert(c.status.is_terminal());
                assert(post[i] == CommandView { id: pre[i].id, cmd: pre[i].cmd, status: c.status });
            } else {
                assert(post[i] == pre[i]);
            }
        } else {
            assert(post == pre.push(c));
            assert(post[i] == pre[i]);
            assert(exists|w: int| 0 <= w < post.len() && post[w].id == id);
            let w = choose|w: int| 0 <= w < post.len() && post[w].id == id;
            assert(w == i) by {
                if w < i {
                    assert(post[w].id != post[i].id);
                } else if i < w {
                    assert(post[i].id != post[w].id);
                }
            }
            assert(entry_for(post, id) == Some(post[i]));
        }
    } else {
        assert(post == pre);
    }
}

} // verus!
