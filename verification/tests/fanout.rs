use cmdhub::command::{status_of_exit, status_of_spawn_failure, Command, CommandStatus};
use cmdhub::ledger::Ledger;
use cmdhub::registry::Registry;
use cmdhub::session::{
    ingest_message, make_diagnostic_command, next_outbound, pending_command, result_reply,
    submit_command,
};

fn cmd(id: &str, text: &str, status: CommandStatus) -> Command {
    Command { id: id.to_string(), cmd: text.to_string(), status }
}

#[test]
fn broadcast_reaches_all_agents() {
    let mut registry = Registry::new();
    let a = registry.register(8);
    let b = registry.register(8);
    assert_eq!(registry.agent_count(), 2);

    let mut ledger = Ledger::new();
    submit_command(&mut ledger, &mut registry, cmd("1", "echo hi", CommandStatus::Pending));

    for idx in [a, b] {
        let msg = next_outbound(&mut registry, idx).expect("agent must have the command queued");
        let got = pending_command(&msg).expect("a pending command must decode as pending");
        assert_eq!(got.id, "1");
        assert_eq!(got.cmd, "echo hi");
    }
}

#[test]
fn saturated_channel_drops_only_that_delivery() {
    let mut registry = Registry::new();
    let narrow = registry.register(1);
    let wide = registry.register(4);

    let first = cmd("1", "echo one", CommandStatus::Pending);
    let second = cmd("2", "echo two", CommandStatus::Pending);
    registry.broadcast(&first);
    registry.broadcast(&second);

    // the saturated channel kept only the first command
    let m1 = next_outbound(&mut registry, narrow).expect("first delivery fits");
    assert!(m1.contains("\"id\":\"1\""));
    assert!(next_outbound(&mut registry, narrow).is_none());

    // the other agent still received both, in order
    let w1 = next_outbound(&mut registry, wide).expect("first delivery");
    let w2 = next_outbound(&mut registry, wide).expect("second delivery");
    assert!(w1.contains("\"id\":\"1\""));
    assert!(w2.contains("\"id\":\"2\""));
}

#[test]
fn late_registration_receives_nothing() {
    let mut registry = Registry::new();
    let early = registry.register(8);
    registry.broadcast(&cmd("1", "echo hi", CommandStatus::Pending));

    let late = registry.register(8);
    assert!(next_outbound(&mut registry, late).is_none());
    assert!(next_outbound(&mut registry, early).is_some());
}

#[test]
fn closed_channel_receives_nothing_more() {
    let mut registry = Registry::new();
    let idx = registry.register(8);
    registry.close_channel(idx);
    registry.broadcast(&cmd("1", "echo hi", CommandStatus::Pending));
    assert!(next_outbound(&mut registry, idx).is_none());
}

#[test]
fn single_agent_single_command() {
    let mut ledger = Ledger::new();
    let mut registry = Registry::new();
    let agent = registry.register(8);

    submit_command(&mut ledger, &mut registry, cmd("1", "echo hi", CommandStatus::Pending));

    // the agent receives the pending command over its channel
    let wire = next_outbound(&mut registry, agent).expect("delivery owed");
    let received = pending_command(&wire).expect("pending command decodes");
    assert_eq!(received.id, "1");
    assert_eq!(received.cmd, "echo hi");

    // the agent executes it successfully and reports back
    let status = status_of_exit(true, "hi\n".to_string(), String::new());
    let reply = result_reply(received, status);
    let echoed = ingest_message(&mut ledger, &mut registry, &reply);
    assert!(echoed.is_some());

    let commands = ledger.snapshot();
    assert_eq!(commands.len(), 1);
    assert_eq!(commands[0].id, "1");
    assert!(matches!(commands[0].status, CommandStatus::Completed(ref out) if out == "hi\n"));
}

#[test]
fn two_agents_one_never_responds() {
    let mut ledger = Ledger::new();
    let mut registry = Registry::new();
    let a = registry.register(8);
    let b = registry.register(8);

    submit_command(&mut ledger, &mut registry, cmd("9", "echo ok", CommandStatus::Pending));

    // both agents receive the pending command
    let wire_a = next_outbound(&mut registry, a).expect("delivery to a");
    let wire_b = next_outbound(&mut registry, b).expect("delivery to b");
    assert!(pending_command(&wire_b).is_some());

    // agent a completes; agent b disconnects without answering
    let received = pending_command(&wire_a).expect("pending command decodes");
    let reply = result_reply(received, CommandStatus::Completed("ok".to_string()));
    ingest_message(&mut ledger, &mut registry, &reply);
    registry.close_channel(b);

    let commands = ledger.snapshot();
    assert_eq!(commands.len(), 1);
    assert_eq!(commands[0].id, "9");
    assert!(matches!(commands[0].status, CommandStatus::Completed(ref out) if out == "ok"));
}

#[test]
fn terminal_result_is_rebroadcast_to_all_agents() {
    let mut ledger = Ledger::new();
    let mut registry = Registry::new();
    let a = registry.register(8);

    let reply = result_reply(
        cmd("5", "echo done", CommandStatus::Pending),
        CommandStatus::Completed("done\n".to_string()),
    );
    ingest_message(&mut ledger, &mut registry, &reply);

    // the completion is visible to the connected agent as well
    let wire = next_outbound(&mut registry, a).expect("rebroadcast owed");
    assert!(wire.contains("\"Completed\":\"done\\n\""));
    // but it is not offered to the agent as work
    assert!(pending_command(&wire).is_none());
}

#[test]
fn ingested_pending_is_stored_but_not_rebroadcast() {
    let mut ledger = Ledger::new();
    let mut registry = Registry::new();
    let a = registry.register(8);

    let wire = "{\"id\":\"3\",\"cmd\":\"echo hi\",\"status\":\"Pending\"}";
    let got = ingest_message(&mut ledger, &mut registry, wire);
    assert!(got.is_some());
    assert_eq!(ledger.len(), 1);
    assert!(next_outbound(&mut registry, a).is_none());
}

#[test]
fn pending_echo_never_regresses_terminal_entry() {
    let mut ledger = Ledger::new();
    let mut registry = Registry::new();

    // a terminal result arrives and is recorded
    ingest_message(
        &mut ledger,
        &mut registry,
        "{\"id\":\"1\",\"cmd\":\"echo hi\",\"status\":{\"Completed\":\"hi\\n\"}}",
    );
    // a stale pending echo for the same identifier changes nothing
    let echoed = ingest_message(
        &mut ledger,
        &mut registry,
        "{\"id\":\"1\",\"cmd\":\"echo hi\",\"status\":\"Pending\"}",
    );
    assert!(echoed.is_some());

    let commands = ledger.snapshot();
    assert_eq!(commands.len(), 1);
    assert!(matches!(commands[0].status, CommandStatus::Completed(ref out) if out == "hi\n"));
}

#[test]
fn pending_echo_for_known_pending_entry_changes_nothing() {
    let mut ledger = Ledger::new();
    let mut registry = Registry::new();

    submit_command(&mut ledger, &mut registry, cmd("2", "echo one", CommandStatus::Pending));
    ingest_message(
        &mut ledger,
        &mut registry,
        "{\"id\":\"2\",\"cmd\":\"echo other\",\"status\":\"Pending\"}",
    );

    let commands = ledger.snapshot();
    assert_eq!(commands.len(), 1);
    assert_eq!(commands[0].cmd, "echo one");
    assert!(matches!(commands[0].status, CommandStatus::Pending));
}

#[test]
fn malformed_message_is_discarded_silently() {
    let mut ledger = Ledger::new();
    let mut registry = Registry::new();
    let a = registry.register(8);

    let got = ingest_message(&mut ledger, &mut registry, "{nonsense");
    assert!(got.is_none());
    assert_eq!(ledger.len(), 0);
    assert!(next_outbound(&mut registry, a).is_none());
}

#[test]
fn diagnostic_commands_are_fresh_and_pending() {
    let one = make_diagnostic_command();
    let two = make_diagnostic_command();
    assert_eq!(one.id.chars().count(), 36);
    assert_eq!(one.cmd, "echo hello world");
    assert!(matches!(one.status, CommandStatus::Pending));
    assert_ne!(one.id, two.id);
}

#[test]
fn executor_verdicts() {
    let ok = status_of_exit(true, "out".to_string(), "err".to_string());
    assert!(matches!(ok, CommandStatus::Completed(ref out) if out == "out"));

    let bad = status_of_exit(false, "out".to_string(), "err".to_string());
    assert!(matches!(bad, CommandStatus::Failed(ref err) if err == "err"));

    let spawn = status_of_spawn_failure("no shell".to_string());
    assert!(matches!(spawn, CommandStatus::Failed(ref err) if err == "no shell"));
}
