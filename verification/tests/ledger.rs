use cmdhub::command::{Command, CommandStatus};
use cmdhub::ledger::Ledger;

fn create_echo_command() -> Command {
    Command {
        id: uuid::Uuid::new_v4().to_string(),
        cmd: "echo hello world".to_string(),
        status: CommandStatus::Pending,
    }
}

#[test]
fn test_add_command() {
    let mut store = Ledger::new();
    let cmd = create_echo_command();
    store.append_or_update(cmd.clone());

    let commands = store.snapshot();
    assert_eq!(commands.len(), 1);
    assert_eq!(commands[0].cmd, "echo hello world");
    assert!(matches!(commands[0].status, CommandStatus::Pending));
}

#[test]
fn terminal_result_overrides_pending_entry() {
    let mut store = Ledger::new();
    store.append_or_update(Command {
        id: "1".to_string(),
        cmd: "echo hi".to_string(),
        status: CommandStatus::Pending,
    });
    store.append_or_update(Command {
        id: "1".to_string(),
        cmd: "echo hi".to_string(),
        status: CommandStatus::Completed("hi\n".to_string()),
    });

    let commands = store.snapshot();
    assert_eq!(commands.len(), 1);
    assert_eq!(commands[0].id, "1");
    assert!(matches!(commands[0].status, CommandStatus::Completed(ref out) if out == "hi\n"));
}

#[test]
fn same_result_twice_is_idempotent() {
    let mut store = Ledger::new();
    store.append_or_update(Command {
        id: "7".to_string(),
        cmd: "true".to_string(),
        status: CommandStatus::Pending,
    });
    let result = Command {
        id: "7".to_string(),
        cmd: "true".to_string(),
        status: CommandStatus::Failed("boom".to_string()),
    };
    store.append_or_update(result.clone());
    let first = store.snapshot();
    store.append_or_update(result);
    let second = store.snapshot();

    assert_eq!(first.len(), second.len());
    assert_eq!(first[0].id, second[0].id);
    assert_eq!(first[0].cmd, second[0].cmd);
    assert!(matches!(second[0].status, CommandStatus::Failed(ref err) if err == "boom"));
}

#[test]
fn distinct_identifiers_append_in_order() {
    let mut store = Ledger::new();
    store.append_or_update(Command {
        id: "a".to_string(),
        cmd: "echo a".to_string(),
        status: CommandStatus::Pending,
    });
    store.append_or_update(Command {
        id: "b".to_string(),
        cmd: "echo b".to_string(),
        status: CommandStatus::Pending,
    });

    let commands = store.snapshot();
    assert_eq!(commands.len(), 2);
    assert_eq!(commands[0].id, "a");
    assert_eq!(commands[1].id, "b");
    assert_eq!(store.len(), 2);
}

#[test]
fn update_keeps_original_command_text() {
    let mut store = Ledger::new();
    store.append_or_update(Command {
        id: "x".to_string(),
        cmd: "echo original".to_string(),
        status: CommandStatus::Pending,
    });
    store.append_or_update(Command {
        id: "x".to_string(),
        cmd: "echo tampered".to_string(),
        status: CommandStatus::Completed("done".to_string()),
    });

    let commands = store.snapshot();
    assert_eq!(commands.len(), 1);
    assert_eq!(commands[0].cmd, "echo original");
    assert!(matches!(commands[0].status, CommandStatus::Completed(ref out) if out == "done"));
}
