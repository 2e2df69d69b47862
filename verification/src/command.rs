//! The command data model: a command has an immutable identifier and shell
//! text, and a status that moves from `Pending` to exactly one of the two
//! terminal states, `Completed` or `Failed`.

use vstd::prelude::*;

verus! {

/// Status of a command. Exactly one variant holds at any time; the only
/// transitions are `Pending -> Completed` and `Pending -> Failed`, both
/// terminal.
pub enum CommandStatus {
    Pending,
    /// Captured standard output of a successful execution.
    Completed(String),
    /// Captured standard error, or a description of a spawn failure.
    Failed(String),
}

/// A shell command tracked by the coordinator. Value-like: every
/// transmission is a full copy, and consistency is by identifier matching.
pub struct Command {
    /// Globally unique opaque identifier, immutable after creation.
    pub id: String,
    /// The shell command text, immutable.
    pub cmd: String,
    /// Current status; mutable, see `CommandStatus`.
    pub status: CommandStatus,
}

/// Mathematical model of a `CommandStatus`.
pub enum StatusView {
    Pending,
    Completed(Seq<char>),
    Failed(Seq<char>),
}

/// Mathematical model of a `Command`.
pub struct CommandView {
    pub id: Seq<char>,
    pub cmd: Seq<char>,
    pub status: StatusView,
}

impl View for CommandStatus {
    type V = StatusView;

    open spec fn view(&self) -> StatusView {
        match self {
            CommandStatus::Pending => StatusView::Pending,
            CommandStatus::Completed(out) => StatusView::Completed(out@),
            CommandStatus::Failed(err) => StatusView::Failed(err@),
        }
    }
}

impl View for Command {
    type V = CommandView;

    open spec fn view(&self) -> CommandView {
        CommandView { id: self.id@, cmd: self.cmd@, status: self.status@ }
    }
}

impl StatusView {
    /// A terminal status admits no further transition.
    pub open spec fn is_terminal(self) -> bool {
        !(self is Pending)
    }
}

impl CommandStatus {
    /// Whether this status is terminal (`Completed` or `Failed`).
    pub fn is_terminal(&self) -> (r: bool)
        ensures
            r == self@.is_terminal(),
    {
        match self {
            CommandStatus::Pending => false,
            CommandStatus::Completed(_) => true,
            CommandStatus::Failed(_) => true,
        }
    }
}

impl Clone for CommandStatus {
    fn clone(&self) -> (r: Self)
        ensures
            r@ == self@,
    {
        match self {
            CommandStatus::Pending => CommandStatus::Pending,
            CommandStatus::Completed(out) => CommandStatus::Completed(out.clone()),
            CommandStatus::Failed(err) => CommandStatus::Failed(err.clone()),
        }
    }
}

impl Clone for Command {
    fn clone(&self) -> (r: Self)
        ensures
            r@ == self@,
    {
        Command { id: self.id.clone(), cmd: self.cmd.clone(), status: self.status.clone() }
    }
}

impl Command {
    /// The result an agent reports for this command: same identifier and
    /// text, with the terminal (or otherwise new) status in place.
    pub fn with_status(self, status: CommandStatus) -> (r: Command)
        ensures
            r@.id == self@.id,
            r@.cmd == self@.cmd,
            r@.status == status@,
    {
        Command { id: self.id, cmd: self.cmd, status }
    }
}

/// The executor's verdict on a process that ran to an exit: a zero exit code
/// yields `Completed` with the captured standard output, any other exit
/// yields `Failed` with the captured standard error.
pub fn status_of_exit(success: bool, stdout: String, stderr: String) -> (r: CommandStatus)
    ensures
        success ==> r@ == StatusView::Completed(stdout@),
        !success ==> r@ == StatusView::Failed(stderr@),
{
    if success {
        CommandStatus::Completed(stdout)
    } else {
        CommandStatus::Failed(stderr)
    }
}

/// The executor's verdict when the process could not be spawned at all.
pub fn status_of_spawn_failure(description: String) -> (r: CommandStatus)
    ensures
        r@ == StatusView::Failed(description@),
{
    CommandStatus::Failed(description)
}

/// A synthetic pending command as injected by the periodic generator: fresh
/// identifier supplied by the caller, fixed diagnostic text.
pub fn diagnostic_command(id: String) -> (r: Command)
    ensures
        r@.id == id@,
        r@.cmd == "echo hello world"@,
        r@.status is Pending,
{
    Command { id, cmd: "echo hello world".to_owned(), status: CommandStatus::Pending }
}

} // verus!
