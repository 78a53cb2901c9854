//! Decisions of a connection task and of its handle: which response answers
//! which command, and when the task stops taking commands.
use vstd::prelude::*;

verus! {

/// The kinds of command that a connection task takes; each is answered by
/// the response of the same kind.
#[derive(Clone, Copy, Debug, PartialEq, Eq, Structural)]
pub enum CommandKind {
    Custom,
    Shutdown,
    GetRemoteUrl,
    OutgoingRequest,
}

/// Errors of a connection handle.
#[derive(Clone, Copy, Debug, PartialEq, Eq, Structural)]
pub enum TransportError {
    /// The task answered a command with a response of another kind.
    InvalidResponseType,
    /// The task no longer takes commands.
    Disconnected,
}

/// Whether a connection task still takes commands.
#[derive(Clone, Copy, Debug, PartialEq, Eq, Structural)]
pub enum TaskState {
    Running,
    Stopped,
}

/// What a connection task does with one command.
#[derive(Clone, Copy, Debug, PartialEq, Eq, Structural)]
pub enum Dispatch {
    /// Pass the command to its handler and send back the handler's answer.
    Handle(CommandKind),
    /// The task has stopped: the command is refused.
    Refuse,
}

/// Checks that a response answers the command sent: `Ok` exactly when the
/// kinds are the same, else `InvalidResponseType`.
pub fn check_response(sent: CommandKind, got: CommandKind) -> (r: Result<(), TransportError>)
    ensures
        r is Ok <==> sent == got,
        r is Err ==> r == Err::<(), TransportError>(TransportError::InvalidResponseType),
{
    if sent == got {
        Ok(())
    } else {
        Err(TransportError::InvalidResponseType)
    }
}

/// One step of a connection task. A running task handles every command; a
/// shutdown is the last command it handles; a stopped task refuses all.
pub fn task_step(state: TaskState, cmd: CommandKind) -> (r: (TaskState, Dispatch))
    ensures
        state == TaskState::Stopped ==> r == (TaskState::Stopped, Dispatch::Refuse),
        state == TaskState::Running ==> r.1 == Dispatch::Handle(cmd),
        state == TaskState::Running ==> (r.0 == TaskState::Stopped <==> cmd == CommandKind::Shutdown),
{
    match state {
        TaskState::Stopped => (TaskState::Stopped, Dispatch::Refuse),
        TaskState::Running => {
            let next = if cmd == CommandKind::Shutdown {
                TaskState::Stopped
            } else {
                TaskState::Running
            };
            (next, Dispatch::Handle(cmd))
        },
    }
}

} // verus!
