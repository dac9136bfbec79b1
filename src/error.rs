use vstd::prelude::*;

verus! {

/// Why an operation on a session failed.
#[derive(Clone, Copy, Debug, PartialEq, Eq, Structural)]
pub enum TerminalError {
    /// The pseudo-terminal pair could not be allocated.
    Allocation,
    /// The shell process could not be launched.
    Spawn,
    /// The write handle or the cloned read handle could not be obtained.
    HandleAcquisition,
    /// The lock around the registry is unusable.
    Lock,
    /// A read or a write on a live terminal failed.
    Io,
    /// No session is registered under the given id.
    NotFound,
    /// A live session is already registered under the given id.
    AlreadyExists,
    /// The session under the given id has ended.
    Closed,
}

/// The text that describes `e`.
pub open spec fn message_of(e: TerminalError) -> Seq<char> {
    match e {
        TerminalError::Allocation => "Failed to open PTY"@,
        TerminalError::Spawn => "Failed to spawn shell"@,
        TerminalError::HandleAcquisition => "Failed to take writer or clone reader"@,
        TerminalError::Lock => "Failed to lock mutex"@,
        TerminalError::Io => "Terminal I/O failed"@,
        TerminalError::NotFound => "No such terminal session"@,
        TerminalError::AlreadyExists => "A terminal session with this id already exists"@,
        TerminalError::Closed => "The terminal session has ended"@,
    }
}

impl TerminalError {
    /// A short description of the error, for callers that report text. A
    /// failed setup step is described more closely by `setup_failure_message`.
    pub fn message(&self) -> (r: String)
        ensures
            r@ == message_of(*self),
    {
        let s: &str = match self {
            TerminalError::Allocation => "Failed to open PTY",
            TerminalError::Spawn => "Failed to spawn shell",
            TerminalError::HandleAcquisition => "Failed to take writer or clone reader",
            TerminalError::Lock => "Failed to lock mutex",
            TerminalError::Io => "Terminal I/O failed",
            TerminalError::NotFound => "No such terminal session",
            TerminalError::AlreadyExists => "A terminal session with this id already exists",
            TerminalError::Closed => "The terminal session has ended",
        };
        String::from_str(s)
    }
}

} // verus!
