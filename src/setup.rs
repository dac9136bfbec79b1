use vstd::prelude::*;
use crate::error::TerminalError;

verus! {

/// The steps that set a session up, in the order in which they run.
#[derive(Clone, Copy, Debug, PartialEq, Eq, Structural)]
pub enum SetupStage {
    /// Allocate the pseudo-terminal pair at the initial size.
    OpenPty,
    /// Launch the shell on the pair's user-facing side.
    LaunchShell,
    /// Take the write handle and start the writer pump.
    TakeWriter,
    /// Clone a read handle and start the reader pump.
    CloneReader,
    /// Register the session under its id.
    Register,
}

/// What follows a setup step.
#[derive(Clone, Copy, Debug, PartialEq, Eq, Structural)]
pub enum SetupOutcome {
    /// Run this step next.
    Next(SetupStage),
    /// The session is set up and registered.
    Ready,
    /// Give up at step `step` with `error`. Everything acquired so far is
    /// released; the shell is stopped first when `kill_shell` is set.
    Abort { step: SetupStage, error: TerminalError, kill_shell: bool },
}

/// The step that a setup begins with.
pub open spec fn first_stage() -> SetupStage {
    SetupStage::OpenPty
}

/// The step after `s`, none after the last.
pub open spec fn stage_after(s: SetupStage) -> Option<SetupStage> {
    match s {
        SetupStage::OpenPty => Some(SetupStage::LaunchShell),
        SetupStage::LaunchShell => Some(SetupStage::TakeWriter),
        SetupStage::TakeWriter => Some(SetupStage::CloneReader),
        SetupStage::CloneReader => Some(SetupStage::Register),
        SetupStage::Register => None,
    }
}

/// The error that a failure of step `s` is reported as.
pub open spec fn failure_of(s: SetupStage) -> TerminalError {
    match s {
        SetupStage::OpenPty => TerminalError::Allocation,
        SetupStage::LaunchShell => TerminalError::Spawn,
        SetupStage::TakeWriter | SetupStage::CloneReader => TerminalError::HandleAcquisition,
        SetupStage::Register => TerminalError::AlreadyExists,
    }
}

/// Whether the shell runs while step `s` is attempted.
pub open spec fn shell_running_at(s: SetupStage) -> bool {
    match s {
        SetupStage::OpenPty | SetupStage::LaunchShell => false,
        _ => true,
    }
}

/// The text that reports a failure of step `s`.
pub open spec fn setup_failure_text(s: SetupStage) -> Seq<char> {
    match s {
        SetupStage::OpenPty => "Failed to open PTY"@,
        SetupStage::LaunchShell => "Failed to spawn shell"@,
        SetupStage::TakeWriter => "Failed to take writer"@,
        SetupStage::CloneReader => "Failed to clone reader"@,
        SetupStage::Register => "A terminal session with this id already exists"@,
    }
}

/// The text that reports a failure of step `step`.
pub fn setup_failure_message(step: SetupStage) -> (r: String)
    ensures
        r@ == setup_failure_text(step),
{
    let s: &str = match step {
        SetupStage::OpenPty => "Failed to open PTY",
        SetupStage::LaunchShell => "Failed to spawn shell",
        SetupStage::TakeWriter => "Failed to take writer",
        SetupStage::CloneReader => "Failed to clone reader",
        SetupStage::Register => "A terminal session with this id already exists",
    };
    String::from_str(s)
}

/// The step that a setup begins with.
pub fn begin_setup() -> (r: SetupStage)
    ensures
        r == first_stage(),
{
    SetupStage::OpenPty
}

/// Decides what follows step `stage`: the next step or readiness on success;
/// on failure, the error of that step, with the shell stopped whenever it was
/// already launched, so that no process outlives a failed setup.
pub fn after_stage(stage: SetupStage, succeeded: bool) -> (r: SetupOutcome)
    ensures
        succeeded && stage_after(stage) is Some ==> r == SetupOutcome::Next(
            stage_after(stage)->Some_0,
        ),
        succeeded && stage_after(stage) is None ==> r == SetupOutcome::Ready,
        !succeeded ==> r == (SetupOutcome::Abort {
            step: stage,
            error: failure_of(stage),
            kill_shell: shell_running_at(stage),
        }),
{
    if succeeded {
        match stage {
            SetupStage::OpenPty => SetupOutcome::Next(SetupStage::LaunchShell),
            SetupStage::LaunchShell => SetupOutcome::Next(SetupStage::TakeWriter),
            SetupStage::TakeWriter => SetupOutcome::Next(SetupStage::CloneReader),
            SetupStage::CloneReader => SetupOutcome::Next(SetupStage::Register),
            SetupStage::Register => SetupOutcome::Ready,
        }
    } else {
        let error = match stage {
            SetupStage::OpenPty => TerminalError::Allocation,
            SetupStage::LaunchShell => TerminalError::Spawn,
            SetupStage::TakeWriter => TerminalError::HandleAcquisition,
            SetupStage::CloneReader => TerminalError::HandleAcquisition,
            SetupStage::Register => TerminalError::AlreadyExists,
        };
        let kill_shell = match stage {
            SetupStage::OpenPty => false,
            SetupStage::LaunchShell => false,
            _ => true,
        };
        SetupOutcome::Abort { step: stage, error, kill_shell }
    }
}

/// The shell that a session runs: the native command shell on Windows, a
/// POSIX shell elsewhere.
pub fn shell_program(windows: bool) -> (r: String)
    ensures
        windows ==> r@ == "powershell.exe"@,
        !windows ==> r@ == "bash"@,
{
    if windows {
        String::from_str("powershell.exe")
    } else {
        String::from_str("bash")
    }
}

} // verus!
