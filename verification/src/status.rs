//! Classified run states of the traced process and the error kinds of the
//! debugging core. The raw events reported by the host's wait primitive are
//! classified into exactly three modeled states; anything else is an
//! inconsistency between this process model and the host and is surfaced as
//! `UnexpectedWaitStatus`.

use vstd::prelude::*;

verus! {

/// Signal number of the breakpoint/single-step trap.
pub const SIGTRAP: i32 = 5;

/// Signal number delivered by a kill request.
pub const SIGKILL: i32 = 9;

/// Signal number of an illegal-instruction fault.
pub const SIGILL: i32 = 4;

/// Signal number of an invalid memory access fault.
pub const SIGSEGV: i32 = 11;

/// Classified state of the traced process after a wait.
#[derive(Clone, Copy, Debug, PartialEq, Eq, Structural)]
pub enum Status {
    /// The process is suspended. Carries the stopping signal and the
    /// instruction pointer it is stopped at.
    Stopped(i32, usize),
    /// The process exited normally with the given exit code. Terminal.
    Exited(i32),
    /// The process was killed by the given signal. Terminal.
    Signaled(i32),
}

/// A raw event from the host's wait primitive, before classification.
/// `Other` stands for any report outside the three modeled classes.
#[derive(Clone, Copy, Debug, PartialEq, Eq, Structural)]
pub enum WaitEvent {
    Stopped(i32, usize),
    Exited(i32),
    Signaled(i32),
    Other,
}

/// Error kinds of the debugging core.
#[derive(Clone, Copy, Debug, PartialEq, Eq, Structural)]
pub enum TraceError {
    /// The target could not be launched, or its initial trap stop was
    /// never observed. Fatal to that run attempt only.
    SpawnFailed,
    /// A read or write against an unmapped address. The in-flight
    /// operation aborts; the process keeps its last known state.
    MemoryAccess { addr: usize },
    /// Installing the breakpoint with this index failed because its
    /// address is not mapped. Breakpoints already installed in the same
    /// round stay installed.
    InstallFailed { index: usize, addr: usize },
    /// The wait primitive reported a status outside the modeled classes.
    UnexpectedWaitStatus,
    /// An address could not be resolved to a function or line, so no
    /// backtrace can be produced.
    SymbolResolutionFailed,
    /// The frame-pointer chain went through more frames than the target
    /// has mapped words, which only a cycle among frame bases can do; the
    /// walk is cut off instead of following the cycle forever.
    CorruptFrameChain,
}

/// Whether a classified status is terminal: the process is gone and must
/// not receive further operations.
pub open spec fn spec_is_terminal(st: Status) -> bool {
    match st {
        Status::Stopped(_, _) => false,
        Status::Exited(_) => true,
        Status::Signaled(_) => true,
    }
}

impl Status {
    /// True exactly on `Exited` and `Signaled`.
    pub fn is_terminal(&self) -> (r: bool)
        ensures
            r == spec_is_terminal(*self),
    {
        match self {
            Status::Stopped(_, _) => false,
            Status::Exited(_) => true,
            Status::Signaled(_) => true,
        }
    }
}

/// The classification a raw wait event maps to, if it is one of the
/// modeled classes.
pub open spec fn spec_classify(ev: WaitEvent) -> Result<Status, TraceError> {
    match ev {
        WaitEvent::Stopped(sig, rip) => Ok(Status::Stopped(sig, rip)),
        WaitEvent::Exited(code) => Ok(Status::Exited(code)),
        WaitEvent::Signaled(sig) => Ok(Status::Signaled(sig)),
        WaitEvent::Other => Err(TraceError::UnexpectedWaitStatus),
    }
}

/// Classifies a raw wait event: the three modeled classes map to their
/// `Status`; anything else is an `UnexpectedWaitStatus` error.
pub fn classify_wait(ev: WaitEvent) -> (r: Result<Status, TraceError>)
    ensures
        r == spec_classify(ev),
{
    match ev {
        WaitEvent::Stopped(sig, rip) => Ok(Status::Stopped(sig, rip)),
        WaitEvent::Exited(code) => Ok(Status::Exited(code)),
        WaitEvent::Signaled(sig) => Ok(Status::Signaled(sig)),
        WaitEvent::Other => Err(TraceError::UnexpectedWaitStatus),
    }
}

} // verus!
