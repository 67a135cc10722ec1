use vstd::prelude::*;

verus! {

/// Normal termination of a call frame.
#[derive(Clone, Copy, Debug, PartialEq, Eq, Structural)]
pub enum ExitSucceed {
    /// The code ran past its last instruction.
    Stopped,
    /// A `RETURN` ended the frame.
    Returned,
}

/// Explicit rollback of a call frame, with output still delivered.
#[derive(Clone, Copy, Debug, PartialEq, Eq, Structural)]
pub enum ExitRevert {
    Reverted,
}

/// Faults caused by the executing code itself.
#[derive(Clone, Copy, Debug, PartialEq, Eq, Structural)]
pub enum ExitError {
    /// A pop, peek or set reached below the bottom of the stack.
    StackUnderflow,
    /// A push went past the stack's capacity.
    StackOverflow,
    /// A jump target that is not a marked jump destination.
    InvalidJump,
    /// An offset or length that does not fit the address domain.
    InvalidRange,
    /// Memory growth past the frame's memory limit.
    MemoryLimit,
    /// A memory access outside the region grown so far.
    OutOfOffset,
}

/// Unrecoverable faults of the surrounding environment.
#[derive(Clone, Copy, Debug, PartialEq, Eq, Structural)]
pub enum ExitFatal {
    NotSupported,
}

/// Why a call frame ended.
#[derive(Clone, Copy, Debug, PartialEq, Eq, Structural)]
pub enum ExitReason {
    Succeed(ExitSucceed),
    Revert(ExitRevert),
    Error(ExitError),
    Fatal(ExitFatal),
}

/// What an instruction asks the driving loop to do next.
#[derive(Clone, Copy, Debug, PartialEq, Eq, Structural)]
pub enum Control {
    /// Advance the program counter by one.
    Continue,
    /// Advance the program counter by the given count.
    ContinueN(usize),
    /// Set the program counter to the given destination.
    Jump(usize),
    /// End the call frame.
    Exit(ExitReason),
}

} // verus!
