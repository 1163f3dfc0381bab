use vstd::prelude::*;

verus! {

/// The eight instruction tags of the language. Produced by the parser,
/// consumed by the execution engine; never mutated.
#[derive(Clone, Copy, Debug, PartialEq, Eq, Structural)]
pub enum OpCode {
    MoveForward,
    MoveBack,
    Increment,
    Decrement,
    Output,
    Input,
    JmpStart,
    JmpEnd,
}

/// Direction of a cell update or a cursor move.
#[derive(Clone, Copy, Debug)]
pub enum ModifyDirection {
    Up,
    Down,
}

/// Which kind of bracket a jump decision is evaluated at.
#[derive(Clone, Copy, Debug)]
pub enum JumpFrom {
    Start,
    End,
}

/// Errors detected during the single linear scan of source bytes.
#[derive(Clone, Copy, Debug, PartialEq, Eq, Structural)]
pub enum ParseError {
    /// The scan ended with at least one `[` still open.
    UnmatchedOpenBracket,
    /// A `]` appeared while no `[` was open.
    UnmatchedCloseBracket,
}

/// Fatal run-ending conditions, distinct from normal end-of-program halt.
#[derive(Clone, Copy, Debug, PartialEq, Eq, Structural)]
pub enum ExecFault {
    /// A move instruction would take the tape cursor outside its range.
    CursorOutOfBounds,
    /// A backward jump was asked for while no return target was recorded.
    JumpStackEmpty,
}

impl ExecFault {
    /// The diagnostic line a driver prints for this fault.
    pub fn message(&self) -> (r: String)
        ensures
            r@ == match *self {
                ExecFault::CursorOutOfBounds => "Pointer access violation"@,
                ExecFault::JumpStackEmpty => "Jump stack exhausted"@,
            },
    {
        match *self {
            ExecFault::CursorOutOfBounds => "Pointer access violation".to_owned(),
            ExecFault::JumpStackEmpty => "Jump stack exhausted".to_owned(),
        }
    }
}

/// How a run stands: still going, ended normally, or ended by a fault.
#[derive(Clone, Copy, Debug, PartialEq, Eq, Structural)]
pub enum RunStatus {
    Running,
    Halted,
    Faulted(ExecFault),
}

/// What the driving loop must do after one instruction was performed.
#[derive(Clone, Copy, Debug, PartialEq, Eq, Structural)]
pub enum Action {
    /// Nothing special: bookkeeping and advancing fall to the caller.
    Proceed,
    /// A loop start saw a zero cell: skip to just past the matching end.
    JumpForward,
    /// A loop end saw a nonzero cell: return to the recorded target.
    JumpBack,
    /// A fatal condition: stop the run.
    Exit(ExecFault),
}

} // verus!
