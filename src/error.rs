use vstd::prelude::*;

verus! {

/// Errors found while reading the source text.
#[derive(Debug, Clone, Copy, PartialEq, Eq, Structural)]
pub enum SyntaxError {
    UnmatchedOpeningBracket,
    UnmatchedClosingBracket,
}

/// A value that does not fit the field of the bytecode that should carry it.
#[derive(Debug, Clone, Copy, PartialEq, Eq, Structural)]
pub enum OptimizationError {
    /// A pointer delta between two adjacent operations does not fit its field.
    Delta,
    /// A shift step does not fit its field.
    ShiftStep,
    /// A bytecode position does not fit `u32`.
    ProgramAbs,
    /// A backward jump does not fit `u16`.
    ProgramRel,
}

/// The pointer window of one IR operation does not fit `u16` bounds.
#[derive(Debug, Clone, Copy, PartialEq, Eq, Structural)]
pub enum RangeError {
    Overflow(usize),
}

/// Failures while the bytecode runs.
#[derive(Debug, Clone, Copy, PartialEq, Eq, Structural)]
pub enum RuntimeError {
    OOBGet(usize),
    OOBSet(usize, u8),
    OOBAdd(usize, u8),
    OOBSub(usize, u8),
    TimeoutError,
}

/// Any error of the pipeline; runtime errors carry the program counter and
/// the data pointer at which they happened.
#[derive(Debug, Clone, Copy, PartialEq, Eq, Structural)]
pub enum BrainrotError {
    SyntaxError(SyntaxError),
    OptimizationError(OptimizationError),
    RuntimeError { err: RuntimeError, pc: usize, pointer: usize },
    RangeError(RangeError),
}

} // verus!
