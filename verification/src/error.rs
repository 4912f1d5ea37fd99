//! The ways in which parsing and running can fail.

use vstd::prelude::*;

verus! {

/// Why a text is not a program.
#[derive(Debug, Clone, Copy, PartialEq, Eq)]
pub enum ParseError {
    /// A `]` stands where no `[` is open.
    UnmatchedEnd,
    /// The text ends while a `[` is still open.
    UnmatchedBegin,
}

impl ParseError {
    /// A sentence for the user.
    pub fn message(&self) -> (text: &'static str)
        ensures
            text@ == match *self {
                ParseError::UnmatchedEnd => "Unmatched `]`, missing `[`"@,
                ParseError::UnmatchedBegin => "Unmatched `[`, missing `]`"@,
            },
    {
        match self {
            ParseError::UnmatchedEnd => "Unmatched `]`, missing `[`",
            ParseError::UnmatchedBegin => "Unmatched `[`, missing `]`",
        }
    }
}

/// Why a run stopped before its `Halt`.
#[derive(Debug, Clone, Copy, PartialEq, Eq)]
pub enum ExecError {
    /// The pointer was asked to move right from the last cell.
    PointerOverflow,
    /// The pointer was asked to move left from the first cell.
    PointerUnderflow,
    /// An input instruction found no byte left to read.
    InputExhausted,
}

impl ExecError {
    /// A sentence for the user.
    pub fn message(&self) -> (text: &'static str)
        ensures
            text@ == match *self {
                ExecError::PointerOverflow => "Pointer out of bounds, overflow"@,
                ExecError::PointerUnderflow => "Pointer out of bounds, underflow"@,
                ExecError::InputExhausted => "Input error"@,
            },
    {
        match self {
            ExecError::PointerOverflow => "Pointer out of bounds, overflow",
            ExecError::PointerUnderflow => "Pointer out of bounds, underflow",
            ExecError::InputExhausted => "Input error",
        }
    }
}

} // verus!
