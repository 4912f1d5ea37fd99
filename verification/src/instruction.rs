//! The instruction set of the machine.

use vstd::prelude::*;

verus! {

/// One instruction of a parsed program. The index of an instruction in its
/// program is its address.
#[derive(Debug, Clone, Copy, PartialEq, Eq)]
pub enum Instruction {
    /// Move the tape pointer one cell to the right.
    IncrementPointer,
    /// Move the tape pointer one cell to the left.
    DecrementPointer,
    /// Add one to the current cell, wrapping from 255 to 0.
    IncrementValue,
    /// Subtract one from the current cell, wrapping from 0 to 255.
    DecrementValue,
    /// Write the current cell to the output.
    OutputValue,
    /// Read one byte of input into the current cell.
    InputValue,
    /// Start of a loop. Carries the address to jump to when the current cell
    /// is zero: the one just past the matching `End`. The target is `None`
    /// only while the parser has not yet met the matching `]`.
    Begin(Option<usize>),
    /// End of a loop. Carries the address to jump to when the current cell is
    /// not zero: the one just past the matching `Begin`.
    End(usize),
    /// Stops the machine. Every runnable program ends with one.
    Halt,
}

/// The instruction that a symbol other than a bracket stands for.
pub open spec fn plain_instruction(c: char) -> Instruction {
    if c == '>' {
        Instruction::IncrementPointer
    } else if c == '<' {
        Instruction::DecrementPointer
    } else if c == '+' {
        Instruction::IncrementValue
    } else if c == '-' {
        Instruction::DecrementValue
    } else if c == '.' {
        Instruction::OutputValue
    } else {
        Instruction::InputValue
    }
}

} // verus!
