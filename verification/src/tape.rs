//! The tape: a fixed number of byte cells and a pointer to one of them.

use crate::error::ExecError;
use vstd::prelude::*;

verus! {

/// The number of cells of the default tape.
pub const TAPE_SIZE: usize = 30000;

/// A tape as a value: the contents of its cells and the position of its
/// pointer.
pub struct Tape {
    pub cells: Seq<u8>,
    pub pointer: int,
}

impl Tape {
    /// The pointer names a cell.
    pub open spec fn wf(self) -> bool {
        0 <= self.pointer < self.cells.len()
    }

    /// A tape of `size` cells, all zero, with the pointer at `pointer`.
    pub open spec fn blank(size: nat, pointer: int) -> Tape {
        Tape { cells: Seq::new(size, |i: int| 0u8), pointer }
    }

    /// The cell under the pointer.
    pub open spec fn current(self) -> u8 {
        self.cells[self.pointer]
    }

    /// The tape with `value` in the cell under the pointer.
    pub open spec fn store(self, value: u8) -> Tape {
        Tape { cells: self.cells.update(self.pointer, value), pointer: self.pointer }
    }

    /// The tape with the pointer `by` cells further right.
    pub open spec fn shift(self, by: int) -> Tape {
        Tape { cells: self.cells, pointer: self.pointer + by }
    }

    /// The pointer is on the last cell, so it cannot move right.
    pub open spec fn at_right_end(self) -> bool {
        self.pointer + 1 >= self.cells.len()
    }

    /// The pointer is on the first cell, so it cannot move left.
    pub open spec fn at_left_end(self) -> bool {
        self.pointer <= 0
    }
}

/// One more than `value`, from 255 back to 0.
pub open spec fn increment(value: u8) -> u8 {
    if value == 255 {
        0
    } else {
        (value + 1) as u8
    }
}

/// One less than `value`, from 0 on to 255.
pub open spec fn decrement(value: u8) -> u8 {
    if value == 0 {
        255
    } else {
        (value - 1) as u8
    }
}

/// The tape of a running machine. Its length never changes, and its pointer
/// always names one of its cells.
#[derive(Debug)]
pub struct Intepreter {
    buffer: Vec<u8>,
    pointer: usize,
}

impl View for Intepreter {
    type V = Tape;

    closed spec fn view(&self) -> Tape {
        Tape { cells: self.buffer@, pointer: self.pointer as int }
    }
}

impl Intepreter {
    /// What every tape made by this module satisfies.
    pub open spec fn wf(&self) -> bool {
        self@.wf()
    }

    /// A tape of `size` zero cells with the pointer at `pointer`, or `None`
    /// where `pointer` names none of them.
    pub fn new(size: usize, pointer: usize) -> (made: Option<Intepreter>)
        ensures
            made is Some <==> pointer < size,
            made matches Some(tape) ==> tape@ == Tape::blank(size as nat, pointer as int)
                && tape.wf(),
    {
        if pointer >= size {
            return None;
        }
        let mut buffer: Vec<u8> = Vec::new();
        while buffer.len() < size
            invariant
                buffer.len() <= size,
                forall|i: int| 0 <= i < buffer.len() ==> buffer[i] == 0,
            decreases size - buffer.len(),
        {
            buffer.push(0);
        }
        assert(buffer@ =~= Tape::blank(size as nat, pointer as int).cells);
        Some(Intepreter { buffer, pointer })
    }

    /// The number of cells.
    pub fn len(&self) -> (n: usize)
        ensures
            n == self@.cells.len(),
    {
        self.buffer.len()
    }

    /// The position of the pointer.
    pub fn pointer(&self) -> (at: usize)
        ensures
            at == self@.pointer,
    {
        self.pointer
    }

    /// The cell at `index`, or `None` past the end of the tape.
    pub fn get(&self, index: usize) -> (cell: Option<u8>)
        ensures
            cell == if index < self@.cells.len() {
                Some(self@.cells[index as int])
            } else {
                None
            },
    {
        if index < self.buffer.len() {
            Some(self.buffer[index])
        } else {
            None
        }
    }

    /// The cell under the pointer.
    pub fn value(&self) -> (cell: u8)
        requires
            self.wf(),
        ensures
            cell == self@.current(),
    {
        self.buffer[self.pointer]
    }

    /// Puts `value` into the cell under the pointer.
    pub fn set_value(&mut self, value: u8)
        requires
            old(self).wf(),
        ensures
            final(self)@ == old(self)@.store(value),
    {
        self.buffer.set(self.pointer, value);
    }

    /// Adds one to the cell under the pointer; 255 becomes 0.
    pub fn increment_value(&mut self)
        requires
            old(self).wf(),
        ensures
            final(self)@ == old(self)@.store(increment(old(self)@.current())),
    {
        let cell: u8 = self.buffer[self.pointer];
        self.buffer.set(self.pointer, cell.wrapping_add(1));
    }

    /// Subtracts one from the cell under the pointer; 0 becomes 255.
    pub fn decrement_value(&mut self)
        requires
            old(self).wf(),
        ensures
            final(self)@ == old(self)@.store(decrement(old(self)@.current())),
    {
        let cell: u8 = self.buffer[self.pointer];
        self.buffer.set(self.pointer, cell.wrapping_sub(1));
    }

    /// Moves the pointer one cell to the right. On the last cell it stays
    /// where it is and the result is `PointerOverflow`.
    pub fn increment_pointer(&mut self) -> (moved: Result<(), ExecError>)
        requires
            old(self).wf(),
        ensures
            moved == if old(self)@.at_right_end() {
                Err::<(), ExecError>(ExecError::PointerOverflow)
            } else {
                Ok(())
            },
            final(self)@ == if old(self)@.at_right_end() {
                old(self)@
            } else {
                old(self)@.shift(1)
            },
    {
        if self.pointer >= self.buffer.len() - 1 {
            return Err(ExecError::PointerOverflow);
        }
        self.pointer += 1;
        Ok(())
    }

    /// Moves the pointer one cell to the left. On the first cell it stays
    /// where it is and the result is `PointerUnderflow`.
    pub fn decrement_pointer(&mut self) -> (moved: Result<(), ExecError>)
        requires
            old(self).wf(),
        ensures
            moved == if old(self)@.at_left_end() {
                Err::<(), ExecError>(ExecError::PointerUnderflow)
            } else {
                Ok(())
            },
            final(self)@ == if old(self)@.at_left_end() {
                old(self)@
            } else {
                old(self)@.shift(-1)
            },
    {
        if self.pointer == 0 {
            return Err(ExecError::PointerUnderflow);
        }
        self.pointer -= 1;
        Ok(())
    }
}

impl Default for Intepreter {
    /// A tape of `TAPE_SIZE` zero cells with the pointer in the middle.
    fn default() -> (made: Intepreter)
        ensures
            made@ == Tape::blank(TAPE_SIZE as nat, TAPE_SIZE as int / 2),
            made.wf(),
    {
        let buffer: Vec<u8> = vec![0u8; TAPE_SIZE];
        assert(buffer@ =~= Tape::blank(TAPE_SIZE as nat, TAPE_SIZE as int / 2).cells);
        Intepreter { buffer, pointer: TAPE_SIZE / 2 }
    }
}

} // verus!
