use vstd::prelude::*;

verus! {

/// One cell of the board, holding a single digit.
/// Digit 0 stands for "unassigned"; 1 through 9 are placed Sudoku values.
/// A cell is never mutated in place: boards replace cells wholesale.
#[derive(Clone, Copy, Debug, PartialEq, Eq, Structural)]
pub struct Cell(pub u8);

impl Cell {
    /// The raw digit this cell holds.
    pub open spec fn digit(self) -> u8 {
        self.0
    }

    pub fn new(value: u8) -> (r: Cell)
        ensures
            r.digit() == value,
    {
        Cell(value)
    }

    pub fn value(&self) -> (r: u8)
        ensures
            r == self.digit(),
    {
        self.0
    }

    /// A placed Sudoku value, as opposed to the "unassigned" marker 0
    /// or a malformed digit.
    pub open spec fn spec_is_sudoku_value(self) -> bool {
        1 <= self.0 <= 9
    }

    pub fn is_sudoku_value(&self) -> (r: bool)
        ensures
            r == self.spec_is_sudoku_value(),
    {
        1 <= self.0 && self.0 <= 9
    }
}

} // verus!
