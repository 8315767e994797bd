//! Commands built at the console boundary: a numbered move, and the
//! validation that turns 1-indexed user coordinates into a cell.

use vstd::prelude::*;
use crate::cell::Cell;
use crate::errors::EditError;
use crate::position::{col_of, index_of, row_of};

verus! {

/// A user move: its sequence number, its target, and its value.
#[derive(Clone, Copy, Debug)]
pub struct Move {
    pub n: u32,
    pub idx: usize,
    pub value: u8,
}

impl Move {
    pub fn new(n: u32, row: usize, column: usize, value: u8) -> (m: Move)
        requires
            row < 9,
            column < 9,
        ensures
            m.n == n,
            m.idx == index_of(row as int, column as int),
            m.idx < 81,
            m.value == value,
    {
        Move { n, idx: Cell::to_grid_idx(row, column), value }
    }

    /// A blank cell standing at this move's target position.
    pub fn cell(&self) -> (c: Cell)
        requires
            self.idx < 81,
        ensures
            c.idx == self.idx,
            c.row == row_of(self.idx as int),
            c.column == col_of(self.idx as int),
            c.value is None,
    {
        Cell::from_grid_idx(self.idx)
    }

    pub fn value(&self) -> (v: u8)
        ensures
            v == self.value,
    {
        self.value
    }

    pub fn idx(&self) -> (i: usize)
        ensures
            i == self.idx,
    {
        self.idx
    }
}

/// Validates a 1-indexed move: rows and columns must lie in 1..=9 and the
/// value in 0..=9 (0 clears the cell). On success the coordinates are
/// converted to their 0-indexed form.
pub fn user_move(row: usize, column: usize, value: u8) -> (r: Result<Cell, EditError>)
    ensures
        match r {
            Ok(c) => {
                &&& 1 <= row <= 9
                &&& 1 <= column <= 9
                &&& value <= 9
                &&& c.row == row - 1
                &&& c.column == column - 1
                &&& c.idx == index_of(row - 1, column - 1)
                &&& c.value == crate::cell::opt_value(value)
                &&& !c.is_clue
            },
            Err(e) => match e {
                EditError::InvalidCoordinate => !(1 <= row <= 9) || !(1 <= column <= 9),
                EditError::InvalidValue => 1 <= row <= 9 && 1 <= column <= 9 && value > 9,
                _ => false,
            },
        },
        r is Ok <==> (1 <= row <= 9 && 1 <= column <= 9 && value <= 9),
{
    if row < 1 || row > 9 {
        return Err(EditError::InvalidCoordinate);
    }
    if column < 1 || column > 9 {
        return Err(EditError::InvalidCoordinate);
    }
    if value > 9 {
        return Err(EditError::InvalidValue);
    }
    Ok(
        Cell::user_request(
            row - 1,
            column - 1,
            if value == 0 {
                None
            } else {
                Some(value)
            },
        ),
    )
}

} // verus!
