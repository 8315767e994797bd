//! The command and outcome of a single-cell edit. A request names a target
//! index and a value (0 clears the cell); the response keeps the previous
//! value so the edit can be inverted for undo.

use vstd::prelude::*;
use crate::cell::Cell;
use crate::position::{col_of, index_of, row_of};

verus! {

/// A request to set or clear one cell.
#[derive(Clone, Copy, Debug)]
pub struct Request {
    pub idx: usize,
    pub value: u8,
}

impl Request {
    /// A request for a 0-indexed (row, column) position.
    pub fn new(row: usize, column: usize, value: u8) -> (r: Request)
        requires
            row < 9,
            column < 9,
        ensures
            r.idx == index_of(row as int, column as int),
            r.idx < 81,
            r.value == value,
    {
        Request { idx: Cell::to_grid_idx(row, column), value }
    }

    /// A request for a linear grid index.
    pub fn from_idx(idx: usize, value: u8) -> (r: Request)
        ensures
            r.idx == idx,
            r.value == value,
    {
        Request { idx, value }
    }

    /// A blank cell standing at this request's target position.
    pub fn cell(&self) -> (c: Cell)
        requires
            self.idx < 81,
        ensures
            c.idx == self.idx,
            c.row == row_of(self.idx as int),
            c.column == col_of(self.idx as int),
            c.value is None,
    {
        Cell::from_grid_idx(self.idx)
    }

    pub fn value(&self) -> (v: u8)
        ensures
            v == self.value,
    {
        self.value
    }

    pub fn idx(&self) -> (i: usize)
        ensures
            i == self.idx,
    {
        self.idx
    }
}

/// The outcome of a successful edit: the target index together with the
/// value the cell held before and the value it holds now.
#[derive(Clone, Copy, Debug, PartialEq, Eq, Structural)]
pub struct Response {
    pub idx: usize,
    pub new_value: u8,
    pub prev_value: u8,
}

impl Response {
    /// The inverse command: applying it restores the edited cell's
    /// previous value.
    pub fn undo_request(&self) -> (r: Request)
        ensures
            r.idx == self.idx,
            r.value == self.prev_value,
    {
        Request::from_idx(self.idx, self.prev_value)
    }
}

} // verus!
