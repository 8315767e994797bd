//! One slot of the grid: its position, its optional value, whether it is
//! an immutable clue, and its conflict counter.

use vstd::prelude::*;
use crate::position::{
    block_peer_check, col_of, index_of, is_block_peer, is_peer, lemma_peer_cardinality,
    peer_check, peer_count_below, row_of,
};

verus! {

/// The value a cell reports when it is blank, in the 0-means-blank encoding
/// used by requests and results.
pub open spec fn value_or_zero(v: Option<u8>) -> u8 {
    match v {
        Some(x) => x,
        None => 0,
    }
}

/// The stored form of a requested value: 0 means blank, 1..=9 is kept.
pub open spec fn opt_value(v: u8) -> Option<u8> {
    if v == 0 {
        None
    } else {
        Some(v)
    }
}

/// One grid slot.
#[derive(Clone, Copy, Debug)]
pub struct Cell {
    pub row: usize,
    pub column: usize,
    pub idx: usize,
    pub value: Option<u8>,
    pub is_clue: bool,
    pub conflicts: u8,
}

fn row_from_idx(idx: usize) -> (r: usize)
    requires
        idx < 81,
    ensures
        r == row_of(idx as int),
{
    idx / 9
}

fn col_from_idx(idx: usize) -> (c: usize)
    requires
        idx < 81,
    ensures
        c == col_of(idx as int),
{
    idx % 9
}

impl Cell {
    /// Linear index of a 0-indexed (row, column) pair.
    pub fn to_grid_idx(row: usize, column: usize) -> (idx: usize)
        requires
            row < 9,
            column < 9,
        ensures
            idx == index_of(row as int, column as int),
            idx < 81,
    {
        (row * 9) + column
    }

    pub fn idx(&self) -> (r: usize)
        ensures
            r == self.idx,
    {
        self.idx
    }

    pub fn value(&self) -> (r: Option<u8>)
        ensures
            r == self.value,
    {
        self.value
    }

    pub fn is_clue(&self) -> (r: bool)
        ensures
            r == self.is_clue,
    {
        self.is_clue
    }

    pub fn as_grid_idx(&self) -> (r: usize)
        ensures
            r == self.idx,
    {
        self.idx
    }

    pub fn conflicts(&self) -> (r: u8)
        ensures
            r == self.conflicts,
    {
        self.conflicts
    }

    /// A mutable cell holding the given digit, 0 meaning blank.
    pub fn new(idx: usize, value: u8) -> (c: Cell)
        requires
            idx < 81,
            value <= 9,
        ensures
            c.idx == idx,
            c.row == row_of(idx as int),
            c.column == col_of(idx as int),
            c.value == opt_value(value),
            !c.is_clue,
            c.conflicts == 0,
    {
        Cell {
            idx,
            row: row_from_idx(idx),
            column: col_from_idx(idx),
            value: if value == 0 {
                None
            } else {
                Some(value)
            },
            is_clue: false,
            conflicts: 0,
        }
    }

    /// A cell carrying a user's requested edit for a (row, column) position.
    pub fn user_request(row: usize, column: usize, value: Option<u8>) -> (c: Cell)
        requires
            row < 9,
            column < 9,
            match value {
                Some(v) => 1 <= v <= 9,
                None => true,
            },
        ensures
            c.row == row,
            c.column == column,
            c.idx == index_of(row as int, column as int),
            c.value == value,
            !c.is_clue,
            c.conflicts == 0,
    {
        Cell {
            row,
            column,
            idx: Cell::to_grid_idx(row, column),
            value,
            is_clue: false,
            conflicts: 0,
        }
    }

    /// An immutable clue cell holding a digit from the initial grid.
    pub fn new_clue(idx: usize, value: u8) -> (c: Cell)
        requires
            idx < 81,
            1 <= value <= 9,
        ensures
            c.idx == idx,
            c.row == row_of(idx as int),
            c.column == col_of(idx as int),
            c.value == Some(value),
            c.is_clue,
            c.conflicts == 0,
    {
        Cell {
            row: row_from_idx(idx),
            column: col_from_idx(idx),
            idx,
            value: Some(value),
            is_clue: true,
            conflicts: 0,
        }
    }

    /// A blank mutable cell at the given linear index.
    pub fn from_grid_idx(idx: usize) -> (c: Cell)
        requires
            idx < 81,
        ensures
            c.idx == idx,
            c.row == row_of(idx as int),
            c.column == col_of(idx as int),
            c.value is None,
            !c.is_clue,
            c.conflicts == 0,
    {
        Cell {
            row: idx / 9,
            column: idx % 9,
            idx,
            value: None,
            is_clue: false,
            conflicts: 0,
        }
    }

    pub fn has_conflicts(&self) -> (r: bool)
        ensures
            r == (self.conflicts != 0),
    {
        self.conflicts != 0
    }

    pub fn incr_conflict(&mut self)
        requires
            old(self).conflicts < 255,
        ensures
            final(self).conflicts == old(self).conflicts + 1,
            final(self).value == old(self).value,
            final(self).is_clue == old(self).is_clue,
            final(self).idx == old(self).idx,
            final(self).row == old(self).row,
            final(self).column == old(self).column,
    {
        self.conflicts += 1;
    }

    pub fn conflict_down(&mut self)
        requires
            old(self).conflicts > 0,
        ensures
            final(self).conflicts == old(self).conflicts - 1,
            final(self).value == old(self).value,
            final(self).is_clue == old(self).is_clue,
            final(self).idx == old(self).idx,
            final(self).row == old(self).row,
            final(self).column == old(self).column,
    {
        self.conflicts -= 1;
    }

    pub fn set_conflicts(&mut self, c: u8)
        ensures
            final(self).conflicts == c,
            final(self).value == old(self).value,
            final(self).is_clue == old(self).is_clue,
            final(self).idx == old(self).idx,
            final(self).row == old(self).row,
            final(self).column == old(self).column,
    {
        self.conflicts = c;
    }

    pub fn clear_conflicts(&mut self)
        ensures
            final(self).conflicts == 0,
            final(self).value == old(self).value,
            final(self).is_clue == old(self).is_clue,
            final(self).idx == old(self).idx,
            final(self).row == old(self).row,
            final(self).column == old(self).column,
    {
        self.conflicts = 0;
    }

    pub fn set_value(&mut self, value: u8)
        ensures
            final(self).value == opt_value(value),
            final(self).conflicts == old(self).conflicts,
            final(self).is_clue == old(self).is_clue,
            final(self).idx == old(self).idx,
            final(self).row == old(self).row,
            final(self).column == old(self).column,
    {
        self.value = if value == 0 {
            None
        } else {
            Some(value)
        }
    }

    /// The 20 peer indices of this cell, in increasing order.
    pub fn peers(&self) -> (r: Vec<usize>)
        requires
            self.idx < 81,
        ensures
            r@.len() == 20,
            forall|k: int| 0 <= k < r@.len() ==> is_peer(self.idx as int, #[trigger] r@[k] as int),
            forall|k1: int, k2: int| 0 <= k1 < k2 < r@.len() ==> r@[k1] < r@[k2],
            forall|j: usize| is_peer(self.idx as int, j as int) ==> r@.contains(j),
    {
        let i: usize = self.idx;
        let mut r: Vec<usize> = Vec::new();
        let mut j: usize = 0;
        while j < 81
            invariant
                i < 81,
                j <= 81,
                r@.len() == peer_count_below(i as int, j as int),
                forall|k: int|
                    0 <= k < r@.len() ==> is_peer(i as int, #[trigger] r@[k] as int) && r@[k] < j,
                forall|k1: int, k2: int| 0 <= k1 < k2 < r@.len() ==> r@[k1] < r@[k2],
                forall|jj: usize| jj < j && is_peer(i as int, jj as int) ==> r@.contains(jj),
            decreases 81 - j,
        {
            let ghost r0 = r@;
            if peer_check(i, j) {
                r.push(j);
            }
            proof {
                assert forall|jj: usize| jj < j + 1 && is_peer(i as int, jj as int) implies r@
                    .contains(jj) by {
                    if jj < j {
                        assert(r0.contains(jj));
                        let k: int = choose|k: int| 0 <= k < r0.len() && r0[k] == jj;
                        assert(r@[k] == jj);
                    } else {
                        assert(r@[r@.len() - 1] == jj);
                    }
                }
            }
            j = j + 1;
        }
        proof {
            lemma_peer_cardinality(i as int);
        }
        r
    }

    /// The 8 indices sharing this cell's 3 x 3 block, in increasing order.
    pub fn block_idx(&self) -> (r: Vec<usize>)
        requires
            self.idx < 81,
        ensures
            forall|k: int|
                0 <= k < r@.len() ==> is_block_peer(self.idx as int, #[trigger] r@[k] as int),
            forall|k1: int, k2: int| 0 <= k1 < k2 < r@.len() ==> r@[k1] < r@[k2],
            forall|j: usize| is_block_peer(self.idx as int, j as int) ==> r@.contains(j),
    {
        let i: usize = self.idx;
        let mut r: Vec<usize> = Vec::new();
        let mut j: usize = 0;
        while j < 81
            invariant
                i < 81,
                j <= 81,
                forall|k: int|
                    0 <= k < r@.len() ==> is_block_peer(i as int, #[trigger] r@[k] as int) && r@[k]
                        < j,
                forall|k1: int, k2: int| 0 <= k1 < k2 < r@.len() ==> r@[k1] < r@[k2],
                forall|jj: usize| jj < j && is_block_peer(i as int, jj as int) ==> r@.contains(jj),
            decreases 81 - j,
        {
            let ghost r0 = r@;
            if block_peer_check(i, j) {
                r.push(j);
            }
            proof {
                assert forall|jj: usize| jj < j + 1 && is_block_peer(i as int, jj as int) implies r@
                    .contains(jj) by {
                    if jj < j {
                        assert(r0.contains(jj));
                        let k: int = choose|k: int| 0 <= k < r0.len() && r0[k] == jj;
                        assert(r@[k] == jj);
                    } else {
                        assert(r@[r@.len() - 1] == jj);
                    }
                }
            }
            j = j + 1;
        }
        r
    }
}

} // verus!
