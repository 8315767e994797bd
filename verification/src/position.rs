//! Position arithmetic for the 9 x 9 grid: rows, columns, blocks, and the
//! peer relation between linear indices, together with the counting lemmas
//! that pin down how many peers every index has.

use vstd::prelude::*;
use vstd::arithmetic::div_mod::{lemma_fundamental_div_mod, lemma_fundamental_div_mod_converse};

verus! {

/// Row of a linear index over the row-major 9 x 9 grid.
pub open spec fn row_of(i: int) -> int {
    i / 9
}

/// Column of a linear index.
pub open spec fn col_of(i: int) -> int {
    i % 9
}

/// Linear index of a (row, column) pair.
pub open spec fn index_of(row: int, col: int) -> int {
    row * 9 + col
}

/// Whether two indices lie in the same 3 x 3 block.
pub open spec fn same_block(i: int, j: int) -> bool {
    row_of(i) / 3 == row_of(j) / 3 && col_of(i) / 3 == col_of(j) / 3
}

/// The peer relation: two distinct in-range indices sharing a row, a
/// column, or a 3 x 3 block.
pub open spec fn is_peer(i: int, j: int) -> bool {
    &&& 0 <= i < 81
    &&& 0 <= j < 81
    &&& i != j
    &&& (row_of(i) == row_of(j) || col_of(i) == col_of(j) || same_block(i, j))
}

/// Two distinct in-range indices sharing a block.
pub open spec fn is_block_peer(i: int, j: int) -> bool {
    &&& 0 <= i < 81
    &&& 0 <= j < 81
    &&& i != j
    &&& same_block(i, j)
}

/// How many peers of `i` lie at indices below `n`.
pub open spec fn peer_count_below(i: int, n: int) -> int
    decreases n,
{
    if n <= 0 {
        0
    } else {
        peer_count_below(i, n - 1) + if is_peer(i, n - 1) {
            1int
        } else {
            0int
        }
    }
}

/// Decides the peer relation on in-range indices.
pub fn peer_check(i: usize, j: usize) -> (b: bool)
    requires
        i < 81,
        j < 81,
    ensures
        b == is_peer(i as int, j as int),
{
    i != j && (i / 9 == j / 9 || i % 9 == j % 9 || ((i / 9) / 3 == (j / 9) / 3 && (i % 9) / 3
        == (j % 9) / 3))
}

/// Decides the block-peer relation on in-range indices.
pub fn block_peer_check(i: usize, j: usize) -> (b: bool)
    requires
        i < 81,
        j < 81,
    ensures
        b == is_block_peer(i as int, j as int),
{
    i != j && (i / 9) / 3 == (j / 9) / 3 && (i % 9) / 3 == (j % 9) / 3
}

/// The peer relation is symmetric: `j` is a peer of `i` exactly when `i`
/// is a peer of `j`.
pub proof fn lemma_peer_symmetry(i: int, j: int)
    ensures
        is_peer(i, j) == is_peer(j, i),
{
}

/// Counting peers over a longer prefix of the grid never loses any.
pub proof fn lemma_peer_count_mono(i: int, m: int, n: int)
    requires
        0 <= m <= n,
    ensures
        peer_count_below(i, m) <= peer_count_below(i, n),
    decreases n,
{
    if m < n {
        lemma_peer_count_mono(i, m, n - 1);
    }
}

/// How many peers of `i` sit inside row `w`: all eight other cells of the
/// row that holds `i`, three cells in each other row of `i`'s band, and a
/// single cell (the one in `i`'s column) in each remaining row.
proof fn lemma_peer_count_row(i: int, w: int)
    requires
        0 <= i < 81,
        0 <= w < 9,
    ensures
        peer_count_below(i, 9 * w + 9) == peer_count_below(i, 9 * w) + (if w == row_of(i) {
            8int
        } else if w / 3 == row_of(i) / 3 {
            3int
        } else {
            1int
        }),
{
    let r: int = row_of(i);
    let c: int = col_of(i);
    assert(i == 9 * r + c) by {
        lemma_fundamental_div_mod(i, 9);
    };
    assert((9 * w + 0) / 9 == w && (9 * w + 0) % 9 == 0) by {
        lemma_fundamental_div_mod_converse(9 * w + 0, 9, w, 0);
    };
    assert((9 * w + 1) / 9 == w && (9 * w + 1) % 9 == 1) by {
        lemma_fundamental_div_mod_converse(9 * w + 1, 9, w, 1);
    };
    assert((9 * w + 2) / 9 == w && (9 * w + 2) % 9 == 2) by {
        lemma_fundamental_div_mod_converse(9 * w + 2, 9, w, 2);
    };
    assert((9 * w + 3) / 9 == w && (9 * w + 3) % 9 == 3) by {
        lemma_fundamental_div_mod_converse(9 * w + 3, 9, w, 3);
    };
    assert((9 * w + 4) / 9 == w && (9 * w + 4) % 9 == 4) by {
        lemma_fundamental_div_mod_converse(9 * w + 4, 9, w, 4);
    };
    assert((9 * w + 5) / 9 == w && (9 * w + 5) % 9 == 5) by {
        lemma_fundamental_div_mod_converse(9 * w + 5, 9, w, 5);
    };
    assert((9 * w + 6) / 9 == w && (9 * w + 6) % 9 == 6) by {
        lemma_fundamental_div_mod_converse(9 * w + 6, 9, w, 6);
    };
    assert((9 * w + 7) / 9 == w && (9 * w + 7) % 9 == 7) by {
        lemma_fundamental_div_mod_converse(9 * w + 7, 9, w, 7);
    };
    assert((9 * w + 8) / 9 == w && (9 * w + 8) % 9 == 8) by {
        lemma_fundamental_div_mod_converse(9 * w + 8, 9, w, 8);
    };
    assert(peer_count_below(i, 9 * w + 1) == peer_count_below(i, 9 * w) + if is_peer(i, 9 * w + 0) {
        1int
    } else {
        0int
    });
    assert(peer_count_below(i, 9 * w + 2) == peer_count_below(i, 9 * w + 1) + if is_peer(
        i,
        9 * w + 1,
    ) {
        1int
    } else {
        0int
    });
    assert(peer_count_below(i, 9 * w + 3) == peer_count_below(i, 9 * w + 2) + if is_peer(
        i,
        9 * w + 2,
    ) {
        1int
    } else {
        0int
    });
    assert(peer_count_below(i, 9 * w + 4) == peer_count_below(i, 9 * w + 3) + if is_peer(
        i,
        9 * w + 3,
    ) {
        1int
    } else {
        0int
    });
    assert(peer_count_below(i, 9 * w + 5) == peer_count_below(i, 9 * w + 4) + if is_peer(
        i,
        9 * w + 4,
    ) {
        1int
    } else {
        0int
    });
    assert(peer_count_below(i, 9 * w + 6) == peer_count_below(i, 9 * w + 5) + if is_peer(
        i,
        9 * w + 5,
    ) {
        1int
    } else {
        0int
    });
    assert(peer_count_below(i, 9 * w + 7) == peer_count_below(i, 9 * w + 6) + if is_peer(
        i,
        9 * w + 6,
    ) {
        1int
    } else {
        0int
    });
    assert(peer_count_below(i, 9 * w + 8) == peer_count_below(i, 9 * w + 7) + if is_peer(
        i,
        9 * w + 7,
    ) {
        1int
    } else {
        0int
    });
    assert(peer_count_below(i, 9 * w + 9) == peer_count_below(i, 9 * w + 8) + if is_peer(
        i,
        9 * w + 8,
    ) {
        1int
    } else {
        0int
    });
}

/// Every index of the grid has exactly 20 peers, and no index is a peer
/// of itself.
pub proof fn lemma_peer_cardinality(i: int)
    requires
        0 <= i < 81,
    ensures
        peer_count_below(i, 81) == 20,
        !is_peer(i, i),
{
    let r: int = row_of(i);
    assert(0 <= r < 9);
    lemma_peer_count_row(i, 0);
    lemma_peer_count_row(i, 1);
    lemma_peer_count_row(i, 2);
    lemma_peer_count_row(i, 3);
    lemma_peer_count_row(i, 4);
    lemma_peer_count_row(i, 5);
    lemma_peer_count_row(i, 6);
    lemma_peer_count_row(i, 7);
    lemma_peer_count_row(i, 8);
    assert(peer_count_below(i, 0) == 0);
}

} // verus!
