//! The grid itself: 81 cells owned exclusively by a `Puzzle`, the
//! invariant tying every conflict counter to its neighborhood, and the
//! validated edit operation that maintains that invariant incrementally.

use vstd::prelude::*;
use crate::cell::{opt_value, value_or_zero, Cell};
use crate::errors::EditError;
use crate::position::{
    col_of, is_peer, lemma_peer_cardinality, lemma_peer_count_mono, lemma_peer_symmetry,
    peer_check, peer_count_below, row_of,
};
use crate::update::{Request, Response};

verus! {

/// How many indices below `n` are peers of `i` and hold value `v`.
pub open spec fn count_below(g: Seq<Cell>, i: int, v: u8, n: int) -> int
    decreases n,
{
    if n <= 0 {
        0
    } else {
        count_below(g, i, v, n - 1) + if is_peer(i, n - 1) && g[n - 1].value == Some(v) {
            1int
        } else {
            0int
        }
    }
}

/// The conflict count of cell `i` for value `v`: how many of its 20 peers
/// hold `v`.
pub open spec fn conflict_count(g: Seq<Cell>, i: int, v: u8) -> int {
    count_below(g, i, v, 81)
}

/// One cell's slice of the grid invariant: its position fields match its
/// index, its value is a digit in 1..=9 when present, a clue always holds
/// a value, and its conflict counter equals its conflict count (0 when
/// the cell is blank).
pub open spec fn cell_inv(g: Seq<Cell>, j: int) -> bool {
    let c = g[j];
    &&& c.idx == j
    &&& c.row == row_of(j)
    &&& c.column == col_of(j)
    &&& match c.value {
        Some(v) => 1 <= v <= 9,
        None => true,
    }
    &&& (c.is_clue ==> c.value is Some)
    &&& c.conflicts as int == match c.value {
        Some(v) => conflict_count(g, j, v),
        None => 0int,
    }
}

/// The grid invariant: exactly 81 cells, each one satisfying `cell_inv`.
pub open spec fn grid_wf(g: Seq<Cell>) -> bool {
    &&& g.len() == 81
    &&& forall|j: int| 0 <= j < 81 ==> cell_inv(g, j)
}

proof fn lemma_count_bounds(g: Seq<Cell>, i: int, v: u8, n: int)
    requires
        0 <= n,
    ensures
        0 <= count_below(g, i, v, n) <= peer_count_below(i, n),
    decreases n,
{
    if n > 0 {
        lemma_count_bounds(g, i, v, n - 1);
    }
}

/// A peer below `n` that holds `v` forces the count up to at least 1.
proof fn lemma_count_witness(g: Seq<Cell>, i: int, v: u8, n: int, w: int)
    requires
        0 <= w < n,
        is_peer(i, w),
        g[w].value == Some(v),
    ensures
        count_below(g, i, v, n) >= 1,
    decreases n,
{
    if w == n - 1 {
        lemma_count_bounds(g, i, v, n - 1);
    } else {
        lemma_count_witness(g, i, v, n - 1, w);
    }
}

/// Changing the value at index `t` alone moves a conflict count by exactly
/// the difference of the two indicators at `t`.
proof fn lemma_count_change(g1: Seq<Cell>, g2: Seq<Cell>, i: int, v: u8, t: int, n: int)
    requires
        forall|j: int| 0 <= j < n && j != t ==> g1[j].value == g2[j].value,
    ensures
        count_below(g2, i, v, n) == count_below(g1, i, v, n) + (if 0 <= t < n && is_peer(i, t) {
            (if g2[t].value == Some(v) {
                1int
            } else {
                0int
            }) - (if g1[t].value == Some(v) {
                1int
            } else {
                0int
            })
        } else {
            0int
        }),
    decreases n,
{
    if n > 0 {
        lemma_count_change(g1, g2, i, v, t, n - 1);
    }
}

/// A stretch of indices holding no peer of `i` contributes nothing to the
/// count.
proof fn lemma_count_gap(g: Seq<Cell>, i: int, v: u8, a: int, b: int)
    requires
        0 <= a <= b,
        forall|j: int| a <= j < b ==> !is_peer(i, j),
    ensures
        count_below(g, i, v, b) == count_below(g, i, v, a),
    decreases b,
{
    if a < b {
        lemma_count_gap(g, i, v, a, b - 1);
    }
}

/// A classic 9 x 9 grid of 81 cells.
pub struct Puzzle {
    grid: Vec<Cell>,
}

impl View for Puzzle {
    type V = Seq<Cell>;

    closed spec fn view(&self) -> Seq<Cell> {
        self.grid@
    }
}

/// Counts the peers of `i` holding exactly the digit `val`.
fn conflicts_for(v: &Vec<Cell>, i: usize, val: u8) -> (n: u8)
    requires
        v@.len() == 81,
        i < 81,
    ensures
        n as int == conflict_count(v@, i as int, val),
{
    let mut n: u8 = 0;
    let mut j: usize = 0;
    while j < 81
        invariant
            v@.len() == 81,
            i < 81,
            j <= 81,
            n as int == count_below(v@, i as int, val, j as int),
        decreases 81 - j,
    {
        if peer_check(i, j) {
            let peer = v[j];
            let matches = match peer.value {
                Some(pv) => pv == val,
                None => false,
            };
            if matches {
                proof {
                    lemma_count_bounds(v@, i as int, val, j as int);
                    lemma_peer_count_mono(i as int, j as int, 81);
                    lemma_peer_cardinality(i as int);
                }
                n = n + 1;
            }
        }
        j = j + 1;
    }
    n
}

impl Puzzle {
    /// The grid invariant, as seen by callers.
    pub open spec fn wf(&self) -> bool {
        grid_wf(self@)
    }

    /// Builds the grid from 81 digits (0 means blank, anything else is an
    /// immutable clue) and computes every cell's initial conflict counter.
    pub fn new(grid: &[u8]) -> (p: Puzzle)
        requires
            grid@.len() == 81,
            forall|j: int| 0 <= j < 81 ==> grid@[j] <= 9,
        ensures
            p.wf(),
            forall|j: int|
                0 <= j < 81 ==> (#[trigger] p@[j]).value == opt_value(grid@[j]) && p@[j].is_clue
                    == (grid@[j] != 0),
    {
        let mut v: Vec<Cell> = Vec::new();
        let mut i: usize = 0;
        while i < 81
            invariant
                i <= 81,
                v@.len() == i,
                grid@.len() == 81,
                forall|j: int| 0 <= j < 81 ==> grid@[j] <= 9,
                forall|j: int|
                    0 <= j < i ==> (#[trigger] v@[j]).idx == j && v@[j].row == row_of(j)
                        && v@[j].column == col_of(j) && v@[j].value == opt_value(grid@[j])
                        && v@[j].is_clue == (grid@[j] != 0) && v@[j].conflicts == 0,
            decreases 81 - i,
        {
            let d = grid[i];
            if d == 0 {
                v.push(Cell::new(i, d));
            } else {
                v.push(Cell::new_clue(i, d));
            }
            i = i + 1;
        }
        let mut i: usize = 0;
        while i < 81
            invariant
                i <= 81,
                v@.len() == 81,
                grid@.len() == 81,
                forall|j: int|
                    0 <= j < 81 ==> (#[trigger] v@[j]).idx == j && v@[j].row == row_of(j)
                        && v@[j].column == col_of(j) && v@[j].value == opt_value(grid@[j])
                        && v@[j].is_clue == (grid@[j] != 0),
                forall|j: int|
                    0 <= j < i ==> (#[trigger] v@[j]).conflicts as int == match v@[j].value {
                        Some(vv) => conflict_count(v@, j, vv),
                        None => 0int,
                    },
                forall|j: int| i <= j < 81 ==> (#[trigger] v@[j]).conflicts == 0,
            decreases 81 - i,
        {
            let c = v[i];
            match c.value {
                Some(val) => {
                    let n = conflicts_for(&v, i, val);
                    let ghost v0 = v@;
                    let mut c2 = v[i];
                    c2.set_conflicts(n);
                    v.set(i, c2);
                    proof {
                        assert forall|j: int, vv: u8| 0 <= j < 81 implies conflict_count(
                            v@,
                            j,
                            vv,
                        ) == conflict_count(v0, j, vv) by {
                            lemma_count_change(v0, v@, j, vv, -1, 81);
                        }
                    }
                },
                None => {
                },
            }
            i = i + 1;
        }
        let p = Puzzle { grid: v };
        proof {
            assert forall|j: int| 0 <= j < 81 implies cell_inv(p@, j) by {
                assert(p@[j].idx == j);
            }
        }
        p
    }

    /// A read-only view of the 81 cells, row-major.
    pub fn grid(&self) -> (r: &[Cell])
        ensures
            r@ == self@,
    {
        self.grid.as_slice()
    }

    /// True exactly when every cell holds a value; conflicts do not matter.
    pub fn is_completed(&self) -> (b: bool)
        requires
            self.wf(),
        ensures
            b == forall|j: int| 0 <= j < 81 ==> (#[trigger] self@[j]).value is Some,
    {
        let mut i: usize = 0;
        while i < 81
            invariant
                i <= 81,
                self@.len() == 81,
                forall|j: int| 0 <= j < i ==> (#[trigger] self@[j]).value is Some,
            decreases 81 - i,
        {
            let c = self.grid[i];
            if c.value.is_none() {
                assert(!(self@[i as int].value is Some));
                return false;
            }
            i = i + 1;
        }
        true
    }
}

/// The first grid index the edit loop has not yet visited: the peer list
/// entry at `k`, or the end of the grid once the list is exhausted.
spec fn bound_of(ps: Seq<usize>, k: int) -> int {
    if k < ps.len() {
        ps[k] as int
    } else {
        81
    }
}

/// A peer's counter after the edit: down by one when it matched the old
/// value, up by one when it matches the new one.
spec fn shifted_conflicts(c0: Cell, cur: u8, new: u8) -> int {
    c0.conflicts - (if cur != 0 && c0.value == Some(cur) {
        1int
    } else {
        0int
    }) + (if new != 0 && c0.value == Some(new) {
        1int
    } else {
        0int
    })
}

impl Puzzle {
    /// Applies one validated edit. On success the target takes the
    /// requested value (0 clears it), every peer's conflict counter moves
    /// by the difference of its matches against the old and new value, and
    /// the returned response carries the previous value for undo. On
    /// failure nothing changes: a clue target is refused before a value is
    /// checked, and requesting the value already present is a no-op.
    #[verifier::loop_isolation(false)]
    pub fn update_cell(&mut self, m: &Request) -> (r: Result<Response, EditError>)
        requires
            old(self).wf(),
        ensures
            final(self).wf(),
            (r is Ok) == (m.idx < 81 && !old(self)@[m.idx as int].is_clue && m.value <= 9),
            match r {
                Ok(resp) => {
                    &&& m.idx < 81
                    &&& m.value <= 9
                    &&& !old(self)@[m.idx as int].is_clue
                    &&& resp.idx == m.idx
                    &&& resp.new_value == m.value
                    &&& resp.prev_value == value_or_zero(old(self)@[m.idx as int].value)
                    &&& forall|j: int|
                        0 <= j < 81 && j != m.idx ==> (#[trigger] final(self)@[j]).value == old(
                            self,
                        )@[j].value
                    &&& forall|j: int|
                        0 <= j < 81 ==> (#[trigger] final(self)@[j]).is_clue == old(
                            self,
                        )@[j].is_clue
                    &&& final(self)@[m.idx as int].value == opt_value(m.value)
                    &&& (resp.prev_value == resp.new_value ==> final(self)@ == old(self)@)
                },
                Err(e) => {
                    &&& final(self)@ == old(self)@
                    &&& (e == EditError::OutOfRange <==> m.idx >= 81)
                    &&& (e == EditError::ImmutableClue <==> m.idx < 81 && old(
                        self,
                    )@[m.idx as int].is_clue)
                    &&& (e == EditError::InvalidValue <==> m.idx < 81 && !old(
                        self,
                    )@[m.idx as int].is_clue && m.value > 9)
                },
            },
    {
        let idx = m.idx;
        if idx >= 81 {
            return Err(EditError::OutOfRange);
        }
        let target = self.grid[idx];
        if target.is_clue {
            return Err(EditError::ImmutableClue);
        }
        let new_value = m.value;
        if new_value > 9 {
            return Err(EditError::InvalidValue);
        }
        let current_value = match target.value {
            Some(cv) => cv,
            None => 0,
        };
        if current_value == new_value {
            proof {
                assert(cell_inv(self@, idx as int));
            }
            return Ok(Response { idx, new_value, prev_value: current_value });
        }
        let ghost g0 = self@;
        let ghost ti = idx as int;
        proof {
            assert(cell_inv(g0, ti));
        }
        let peers = target.peers();
        proof {
            assert forall|j: int| 0 <= j < bound_of(peers@, 0) implies !is_peer(ti, j) by {
                if is_peer(ti, j) {
                    assert(peers@.contains(j as usize));
                    let mm: int = choose|mm: int|
                        0 <= mm < peers@.len() && peers@[mm] == j as usize;
                    assert(peers@[0] <= peers@[mm]);
                }
            }
            lemma_count_gap(g0, ti, new_value, 0, bound_of(peers@, 0));
        }
        let mut count: u8 = 0;
        let mut k: usize = 0;
        while k < peers.len()
            invariant
                k <= peers@.len(),
                self@.len() == 81,
                forall|j: int|
                    0 <= j < 81 ==> (#[trigger] self@[j]).value == g0[j].value && self@[j].is_clue
                        == g0[j].is_clue && self@[j].idx == g0[j].idx && self@[j].row == g0[j].row
                        && self@[j].column == g0[j].column,
                forall|j: int|
                    0 <= j < 81 && !(is_peer(ti, j) && j < bound_of(peers@, k as int)) ==> (
                    #[trigger] self@[j]).conflicts == g0[j].conflicts,
                forall|j: int|
                    0 <= j < 81 && is_peer(ti, j) && j < bound_of(peers@, k as int) ==> (
                    #[trigger] self@[j]).conflicts as int == shifted_conflicts(
                        g0[j],
                        current_value,
                        new_value,
                    ),
                count as int == count_below(g0, ti, new_value, bound_of(peers@, k as int)),
                new_value == 0 ==> count == 0,
            decreases peers@.len() - k,
        {
            let p = peers[k];
            proof {
                assert(is_peer(ti, p as int));
                assert(cell_inv(g0, p as int));
                lemma_peer_symmetry(ti, p as int);
            }
            let mut pc = self.grid[p];
            let pv = match pc.value {
                Some(x) => x,
                None => 0,
            };
            if current_value != 0 && pv == current_value {
                proof {
                    lemma_count_witness(g0, p as int, current_value, 81, ti);
                }
                pc.conflict_down();
            }
            if new_value != 0 && pv == new_value {
                proof {
                    lemma_count_bounds(g0, p as int, new_value, 81);
                    lemma_peer_cardinality(p as int);
                    lemma_count_bounds(g0, ti, new_value, bound_of(peers@, k as int));
                    lemma_peer_count_mono(ti, bound_of(peers@, k as int), 81);
                    lemma_peer_cardinality(ti);
                }
                pc.incr_conflict();
                count = count + 1;
            }
            self.grid.set(p, pc);
            proof {
                assert forall|j: int| p + 1 <= j < bound_of(peers@, k + 1) implies !is_peer(
                    ti,
                    j,
                ) by {
                    if is_peer(ti, j) {
                        assert(peers@.contains(j as usize));
                        let mm: int = choose|mm: int|
                            0 <= mm < peers@.len() && peers@[mm] == j as usize;
                        if mm < k {
                            assert(peers@[mm] < peers@[k as int]);
                        } else if mm > k {
                            assert(k + 1 < peers@.len() && mm > k + 1 ==> peers@[k as int + 1]
                                < peers@[mm]);
                        }
                    }
                }
                lemma_count_gap(g0, ti, new_value, p as int + 1, bound_of(peers@, k as int + 1));
            }
            k = k + 1;
        }
        let mut cell = self.grid[idx];
        cell.set_value(new_value);
        cell.set_conflicts(count);
        self.grid.set(idx, cell);
        proof {
            let gn = self@;
            assert forall|j: int| 0 <= j < 81 implies cell_inv(gn, j) by {
                assert(cell_inv(g0, j));
                lemma_peer_symmetry(ti, j);
                if j == ti {
                    if new_value != 0 {
                        lemma_count_change(g0, gn, ti, new_value, ti, 81);
                    }
                } else {
                    match gn[j].value {
                        Some(vj) => {
                            lemma_count_change(g0, gn, j, vj, ti, 81);
                        },
                        None => {},
                    }
                }
            }
        }
        Ok(Response { idx, new_value, prev_value: current_value })
    }
}

/// Conflict counters carry no information of their own: two well-formed
/// grids agreeing on every cell's value and clue flag are the same grid.
pub proof fn lemma_state_determined(g1: Seq<Cell>, g2: Seq<Cell>)
    requires
        grid_wf(g1),
        grid_wf(g2),
        forall|j: int|
            0 <= j < 81 ==> (#[trigger] g1[j]).value == g2[j].value && g1[j].is_clue
                == g2[j].is_clue,
    ensures
        g1 == g2,
{
    assert forall|j: int| 0 <= j < 81 implies g1[j] == g2[j] by {
        assert(cell_inv(g1, j));
        assert(cell_inv(g2, j));
        match g1[j].value {
            Some(vj) => {
                lemma_count_change(g1, g2, j, vj, -1, 81);
            },
            None => {},
        }
    }
    assert(g1 =~= g2);
}

/// Undo restores the grid exactly. If one edit takes the well-formed grid
/// `before` to `after` by changing only the target's value, and a second
/// edit writes the target's previous value back, the result equals
/// `before` cell for cell, every conflict counter included.
pub proof fn lemma_undo_round_trip(
    before: Seq<Cell>,
    after: Seq<Cell>,
    restored: Seq<Cell>,
    idx: int,
)
    requires
        grid_wf(before),
        grid_wf(after),
        grid_wf(restored),
        0 <= idx < 81,
        forall|j: int| 0 <= j < 81 && j != idx ==> (#[trigger] after[j]).value == before[j].value,
        forall|j: int| 0 <= j < 81 ==> (#[trigger] after[j]).is_clue == before[j].is_clue,
        forall|j: int| 0 <= j < 81 && j != idx ==> (#[trigger] restored[j]).value == after[j].value,
        forall|j: int| 0 <= j < 81 ==> (#[trigger] restored[j]).is_clue == after[j].is_clue,
        restored[idx].value == before[idx].value,
    ensures
        restored == before,
{
    lemma_state_determined(before, restored);
}

/// Requesting the value a cell already holds is idempotent: an edit that
/// writes the present value back leaves the whole well-formed grid state
/// unchanged.
pub proof fn lemma_noop_idempotence(first: Seq<Cell>, second: Seq<Cell>, idx: int, v: Option<u8>)
    requires
        grid_wf(first),
        grid_wf(second),
        0 <= idx < 81,
        first[idx].value == v,
        forall|j: int| 0 <= j < 81 && j != idx ==> (#[trigger] second[j]).value == first[j].value,
        forall|j: int| 0 <= j < 81 ==> (#[trigger] second[j]).is_clue == first[j].is_clue,
        second[idx].value == v,
    ensures
        second == first,
{
    lemma_state_determined(first, second);
}

/// Extracts the run of ASCII digits from a byte stream, as digit values;
/// anything that is not a digit is ignored. The result is the initial
/// grid, and loading fails unless exactly 81 digits are present.
pub open spec fn digits_of(bs: Seq<u8>) -> Seq<u8>
    decreases bs.len(),
{
    if bs.len() == 0 {
        Seq::empty()
    } else {
        digits_of(bs.drop_last()) + if 48 <= bs.last() <= 57 {
            seq![(bs.last() - 48) as u8]
        } else {
            Seq::empty()
        }
    }
}

/// Reads the 81 digits of an initial grid out of raw bytes, ignoring
/// every byte that is not an ASCII digit. Fails when the stream does not
/// hold exactly 81 digits.
pub fn digits_from_bytes(bytes: &[u8]) -> (r: Result<Vec<u8>, EditError>)
    ensures
        match r {
            Ok(v) => {
                &&& v@ == digits_of(bytes@)
                &&& v@.len() == 81
                &&& forall|k: int| 0 <= k < 81 ==> v@[k] <= 9
            },
            Err(e) => e == EditError::MalformedInitialGrid && digits_of(bytes@).len() != 81,
        },
        r is Ok <==> digits_of(bytes@).len() == 81,
{
    let mut v: Vec<u8> = Vec::new();
    let mut i: usize = 0;
    while i < bytes.len()
        invariant
            i <= bytes@.len(),
            v@ == digits_of(bytes@.subrange(0, i as int)),
            forall|k: int| 0 <= k < v@.len() ==> v@[k] <= 9,
        decreases bytes@.len() - i,
    {
        let ghost vs0 = v@;
        let b = bytes[i];
        if b >= 48 && b <= 57 {
            v.push(b - 48);
        }
        proof {
            let bp = bytes@.subrange(0, i + 1);
            assert(bp.drop_last() =~= bytes@.subrange(0, i as int));
            assert(bp.last() == bytes@[i as int]);
            if 48 <= bytes@[i as int] <= 57 {
                assert(digits_of(bp) =~= vs0.push((bytes@[i as int] - 48) as u8));
            } else {
                assert(digits_of(bp) =~= vs0);
            }
        }
        i = i + 1;
    }
    proof {
        assert(bytes@.subrange(0, bytes@.len() as int) =~= bytes@);
    }
    if v.len() != 81 {
        return Err(EditError::MalformedInitialGrid);
    }
    Ok(v)
}

} // verus!
