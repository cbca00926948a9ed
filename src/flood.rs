use vstd::prelude::*;
use vstd::arithmetic::div_mod::{lemma_fundamental_div_mod, lemma_mod_pos_bound};
use crate::grid::{CellState, Grid, column_of, row_of};
use crate::neighbors::{
    count_neighbors, lemma_count_witness, lemma_neighbor_position_on_grid, lemma_witness_counts,
    neighbor_count, neighbor_matches, offset_considered, offset_dx, offset_dy, offset_in_grid,
    offset_target,
};

verus! {

/// The next state of cell `i` in a flood step: an open cell with water in
/// its 4-neighborhood floods; every other cell keeps its state.
pub open spec fn flooded(cells: Seq<CellState>, width: int, i: int) -> CellState {
    if cells[i] == CellState::Open && neighbor_count(cells, width, i, CellState::Water, false) > 0 {
        CellState::Water
    } else {
        cells[i]
    }
}

/// One flood step, taken by every cell at once from the same snapshot.
pub open spec fn flood_step_of(cells: Seq<CellState>, width: int) -> Seq<CellState> {
    Seq::new(cells.len(), |i: int| flooded(cells, width, i))
}

/// `n` flood steps in a row.
pub open spec fn flood_steps(cells: Seq<CellState>, width: int, n: nat) -> Seq<CellState>
    decreases n,
{
    if n == 0 {
        cells
    } else {
        flood_step_of(flood_steps(cells, width, (n - 1) as nat), width)
    }
}

/// No open cell touches water orthogonally: a flood step changes nothing.
pub open spec fn saturated(cells: Seq<CellState>, width: int) -> bool {
    forall|i: int|
        0 <= i < cells.len() && cells[i] == CellState::Open ==> neighbor_count(
            cells,
            width,
            i,
            CellState::Water,
            false,
        ) == 0
}

/// Cells `a` and `b` are one step apart, up, down, left or right.
pub open spec fn orth_adjacent(width: int, a: int, b: int) -> bool {
    let dx = column_of(width, b) - column_of(width, a);
    let dy = row_of(width, b) - row_of(width, a);
    (dx == 0 && (dy == 1 || dy == -1)) || (dy == 0 && (dx == 1 || dx == -1))
}

/// `path` is a non-empty walk of orthogonal steps over open cells.
pub open spec fn open_path(cells: Seq<CellState>, width: int, path: Seq<int>) -> bool {
    &&& path.len() > 0
    &&& forall|m: int|
        0 <= m < path.len() ==> 0 <= #[trigger] path[m] < cells.len() && cells[path[m]]
            == CellState::Open
    &&& forall|m: int|
        0 <= m < path.len() - 1 ==> orth_adjacent(width, #[trigger] path[m], path[m + 1])
}

/// `to` can be reached from `from` through open cells by orthogonal steps.
pub open spec fn reachable(cells: Seq<CellState>, width: int, from: int, to: int) -> bool {
    exists|p: Seq<int>| open_path(cells, width, p) && p[0] == from && p.last() == to
}

/// Number of open cells.
pub open spec fn open_count(cells: Seq<CellState>) -> nat
    decreases cells.len(),
{
    if cells.len() == 0 {
        0
    } else {
        open_count(cells.drop_last()) + if cells.last() == CellState::Open {
            1nat
        } else {
            0nat
        }
    }
}

/// What holds of a flood from `seed` that started on `start`: only cells
/// that were open and are reachable from the seed have turned to water.
pub open spec fn flood_invariant(
    start: Seq<CellState>,
    cur: Seq<CellState>,
    width: int,
    seed: int,
) -> bool {
    &&& cur.len() == start.len()
    &&& 0 <= seed < cur.len()
    &&& cur[seed] == CellState::Water
    &&& forall|t: int|
        0 <= t < cur.len() ==> #[trigger] cur[t] == start[t] || (start[t] == CellState::Open
            && cur[t] == CellState::Water && reachable(start, width, seed, t))
}

/// The column and row of a cell determine it.
proof fn lemma_same_position(width: int, a: int, b: int)
    requires
        width > 0,
        0 <= a,
        0 <= b,
        column_of(width, a) == column_of(width, b),
        row_of(width, a) == row_of(width, b),
    ensures
        a == b,
{
    lemma_fundamental_div_mod(a, width);
    lemma_fundamental_div_mod(b, width);
}

/// The row of a cell lies on the grid.
proof fn lemma_position_bounds(width: int, height: int, a: int)
    requires
        width > 0,
        0 <= a < width * height,
    ensures
        0 <= column_of(width, a) < width,
        0 <= row_of(width, a) < height,
{
    lemma_mod_pos_bound(a, width);
    lemma_fundamental_div_mod(a, width);
    let x = column_of(width, a);
    let y = row_of(width, a);
    assert(0 <= y < height) by (nonlinear_arith)
        requires
            a == width * y + x,
            0 <= x < width,
            0 <= a < width * height,
            width > 0,
    ;
}

/// A cell in state `target` next to `a` makes the 4-neighbor count of `a`
/// positive.
pub proof fn lemma_adjacent_counts(
    cells: Seq<CellState>,
    width: int,
    height: int,
    a: int,
    b: int,
    target: CellState,
)
    requires
        width > 0,
        height > 0,
        cells.len() == width * height,
        0 <= a < cells.len(),
        0 <= b < cells.len(),
        orth_adjacent(width, a, b),
        cells[b] == target,
    ensures
        neighbor_count(cells, width, a, target, false) > 0,
{
    let dx = column_of(width, b) - column_of(width, a);
    let dy = row_of(width, b) - row_of(width, a);
    let k = (dx + 1) * 3 + (dy + 1);
    assert(offset_dx(k) == dx && offset_dy(k) == dy);
    lemma_position_bounds(width, height, a);
    lemma_position_bounds(width, height, b);
    lemma_neighbor_position_on_grid(width, height, a, k);
    assert(offset_in_grid(width, cells.len() as int, a, dx, dy));
    lemma_same_position(width, offset_target(width, a, k), b);
    assert(neighbor_matches(cells, width, a, target, false, k));
    lemma_witness_counts(cells, width, a, target, false, k, 9);
}

/// A positive 4-neighbor count of `a` names an adjacent cell in state
/// `target`.
pub proof fn lemma_count_gives_adjacent(
    cells: Seq<CellState>,
    width: int,
    height: int,
    a: int,
    target: CellState,
) -> (b: int)
    requires
        width > 0,
        height > 0,
        cells.len() == width * height,
        0 <= a < cells.len(),
        neighbor_count(cells, width, a, target, false) > 0,
    ensures
        0 <= b < cells.len(),
        cells[b] == target,
        orth_adjacent(width, a, b),
        exists|k: int| 0 <= k < 9 && neighbor_matches(cells, width, a, target, false, k) && b == offset_target(width, a, k),
{
    lemma_count_witness(cells, width, a, target, false, 9);
    let k = choose|k: int| 0 <= k < 9 && neighbor_matches(cells, width, a, target, false, k);
    lemma_neighbor_position_on_grid(width, height, a, k);
    assert(offset_considered(k, false));
    offset_target(width, a, k)
}

/// Appending an adjacent open cell to an open path gives an open path.
proof fn lemma_extend_path(cells: Seq<CellState>, width: int, p: Seq<int>, t: int)
    requires
        open_path(cells, width, p),
        0 <= t < cells.len(),
        cells[t] == CellState::Open,
        orth_adjacent(width, p.last(), t),
    ensures
        open_path(cells, width, p.push(t)),
        p.push(t)[0] == p[0],
        p.push(t).last() == t,
{
    let q = p.push(t);
    assert forall|m: int| 0 <= m < q.len() - 1 implies orth_adjacent(width, #[trigger] q[m], q[m + 1]) by {
        if m < p.len() - 1 {
            assert(q[m] == p[m] && q[m + 1] == p[m + 1]);
        }
    }
    assert forall|m: int| 0 <= m < q.len() implies 0 <= #[trigger] q[m] < cells.len() && cells[q[m]]
        == CellState::Open by {
        if m < p.len() {
            assert(q[m] == p[m]);
        }
    }
}

/// A flood step keeps the invariant of a flood that started on a
/// saturated grid.
proof fn lemma_step_keeps_invariant(
    start: Seq<CellState>,
    cur: Seq<CellState>,
    width: int,
    height: int,
    seed: int,
)
    requires
        width > 0,
        height > 0,
        start.len() == width * height,
        saturated(start, width),
        flood_invariant(start, cur, width, seed),
    ensures
        flood_invariant(start, flood_step_of(cur, width), width, seed),
{
    let next = flood_step_of(cur, width);
    assert forall|t: int| 0 <= t < next.len() implies #[trigger] next[t] == start[t] || (start[t]
        == CellState::Open && next[t] == CellState::Water && reachable(start, width, seed, t)) by {
        assert(cur[t] == start[t] || (start[t] == CellState::Open && cur[t] == CellState::Water
            && reachable(start, width, seed, t)));
        if next[t] != cur[t] {
            let j = lemma_count_gives_adjacent(cur, width, height, t, CellState::Water);
            let k = choose|k: int|
                0 <= k < 9 && neighbor_matches(cur, width, t, CellState::Water, false, k) && j
                    == offset_target(width, t, k);
            assert(cur[j] == start[j] || (start[j] == CellState::Open && cur[j] == CellState::Water
                && reachable(start, width, seed, j)));
            if start[j] == CellState::Water {
                assert(neighbor_matches(start, width, t, CellState::Water, false, k));
                lemma_witness_counts(start, width, t, CellState::Water, false, k, 9);
            } else {
                let p = choose|p: Seq<int>|
                    open_path(start, width, p) && p[0] == seed && p.last() == j;
                lemma_extend_path(start, width, p, t);
            }
        }
    }
}

/// Once the flood is saturated, every cell reachable from the seed through
/// open cells of the starting grid holds water.
proof fn lemma_saturated_covers_path(
    start: Seq<CellState>,
    cur: Seq<CellState>,
    width: int,
    height: int,
    seed: int,
    p: Seq<int>,
    m: int,
)
    requires
        width > 0,
        height > 0,
        start.len() == width * height,
        flood_invariant(start, cur, width, seed),
        saturated(cur, width),
        open_path(start, width, p),
        p[0] == seed,
        0 <= m < p.len(),
    ensures
        cur[p[m]] == CellState::Water,
    decreases m,
{
    if m > 0 {
        lemma_saturated_covers_path(start, cur, width, height, seed, p, m - 1);
        let a = p[m - 1];
        let b = p[m];
        assert(orth_adjacent(width, a, b));
        assert(0 <= b < start.len() && start[b] == CellState::Open);
        assert(cur[b] == start[b] || cur[b] == CellState::Water);
        if cur[b] == CellState::Open {
            lemma_adjacent_counts(cur, width, height, b, a, CellState::Water);
        }
    }
}

/// Turning open cells into other states, and no other change, lowers the
/// number of open cells, strictly when at least one open cell is turned.
proof fn lemma_open_count_shrinks(a: Seq<CellState>, b: Seq<CellState>)
    requires
        a.len() == b.len(),
        forall|i: int| 0 <= i < a.len() && b[i] == CellState::Open ==> a[i] == CellState::Open,
    ensures
        open_count(b) <= open_count(a),
        (exists|i: int| 0 <= i < a.len() && a[i] == CellState::Open && b[i] != CellState::Open)
            ==> open_count(b) < open_count(a),
    decreases a.len(),
{
    if a.len() > 0 {
        let a2 = a.drop_last();
        let b2 = b.drop_last();
        assert forall|i: int| 0 <= i < a2.len() && b2[i] == CellState::Open implies a2[i]
            == CellState::Open by {
            assert(a2[i] == a[i] && b2[i] == b[i]);
        }
        lemma_open_count_shrinks(a2, b2);
        if exists|i: int| 0 <= i < a.len() && a[i] == CellState::Open && b[i] != CellState::Open {
            let i = choose|i: int|
                0 <= i < a.len() && a[i] == CellState::Open && b[i] != CellState::Open;
            if i < a.len() - 1 {
                assert(a2[i] == a[i] && b2[i] == b[i]);
            }
        }
    }
}

/// A flood step that spreads turns at least one open cell to water, and
/// only open cells change.
proof fn lemma_step_lowers_open_count(cells: Seq<CellState>, width: int)
    ensures
        open_count(flood_step_of(cells, width)) <= open_count(cells),
        !saturated(cells, width) ==> open_count(flood_step_of(cells, width)) < open_count(cells),
        saturated(cells, width) ==> flood_step_of(cells, width) == cells,
{
    let next = flood_step_of(cells, width);
    lemma_open_count_shrinks(cells, next);
    if !saturated(cells, width) {
        let i = choose|i: int|
            0 <= i < cells.len() && cells[i] == CellState::Open && neighbor_count(
                cells,
                width,
                i,
                CellState::Water,
                false,
            ) != 0;
        assert(next[i] == CellState::Water);
    } else {
        assert(next =~= cells);
    }
}

/// A grid with no water is saturated.
pub proof fn lemma_dry_is_saturated(cells: Seq<CellState>, width: int)
    requires
        forall|i: int| 0 <= i < cells.len() ==> cells[i] != CellState::Water,
    ensures
        saturated(cells, width),
{
    assert forall|i: int| 0 <= i < cells.len() && cells[i] == CellState::Open implies neighbor_count(
        cells,
        width,
        i,
        CellState::Water,
        false,
    ) == 0 by {
        crate::neighbors::lemma_count_absent(cells, width, i, CellState::Water, false, 9);
    }
}

impl Grid {
    /// Applies one flood step to the whole grid from a snapshot of it, and
    /// tells whether any cell flooded.
    pub fn flood_step(&mut self) -> (spread: bool)
        requires
            old(self).wf(),
        ensures
            final(self).wf(),
            final(self).width == old(self).width,
            final(self).height == old(self).height,
            final(self).cells@ == flood_step_of(old(self).cells@, old(self).width as int),
            spread == !saturated(old(self).cells@, old(self).width as int),
            spread == (final(self).cells@ != old(self).cells@),
    {
        let n = self.cells.len();
        let ghost before = self.cells@;
        let ghost w = self.width as int;
        let mut next: Vec<CellState> = Vec::with_capacity(n);
        let mut spread = false;
        let mut i: usize = 0;
        while i < n
            invariant
                self.wf(),
                self.cells@ == before,
                w == self.width,
                n == before.len(),
                i <= n,
                next@.len() == i,
                forall|j: int| 0 <= j < i ==> next@[j] == flooded(before, w, j),
                spread == (exists|j: int|
                    0 <= j < i && before[j] == CellState::Open && neighbor_count(
                        before,
                        w,
                        j,
                        CellState::Water,
                        false,
                    ) > 0),
            decreases n - i,
        {
            let cell = self.cells[i];
            let mut out = cell;
            if cell == CellState::Open {
                let count = count_neighbors(self, i, CellState::Water, false);
                if count > 0 {
                    out = CellState::Water;
                    spread = true;
                }
            }
            proof {
                if !spread {
                    assert forall|j: int|
                        0 <= j < i + 1 && before[j] == CellState::Open implies !(neighbor_count(
                        before,
                        w,
                        j,
                        CellState::Water,
                        false,
                    ) > 0) by {
                        if j < i {
                        }
                    }
                }
            }
            next.push(out);
            i += 1;
        }
        proof {
            assert(next@ =~= flood_step_of(before, w));
            lemma_step_lowers_open_count(before, w);
        }
        self.cells = next;
        spread
    }

    /// Floods from the open cell `seed` until saturation. On a grid that
    /// starts saturated (for instance one with no water), a cell ends as
    /// water exactly when it already was, or it was open and is reachable
    /// from the seed through open cells by orthogonal steps; every other
    /// cell keeps its state.
    pub fn flood_from(&mut self, seed: usize)
        requires
            old(self).wf(),
            seed < old(self).cells@.len(),
            old(self).cells@[seed as int] == CellState::Open,
            saturated(old(self).cells@, old(self).width as int),
        ensures
            final(self).wf(),
            final(self).width == old(self).width,
            final(self).height == old(self).height,
            saturated(final(self).cells@, final(self).width as int),
            forall|t: int|
                0 <= t < old(self).cells@.len() ==> (#[trigger] final(self).cells@[t]
                    == CellState::Water <==> (old(self).cells@[t] == CellState::Water || reachable(
                    old(self).cells@,
                    old(self).width as int,
                    seed as int,
                    t,
                ))),
            forall|t: int|
                0 <= t < old(self).cells@.len() && #[trigger] final(self).cells@[t]
                    != CellState::Water ==> final(self).cells@[t] == old(self).cells@[t],
    {
        let ghost start = self.cells@;
        let ghost w = self.width as int;
        let ghost h = self.height as int;
        proof {
            let p = seq![seed as int];
            assert(open_path(start, w, p));
            assert(p[0] == seed as int && p.last() == seed as int);
            assert(reachable(start, w, seed as int, seed as int));
        }
        self.cells.set(seed, CellState::Water);
        proof {
            let cur = self.cells@;
            assert forall|t: int| 0 <= t < cur.len() implies #[trigger] cur[t] == start[t] || (
            start[t] == CellState::Open && cur[t] == CellState::Water && reachable(
                start,
                w,
                seed as int,
                t,
            )) by {
                if t != seed as int {
                    assert(cur[t] == start[t]);
                }
            }
        }
        let mut spreading = true;
        while spreading
            invariant
                self.wf(),
                self.width == w,
                self.height == h,
                start.len() == w * h,
                saturated(start, w),
                flood_invariant(start, self.cells@, w, seed as int),
                !spreading ==> saturated(self.cells@, w),
            decreases 2 * open_count(self.cells@) + if spreading {
                1int
            } else {
                0int
            },
        {
            let ghost cur = self.cells@;
            proof {
                lemma_step_keeps_invariant(start, cur, w, h, seed as int);
                lemma_step_lowers_open_count(cur, w);
            }
            spreading = self.flood_step();
        }
        proof {
            let fin = self.cells@;
            assert forall|t: int| 0 <= t < start.len() implies (#[trigger] fin[t] == CellState::Water
                <==> (start[t] == CellState::Water || reachable(start, w, seed as int, t))) by {
                if reachable(start, w, seed as int, t) {
                    let p = choose|p: Seq<int>|
                        open_path(start, w, p) && p[0] == seed as int && p.last() == t;
                    lemma_saturated_covers_path(start, fin, w, h, seed as int, p, p.len() - 1);
                }
            }
        }
    }
}

/// A flood step only turns open cells to water.
pub proof fn lemma_flood_step_only_floods(cells: Seq<CellState>, width: int)
    ensures
        flood_step_of(cells, width).len() == cells.len(),
        forall|i: int|
            0 <= i < cells.len() && #[trigger] flood_step_of(cells, width)[i] != cells[i] ==> (
            cells[i] == CellState::Open && flood_step_of(cells, width)[i] == CellState::Water),
{
}

/// Flooding is monotonic: a cell that holds water after `n` steps still
/// holds water after any later step, so the water only grows.
pub proof fn lemma_flood_monotonic(cells: Seq<CellState>, width: int, n: nat, m: nat)
    requires
        n <= m,
    ensures
        flood_steps(cells, width, m).len() == cells.len(),
        forall|i: int|
            0 <= i < cells.len() && flood_steps(cells, width, n)[i] == CellState::Water
                ==> #[trigger] flood_steps(cells, width, m)[i] == CellState::Water,
    decreases m,
{
    if m > 0 {
        lemma_flood_monotonic(cells, width, 0, (m - 1) as nat);
        if n < m {
            lemma_flood_monotonic(cells, width, n, (m - 1) as nat);
            lemma_flood_step_only_floods(flood_steps(cells, width, (m - 1) as nat), width);
        }
    }
}

/// Every number of steps of a flood seeded on a saturated grid keeps the
/// flood invariant.
proof fn lemma_steps_keep_invariant(
    start: Seq<CellState>,
    width: int,
    height: int,
    seed: int,
    n: nat,
)
    requires
        width > 0,
        height > 0,
        start.len() == width * height,
        saturated(start, width),
        0 <= seed < start.len(),
        start[seed] == CellState::Open,
    ensures
        flood_invariant(start, flood_steps(start.update(seed, CellState::Water), width, n), width, seed),
    decreases n,
{
    if n == 0 {
        let cur = start.update(seed, CellState::Water);
        let p = seq![seed];
        assert(open_path(start, width, p));
        assert(p[0] == seed && p.last() == seed);
        assert forall|t: int| 0 <= t < cur.len() implies #[trigger] cur[t] == start[t] || (start[t]
            == CellState::Open && cur[t] == CellState::Water && reachable(start, width, seed, t)) by {
        }
    } else {
        lemma_steps_keep_invariant(start, width, height, seed, (n - 1) as nat);
        lemma_step_keeps_invariant(
            start,
            flood_steps(start.update(seed, CellState::Water), width, (n - 1) as nat),
            width,
            height,
            seed,
        );
    }
}

/// Saturation is exactly 4-connected reachability: on a grid without
/// water, once the flood seeded at an open cell saturates, a cell holds
/// water exactly when it is reachable from the seed through open cells by
/// orthogonal steps.
pub proof fn lemma_saturation_is_reachability(
    cells: Seq<CellState>,
    width: int,
    height: int,
    seed: int,
    n: nat,
)
    requires
        width > 0,
        height > 0,
        cells.len() == width * height,
        forall|i: int| 0 <= i < cells.len() ==> cells[i] != CellState::Water,
        0 <= seed < cells.len(),
        cells[seed] == CellState::Open,
        saturated(flood_steps(cells.update(seed, CellState::Water), width, n), width),
    ensures
        forall|t: int|
            0 <= t < cells.len() ==> (#[trigger] flood_steps(
                cells.update(seed, CellState::Water),
                width,
                n,
            )[t] == CellState::Water <==> reachable(cells, width, seed, t)),
{
    lemma_dry_is_saturated(cells, width);
    lemma_steps_keep_invariant(cells, width, height, seed, n);
    let fin = flood_steps(cells.update(seed, CellState::Water), width, n);
    assert forall|t: int| 0 <= t < cells.len() implies (#[trigger] fin[t] == CellState::Water
        <==> reachable(cells, width, seed, t)) by {
        if reachable(cells, width, seed, t) {
            let p = choose|p: Seq<int>| open_path(cells, width, p) && p[0] == seed && p.last() == t;
            lemma_saturated_covers_path(cells, fin, width, height, seed, p, p.len() - 1);
        }
    }
}

} // verus!
