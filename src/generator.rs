use vstd::prelude::*;
use vstd::arithmetic::div_mod::{lemma_fundamental_div_mod, lemma_mod_pos_bound};
use crate::grid::{CellState, Grid, column_of, row_of};
use crate::neighbors::{
    count_matches, count_neighbors, lemma_count_absent, lemma_neighbor_position_on_grid,
    neighbor_count, neighbor_matches, offset_dx, offset_dy,
};

verus! {

/// The smoothing rule: an open cell with fewer than three open neighbors
/// closes, and any other cell with more than four open neighbors opens.
pub open spec fn smoothed(current: CellState, open_neighbors: nat) -> CellState {
    if current == CellState::Open {
        if open_neighbors < 3 {
            CellState::Wall
        } else {
            CellState::Open
        }
    } else {
        if open_neighbors > 4 {
            CellState::Open
        } else {
            CellState::Wall
        }
    }
}

/// One generation: every cell takes the smoothing rule at once, over the
/// open neighbors it had before the step (diagonals included).
pub open spec fn generation_step(cells: Seq<CellState>, width: int) -> Seq<CellState> {
    Seq::new(
        cells.len(),
        |i: int| smoothed(cells[i], neighbor_count(cells, width, i, CellState::Open, true)),
    )
}

/// The next state of one cell under the smoothing rule.
pub fn smooth_cell(current: CellState, open_neighbors: u32) -> (r: CellState)
    ensures
        r == smoothed(current, open_neighbors as nat),
{
    match current {
        CellState::Open => if open_neighbors < 3 {
            CellState::Wall
        } else {
            CellState::Open
        },
        _ => if open_neighbors > 4 {
            CellState::Open
        } else {
            CellState::Wall
        },
    }
}

impl Grid {
    /// Applies one generation to the whole grid from a snapshot of it, and
    /// tells whether the step was stable (no cell changed).
    pub fn generate_step(&mut self) -> (stable: bool)
        requires
            old(self).wf(),
        ensures
            final(self).wf(),
            final(self).width == old(self).width,
            final(self).height == old(self).height,
            final(self).cells@ == generation_step(old(self).cells@, old(self).width as int),
            stable == (final(self).cells@ == old(self).cells@),
    {
        let n = self.cells.len();
        let ghost before = self.cells@;
        let mut next: Vec<CellState> = Vec::with_capacity(n);
        let mut stable = true;
        let mut i: usize = 0;
        while i < n
            invariant
                self.wf(),
                self.cells@ == before,
                n == before.len(),
                i <= n,
                next@.len() == i,
                forall|j: int|
                    0 <= j < i ==> next@[j] == generation_step(before, self.width as int)[j],
                stable == (forall|j: int| 0 <= j < i ==> next@[j] == before[j]),
            decreases n - i,
        {
            let count = count_neighbors(self, i, CellState::Open, true);
            let cell = smooth_cell(self.cells[i], count);
            if cell != self.cells[i] {
                stable = false;
            }
            next.push(cell);
            i += 1;
        }
        proof {
            assert(next@ =~= generation_step(before, self.width as int));
            if !stable {
                let j = choose|j: int| 0 <= j < n && next@[j] != before[j];
                assert(next@[j] != before[j]);
            } else {
                assert(next@ =~= before);
            }
        }
        self.cells = next;
        stable
    }
}

/// A grid that is all wall stays all wall: no cell has an open neighbor,
/// so nothing is born.
pub proof fn lemma_all_wall_is_stable(cells: Seq<CellState>, width: int)
    requires
        forall|i: int| 0 <= i < cells.len() ==> cells[i] == CellState::Wall,
    ensures
        generation_step(cells, width) == cells,
{
    assert forall|i: int| 0 <= i < cells.len() implies generation_step(cells, width)[i]
        == cells[i] by {
        lemma_count_absent(cells, width, i, CellState::Open, true, 9);
    }
    assert(generation_step(cells, width) =~= cells);
}

/// A grid that is all open, at least two cells wide and two cells high,
/// stays all open: every cell, corners included, has at least three open
/// neighbors and survives.
pub proof fn lemma_all_open_is_stable(cells: Seq<CellState>, width: int, height: int)
    requires
        width >= 2,
        height >= 2,
        cells.len() == width * height,
        forall|i: int| 0 <= i < cells.len() ==> cells[i] == CellState::Open,
    ensures
        generation_step(cells, width) == cells,
{
    assert forall|i: int| 0 <= i < cells.len() implies generation_step(cells, width)[i]
        == cells[i] by {
        lemma_at_least_three_open(cells, width, height, i);
    }
    assert(generation_step(cells, width) =~= cells);
}

proof fn lemma_at_least_three_open(cells: Seq<CellState>, width: int, height: int, i: int)
    requires
        width >= 2,
        height >= 2,
        cells.len() == width * height,
        0 <= i < cells.len(),
        forall|j: int| 0 <= j < cells.len() ==> cells[j] == CellState::Open,
    ensures
        neighbor_count(cells, width, i, CellState::Open, true) >= 3,
{
    let x = column_of(width, i);
    let y = row_of(width, i);
    let dx: int = if x == 0 {
        1
    } else {
        -1
    };
    let dy: int = if y == 0 {
        1
    } else {
        -1
    };
    lemma_mod_pos_bound(i, width);
    lemma_fundamental_div_mod(i, width);
    assert(0 <= y < height) by (nonlinear_arith)
        requires
            i == width * y + x,
            0 <= x < width,
            0 <= i < width * height,
            width > 0,
    ;
    let k_side = (dx + 1) * 3 + 1;
    let k_vert = 3 + (dy + 1);
    let k_diag = (dx + 1) * 3 + (dy + 1);
    lemma_neighbor_position_on_grid(width, height, i, k_side);
    lemma_neighbor_position_on_grid(width, height, i, k_vert);
    lemma_neighbor_position_on_grid(width, height, i, k_diag);
    assert(offset_dx(k_side) == dx && offset_dy(k_side) == 0);
    assert(offset_dx(k_vert) == 0 && offset_dy(k_vert) == dy);
    assert(offset_dx(k_diag) == dx && offset_dy(k_diag) == dy);
    assert(neighbor_matches(cells, width, i, CellState::Open, true, k_side));
    assert(neighbor_matches(cells, width, i, CellState::Open, true, k_vert));
    assert(neighbor_matches(cells, width, i, CellState::Open, true, k_diag));
    reveal_with_fuel(count_matches, 10);
}

/// Generation is idempotent at a fixed point: a grid that one step leaves
/// unchanged is left unchanged by the next step too.
pub proof fn lemma_fixed_point_is_idempotent(cells: Seq<CellState>, width: int)
    requires
        generation_step(cells, width) == cells,
    ensures
        generation_step(generation_step(cells, width), width) == generation_step(cells, width),
{
}

} // verus!
