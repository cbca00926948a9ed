use vstd::prelude::*;
use vstd::arithmetic::div_mod::{
    lemma_fundamental_div_mod, lemma_fundamental_div_mod_converse, lemma_mod_pos_bound,
};
use crate::grid::{CellState, Grid, MAX_CELLS, column_of, row_of};

verus! {

/// Horizontal displacement of the `k`-th of the nine offsets around a cell.
pub open spec fn offset_dx(k: int) -> int {
    k / 3 - 1
}

/// Vertical displacement of the `k`-th of the nine offsets around a cell.
pub open spec fn offset_dy(k: int) -> int {
    k % 3 - 1
}

/// Whether offset `k` is looked at: never the centre, and only the four
/// orthogonal ones unless diagonals are included.
pub open spec fn offset_considered(k: int, diagonals: bool) -> bool {
    let dx = offset_dx(k);
    let dy = offset_dy(k);
    !(dx == 0 && dy == 0) && (diagonals || dx == 0 || dy == 0)
}

/// The clipping rule: the displaced index lies in the buffer, and a step
/// left from the first column or right from the last one is refused.
pub open spec fn offset_in_grid(width: int, len: int, index: int, dx: int, dy: int) -> bool {
    let j = index + dx + dy * width;
    &&& 0 <= j < len
    &&& !(dx == -1 && index % width == 0)
    &&& !(dx == 1 && (index + 1) % width == 0)
}

/// Index reached from `index` by offset `k`.
pub open spec fn offset_target(width: int, index: int, k: int) -> int {
    index + offset_dx(k) + offset_dy(k) * width
}

/// Whether offset `k` around `index` is a neighbor in state `target`.
pub open spec fn neighbor_matches(
    cells: Seq<CellState>,
    width: int,
    index: int,
    target: CellState,
    diagonals: bool,
    k: int,
) -> bool {
    &&& offset_considered(k, diagonals)
    &&& offset_in_grid(width, cells.len() as int, index, offset_dx(k), offset_dy(k))
    &&& cells[offset_target(width, index, k)] == target
}

/// Number of the first `n` offsets around `index` that are neighbors in
/// state `target`.
pub open spec fn count_matches(
    cells: Seq<CellState>,
    width: int,
    index: int,
    target: CellState,
    diagonals: bool,
    n: nat,
) -> nat
    decreases n,
{
    if n == 0 {
        0
    } else {
        count_matches(cells, width, index, target, diagonals, (n - 1) as nat) + if neighbor_matches(
            cells,
            width,
            index,
            target,
            diagonals,
            n - 1,
        ) {
            1nat
        } else {
            0nat
        }
    }
}

/// Number of neighbors of `index` in state `target`.
pub open spec fn neighbor_count(
    cells: Seq<CellState>,
    width: int,
    index: int,
    target: CellState,
    diagonals: bool,
) -> nat {
    count_matches(cells, width, index, target, diagonals, 9)
}

/// Counts the neighbors of the cell at `index` that are in state `target`,
/// over the 8-neighborhood when `diagonals` holds and the 4-neighborhood
/// otherwise. Cells beyond an edge are absent; edges never wrap.
pub fn count_neighbors(grid: &Grid, index: usize, target: CellState, diagonals: bool) -> (r: u32)
    requires
        grid.wf(),
        index < grid.cells@.len(),
    ensures
        r as nat == neighbor_count(grid.cells@, grid.width as int, index as int, target, diagonals),
        r <= 8,
{
    let w = grid.width;
    let len = grid.cells.len();
    let ghost cells = grid.cells@;
    proof {
        assert(w <= len) by (nonlinear_arith)
            requires
                len == w * grid.height,
                grid.height > 0,
        ;
    }
    let mut total: u32 = 0;
    let mut k: usize = 0;
    while k < 9
        invariant
            k <= 9,
            w == grid.width,
            len == cells.len(),
            cells == grid.cells@,
            w <= len <= MAX_CELLS,
            w > 0,
            index < len,
            total as nat == count_matches(cells, w as int, index as int, target, diagonals, k as nat),
            total <= k,
            k > 4 ==> total < k,
        decreases 9 - k,
    {
        let dxp = k / 3;
        let dyp = k % 3;
        let considered = !(dxp == 1 && dyp == 1) && (diagonals || dxp == 1 || dyp == 1);
        let shift: usize = if dyp == 0 {
            0
        } else if dyp == 1 {
            w
        } else {
            w + w
        };
        proof {
            let kk = k as int;
            assert(offset_dx(kk) == dxp - 1);
            assert(offset_dy(kk) == dyp - 1);
            let dy = offset_dy(kk);
            let wi = w as int;
            if dyp == 0 {
                assert(dy * wi == -wi) by (nonlinear_arith)
                    requires
                        dy == -1,
                ;
            } else if dyp == 1 {
                assert(dy * wi == 0) by (nonlinear_arith)
                    requires
                        dy == 0,
                ;
            } else {
                assert(dy * wi == wi) by (nonlinear_arith)
                    requires
                        dy == 1,
                ;
            }
            assert(dy * wi == shift - wi);
        }
        let mut hit = false;
        if considered && !(dxp == 0 && index % w == 0) && !(dxp == 2 && (index + 1) % w == 0) {
            let t = index + dxp + shift;
            if t >= w + 1 {
                let j = t - (w + 1);
                if j < len {
                    proof {
                        assert(j as int == offset_target(w as int, index as int, k as int));
                    }
                    hit = grid.cells[j] == target;
                }
            }
        }
        proof {
            let kk = k as int;
            assert(hit == neighbor_matches(cells, w as int, index as int, target, diagonals, kk));
        }
        if hit {
            total += 1;
        }
        k += 1;
    }
    total
}

/// Relates the clipping rule to grid coordinates for one displacement.
proof fn lemma_offset_geometry(width: int, height: int, index: int, dx: int, dy: int)
    requires
        width > 0,
        height > 0,
        0 <= index < width * height,
        -1 <= dx <= 1,
        -1 <= dy <= 1,
    ensures
        offset_in_grid(width, width * height, index, dx, dy) <==> (0 <= column_of(width, index)
            + dx < width && 0 <= row_of(width, index) + dy < height),
        offset_in_grid(width, width * height, index, dx, dy) ==> (column_of(
            width,
            index + dx + dy * width,
        ) == column_of(width, index) + dx && row_of(width, index + dx + dy * width) == row_of(
            width,
            index,
        ) + dy),
{
    let x = index % width;
    let y = index / width;
    let len = width * height;
    lemma_fundamental_div_mod(index, width);
    lemma_mod_pos_bound(index, width);
    assert(index == y * width + x) by (nonlinear_arith)
        requires
            index == width * y + x,
    ;
    assert(0 <= y < height) by (nonlinear_arith)
        requires
            index == y * width + x,
            0 <= x < width,
            0 <= index < width * height,
            width > 0,
    ;
    if x + 1 < width {
        lemma_fundamental_div_mod_converse(index + 1, width, y, x + 1);
    } else {
        assert(index + 1 == (y + 1) * width + 0) by (nonlinear_arith)
            requires
                index == y * width + x,
                x + 1 == width,
        ;
        lemma_fundamental_div_mod_converse(index + 1, width, y + 1, 0);
    }
    let j = index + dx + dy * width;
    let ny = y + dy;
    assert(j == (x + dx) + ny * width) by (nonlinear_arith)
        requires
            index == y * width + x,
            j == index + dx + dy * width,
            ny == y + dy,
    ;
    if 0 <= x + dx < width {
        lemma_fundamental_div_mod_converse(j, width, ny, x + dx);
        if ny < 0 {
            assert(ny * width <= -width) by (nonlinear_arith)
                requires
                    ny <= -1,
                    width > 0,
            ;
        } else if ny >= height {
            assert(ny * width >= width * height) by (nonlinear_arith)
                requires
                    ny >= height,
                    width > 0,
            ;
        } else {
            assert(0 <= ny * width <= (height - 1) * width) by (nonlinear_arith)
                requires
                    0 <= ny < height,
                    width > 0,
            ;
            assert((height - 1) * width == len - width) by (nonlinear_arith)
                requires
                    len == width * height,
            ;
            assert(0 <= j < len);
        }
        assert(!(dx == -1 && index % width == 0));
        assert(!(dx == 1 && (index + 1) % width == 0));
    } else {
        assert(!offset_in_grid(width, len, index, dx, dy));
    }
}

/// An offset around a cell is a neighbor position exactly when the
/// displaced column and row both lie on the grid, and the position it names
/// is that column and row: clipping never lets a neighborhood wrap around
/// to the opposite edge.
pub proof fn lemma_neighbor_position_on_grid(width: int, height: int, index: int, k: int)
    requires
        width > 0,
        height > 0,
        0 <= index < width * height,
        0 <= k < 9,
    ensures
        offset_in_grid(width, width * height, index, offset_dx(k), offset_dy(k)) <==> (0
            <= column_of(width, index) + offset_dx(k) < width && 0 <= row_of(width, index)
            + offset_dy(k) < height),
        offset_in_grid(width, width * height, index, offset_dx(k), offset_dy(k)) ==> (column_of(
            width,
            offset_target(width, index, k),
        ) == column_of(width, index) + offset_dx(k) && row_of(
            width,
            offset_target(width, index, k),
        ) == row_of(width, index) + offset_dy(k)),
{
    lemma_offset_geometry(width, height, index, offset_dx(k), offset_dy(k));
}

/// Away from the edges all eight surrounding positions are neighbors: on a
/// grid whose cells all share one state, an interior cell counts eight
/// neighbors in that state when diagonals are included.
pub proof fn lemma_interior_has_eight_neighbors(
    cells: Seq<CellState>,
    width: int,
    height: int,
    index: int,
)
    requires
        width > 0,
        height > 0,
        cells.len() == width * height,
        0 <= index < width * height,
        1 <= column_of(width, index) <= width - 2,
        1 <= row_of(width, index) <= height - 2,
        forall|j: int| 0 <= j < cells.len() ==> cells[j] == cells[index],
    ensures
        forall|k: int|
            0 <= k < 9 && offset_considered(k, true) ==> offset_in_grid(
                width,
                width * height,
                index,
                offset_dx(k),
                offset_dy(k),
            ),
        neighbor_count(cells, width, index, cells[index], true) == 8,
{
    assert forall|k: int| 0 <= k < 9 && offset_considered(k, true) implies offset_in_grid(
        width,
        width * height,
        index,
        offset_dx(k),
        offset_dy(k),
    ) by {
        lemma_neighbor_position_on_grid(width, height, index, k);
    }
    reveal_with_fuel(count_matches, 10);
    assert(neighbor_count(cells, width, index, cells[index], true) == 8) by {
        assert(offset_considered(0, true));
        assert(offset_considered(1, true));
        assert(offset_considered(2, true));
        assert(offset_considered(3, true));
        assert(!offset_considered(4, true));
        assert(offset_considered(5, true));
        assert(offset_considered(6, true));
        assert(offset_considered(7, true));
        assert(offset_considered(8, true));
    }
}

/// With no cell in state `target`, no offset matches.
pub proof fn lemma_count_absent(
    cells: Seq<CellState>,
    width: int,
    index: int,
    target: CellState,
    diagonals: bool,
    n: nat,
)
    requires
        forall|j: int| 0 <= j < cells.len() ==> cells[j] != target,
    ensures
        count_matches(cells, width, index, target, diagonals, n) == 0,
    decreases n,
{
    if n > 0 {
        lemma_count_absent(cells, width, index, target, diagonals, (n - 1) as nat);
    }
}

/// A positive count has a matching offset among those counted.
pub proof fn lemma_count_witness(
    cells: Seq<CellState>,
    width: int,
    index: int,
    target: CellState,
    diagonals: bool,
    n: nat,
)
    requires
        count_matches(cells, width, index, target, diagonals, n) > 0,
    ensures
        exists|k: int| 0 <= k < n && neighbor_matches(cells, width, index, target, diagonals, k),
    decreases n,
{
    if !neighbor_matches(cells, width, index, target, diagonals, n - 1) {
        lemma_count_witness(cells, width, index, target, diagonals, (n - 1) as nat);
    }
}

/// A matching offset among those counted makes the count positive.
pub proof fn lemma_witness_counts(
    cells: Seq<CellState>,
    width: int,
    index: int,
    target: CellState,
    diagonals: bool,
    k: int,
    n: nat,
)
    requires
        0 <= k < n,
        neighbor_matches(cells, width, index, target, diagonals, k),
    ensures
        count_matches(cells, width, index, target, diagonals, n) > 0,
    decreases n,
{
    if k < n - 1 {
        lemma_witness_counts(cells, width, index, target, diagonals, k, (n - 1) as nat);
    }
}

} // verus!
