use vstd::prelude::*;
use crate::grid::{CellState, Grid, valid_shape};

verus! {

/// Largest draw of the usual random fill: draws run over `0..=13`.
pub const DEFAULT_DRAW_MAX: u32 = 13;

/// Draws below this bound make a wall in the usual random fill: six of the
/// fourteen equally likely draws.
pub const DEFAULT_WALL_BELOW: u32 = 6;

/// Relies on rand::Rng::gen_range with rand::thread_rng, over the inclusive
/// range `0..=max` (never empty): the draw lies in that range.
#[verifier::external_body]
fn draw_up_to(max: u32) -> (r: u32)
    ensures
        r <= max,
{
    rand::Rng::gen_range(&mut rand::thread_rng(), 0..=max)
}

/// The cell that a random draw makes: a wall below `wall_below`, open
/// otherwise.
pub fn cell_for_draw(draw: u32, wall_below: u32) -> (r: CellState)
    ensures
        r == if draw < wall_below {
            CellState::Wall
        } else {
            CellState::Open
        },
{
    if draw < wall_below {
        CellState::Wall
    } else {
        CellState::Open
    }
}

/// A grid of the given shape filled at random: each cell takes one uniform
/// draw in `0..=draw_max` and is a wall when the draw is below
/// `wall_below`, open otherwise. No cell holds water.
pub fn create_grid(width: usize, height: usize, draw_max: u32, wall_below: u32) -> (g: Grid)
    requires
        valid_shape(width as int, height as int),
    ensures
        g.wf(),
        g.width == width,
        g.height == height,
        forall|i: int|
            0 <= i < g.cells@.len() ==> #[trigger] g.cells@[i] == CellState::Wall || g.cells@[i]
                == CellState::Open,
        wall_below == 0 ==> forall|i: int|
            0 <= i < g.cells@.len() ==> #[trigger] g.cells@[i] == CellState::Open,
        wall_below > draw_max ==> forall|i: int|
            0 <= i < g.cells@.len() ==> #[trigger] g.cells@[i] == CellState::Wall,
{
    let n = width * height;
    let mut cells: Vec<CellState> = Vec::with_capacity(n);
    let mut i: usize = 0;
    while i < n
        invariant
            i <= n,
            cells@.len() == i,
            forall|j: int|
                0 <= j < i ==> #[trigger] cells@[j] == CellState::Wall || cells@[j]
                    == CellState::Open,
            wall_below == 0 ==> forall|j: int| 0 <= j < i ==> #[trigger] cells@[j] == CellState::Open,
            wall_below > draw_max ==> forall|j: int|
                0 <= j < i ==> #[trigger] cells@[j] == CellState::Wall,
        decreases n - i,
    {
        let draw = draw_up_to(draw_max);
        cells.push(cell_for_draw(draw, wall_below));
        i += 1;
    }
    Grid { width, height, cells }
}

} // verus!
