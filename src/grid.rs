use vstd::prelude::*;

verus! {

/// The largest number of cells a grid may hold, so that index arithmetic
/// around any cell stays well inside `usize`.
pub const MAX_CELLS: usize = 0x3fff_ffff;

/// The state of one cell.
#[derive(Clone, Copy, Debug, PartialEq, Eq, Structural)]
pub enum CellState {
    /// Impassable terrain: the automaton's dead state.
    Wall,
    /// Passable terrain: the automaton's live state.
    Open,
    /// Passable terrain that the flood has reached.
    Water,
}

/// A rectangular grid of cells stored row by row: cell `(x, y)` is at
/// index `x + y * width`. Edges do not wrap.
#[derive(Clone, Debug)]
pub struct Grid {
    pub width: usize,
    pub height: usize,
    pub cells: Vec<CellState>,
}

/// Whether `width` by `height` is an admissible grid shape.
pub open spec fn valid_shape(width: int, height: int) -> bool {
    width > 0 && height > 0 && width * height <= MAX_CELLS
}

/// Column of a cell index.
pub open spec fn column_of(width: int, index: int) -> int {
    index % width
}

/// Row of a cell index.
pub open spec fn row_of(width: int, index: int) -> int {
    index / width
}

impl Grid {
    /// The shape is admissible and the buffer holds one cell per position.
    pub open spec fn wf(&self) -> bool {
        &&& valid_shape(self.width as int, self.height as int)
        &&& self.cells@.len() == self.width * self.height
    }

    /// A grid of the given shape with every cell in state `fill`.
    pub fn filled(width: usize, height: usize, fill: CellState) -> (g: Grid)
        requires
            valid_shape(width as int, height as int),
        ensures
            g.wf(),
            g.width == width,
            g.height == height,
            forall|i: int| 0 <= i < g.cells@.len() ==> g.cells@[i] == fill,
    {
        let n = width * height;
        let mut cells: Vec<CellState> = Vec::with_capacity(n);
        let mut i: usize = 0;
        while i < n
            invariant
                i <= n,
                cells@.len() == i,
                forall|j: int| 0 <= j < i ==> cells@[j] == fill,
            decreases n - i,
        {
            cells.push(fill);
            i += 1;
        }
        Grid { width, height, cells }
    }

    /// A grid built from a row-major buffer; `None` when the shape is not
    /// admissible or the buffer does not hold exactly `width * height` cells.
    pub fn from_cells(width: usize, height: usize, cells: Vec<CellState>) -> (r: Option<Grid>)
        ensures
            r.is_some() <==> (valid_shape(width as int, height as int) && cells@.len()
                == width * height),
            r.is_some() ==> ({
                let g = r.unwrap();
                g.wf() && g.width == width && g.height == height && g.cells@ == cells@
            }),
    {
        if width == 0 || height == 0 || width > MAX_CELLS / height {
            proof {
                if width > 0 && height > 0 {
                    assert(width * height > MAX_CELLS) by (nonlinear_arith)
                        requires
                            width > MAX_CELLS / height,
                            height > 0,
                    ;
                }
            }
            return None;
        }
        proof {
            assert(width * height <= MAX_CELLS) by (nonlinear_arith)
                requires
                    width <= MAX_CELLS / height,
                    height > 0,
            ;
        }
        if cells.len() != width * height {
            return None;
        }
        Some(Grid { width, height, cells })
    }

    /// Number of columns.
    pub fn width(&self) -> (r: usize)
        ensures
            r == self.width,
    {
        self.width
    }

    /// Number of rows.
    pub fn height(&self) -> (r: usize)
        ensures
            r == self.height,
    {
        self.height
    }

    /// Number of cells.
    pub fn len(&self) -> (r: usize)
        ensures
            r == self.cells@.len(),
    {
        self.cells.len()
    }

    /// The state of the cell at `index`.
    pub fn get(&self, index: usize) -> (r: CellState)
        requires
            index < self.cells@.len(),
        ensures
            r == self.cells@[index as int],
    {
        self.cells[index]
    }

    /// Puts the cell at `index` into state `state`; nothing else changes.
    pub fn set(&mut self, index: usize, state: CellState)
        requires
            index < old(self).cells@.len(),
        ensures
            final(self).width == old(self).width,
            final(self).height == old(self).height,
            final(self).cells@ == old(self).cells@.update(index as int, state),
    {
        self.cells.set(index, state);
    }

    /// The index of the cell in column `x` and row `y`.
    pub fn index_of(&self, x: usize, y: usize) -> (r: usize)
        requires
            self.wf(),
            x < self.width,
            y < self.height,
        ensures
            r == x + y * self.width,
            r < self.cells@.len(),
            column_of(self.width as int, r as int) == x,
            row_of(self.width as int, r as int) == y,
    {
        proof {
            assert(x + y * self.width < self.width * self.height) by (nonlinear_arith)
                requires
                    x < self.width,
                    y < self.height,
            ;
            vstd::arithmetic::div_mod::lemma_fundamental_div_mod_converse(
                x + y * self.width,
                self.width as int,
                y as int,
                x as int,
            );
        }
        x + y * self.width
    }
}

} // verus!
