//! Fixed-size boolean cell storage with wraparound (toroidal) addressing.

use vstd::arithmetic::div_mod::lemma_fundamental_div_mod;
use vstd::arithmetic::div_mod::lemma_mod_bound;
use vstd::arithmetic::div_mod::lemma_mod_multiples_vanish;
use vstd::arithmetic::div_mod::lemma_small_mod;
use vstd::pervasive::VecAdditionalExecFns;
use vstd::prelude::*;

verus! {

/// A single cell: alive or dead. A value type with no identity beyond its
/// grid position.
#[derive(Copy, Clone, PartialEq, Eq, Structural, Debug)]
pub struct Cell {
    pub alive: bool,
}

/// A grid coordinate. Any pair of signed integers addresses some cell:
/// bounds are resolved only at the point of indexing, by wraparound.
#[derive(Copy, Clone, PartialEq, Eq, Structural, Debug)]
pub struct Pos {
    pub x: i64,
    pub y: i64,
}

impl Pos {
    /// Component-wise addition, used to step from a coordinate to one of
    /// its neighbors.
    pub fn add(self, other: Pos) -> (r: Pos)
        requires
            i64::MIN <= self.x + other.x <= i64::MAX,
            i64::MIN <= self.y + other.y <= i64::MAX,
        ensures
            r.x == self.x + other.x,
            r.y == self.y + other.y,
    {
        Pos { x: self.x + other.x, y: self.y + other.y }
    }
}

/// The one construction-time error: a grid must have positive dimensions,
/// or wraparound reduction would divide by zero.
#[derive(Copy, Clone, PartialEq, Eq, Structural, Debug)]
pub enum GridError {
    InvalidDimensions,
}

/// The mathematical model of a grid: its dimensions and the flat,
/// row-major sequence of cell states.
pub ghost struct GridView {
    pub width: int,
    pub height: int,
    pub cells: Seq<bool>,
}

impl GridView {
    /// Well-formed: positive dimensions and exactly `width * height` cells.
    pub open spec fn wf(self) -> bool {
        &&& 0 < self.width
        &&& 0 < self.height
        &&& self.cells.len() == self.width * self.height
    }

    /// Linear index of the wrapped coordinate: both coordinates are reduced
    /// with the non-negative (Euclidean) remainder, then flattened row-major.
    pub open spec fn lin(self, x: int, y: int) -> int {
        (x % self.width) + self.width * (y % self.height)
    }

    /// The cell state addressed by `(x, y)`, total over all integers.
    pub open spec fn sel(self, x: int, y: int) -> bool {
        self.cells[self.lin(x, y)]
    }

    /// Whether `(x1, y1)` and `(x2, y2)` address the same stored cell.
    pub open spec fn same_cell(self, x1: int, y1: int, x2: int, y2: int) -> bool {
        x1 % self.width == x2 % self.width && y1 % self.height == y2 % self.height
    }

    /// The number of alive cells among the 8 wrapped neighbor positions of
    /// `(x, y)`: the sum over the unit and diagonal offsets.
    pub open spec fn neighbor_count(self, x: int, y: int) -> int {
        (if self.sel(x, y + 1) { 1int } else { 0int })
        + (if self.sel(x, y - 1) { 1int } else { 0int })
        + (if self.sel(x + 1, y) { 1int } else { 0int })
        + (if self.sel(x + 1, y + 1) { 1int } else { 0int })
        + (if self.sel(x + 1, y - 1) { 1int } else { 0int })
        + (if self.sel(x - 1, y) { 1int } else { 0int })
        + (if self.sel(x - 1, y + 1) { 1int } else { 0int })
        + (if self.sel(x - 1, y - 1) { 1int } else { 0int })
    }

    /// The Game of Life transition rule: alive next generation iff
    /// exactly 3 alive neighbors (birth or survival), or currently alive
    /// with exactly 2 alive neighbors (survival).
    pub open spec fn rule(alive: bool, neighbors: int) -> bool {
        neighbors == 3 || (alive && neighbors == 2)
    }

    /// The state of cell `(x, y)` one generation later, computed entirely
    /// from this grid.
    pub open spec fn step_sel(self, x: int, y: int) -> bool {
        Self::rule(self.sel(x, y), self.neighbor_count(x, y))
    }

    /// The grid after reseeding: same dimensions, cells replaced wholesale.
    pub open spec fn seeded(self, bits: Seq<bool>) -> GridView {
        GridView { cells: bits, ..self }
    }
}

/// The wrapped coordinates always land inside the stored cell sequence.
pub proof fn lemma_lin_bounds(g: GridView, x: int, y: int)
    requires
        g.wf(),
    ensures
        0 <= g.lin(x, y) < g.cells.len(),
{
    lemma_mod_bound(x, g.width);
    lemma_mod_bound(y, g.height);
    assert(0 <= (x % g.width) + g.width * (y % g.height) < g.width * g.height)
        by (nonlinear_arith)
        requires
            0 <= x % g.width < g.width,
            0 <= y % g.height < g.height,
            0 < g.width,
            0 < g.height,
    {
    }
}

/// Wraparound totality: indexing any integer pair `(x, y)` resolves to the
/// same stored cell as indexing the reduced pair
/// `(x mod width, y mod height)`.
pub proof fn lemma_wraparound(g: GridView, x: int, y: int)
    requires
        g.wf(),
    ensures
        g.lin(x, y) == g.lin(x % g.width, y % g.height),
        g.sel(x, y) == g.sel(x % g.width, y % g.height),
{
    lemma_mod_bound(x, g.width);
    lemma_mod_bound(y, g.height);
    lemma_small_mod((x % g.width) as nat, g.width as nat);
    lemma_small_mod((y % g.height) as nat, g.height as nat);
}

/// Two coordinate pairs address the same stored cell exactly when their
/// wrapped residues agree in both components.
pub proof fn lemma_lin_same_cell(g: GridView, x1: int, y1: int, x2: int, y2: int)
    requires
        g.wf(),
    ensures
        g.lin(x1, y1) == g.lin(x2, y2) <==> g.same_cell(x1, y1, x2, y2),
{
    lemma_mod_bound(x1, g.width);
    lemma_mod_bound(y1, g.height);
    lemma_mod_bound(x2, g.width);
    lemma_mod_bound(y2, g.height);
    assert((x1 % g.width) + g.width * (y1 % g.height) == (x2 % g.width) + g.width * (y2
        % g.height) ==> (x1 % g.width == x2 % g.width && y1 % g.height == y2 % g.height))
        by (nonlinear_arith)
        requires
            0 <= x1 % g.width < g.width,
            0 <= y1 % g.height < g.height,
            0 <= x2 % g.width < g.width,
            0 <= y2 % g.height < g.height,
            0 < g.width,
            0 < g.height,
    {
    }
}

/// Reducing a coordinate before shifting it by an offset addresses the same
/// cell as shifting it unreduced: the shift happens modulo the dimensions.
proof fn lemma_sel_shift(g: GridView, x: int, y: int, dx: int, dy: int)
    requires
        g.wf(),
    ensures
        g.sel(x + dx, y + dy) == g.sel(x % g.width + dx, y % g.height + dy),
{
    lemma_fundamental_div_mod(x, g.width);
    lemma_mod_multiples_vanish(x / g.width, x % g.width + dx, g.width);
    lemma_fundamental_div_mod(y, g.height);
    lemma_mod_multiples_vanish(y / g.height, y % g.height + dy, g.height);
}

/// The alive-neighbor count of a coordinate equals that of its reduced
/// coordinate: counting wraps with the grid.
pub proof fn lemma_neighbor_count_wrap(g: GridView, x: int, y: int)
    requires
        g.wf(),
    ensures
        g.neighbor_count(x, y) == g.neighbor_count(x % g.width, y % g.height),
{
    lemma_sel_shift(g, x, y, 0, 1);
    lemma_sel_shift(g, x, y, 0, -1);
    lemma_sel_shift(g, x, y, 1, 0);
    lemma_sel_shift(g, x, y, 1, 1);
    lemma_sel_shift(g, x, y, 1, -1);
    lemma_sel_shift(g, x, y, -1, 0);
    lemma_sel_shift(g, x, y, -1, 1);
    lemma_sel_shift(g, x, y, -1, -1);
}

/// The alive-neighbor count of any cell is between 0 and 8: it is the sum
/// of exactly 8 indicators, one per wrapped neighbor position.
pub proof fn lemma_neighbor_count_bounds(g: GridView, x: int, y: int)
    requires
        g.wf(),
    ensures
        0 <= g.neighbor_count(x, y) <= 8,
{
}

/// Seeding is deterministic: two grids of identical dimensions seeded from
/// the same bit sequence hold identical state afterwards, whatever they
/// held before.
pub proof fn lemma_seed_deterministic(g1: GridView, g2: GridView, bits: Seq<bool>)
    requires
        g1.width == g2.width,
        g1.height == g2.height,
    ensures
        g1.seeded(bits) == g2.seeded(bits),
{
}

/// Fixed-size boolean cell buffer with wraparound addressing. Created with
/// all cells dead; never resized.
pub struct ToroidalGrid {
    width: i64,
    height: i64,
    cells: Vec<bool>,
}

impl View for ToroidalGrid {
    type V = GridView;

    closed spec fn view(&self) -> GridView {
        GridView { width: self.width as int, height: self.height as int, cells: self.cells@ }
    }
}

impl Clone for ToroidalGrid {
    /// Deep copy: an identical, independent grid, used to produce the
    /// second buffer from the first at setup.
    fn clone(&self) -> (r: Self)
        ensures
            r@ == self@,
    {
        let cells = self.cells.clone();
        proof {
            assert forall|i: int| 0 <= i < self.cells@.len() implies cells@[i]
                == self.cells@[i] by {
                assert(cloned::<bool>(self.cells@[i], cells@[i]));
            }
            assert(cells@ =~= self.cells@);
        }
        ToroidalGrid { width: self.width, height: self.height, cells }
    }
}

/// Reduce `a` modulo `m` with the non-negative (Euclidean) remainder, so
/// the result is always in `[0, m)`, also for negative `a`.
fn wrap(a: i64, m: i64) -> (r: i64)
    requires
        0 < m,
    ensures
        r == a as int % m as int,
        0 <= r < m,
{
    proof {
        lemma_mod_bound(a as int, m as int);
    }
    a.checked_rem_euclid(m).unwrap()
}

impl ToroidalGrid {
    /// Well-formed: the model is well-formed and the cell count fits the
    /// address space, so linear indices are representable.
    pub open spec fn wf(self) -> bool {
        &&& self@.wf()
        &&& self@.width * self@.height <= usize::MAX
    }

    /// Construct a grid of `width * height` dead cells. Rejects
    /// non-positive dimensions, which would make wraparound reduction
    /// (a remainder) undefined.
    pub fn new(width: i64, height: i64) -> (r: Result<ToroidalGrid, GridError>)
        requires
            0 < width && 0 < height ==> width * height <= usize::MAX,
        ensures
            match r {
                Ok(g) => {
                    &&& 0 < width && 0 < height
                    &&& g.wf()
                    &&& g@.width == width
                    &&& g@.height == height
                    &&& forall|x: int, y: int| !(#[trigger] g@.sel(x, y))
                },
                Err(e) => {
                    &&& e == GridError::InvalidDimensions
                    &&& !(0 < width && 0 < height)
                },
            },
    {
        if width <= 0 || height <= 0 {
            return Err(GridError::InvalidDimensions);
        }
        proof {
            assert(width <= width * height && height <= width * height) by (nonlinear_arith)
                requires
                    0 < width,
                    0 < height,
            {
            }
        }
        let len: usize = (width as usize) * (height as usize);
        let cells: Vec<bool> = vec![false; len];
        let g = ToroidalGrid { width, height, cells };
        proof {
            assert forall|x: int, y: int| !(#[trigger] g@.sel(x, y)) by {
                lemma_lin_bounds(g@, x, y);
            }
        }
        Ok(g)
    }

    /// The grid's width, as supplied at construction.
    pub fn width(&self) -> (w: i64)
        ensures
            w == self@.width,
    {
        self.width
    }

    /// The grid's height, as supplied at construction.
    pub fn height(&self) -> (h: i64)
        ensures
            h == self@.height,
    {
        self.height
    }

    /// The total number of cells.
    pub(crate) fn cell_count(&self) -> (n: usize)
        requires
            self.wf(),
        ensures
            n == self@.width * self@.height,
    {
        proof {
            assert(self@.width <= self@.width * self@.height && self@.height <= self@.width
                * self@.height) by (nonlinear_arith)
                requires
                    0 < self@.width,
                    0 < self@.height,
            {
            }
        }
        (self.width as usize) * (self.height as usize)
    }

    /// The linear offset of the wrapped coordinate.
    fn linear_index(&self, pos: Pos) -> (idx: usize)
        requires
            self.wf(),
        ensures
            idx == self@.lin(pos.x as int, pos.y as int),
            idx < self@.cells.len(),
    {
        let xr = wrap(pos.x, self.width);
        let yr = wrap(pos.y, self.height);
        proof {
            lemma_lin_bounds(self@, pos.x as int, pos.y as int);
            assert(0 <= self@.width * (yr as int) && (xr as int) + self@.width * (yr as int)
                < self@.width * self@.height && self@.width <= self@.width * self@.height
                && self@.height <= self@.width * self@.height) by (nonlinear_arith)
                requires
                    0 < self@.width,
                    0 < self@.height,
                    0 <= xr < self@.width,
                    0 <= yr < self@.height,
            {
            }
        }
        (xr as usize) + (self.width as usize) * (yr as usize)
    }

    /// Read the cell addressed by `pos`; total over all integer positions.
    pub fn get(&self, pos: Pos) -> (c: Cell)
        requires
            self.wf(),
        ensures
            c.alive == self@.sel(pos.x as int, pos.y as int),
    {
        let idx = self.linear_index(pos);
        Cell { alive: self.cells[idx] }
    }

    /// Write the cell addressed by `pos`; total over all integer positions.
    /// Exactly the addressed stored cell changes: every position that wraps
    /// to it reads the new value, every other position is untouched.
    pub fn set(&mut self, pos: Pos, c: Cell)
        requires
            old(self).wf(),
        ensures
            final(self).wf(),
            final(self)@.width == old(self)@.width,
            final(self)@.height == old(self)@.height,
            forall|x: int, y: int|
                #[trigger] final(self)@.sel(x, y) == (if old(self)@.same_cell(
                    x,
                    y,
                    pos.x as int,
                    pos.y as int,
                ) {
                    c.alive
                } else {
                    old(self)@.sel(x, y)
                }),
    {
        let idx = self.linear_index(pos);
        self.cells.set(idx, c.alive);
        proof {
            assert forall|x: int, y: int|
                #[trigger] final(self)@.sel(x, y) == (if old(self)@.same_cell(
                    x,
                    y,
                    pos.x as int,
                    pos.y as int,
                ) {
                    c.alive
                } else {
                    old(self)@.sel(x, y)
                }) by {
                lemma_lin_bounds(old(self)@, x, y);
                lemma_lin_same_cell(old(self)@, x, y, pos.x as int, pos.y as int);
            }
        }
    }

    /// Replace every cell from the given bit sequence: the cell at linear
    /// offset `i` (row-major) becomes `bits[i]`. The deterministic core of
    /// seeding: the resulting state is a function of the bits alone.
    pub fn fill_from_bits(&mut self, bits: &Vec<bool>)
        requires
            old(self).wf(),
            bits@.len() == old(self)@.width * old(self)@.height,
        ensures
            final(self).wf(),
            final(self)@ == old(self)@.seeded(bits@),
    {
        let n = self.cell_count();
        let mut i: usize = 0;
        while i < n
            invariant
                self.wf(),
                self@.width == old(self)@.width,
                self@.height == old(self)@.height,
                bits@.len() == old(self)@.width * old(self)@.height,
                n == old(self)@.width * old(self)@.height,
                0 <= i <= n,
                forall|j: int| 0 <= j < i ==> self@.cells[j] == bits@[j],
            decreases n - i,
        {
            self.cells.set(i, bits[i]);
            i += 1;
        }
        proof {
            assert(self@.cells =~= bits@);
        }
    }
}

/// Count the alive cells among the 8 wrapped neighbor positions of `pos`.
/// Each lookup wraps toroidally, so every cell has exactly 8 well-defined
/// neighbor positions, at the edges and corners too.
pub fn sum_alive(grid: &ToroidalGrid, pos: Pos) -> (count: u8)
    requires
        grid.wf(),
    ensures
        count == grid@.neighbor_count(pos.x as int, pos.y as int),
{
    let w = grid.width();
    let h = grid.height();
    let xr = wrap(pos.x, w);
    let yr = wrap(pos.y, h);
    let mut count: u8 = 0;
    if grid.get(Pos { x: xr, y: yr + 1 }).alive {
        count += 1;
    }
    if grid.get(Pos { x: xr, y: yr - 1 }).alive {
        count += 1;
    }
    if grid.get(Pos { x: xr + 1, y: yr }).alive {
        count += 1;
    }
    if grid.get(Pos { x: xr + 1, y: yr + 1 }).alive {
        count += 1;
    }
    if grid.get(Pos { x: xr + 1, y: yr - 1 }).alive {
        count += 1;
    }
    if grid.get(Pos { x: xr - 1, y: yr }).alive {
        count += 1;
    }
    if grid.get(Pos { x: xr - 1, y: yr + 1 }).alive {
        count += 1;
    }
    if grid.get(Pos { x: xr - 1, y: yr - 1 }).alive {
        count += 1;
    }
    proof {
        lemma_neighbor_count_wrap(grid@, pos.x as int, pos.y as int);
    }
    count
}

} // verus!
