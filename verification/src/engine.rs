//! The simulation engine: a double-buffered pair of grids and one
//! generation step per `advance` call.

use crate::grid::sum_alive;
use crate::grid::Cell;
use crate::grid::GridError;
use crate::grid::GridView;
use crate::grid::Pos;
use crate::grid::ToroidalGrid;
use vstd::prelude::*;

verus! {

/// Relies on rand::random: draws one value from the thread-local generator.
/// Nothing is assumed of the drawn value.
pub assume_specification<T>[ rand::random::<T> ]() -> (r: T)
    where
        rand::distributions::Standard: rand::distributions::Distribution<T>,
;

/// Owns two grids of identical dimensions: "current" holds the readable
/// generation, "next" is scratch space rewritten during `advance`.
pub struct SimulationEngine {
    current: ToroidalGrid,
    next: ToroidalGrid,
}

impl SimulationEngine {
    /// Well-formed: both buffers well-formed, with identical dimensions.
    pub closed spec fn wf(self) -> bool {
        &&& self.current.wf()
        &&& self.next.wf()
        &&& self.current@.width == self.next@.width
        &&& self.current@.height == self.next@.height
    }

    /// The authoritative, externally readable generation.
    pub closed spec fn cur(self) -> crate::grid::GridView {
        self.current@
    }

    /// Build two identical all-dead grids of the given size.
    pub fn init(width: i64, height: i64) -> (r: Result<SimulationEngine, GridError>)
        requires
            0 < width && 0 < height ==> width * height <= usize::MAX,
        ensures
            match r {
                Ok(e) => {
                    &&& 0 < width && 0 < height
                    &&& e.wf()
                    &&& e.cur().width == width
                    &&& e.cur().height == height
                    &&& forall|x: int, y: int| !(#[trigger] e.cur().sel(x, y))
                },
                Err(err) => {
                    &&& err == GridError::InvalidDimensions
                    &&& !(0 < width && 0 < height)
                },
            },
    {
        let current = match ToroidalGrid::new(width, height) {
            Ok(g) => g,
            Err(e) => {
                return Err(e);
            },
        };
        let next = current.clone();
        Ok(SimulationEngine { current, next })
    }

    /// The grid's width.
    pub fn width(&self) -> (w: i64)
        ensures
            w == self.cur().width,
    {
        self.current.width()
    }

    /// The grid's height.
    pub fn height(&self) -> (h: i64)
        ensures
            h == self.cur().height,
    {
        self.current.height()
    }

    /// Whether the cell at `pos` is alive in the authoritative current
    /// generation; total over all integer positions.
    pub fn current_state(&self, pos: Pos) -> (alive: bool)
        requires
            self.wf(),
        ensures
            alive == self.cur().sel(pos.x as int, pos.y as int),
    {
        self.current.get(pos).alive
    }

    /// Overwrite the current generation from a fixed sequence of booleans,
    /// one per cell in row-major order: a reproducible seeding, its result
    /// a function of the bits alone.
    pub fn seed_from_bits(&mut self, bits: &Vec<bool>)
        requires
            old(self).wf(),
            bits@.len() == old(self).cur().width * old(self).cur().height,
        ensures
            final(self).wf(),
            final(self).cur() == old(self).cur().seeded(bits@),
    {
        self.current.fill_from_bits(bits);
    }

    /// Seed the current generation at random: every cell is independently
    /// set from one freshly drawn boolean. The dimensions are unchanged;
    /// nothing is promised of the drawn values.
    pub fn seed_random(&mut self)
        requires
            old(self).wf(),
        ensures
            final(self).wf(),
            final(self).cur().width == old(self).cur().width,
            final(self).cur().height == old(self).cur().height,
    {
        let n = self.current.cell_count();
        let mut bits: Vec<bool> = Vec::new();
        while bits.len() < n
            invariant
                bits@.len() <= n,
            decreases n - bits@.len(),
        {
            bits.push(rand::random::<bool>());
        }
        self.seed_from_bits(&bits);
    }

    /// Advance one generation: every cell of the next buffer is rewritten
    /// from the current buffer by the Game of Life rule, then the two
    /// buffers exchange roles (a swap, not a copy).
    ///
    /// Every neighbor count is taken from the pre-call current generation,
    /// never from a cell already rewritten during the same call: afterwards
    /// the readable state is exactly the stepped old state, at every integer
    /// position.
    pub fn advance(&mut self)
        requires
            old(self).wf(),
        ensures
            final(self).wf(),
            final(self).cur().width == old(self).cur().width,
            final(self).cur().height == old(self).cur().height,
            forall|x: int, y: int| #[trigger]
                final(self).cur().sel(x, y) == old(self).cur().step_sel(x, y),
    {
        let w = self.current.width();
        let h = self.current.height();
        let ghost before: GridView = self.current@;
        let mut x: i64 = 0;
        while x < w
            invariant
                self.wf(),
                self.current@ == before,
                before.wf(),
                self.next@.width == w,
                self.next@.height == h,
                w == before.width,
                h == before.height,
                0 <= x <= w,
                forall|a: int, b: int|
                    0 <= a < x && 0 <= b < h ==> #[trigger] self.next@.sel(a, b)
                        == before.step_sel(a, b),
            decreases w - x,
        {
            let mut y: i64 = 0;
            while y < h
                invariant
                    self.wf(),
                    self.current@ == before,
                    before.wf(),
                    self.next@.width == w,
                    self.next@.height == h,
                    w == before.width,
                    h == before.height,
                    0 <= x < w,
                    0 <= y <= h,
                    forall|a: int, b: int|
                        0 <= a < x && 0 <= b < h ==> #[trigger] self.next@.sel(a, b)
                            == before.step_sel(a, b),
                    forall|b: int|
                        0 <= b < y ==> #[trigger] self.next@.sel(x as int, b)
                            == before.step_sel(x as int, b),
                decreases h - y,
            {
                let pos = Pos { x, y };
                let alive = self.current.get(pos).alive;
                let n = sum_alive(&self.current, pos);
                let next_alive = n == 3 || (alive && n == 2);
                let ghost prev_next: GridView = self.next@;
                self.next.set(pos, Cell { alive: next_alive });
                proof {
                    lemma_in_range_cells_distinct(prev_next, x as int, y as int);
                }
                y = y + 1;
            }
            x = x + 1;
        }
        core::mem::swap(&mut self.current, &mut self.next);
        proof {
            assert forall|x: int, y: int| #[trigger]
                self.cur().sel(x, y) == before.step_sel(x, y) by {
                crate::grid::lemma_wraparound(self.current@, x, y);
                crate::grid::lemma_wraparound(before, x, y);
                crate::grid::lemma_neighbor_count_wrap(before, x, y);
                vstd::arithmetic::div_mod::lemma_mod_bound(x, before.width);
                vstd::arithmetic::div_mod::lemma_mod_bound(y, before.height);
            }
        }
    }
}

/// In-range coordinates wrap to themselves, so two distinct in-range
/// coordinate pairs never address the same stored cell.
proof fn lemma_in_range_cells_distinct(g: GridView, x: int, y: int)
    requires
        g.wf(),
        0 <= x < g.width,
        0 <= y < g.height,
    ensures
        forall|a: int, b: int|
            0 <= a < g.width && 0 <= b < g.height ==> (#[trigger] g.same_cell(a, b, x, y) <==> (a
                == x && b == y)),
{
    assert forall|a: int, b: int| 0 <= a < g.width && 0 <= b < g.height implies (
    #[trigger] g.same_cell(a, b, x, y) <==> (a == x && b == y)) by {
        vstd::arithmetic::div_mod::lemma_small_mod(a as nat, g.width as nat);
        vstd::arithmetic::div_mod::lemma_small_mod(b as nat, g.height as nat);
        vstd::arithmetic::div_mod::lemma_small_mod(x as nat, g.width as nat);
        vstd::arithmetic::div_mod::lemma_small_mod(y as nat, g.height as nat);
    }
}

} // verus!
