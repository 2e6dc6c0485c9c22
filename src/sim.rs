//! The simulation state: a pair of grids of one size, the one shown and the
//! scratch grid that the next sweep writes, exchanged after every sweep.

use vstd::prelude::*;
use crate::grid::{
    Grid, index_of, population, lemma_index_in_bounds, lemma_population_update,
    lemma_population_all_dead,
};
use crate::engine::{step, next_generation};

verus! {

/// Relies on fastrand::usize: for a non-empty range `0..n` it returns a
/// value inside the range (it panics only on an empty range).
#[verifier::external_body]
fn random_below(n: usize) -> (r: usize)
    requires
        n > 0,
    ensures
        r < n,
{
    fastrand::usize(0..n)
}

/// Whether `(x, y)` is among the first `k` positions of `cells`.
pub open spec fn listed(cells: Seq<(usize, usize)>, k: int, x: int, y: int) -> bool {
    exists|j: int| 0 <= j < k && #[trigger] cells[j] == (x as usize, y as usize)
}

/// Whether `p` lies inside a `w` by `h` grid.
pub open spec fn in_range(p: (usize, usize), w: int, h: int) -> bool {
    p.0 < w && p.1 < h
}

/// Whether one of the first `k` positions of `cells` lies inside the grid.
pub open spec fn any_in_grid(cells: Seq<(usize, usize)>, k: int, w: int, h: int) -> bool {
    exists|j: int| 0 <= j < k && #[trigger] in_range(cells[j], w, h)
}

/// Whether every position of `cells` lies inside the grid.
pub open spec fn all_in_grid(cells: Seq<(usize, usize)>, w: int, h: int) -> bool {
    forall|j: int| 0 <= j < cells.len() ==> #[trigger] in_range(cells[j], w, h)
}

/// `after` is `before` with each of the first `k` positions of `cells`
/// that lie inside the grid set to `birth`, and every other cell unchanged.
pub open spec fn seeded_from(
    before: Seq<u32>,
    after: Seq<u32>,
    w: int,
    h: int,
    birth: u32,
    cells: Seq<(usize, usize)>,
    k: int,
) -> bool {
    &&& after.len() == before.len()
    &&& forall|x: int, y: int|
        0 <= x < w && 0 <= y < h ==> #[trigger] after[index_of(w, x, y)] == if listed(
            cells,
            k,
            x,
            y,
        ) {
            birth
        } else {
            before[index_of(w, x, y)]
        }
}

/// A Game of Life with double buffering.
pub struct Life {
    current: Grid,
    scratch: Grid,
    birth_color: u32,
}

impl Life {
    /// Grid width.
    pub closed spec fn grid_width(&self) -> int {
        self.current.width as int
    }

    /// Grid height.
    pub closed spec fn grid_height(&self) -> int {
        self.current.height as int
    }

    /// The colour of a newborn cell.
    pub closed spec fn birth(&self) -> u32 {
        self.birth_color
    }

    /// The current generation, row-major.
    pub closed spec fn cells(&self) -> Seq<u32> {
        self.current.cells@
    }

    /// The scratch buffer that the next sweep writes into.
    pub closed spec fn scratch_cells(&self) -> Seq<u32> {
        self.scratch.cells@
    }

    /// The two grids are well formed and of one size.
    pub closed spec fn buffers_wf(&self) -> bool {
        &&& self.current.wf()
        &&& self.scratch.wf()
        &&& self.scratch.width == self.current.width
        &&& self.scratch.height == self.current.height
    }

    /// The state invariant: consistent buffers of `width * height` cells, a
    /// live birth colour, and a scratch buffer that is entirely dead.
    pub open spec fn inv(&self) -> bool {
        &&& self.buffers_wf()
        &&& self.grid_width() >= 1
        &&& self.grid_height() >= 1
        &&& self.grid_width() * self.grid_height() <= usize::MAX
        &&& self.cells().len() == self.grid_width() * self.grid_height()
        &&& self.scratch_cells().len() == self.cells().len()
        &&& self.birth() != 0
        &&& forall|i: int|
            0 <= i < self.scratch_cells().len() ==> #[trigger] self.scratch_cells()[i] == 0
    }

    /// A `width` by `height` simulation with every cell dead; `birth_color`
    /// is the value of newborn cells.
    pub fn new(width: usize, height: usize, birth_color: u32) -> (s: Life)
        requires
            width >= 1,
            height >= 1,
            width * height <= usize::MAX,
            birth_color != 0,
        ensures
            s.inv(),
            s.grid_width() == width,
            s.grid_height() == height,
            s.birth() == birth_color,
            forall|i: int| 0 <= i < s.cells().len() ==> #[trigger] s.cells()[i] == 0,
            population(s.cells()) == 0,
    {
        let s = Life {
            current: Grid::new(width, height),
            scratch: Grid::new(width, height),
            birth_color,
        };
        proof {
            lemma_population_all_dead(s.cells());
        }
        s
    }

    /// Grid width.
    pub fn width(&self) -> (r: usize)
        requires
            self.inv(),
        ensures
            r == self.grid_width(),
    {
        self.current.width
    }

    /// Grid height.
    pub fn height(&self) -> (r: usize)
        requires
            self.inv(),
        ensures
            r == self.grid_height(),
    {
        self.current.height
    }

    /// The colour of a newborn cell.
    pub fn birth_color(&self) -> (r: u32)
        requires
            self.inv(),
        ensures
            r == self.birth(),
    {
        self.birth_color
    }

    /// The current generation as packed colours, row-major, ready to show.
    pub fn buffer(&self) -> (r: &Vec<u32>)
        requires
            self.inv(),
        ensures
            r@ == self.cells(),
    {
        &self.current.cells
    }

    /// The current generation as a grid.
    pub fn grid(&self) -> (r: &Grid)
        requires
            self.inv(),
        ensures
            r.wf(),
            r.width == self.grid_width(),
            r.height == self.grid_height(),
            r.cells@ == self.cells(),
    {
        &self.current
    }

    /// The value of the cell at `(x, y)`.
    pub fn cell(&self, x: usize, y: usize) -> (v: u32)
        requires
            self.inv(),
            x < self.grid_width(),
            y < self.grid_height(),
        ensures
            v == self.cells()[index_of(self.grid_width(), x as int, y as int)],
    {
        self.current.get(x, y)
    }

    /// The number of live cells in the current generation.
    pub fn population(&self) -> (r: usize)
        requires
            self.inv(),
        ensures
            r == population(self.cells()),
    {
        self.current.population()
    }

    /// Whether the scratch buffer is entirely dead.
    pub fn scratch_is_clear(&self) -> (r: bool)
        requires
            self.inv(),
        ensures
            r,
    {
        let n = self.scratch.cells.len();
        let mut i: usize = 0;
        while i < n
            invariant
                self.inv(),
                n == self.scratch_cells().len(),
                i <= n,
            decreases n - i,
        {
            if self.scratch.cells[i] != 0 {
                return false;
            }
            i = i + 1;
        }
        true
    }

    /// Marks the cell at `(x, y)` alive with the birth colour.
    pub fn set_alive(&mut self, x: usize, y: usize)
        requires
            old(self).inv(),
            x < old(self).grid_width(),
            y < old(self).grid_height(),
        ensures
            final(self).inv(),
            final(self).grid_width() == old(self).grid_width(),
            final(self).grid_height() == old(self).grid_height(),
            final(self).birth() == old(self).birth(),
            final(self).cells() == old(self).cells().update(
                index_of(old(self).grid_width(), x as int, y as int),
                old(self).birth(),
            ),
    {
        self.current.set(x, y, self.birth_color);
    }

    /// Marks alive each position of `cells` that lies inside the grid;
    /// positions outside it are ignored, and a position listed twice is
    /// simply marked again.
    pub fn seed(&mut self, cells: &Vec<(usize, usize)>)
        requires
            old(self).inv(),
        ensures
            final(self).inv(),
            final(self).grid_width() == old(self).grid_width(),
            final(self).grid_height() == old(self).grid_height(),
            final(self).birth() == old(self).birth(),
            seeded_from(
                old(self).cells(),
                final(self).cells(),
                old(self).grid_width(),
                old(self).grid_height(),
                old(self).birth(),
                cells@,
                cells@.len() as int,
            ),
            population(final(self).cells()) <= population(old(self).cells()) + cells@.len(),
            any_in_grid(cells@, cells@.len() as int, old(self).grid_width(), old(self).grid_height())
                ==> population(final(self).cells()) >= 1,
    {
        let ghost w = old(self).grid_width();
        let ghost h = old(self).grid_height();
        let mut k: usize = 0;
        while k < cells.len()
            invariant
                self.inv(),
                self.grid_width() == w,
                self.grid_height() == h,
                w == old(self).grid_width(),
                h == old(self).grid_height(),
                self.birth() == old(self).birth(),
                k <= cells@.len(),
                seeded_from(old(self).cells(), self.cells(), w, h, old(self).birth(), cells@, k as int),
                population(self.cells()) <= population(old(self).cells()) + k,
                any_in_grid(cells@, k as int, w, h) ==> population(self.cells()) >= 1,
            decreases cells@.len() - k,
        {
            let (x, y) = cells[k];
            let ghost before = self.cells();
            if x < self.current.width && y < self.current.height {
                self.set_alive(x, y);
                proof {
                    lemma_index_in_bounds(w, h, x as int, y as int);
                    let i = index_of(w, x as int, y as int);
                    lemma_population_update(before, i, old(self).birth());
                }
            }
            proof {
                assert forall|a: int, b: int| 0 <= a < w && 0 <= b < h implies #[trigger] self.cells()[index_of(w, a, b)]
                    == if listed(cells@, k + 1, a, b) {
                    old(self).birth()
                } else {
                    old(self).cells()[index_of(w, a, b)]
                } by {
                    lemma_index_in_bounds(w, h, a, b);
                    if listed(cells@, k as int, a, b) {
                        let j = choose|j: int| 0 <= j < k && #[trigger] cells@[j] == (a as usize, b as usize);
                        assert(listed(cells@, k + 1, a, b));
                    }
                    if cells@[k as int] == (a as usize, b as usize) {
                        assert(listed(cells@, k + 1, a, b));
                    } else {
                        if x < w && y < h {
                            lemma_index_in_bounds(w, h, x as int, y as int);
                        }
                        if listed(cells@, k + 1, a, b) {
                            let j = choose|j: int| 0 <= j < k + 1 && #[trigger] cells@[j] == (a as usize, b as usize);
                            assert(listed(cells@, k as int, a, b));
                        }
                    }
                }
                if any_in_grid(cells@, k + 1, w, h) && !any_in_grid(cells@, k as int, w, h) {
                    let j = choose|j: int| 0 <= j < k + 1 && #[trigger] in_range(cells@[j], w, h);
                    assert(j == k);
                }
            }
            k = k + 1;
        }
    }

    /// Marks `count` positions drawn at random alive, as `seed` does with
    /// the drawn positions: each draw lies inside the grid, and a position
    /// drawn twice is simply marked again. With `count > 0` at least one
    /// cell is alive afterwards, and at most `count` cells were added.
    pub fn populate_game(&mut self, count: usize)
        requires
            old(self).inv(),
        ensures
            final(self).inv(),
            final(self).grid_width() == old(self).grid_width(),
            final(self).grid_height() == old(self).grid_height(),
            final(self).birth() == old(self).birth(),
            exists|drawn: Seq<(usize, usize)>|
                drawn.len() == count && all_in_grid(
                    drawn,
                    old(self).grid_width(),
                    old(self).grid_height(),
                ) && #[trigger] seeded_from(
                    old(self).cells(),
                    final(self).cells(),
                    old(self).grid_width(),
                    old(self).grid_height(),
                    old(self).birth(),
                    drawn,
                    count as int,
                ),
            population(final(self).cells()) <= population(old(self).cells()) + count,
            count > 0 ==> population(final(self).cells()) >= 1,
    {
        let w = self.current.width;
        let h = self.current.height;
        let mut drawn: Vec<(usize, usize)> = Vec::with_capacity(count);
        let mut k: usize = 0;
        while k < count
            invariant
                self.inv(),
                w == self.grid_width(),
                h == self.grid_height(),
                k <= count,
                drawn@.len() == k,
                all_in_grid(drawn@, w as int, h as int),
            decreases count - k,
        {
            let x = random_below(w);
            let y = random_below(h);
            drawn.push((x, y));
            k = k + 1;
        }
        if count > 0 {
            assert(in_range(drawn@[0], w as int, h as int));
        }
        self.seed(&drawn);
    }

    /// One tick: the sweep writes the next generation into the scratch
    /// buffer, the two buffers are exchanged, and the buffer that will take
    /// the following sweep is cleared.
    pub fn tick(&mut self)
        requires
            old(self).inv(),
        ensures
            final(self).inv(),
            final(self).grid_width() == old(self).grid_width(),
            final(self).grid_height() == old(self).grid_height(),
            final(self).birth() == old(self).birth(),
            final(self).cells() == step(
                old(self).cells(),
                old(self).grid_width(),
                old(self).grid_height(),
                old(self).birth(),
            ),
    {
        next_generation(&self.current, &mut self.scratch, self.birth_color);
        std::mem::swap(&mut self.current, &mut self.scratch);
        self.scratch.clear();
    }
}

} // verus!
