//! A rectangular grid of packed cell values, stored row-major, and the
//! neighbour counter under the clamped edge policy: positions outside the
//! grid do not exist and never count as live.

use vstd::prelude::*;
use crate::rules::alive;

verus! {

/// Index of the cell at column `x`, row `y` in a row-major grid `w` wide.
pub open spec fn index_of(w: int, x: int, y: int) -> int {
    y * w + x
}

/// Whether `(x, y)` lies inside a `w` by `h` grid.
pub open spec fn in_grid(w: int, h: int, x: int, y: int) -> bool {
    0 <= x < w && 0 <= y < h
}

/// Whether position `(x, y)` holds a live cell; positions outside the grid
/// are never live.
pub open spec fn live(cells: Seq<u32>, w: int, h: int, x: int, y: int) -> bool {
    in_grid(w, h, x, y) && alive(cells[index_of(w, x, y)])
}

/// One for a live position, zero otherwise.
pub open spec fn live_num(cells: Seq<u32>, w: int, h: int, x: int, y: int) -> int {
    if live(cells, w, h, x, y) {
        1
    } else {
        0
    }
}

/// The number of live positions among the eight Moore neighbours of `(x, y)`.
pub open spec fn neighbor_count(cells: Seq<u32>, w: int, h: int, x: int, y: int) -> int {
    live_num(cells, w, h, x - 1, y - 1) + live_num(cells, w, h, x, y - 1) + live_num(
        cells,
        w,
        h,
        x + 1,
        y - 1,
    ) + live_num(cells, w, h, x - 1, y) + live_num(cells, w, h, x + 1, y) + live_num(
        cells,
        w,
        h,
        x - 1,
        y + 1,
    ) + live_num(cells, w, h, x, y + 1) + live_num(cells, w, h, x + 1, y + 1)
}

/// The number of live cells in `cells`.
pub open spec fn population(cells: Seq<u32>) -> nat
    decreases cells.len(),
{
    if cells.len() == 0 {
        0
    } else {
        population(cells.drop_last()) + if alive(cells.last()) {
            1nat
        } else {
            0
        }
    }
}

/// A buffer never holds more live cells than cells.
pub proof fn lemma_population_le_len(cells: Seq<u32>)
    ensures
        population(cells) <= cells.len(),
    decreases cells.len(),
{
    if cells.len() > 0 {
        lemma_population_le_len(cells.drop_last());
    }
}

/// One for a live value, zero for a dead one.
pub open spec fn live_value(v: u32) -> nat {
    if alive(v) {
        1
    } else {
        0
    }
}

/// Writing one cell changes the population by the change in that cell
/// alone.
pub proof fn lemma_population_update(cells: Seq<u32>, i: int, v: u32)
    requires
        0 <= i < cells.len(),
    ensures
        population(cells.update(i, v)) + live_value(cells[i]) == population(cells) + live_value(v),
        population(cells) >= live_value(cells[i]),
    decreases cells.len(),
{
    let u = cells.update(i, v);
    if i == cells.len() - 1 {
        assert(u.drop_last() =~= cells.drop_last());
    } else {
        lemma_population_update(cells.drop_last(), i, v);
        assert(u.drop_last() =~= cells.drop_last().update(i, v));
    }
}

/// A buffer of dead cells has no population.
pub proof fn lemma_population_all_dead(cells: Seq<u32>)
    requires
        forall|i: int| 0 <= i < cells.len() ==> #[trigger] cells[i] == 0,
    ensures
        population(cells) == 0,
    decreases cells.len(),
{
    if cells.len() > 0 {
        lemma_population_all_dead(cells.drop_last());
    }
}

/// A position inside the grid has an index inside the buffer, and the
/// index gives the position back.
pub proof fn lemma_index_in_bounds(w: int, h: int, x: int, y: int)
    requires
        in_grid(w, h, x, y),
    ensures
        0 <= index_of(w, x, y) < w * h,
        index_of(w, x, y) % w == x,
        index_of(w, x, y) / w == y,
{
    assert(0 <= y * w + x < w * h) by (nonlinear_arith)
        requires
            0 <= x < w,
            0 <= y < h,
    ;
    vstd::arithmetic::div_mod::lemma_fundamental_div_mod_converse(y * w + x, w, y, x);
}

/// A buffer index names a position inside the grid.
pub proof fn lemma_position_of_index(w: int, h: int, i: int)
    requires
        w >= 1,
        0 <= i < w * h,
    ensures
        in_grid(w, h, i % w, i / w),
        index_of(w, i % w, i / w) == i,
{
    vstd::arithmetic::div_mod::lemma_fundamental_div_mod(i, w);
    let q = i / w;
    let r = i % w;
    assert(0 <= q < h) by (nonlinear_arith)
        requires
            w >= 1,
            0 <= r < w,
            i == w * q + r,
            0 <= i < w * h,
    ;
    assert(q * w == w * q) by (nonlinear_arith);
}

/// A `width` by `height` grid of cell values, row-major.
pub struct Grid {
    pub width: usize,
    pub height: usize,
    pub cells: Vec<u32>,
}

impl Grid {
    /// Non-empty dimensions, and a buffer of exactly `width * height` cells.
    pub open spec fn wf(&self) -> bool {
        &&& self.width >= 1
        &&& self.height >= 1
        &&& self.width * self.height <= usize::MAX
        &&& self.cells@.len() == self.width * self.height
    }

    /// Whether every cell is dead.
    pub open spec fn all_dead(&self) -> bool {
        forall|i: int| 0 <= i < self.cells@.len() ==> #[trigger] self.cells@[i] == 0
    }

    /// An all-dead grid of the given size.
    pub fn new(width: usize, height: usize) -> (g: Grid)
        requires
            width >= 1,
            height >= 1,
            width * height <= usize::MAX,
        ensures
            g.wf(),
            g.width == width,
            g.height == height,
            g.all_dead(),
    {
        let n: usize = width * height;
        let mut cells: Vec<u32> = Vec::with_capacity(n);
        let mut i: usize = 0;
        while i < n
            invariant
                i <= n,
                cells@.len() == i,
                forall|j: int| 0 <= j < i ==> #[trigger] cells@[j] == 0,
            decreases n - i,
        {
            cells.push(0);
            i = i + 1;
        }
        Grid { width, height, cells }
    }

    /// The value at `(x, y)`.
    pub fn get(&self, x: usize, y: usize) -> (v: u32)
        requires
            self.wf(),
            x < self.width,
            y < self.height,
        ensures
            v == self.cells@[index_of(self.width as int, x as int, y as int)],
    {
        proof {
            lemma_index_in_bounds(self.width as int, self.height as int, x as int, y as int);
        }
        self.cells[y * self.width + x]
    }

    /// Writes `v` at `(x, y)`.
    pub fn set(&mut self, x: usize, y: usize, v: u32)
        requires
            old(self).wf(),
            x < old(self).width,
            y < old(self).height,
        ensures
            final(self).wf(),
            final(self).width == old(self).width,
            final(self).height == old(self).height,
            final(self).cells@ == old(self).cells@.update(
                index_of(old(self).width as int, x as int, y as int),
                v,
            ),
    {
        proof {
            lemma_index_in_bounds(self.width as int, self.height as int, x as int, y as int);
        }
        let i = y * self.width + x;
        self.cells.set(i, v);
    }

    /// Whether `(x, y)` holds a live cell; any position outside the grid is
    /// reported dead.
    pub fn is_live_at(&self, x: usize, y: usize) -> (r: bool)
        requires
            self.wf(),
        ensures
            r == live(self.cells@, self.width as int, self.height as int, x as int, y as int),
    {
        if x < self.width && y < self.height {
            self.get(x, y) != 0
        } else {
            false
        }
    }

    /// Counts the live cells among the eight neighbours of `(x, y)`.
    /// Neighbours that would fall outside the grid are not counted.
    pub fn count_neighbors(&self, x: usize, y: usize) -> (n: u8)
        requires
            self.wf(),
            x < self.width,
            y < self.height,
        ensures
            n == neighbor_count(self.cells@, self.width as int, self.height as int, x as int, y as int),
            n <= 8,
    {
        let has_left = x > 0;
        let has_up = y > 0;
        let mut n: u8 = 0;
        if has_up && has_left && self.is_live_at(x - 1, y - 1) {
            n = n + 1;
        }
        if has_up && self.is_live_at(x, y - 1) {
            n = n + 1;
        }
        if has_up && self.is_live_at(x + 1, y - 1) {
            n = n + 1;
        }
        if has_left && self.is_live_at(x - 1, y) {
            n = n + 1;
        }
        if self.is_live_at(x + 1, y) {
            n = n + 1;
        }
        if has_left && self.is_live_at(x - 1, y + 1) {
            n = n + 1;
        }
        if self.is_live_at(x, y + 1) {
            n = n + 1;
        }
        if self.is_live_at(x + 1, y + 1) {
            n = n + 1;
        }
        n
    }

    /// The number of live cells.
    pub fn population(&self) -> (r: usize)
        requires
            self.wf(),
        ensures
            r == population(self.cells@),
    {
        let n = self.cells.len();
        let mut count: usize = 0;
        let mut i: usize = 0;
        while i < n
            invariant
                n == self.cells@.len(),
                i <= n,
                count == population(self.cells@.subrange(0, i as int)),
            decreases n - i,
        {
            proof {
                let next = self.cells@.subrange(0, i + 1);
                assert(next.drop_last() =~= self.cells@.subrange(0, i as int));
                lemma_population_le_len(self.cells@.subrange(0, i as int));
            }
            if self.cells[i] != 0 {
                count = count + 1;
            }
            i = i + 1;
        }
        assert(self.cells@.subrange(0, n as int) =~= self.cells@);
        count
    }

    /// Overwrites every cell with `0`, keeping the dimensions.
    pub fn clear(&mut self)
        requires
            old(self).wf(),
        ensures
            final(self).wf(),
            final(self).width == old(self).width,
            final(self).height == old(self).height,
            final(self).all_dead(),
    {
        let n = self.cells.len();
        let mut i: usize = 0;
        while i < n
            invariant
                self.wf(),
                n == self.cells@.len(),
                self.width == old(self).width,
                self.height == old(self).height,
                i <= n,
                forall|j: int| 0 <= j < i ==> #[trigger] self.cells@[j] == 0,
            decreases n - i,
        {
            self.cells.set(i, 0);
            i = i + 1;
        }
    }
}

} // verus!
