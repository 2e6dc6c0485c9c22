//! The generation sweep: every cell of the next generation is computed from
//! the same snapshot of the current one.

use vstd::prelude::*;
use crate::grid::{Grid, index_of, neighbor_count, lemma_position_of_index, lemma_index_in_bounds};
use crate::rules::{next_state, next_cell};

verus! {

/// The generation that follows `cells` on a `w` by `h` grid.
pub open spec fn step(cells: Seq<u32>, w: int, h: int, birth: u32) -> Seq<u32> {
    Seq::new(
        cells.len(),
        |i: int| next_state(cells[i], neighbor_count(cells, w, h, i % w, i / w), birth),
    )
}

/// The generation reached from `cells` after `k` sweeps.
pub open spec fn generations(cells: Seq<u32>, w: int, h: int, birth: u32, k: nat) -> Seq<u32>
    decreases k,
{
    if k == 0 {
        cells
    } else {
        step(generations(cells, w, h, birth, (k - 1) as nat), w, h, birth)
    }
}

/// The cell at `(x, y)` in the generation after `cells`.
pub proof fn lemma_step_at(cells: Seq<u32>, w: int, h: int, birth: u32, x: int, y: int)
    requires
        cells.len() == w * h,
        0 <= x < w,
        0 <= y < h,
    ensures
        step(cells, w, h, birth)[index_of(w, x, y)] == next_state(
            cells[index_of(w, x, y)],
            neighbor_count(cells, w, h, x, y),
            birth,
        ),
{
    lemma_index_in_bounds(w, h, x, y);
}

/// The next value of the cell at `(x, y)` of `grid`: its Moore neighbours are
/// counted under the clamped edge policy and the Life rule is applied.
pub fn is_alive(grid: &Grid, x: usize, y: usize, birth: u32) -> (r: u32)
    requires
        grid.wf(),
        x < grid.width,
        y < grid.height,
    ensures
        r == next_state(
            grid.cells@[index_of(grid.width as int, x as int, y as int)],
            neighbor_count(grid.cells@, grid.width as int, grid.height as int, x as int, y as int),
            birth,
        ),
{
    let n = grid.count_neighbors(x, y);
    let current = grid.get(x, y);
    next_cell(current, n, birth)
}

/// Writes into `scratch` the generation that follows `current`. `current` is
/// only read, so every cell is computed from the same snapshot.
pub fn next_generation(current: &Grid, scratch: &mut Grid, birth: u32)
    requires
        current.wf(),
        old(scratch).wf(),
        old(scratch).width == current.width,
        old(scratch).height == current.height,
    ensures
        final(scratch).wf(),
        final(scratch).width == current.width,
        final(scratch).height == current.height,
        final(scratch).cells@ == step(
            current.cells@,
            current.width as int,
            current.height as int,
            birth,
        ),
{
    let w = current.width;
    let n = current.cells.len();
    let ghost target = step(current.cells@, current.width as int, current.height as int, birth);
    let mut i: usize = 0;
    while i < n
        invariant
            current.wf(),
            scratch.wf(),
            scratch.width == current.width,
            scratch.height == current.height,
            w == current.width,
            n == current.cells@.len(),
            i <= n,
            target == step(current.cells@, current.width as int, current.height as int, birth),
            forall|j: int| 0 <= j < i ==> #[trigger] scratch.cells@[j] == target[j],
        decreases n - i,
    {
        proof {
            lemma_position_of_index(w as int, current.height as int, i as int);
        }
        let v = is_alive(current, i % w, i / w, birth);
        scratch.cells.set(i, v);
        i = i + 1;
    }
    assert(scratch.cells@ =~= target);
}

} // verus!
