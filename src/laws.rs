//! Properties of the sweep, proved over the spec model of a generation.

use vstd::prelude::*;
use crate::grid::{
    index_of, in_grid, live, live_num, neighbor_count, population, lemma_index_in_bounds,
    lemma_position_of_index,
};
use crate::counting::{
    sum, live_at_index, lemma_sum_mono, lemma_sum_shift, lemma_sum_window, lemma_sum_add,
    lemma_sum_point, lemma_sum_congruent, lemma_population_is_sum,
};
use crate::engine::{step, generations, lemma_step_at};
use crate::rules::{alive, life_rule};

verus! {

/// A live cell with zero or one live neighbours is dead in the next
/// generation.
pub proof fn lemma_isolation(cells: Seq<u32>, w: int, h: int, birth: u32, x: int, y: int)
    requires
        cells.len() == w * h,
        in_grid(w, h, x, y),
        alive(cells[index_of(w, x, y)]),
        neighbor_count(cells, w, h, x, y) <= 1,
    ensures
        step(cells, w, h, birth)[index_of(w, x, y)] == 0,
{
    lemma_step_at(cells, w, h, birth, x, y);
}

/// A live cell with two or three live neighbours stays alive, keeping its
/// value.
pub proof fn lemma_survival(cells: Seq<u32>, w: int, h: int, birth: u32, x: int, y: int)
    requires
        cells.len() == w * h,
        in_grid(w, h, x, y),
        alive(cells[index_of(w, x, y)]),
        neighbor_count(cells, w, h, x, y) == 2 || neighbor_count(cells, w, h, x, y) == 3,
    ensures
        alive(step(cells, w, h, birth)[index_of(w, x, y)]),
        step(cells, w, h, birth)[index_of(w, x, y)] == cells[index_of(w, x, y)],
{
    lemma_step_at(cells, w, h, birth, x, y);
}

/// A live cell with four or more live neighbours is dead in the next
/// generation.
pub proof fn lemma_overcrowding(cells: Seq<u32>, w: int, h: int, birth: u32, x: int, y: int)
    requires
        cells.len() == w * h,
        in_grid(w, h, x, y),
        alive(cells[index_of(w, x, y)]),
        neighbor_count(cells, w, h, x, y) >= 4,
    ensures
        step(cells, w, h, birth)[index_of(w, x, y)] == 0,
{
    lemma_step_at(cells, w, h, birth, x, y);
}

/// A dead cell with exactly three live neighbours takes the birth colour.
pub proof fn lemma_birth(cells: Seq<u32>, w: int, h: int, birth: u32, x: int, y: int)
    requires
        cells.len() == w * h,
        in_grid(w, h, x, y),
        !alive(cells[index_of(w, x, y)]),
        neighbor_count(cells, w, h, x, y) == 3,
    ensures
        step(cells, w, h, birth)[index_of(w, x, y)] == birth,
{
    lemma_step_at(cells, w, h, birth, x, y);
}

/// A dead cell without exactly three live neighbours stays dead.
pub proof fn lemma_dead_stays_dead(cells: Seq<u32>, w: int, h: int, birth: u32, x: int, y: int)
    requires
        cells.len() == w * h,
        in_grid(w, h, x, y),
        !alive(cells[index_of(w, x, y)]),
        neighbor_count(cells, w, h, x, y) != 3,
    ensures
        step(cells, w, h, birth)[index_of(w, x, y)] == 0,
{
    lemma_step_at(cells, w, h, birth, x, y);
}

/// A grid that the sweep leaves unchanged stays unchanged for any number of
/// generations.
pub proof fn lemma_fixed_point(cells: Seq<u32>, w: int, h: int, birth: u32, k: nat)
    requires
        step(cells, w, h, birth) == cells,
    ensures
        generations(cells, w, h, birth, k) == cells,
    decreases k,
{
    if k > 0 {
        lemma_fixed_point(cells, w, h, birth, (k - 1) as nat);
    }
}

/// Whether `(x, y)` is one of the four cells of the 2 by 2 block whose top
/// left cell is `(bx, by)`.
pub open spec fn in_block(bx: int, by: int, x: int, y: int) -> bool {
    bx <= x <= bx + 1 && by <= y <= by + 1
}

/// One for each of the eight neighbours of `(x, y)` where `p` holds.
pub open spec fn pattern_count(p: spec_fn(int, int) -> bool, x: int, y: int) -> int {
    (if p(x - 1, y - 1) { 1int } else { 0 }) + (if p(x, y - 1) { 1int } else { 0 }) + (if p(
        x + 1,
        y - 1,
    ) {
        1int
    } else {
        0
    }) + (if p(x - 1, y) { 1int } else { 0 }) + (if p(x + 1, y) { 1int } else { 0 }) + (if p(
        x - 1,
        y + 1,
    ) {
        1int
    } else {
        0
    }) + (if p(x, y + 1) { 1int } else { 0 }) + (if p(x + 1, y + 1) { 1int } else { 0 })
}

/// Where the live positions around `(x, y)` agree with `p`, the neighbour
/// count of `(x, y)` is the count of `p` around it.
pub proof fn lemma_count_by_pattern(
    cells: Seq<u32>,
    w: int,
    h: int,
    p: spec_fn(int, int) -> bool,
    x: int,
    y: int,
)
    requires
        forall|a: int, b: int|
            x - 1 <= a <= x + 1 && y - 1 <= b <= y + 1 ==> #[trigger] live(cells, w, h, a, b) == p(a, b),
    ensures
        neighbor_count(cells, w, h, x, y) == pattern_count(p, x, y),
{
    assert(live(cells, w, h, x - 1, y - 1) == p(x - 1, y - 1));
    assert(live(cells, w, h, x, y - 1) == p(x, y - 1));
    assert(live(cells, w, h, x + 1, y - 1) == p(x + 1, y - 1));
    assert(live(cells, w, h, x - 1, y) == p(x - 1, y));
    assert(live(cells, w, h, x + 1, y) == p(x + 1, y));
    assert(live(cells, w, h, x - 1, y + 1) == p(x - 1, y + 1));
    assert(live(cells, w, h, x, y + 1) == p(x, y + 1));
    assert(live(cells, w, h, x + 1, y + 1) == p(x + 1, y + 1));
}

/// The four cells of the block whose top left cell is `(bx, by)`.
pub open spec fn block(bx: int, by: int) -> spec_fn(int, int) -> bool {
    |x: int, y: int| in_block(bx, by, x, y)
}

/// A 2 by 2 block of live cells, of any colours, alone on a grid of any size
/// is a still life: every later generation equals the first, values included.
pub proof fn lemma_block_still_life(
    cells: Seq<u32>,
    w: int,
    h: int,
    birth: u32,
    bx: int,
    by: int,
    k: nat,
)
    requires
        cells.len() == w * h,
        0 <= bx && bx + 1 < w,
        0 <= by && by + 1 < h,
        forall|x: int, y: int|
            in_grid(w, h, x, y) ==> (alive(#[trigger] cells[index_of(w, x, y)]) <==> in_block(
                bx,
                by,
                x,
                y,
            )),
    ensures
        generations(cells, w, h, birth, k) == cells,
{
    assert forall|x: int, y: int| #[trigger] live(cells, w, h, x, y) == in_block(bx, by, x, y) by {
        if in_grid(w, h, x, y) {
            assert(alive(cells[index_of(w, x, y)]) <==> in_block(bx, by, x, y));
        }
    }
    let next = step(cells, w, h, birth);
    assert forall|i: int| 0 <= i < cells.len() implies #[trigger] next[i] == cells[i] by {
        lemma_position_of_index(w, h, i);
        let x = i % w;
        let y = i / w;
        assert(live(cells, w, h, x, y) == in_block(bx, by, x, y));
        lemma_count_by_pattern(cells, w, h, block(bx, by), x, y);
    }
    assert(next =~= cells);
    lemma_fixed_point(cells, w, h, birth, k);
}

/// A 2 by 2 block of live cells with no other live cell in the ring of
/// cells around it keeps every one of its four cells, values included,
/// through the next sweep, whatever lies farther away.
pub proof fn lemma_block_survives_sweep(
    cells: Seq<u32>,
    w: int,
    h: int,
    birth: u32,
    bx: int,
    by: int,
    x: int,
    y: int,
)
    requires
        cells.len() == w * h,
        in_grid(w, h, x, y),
        in_block(bx, by, x, y),
        forall|a: int, b: int| #[trigger]
            in_block(bx, by, a, b) ==> live(cells, w, h, a, b),
        forall|a: int, b: int|
            bx - 1 <= a <= bx + 2 && by - 1 <= b <= by + 2 && !in_block(bx, by, a, b)
                ==> !#[trigger] live(cells, w, h, a, b),
    ensures
        step(cells, w, h, birth)[index_of(w, x, y)] == cells[index_of(w, x, y)],
{
    lemma_step_at(cells, w, h, birth, x, y);
    assert(in_block(bx, by, x, y));
    assert(live(cells, w, h, x, y));
    assert forall|a: int, b: int|
        x - 1 <= a <= x + 1 && y - 1 <= b <= y + 1 implies #[trigger] live(cells, w, h, a, b) == block(
        bx,
        by,
    )(a, b) by {
        if in_block(bx, by, a, b) {
            assert(live(cells, w, h, a, b));
        }
    }
    lemma_count_by_pattern(cells, w, h, block(bx, by), x, y);
}

/// Where the live positions of a grid are exactly those of `p`, and `q`
/// lies inside the grid and is what the Life rule makes of `p`, the live
/// positions of the next generation are exactly those of `q`.
pub proof fn lemma_step_liveness(
    cells: Seq<u32>,
    w: int,
    h: int,
    birth: u32,
    p: spec_fn(int, int) -> bool,
    q: spec_fn(int, int) -> bool,
)
    requires
        cells.len() == w * h,
        w >= 1,
        birth != 0,
        forall|x: int, y: int| #[trigger] live(cells, w, h, x, y) == p(x, y),
        forall|x: int, y: int| #[trigger] q(x, y) ==> in_grid(w, h, x, y),
        forall|x: int, y: int|
            in_grid(w, h, x, y) ==> (#[trigger] q(x, y) == life_rule(p(x, y), pattern_count(p, x, y))),
    ensures
        step(cells, w, h, birth).len() == w * h,
        forall|x: int, y: int| #[trigger] live(step(cells, w, h, birth), w, h, x, y) == q(x, y),
{
    let next = step(cells, w, h, birth);
    assert forall|x: int, y: int| #[trigger] live(next, w, h, x, y) == q(x, y) by {
        if in_grid(w, h, x, y) {
            lemma_step_at(cells, w, h, birth, x, y);
            assert(live(cells, w, h, x, y) == p(x, y));
            lemma_count_by_pattern(cells, w, h, p, x, y);
        }
    }
}

/// Whether `(dx, dy)`, taken from the top left corner of a 4 by 4 box, is
/// live in the given phase (0 to 3) of a glider moving right and down:
///
/// ```text
/// phase 0   phase 1   phase 2   phase 3
/// .#..      ....      ....      ....
/// ..#.      #.#.      ..#.      .#..
/// ###.      .##.      #.#.      ..##
/// ....      .#..      .##.      .##.
/// ```
pub open spec fn glider_cell(phase: int, dx: int, dy: int) -> bool {
    if phase == 0 {
        (dx == 1 && dy == 0) || (dx == 2 && dy == 1) || (dy == 2 && 0 <= dx <= 2)
    } else if phase == 1 {
        (dx == 0 && dy == 1) || (dx == 2 && dy == 1) || (dx == 1 && dy == 2) || (dx == 2 && dy
            == 2) || (dx == 1 && dy == 3)
    } else if phase == 2 {
        (dx == 2 && dy == 1) || (dx == 0 && dy == 2) || (dx == 2 && dy == 2) || (dx == 1 && dy
            == 3) || (dx == 2 && dy == 3)
    } else {
        (dx == 1 && dy == 1) || (dx == 2 && dy == 2) || (dx == 3 && dy == 2) || (dx == 1 && dy
            == 3) || (dx == 2 && dy == 3)
    }
}

/// The positions of a glider in the given phase whose box starts at
/// `(gx, gy)`.
pub open spec fn glider(phase: int, gx: int, gy: int) -> spec_fn(int, int) -> bool {
    |x: int, y: int| glider_cell(phase, x - gx, y - gy)
}

/// One sweep takes a glider from one phase to the next, provided its box
/// lies inside the grid.
proof fn lemma_glider_phase(cells: Seq<u32>, w: int, h: int, birth: u32, gx: int, gy: int, phase: int)
    requires
        cells.len() == w * h,
        birth != 0,
        0 <= phase < 4,
        0 <= gx && gx + 3 < w,
        0 <= gy && gy + 3 < h,
        forall|x: int, y: int| #[trigger] live(cells, w, h, x, y) == glider(phase, gx, gy)(x, y),
    ensures
        step(cells, w, h, birth).len() == w * h,
        forall|x: int, y: int|
            #[trigger] live(step(cells, w, h, birth), w, h, x, y) == if phase < 3 {
                glider(phase + 1, gx, gy)(x, y)
            } else {
                glider(0, gx + 1, gy + 1)(x, y)
            },
{
    let p = glider(phase, gx, gy);
    let q = if phase < 3 {
        glider(phase + 1, gx, gy)
    } else {
        glider(0, gx + 1, gy + 1)
    };
    assert forall|x: int, y: int| #[trigger] q(x, y) implies in_grid(w, h, x, y) by {}
    assert forall|x: int, y: int|
        in_grid(w, h, x, y) implies (#[trigger] q(x, y) == life_rule(p(x, y), pattern_count(p, x, y))) by {}
    lemma_step_liveness(cells, w, h, birth, p, q);
}

/// Whether `(x, y)` is one of the five positions of `ps`.
pub open spec fn one_of_five(ps: Seq<(int, int)>, x: int, y: int) -> bool {
    (x, y) == ps[0] || (x, y) == ps[1] || (x, y) == ps[2] || (x, y) == ps[3] || (x, y) == ps[4]
}

/// A grid whose live positions are exactly five distinct positions has a
/// population of five.
pub proof fn lemma_population_five(cells: Seq<u32>, w: int, h: int, ps: Seq<(int, int)>)
    requires
        cells.len() == w * h,
        w >= 1,
        ps.len() == 5,
        forall|k: int| 0 <= k < 5 ==> in_grid(w, h, (#[trigger] ps[k]).0, ps[k].1),
        forall|j: int, k: int| 0 <= j < k < 5 ==> #[trigger] ps[j] != #[trigger] ps[k],
        forall|x: int, y: int| #[trigger] live(cells, w, h, x, y) == one_of_five(ps, x, y),
    ensures
        population(cells) == 5,
{
    let n = w * h;
    let at = |k: int| index_of(w, ps[k].0, ps[k].1);
    let e0 = |i: int| if i == at(0) { 1int } else { 0 };
    let e1 = |i: int| if i == at(1) { 1int } else { 0 };
    let e2 = |i: int| if i == at(2) { 1int } else { 0 };
    let e3 = |i: int| if i == at(3) { 1int } else { 0 };
    let e4 = |i: int| if i == at(4) { 1int } else { 0 };
    assert forall|k: int| 0 <= k < 5 implies 0 <= #[trigger] at(k) < n && at(k) % w == ps[k].0
        && at(k) / w == ps[k].1 by {
        assert(in_grid(w, h, ps[k].0, ps[k].1));
        lemma_index_in_bounds(w, h, ps[k].0, ps[k].1);
    }
    assert(0 <= at(0) < n && 0 <= at(1) < n && 0 <= at(2) < n && 0 <= at(3) < n && 0 <= at(4) < n);
    lemma_sum_point(e0, at(0), 0, n);
    lemma_sum_point(e1, at(1), 0, n);
    lemma_sum_point(e2, at(2), 0, n);
    lemma_sum_point(e3, at(3), 0, n);
    lemma_sum_point(e4, at(4), 0, n);
    let s2 = |i: int| e0(i) + e1(i);
    let s3 = |i: int| s2(i) + e2(i);
    let s4 = |i: int| s3(i) + e3(i);
    let s5 = |i: int| s4(i) + e4(i);
    lemma_sum_add(e0, e1, s2, 0, n);
    lemma_sum_add(s2, e2, s3, 0, n);
    lemma_sum_add(s3, e3, s4, 0, n);
    lemma_sum_add(s4, e4, s5, 0, n);
    let f = live_at_index(cells);
    assert forall|i: int| 0 <= i < n implies #[trigger] f(i) == s5(i) by {
        lemma_position_of_index(w, h, i);
        let x = i % w;
        let y = i / w;
        assert(live(cells, w, h, x, y) == one_of_five(ps, x, y));
        assert(at(0) % w == ps[0].0 && at(0) / w == ps[0].1);
        assert(at(1) % w == ps[1].0 && at(1) / w == ps[1].1);
        assert(at(2) % w == ps[2].0 && at(2) / w == ps[2].1);
        assert(at(3) % w == ps[3].0 && at(3) / w == ps[3].1);
        assert(at(4) % w == ps[4].0 && at(4) / w == ps[4].1);
        assert(ps[0] != ps[1] && ps[0] != ps[2] && ps[0] != ps[3] && ps[0] != ps[4]);
        assert(ps[1] != ps[2] && ps[1] != ps[3] && ps[1] != ps[4]);
        assert(ps[2] != ps[3] && ps[2] != ps[4] && ps[3] != ps[4]);
    }
    lemma_sum_congruent(f, s5, 0, n);
    lemma_population_is_sum(cells);
}

/// The five positions of a glider in the given phase whose box starts at
/// `(gx, gy)`, as drawn at `glider_cell`.
pub open spec fn glider_points(phase: int, gx: int, gy: int) -> Seq<(int, int)> {
    if phase == 0 {
        seq![(gx + 1, gy), (gx + 2, gy + 1), (gx, gy + 2), (gx + 1, gy + 2), (gx + 2, gy + 2)]
    } else if phase == 1 {
        seq![(gx, gy + 1), (gx + 2, gy + 1), (gx + 1, gy + 2), (gx + 2, gy + 2), (gx + 1, gy + 3)]
    } else if phase == 2 {
        seq![(gx + 2, gy + 1), (gx, gy + 2), (gx + 2, gy + 2), (gx + 1, gy + 3), (gx + 2, gy + 3)]
    } else {
        seq![(gx + 1, gy + 1), (gx + 2, gy + 2), (gx + 3, gy + 2), (gx + 1, gy + 3), (gx + 2, gy + 3)]
    }
}

/// A glider in any phase, with all its cells inside the grid, is five live
/// cells.
pub proof fn lemma_glider_population(cells: Seq<u32>, w: int, h: int, gx: int, gy: int, phase: int)
    requires
        cells.len() == w * h,
        w >= 1,
        0 <= phase < 4,
        forall|x: int, y: int| #[trigger] glider(phase, gx, gy)(x, y) ==> in_grid(w, h, x, y),
        forall|x: int, y: int| #[trigger] live(cells, w, h, x, y) == glider(phase, gx, gy)(x, y),
    ensures
        population(cells) == 5,
{
    let ps = glider_points(phase, gx, gy);
    assert(ps.len() == 5);
    assert forall|k: int| 0 <= k < 5 implies in_grid(w, h, (#[trigger] ps[k]).0, ps[k].1) by {
        assert(glider(phase, gx, gy)(ps[k].0, ps[k].1));
    }
    assert forall|j: int, k: int| 0 <= j < k < 5 implies #[trigger] ps[j] != #[trigger] ps[k] by {}
    assert forall|x: int, y: int| #[trigger] live(cells, w, h, x, y) == one_of_five(ps, x, y) by {
        assert(live(cells, w, h, x, y) == glider(phase, gx, gy)(x, y));
    }
    lemma_population_five(cells, w, h, ps);
}

/// A glider whose 4 by 4 path lies inside the grid moves one cell right and
/// one cell down every four generations, keeping its shape, and has five
/// live cells in each of those generations.
pub proof fn lemma_glider_moves(cells: Seq<u32>, w: int, h: int, birth: u32, gx: int, gy: int)
    requires
        cells.len() == w * h,
        birth != 0,
        0 <= gx && gx + 3 < w,
        0 <= gy && gy + 3 < h,
        forall|x: int, y: int|
            in_grid(w, h, x, y) ==> (alive(#[trigger] cells[index_of(w, x, y)]) <==> glider(
                0,
                gx,
                gy,
            )(x, y)),
    ensures
        generations(cells, w, h, birth, 4).len() == w * h,
        forall|x: int, y: int|
            in_grid(w, h, x, y) ==> (alive(
                #[trigger] generations(cells, w, h, birth, 4)[index_of(w, x, y)],
            ) <==> glider(0, gx + 1, gy + 1)(x, y)),
        forall|k: nat| k <= 4 ==> #[trigger] population(generations(cells, w, h, birth, k)) == 5,
{
    assert forall|x: int, y: int| #[trigger] live(cells, w, h, x, y) == glider(0, gx, gy)(x, y) by {
        if in_grid(w, h, x, y) {
            assert(alive(cells[index_of(w, x, y)]) <==> glider(0, gx, gy)(x, y));
        }
    }
    let g0 = generations(cells, w, h, birth, 0);
    let g1 = generations(cells, w, h, birth, 1);
    let g2 = generations(cells, w, h, birth, 2);
    let g3 = generations(cells, w, h, birth, 3);
    let g4 = generations(cells, w, h, birth, 4);
    assert(g0 == cells);
    lemma_glider_phase(g0, w, h, birth, gx, gy, 0);
    assert(g1 == step(g0, w, h, birth));
    lemma_glider_phase(g1, w, h, birth, gx, gy, 1);
    assert(g2 == step(g1, w, h, birth));
    lemma_glider_phase(g2, w, h, birth, gx, gy, 2);
    assert(g3 == step(g2, w, h, birth));
    lemma_glider_phase(g3, w, h, birth, gx, gy, 3);
    assert(g4 == step(g3, w, h, birth));
    assert forall|x: int, y: int|
        in_grid(w, h, x, y) implies (alive(#[trigger] g4[index_of(w, x, y)]) <==> glider(
            0,
            gx + 1,
            gy + 1,
        )(x, y)) by {
        assert(live(g4, w, h, x, y) == glider(0, gx + 1, gy + 1)(x, y));
    }
    lemma_glider_population(g0, w, h, gx, gy, 0);
    lemma_glider_population(g1, w, h, gx, gy, 1);
    lemma_glider_population(g2, w, h, gx, gy, 2);
    lemma_glider_population(g3, w, h, gx, gy, 3);
    lemma_glider_population(g4, w, h, gx + 1, gy + 1, 0);
    assert forall|k: nat| k <= 4 implies #[trigger] population(generations(cells, w, h, birth, k)) == 5 by {
        if k == 0 {
            assert(generations(cells, w, h, birth, k) == g0);
        } else if k == 1 {
            assert(generations(cells, w, h, birth, k) == g1);
        } else if k == 2 {
            assert(generations(cells, w, h, birth, k) == g2);
        } else if k == 3 {
            assert(generations(cells, w, h, birth, k) == g3);
        } else {
            assert(generations(cells, w, h, birth, k) == g4);
        }
    }
}

/// One where the neighbour at offset `(dx, dy)` of the cell at index `i`
/// is live, zero otherwise.
pub open spec fn offset_live(cells: Seq<u32>, w: int, h: int, dx: int, dy: int) -> spec_fn(int) -> int {
    |i: int| live_num(cells, w, h, i % w + dx, i / w + dy)
}

/// Over all cells, the neighbours at one fixed offset are distinct cells,
/// so at most the population of them are live.
proof fn lemma_offset_bound(cells: Seq<u32>, w: int, h: int, dx: int, dy: int)
    requires
        cells.len() == w * h,
        w >= 1,
        -1 <= dx <= 1,
        -1 <= dy <= 1,
    ensures
        sum(offset_live(cells, w, h, dx, dy), 0, w * h) <= population(cells),
{
    let n = w * h;
    let k = dy * w + dx;
    let g = live_at_index(cells);
    let f = offset_live(cells, w, h, dx, dy);
    let shifted = |i: int| g(i + k);
    assert forall|i: int| 0 <= i < n implies #[trigger] f(i) <= shifted(i) by {
        lemma_position_of_index(w, h, i);
        let x = i % w;
        let y = i / w;
        if live(cells, w, h, x + dx, y + dy) {
            lemma_index_in_bounds(w, h, x + dx, y + dy);
            assert(index_of(w, x + dx, y + dy) == i + k) by (nonlinear_arith)
                requires
                    i == y * w + x,
                    k == dy * w + dx,
            ;
        }
    }
    lemma_sum_mono(f, shifted, 0, n);
    lemma_sum_shift(shifted, g, k, 0, n);
    assert(k <= n + k);
    lemma_sum_window(g, n, k, n + k);
    lemma_population_is_sum(cells);
}

/// The live population after a sweep is at most eight times (indeed at
/// most four times) the population before it: every cell alive after the
/// sweep has at least two live neighbours, and each live cell is a
/// neighbour of at most eight cells.
pub proof fn lemma_population_bound(cells: Seq<u32>, w: int, h: int, birth: u32)
    requires
        cells.len() == w * h,
        w >= 1,
    ensures
        population(step(cells, w, h, birth)) <= 4 * population(cells),
        population(step(cells, w, h, birth)) <= 8 * population(cells),
{
    let n = w * h;
    let next = step(cells, w, h, birth);
    let f1 = offset_live(cells, w, h, -1, -1);
    let f2 = offset_live(cells, w, h, 0, -1);
    let f3 = offset_live(cells, w, h, 1, -1);
    let f4 = offset_live(cells, w, h, -1, 0);
    let f5 = offset_live(cells, w, h, 1, 0);
    let f6 = offset_live(cells, w, h, -1, 1);
    let f7 = offset_live(cells, w, h, 0, 1);
    let f8 = offset_live(cells, w, h, 1, 1);
    lemma_offset_bound(cells, w, h, -1, -1);
    lemma_offset_bound(cells, w, h, 0, -1);
    lemma_offset_bound(cells, w, h, 1, -1);
    lemma_offset_bound(cells, w, h, -1, 0);
    lemma_offset_bound(cells, w, h, 1, 0);
    lemma_offset_bound(cells, w, h, -1, 1);
    lemma_offset_bound(cells, w, h, 0, 1);
    lemma_offset_bound(cells, w, h, 1, 1);
    let s2 = |i: int| f1(i) + f2(i);
    let s3 = |i: int| s2(i) + f3(i);
    let s4 = |i: int| s3(i) + f4(i);
    let s5 = |i: int| s4(i) + f5(i);
    let s6 = |i: int| s5(i) + f6(i);
    let s7 = |i: int| s6(i) + f7(i);
    let s8 = |i: int| s7(i) + f8(i);
    lemma_sum_add(f1, f2, s2, 0, n);
    lemma_sum_add(s2, f3, s3, 0, n);
    lemma_sum_add(s3, f4, s4, 0, n);
    lemma_sum_add(s4, f5, s5, 0, n);
    lemma_sum_add(s5, f6, s6, 0, n);
    lemma_sum_add(s6, f7, s7, 0, n);
    lemma_sum_add(s7, f8, s8, 0, n);
    let a = live_at_index(next);
    let twice = |i: int| a(i) + a(i);
    assert forall|i: int| 0 <= i < n implies #[trigger] twice(i) <= s8(i) by {
        let c = neighbor_count(cells, w, h, i % w, i / w);
        assert(s8(i) == c);
        if alive(next[i]) {
            assert(life_rule(alive(cells[i]), c));
        }
    }
    lemma_sum_mono(twice, s8, 0, n);
    lemma_sum_add(a, a, twice, 0, n);
    lemma_population_is_sum(next);
    lemma_population_is_sum(cells);
}

} // verus!
