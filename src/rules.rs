//! The per-cell transition rule: a boolean Life automaton on liveness,
//! followed by an orthogonal colouring step.

use vstd::prelude::*;

verus! {

/// Liveness of a packed cell value.
pub open spec fn alive(v: u32) -> bool {
    v != 0
}

/// The B3/S23 rule on liveness alone: a live cell survives with two or
/// three live neighbours, a dead cell is born with exactly three.
pub open spec fn life_rule(is_live: bool, neighbors: int) -> bool {
    if is_live {
        neighbors == 2 || neighbors == 3
    } else {
        neighbors == 3
    }
}

/// The colour a cell takes once its next liveness is known: dead cells are
/// `0`, survivors keep their value, newborn cells take the birth colour.
pub open spec fn colour_of(current: u32, next_live: bool, birth: u32) -> u32 {
    if !next_live {
        0
    } else if alive(current) {
        current
    } else {
        birth
    }
}

/// The next value of a cell holding `current` with `neighbors` live
/// neighbours.
pub open spec fn next_state(current: u32, neighbors: int, birth: u32) -> u32 {
    colour_of(current, life_rule(alive(current), neighbors), birth)
}

/// Decides the next liveness of a cell from its liveness and its count of
/// live neighbours.
pub fn next_liveness(is_live: bool, neighbors: u8) -> (r: bool)
    ensures
        r == life_rule(is_live, neighbors as int),
{
    match (is_live, neighbors) {
        (true, 2) | (true, 3) => true,
        (false, 3) => true,
        _ => false,
    }
}

/// Colours a cell whose next liveness is `next_live`. Survivors keep their
/// value unchanged (no ageing); cells born take `birth`.
pub fn cell_colour(current: u32, next_live: bool, birth: u32) -> (r: u32)
    ensures
        r == colour_of(current, next_live, birth),
{
    if !next_live {
        0
    } else if current != 0 {
        current
    } else {
        birth
    }
}

/// The next value of a cell: the rule on liveness, then the colouring.
pub fn next_cell(current: u32, neighbors: u8, birth: u32) -> (r: u32)
    ensures
        r == next_state(current, neighbors as int, birth),
{
    let live_next = next_liveness(current != 0, neighbors);
    cell_colour(current, live_next, birth)
}

/// Packs red and green channels and a blue channel taken from `i` modulo
/// 255 into one 32-bit colour (`b` is accepted and not used).
pub fn to_rgb(r: usize, g: usize, b: usize, i: usize) -> (c: u32)
    ensures
        c == (((r << 16usize) | (g << 8usize) | (i % 255)) as u32),
        r < 256 && g < 256 ==> c == r * 65536 + g * 256 + i % 255,
{
    let c = ((r << 16) | (g << 8) | i % 255) as u32;
    proof {
        let m = i % 255;
        if r < 256 && g < 256 {
            assert(m < 255);
            assert(((r << 16usize) | (g << 8usize) | m) == r * 65536 + g * 256 + m) by (bit_vector)
                requires
                    r < 256,
                    g < 256,
                    m < 255,
            ;
        }
    }
    c
}

} // verus!
