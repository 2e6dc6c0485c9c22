use life::engine::{is_alive, next_generation};
use life::grid::Grid;
use life::rules::{cell_colour, next_cell, next_liveness, to_rgb};
use life::sim::Life;

const BIRTH: u32 = 0xFFFF00;

fn grid_with(width: usize, height: usize, live: &[(usize, usize)], v: u32) -> Grid {
    let mut g = Grid::new(width, height);
    for &(x, y) in live {
        g.set(x, y, v);
    }
    g
}

fn life_with(width: usize, height: usize, live: &[(usize, usize)]) -> Life {
    let mut s = Life::new(width, height, BIRTH);
    s.seed(&live.to_vec());
    s
}

fn live_cells(s: &Life) -> Vec<(usize, usize)> {
    let mut out = Vec::new();
    for y in 0..s.height() {
        for x in 0..s.width() {
            if s.cell(x, y) != 0 {
                out.push((x, y));
            }
        }
    }
    out
}

#[test]
fn live_cell_with_zero_or_one_neighbour_dies() {
    assert_eq!(next_cell(0x123456, 0, BIRTH), 0);
    assert_eq!(next_cell(0x123456, 1, BIRTH), 0);
}

#[test]
fn live_cell_with_two_or_three_neighbours_survives_unchanged() {
    assert_eq!(next_cell(0x123456, 2, BIRTH), 0x123456);
    assert_eq!(next_cell(0x123456, 3, BIRTH), 0x123456);
    assert!(next_liveness(true, 2));
    assert!(next_liveness(true, 3));
}

#[test]
fn live_cell_with_four_or_more_neighbours_dies() {
    for n in 4..=8u8 {
        assert_eq!(next_cell(7, n, BIRTH), 0);
        assert!(!next_liveness(true, n));
    }
}

#[test]
fn dead_cell_with_three_neighbours_is_born_with_birth_colour() {
    assert_eq!(next_cell(0, 3, BIRTH), BIRTH);
    assert_eq!(next_cell(0, 3, 0x00FF00), 0x00FF00);
}

#[test]
fn dead_cell_without_three_neighbours_stays_dead() {
    for n in [0u8, 1, 2, 4, 5, 6, 7, 8] {
        assert_eq!(next_cell(0, n, BIRTH), 0);
        assert!(!next_liveness(false, n));
    }
}

#[test]
fn colouring_is_separate_from_liveness() {
    assert_eq!(cell_colour(5, false, BIRTH), 0);
    assert_eq!(cell_colour(5, true, BIRTH), 5);
    assert_eq!(cell_colour(0, true, BIRTH), BIRTH);
}

#[test]
fn rgb_packing() {
    assert_eq!(to_rgb(0xFF, 0xFF, 0, 0), 0xFFFF00);
    assert_eq!(to_rgb(1, 2, 99, 3), 0x010203);
    assert_eq!(to_rgb(0, 0, 0, 255), 0);
    assert_eq!(to_rgb(0, 0, 0, 300), 45);
}

#[test]
fn neighbour_counts_on_the_border_are_clamped() {
    let live = [(0, 0), (1, 0), (4, 0), (0, 4), (4, 4), (2, 2), (4, 2), (0, 2)];
    let g = grid_with(5, 5, &live, BIRTH);
    assert_eq!(g.count_neighbors(0, 0), 1);
    assert_eq!(g.count_neighbors(4, 0), 0);
    assert_eq!(g.count_neighbors(0, 4), 0);
    assert_eq!(g.count_neighbors(4, 4), 0);
    assert_eq!(g.count_neighbors(2, 0), 1);
    assert_eq!(g.count_neighbors(0, 1), 3);
    assert_eq!(g.count_neighbors(4, 1), 2);
    assert_eq!(g.count_neighbors(4, 3), 2);
    assert_eq!(g.count_neighbors(1, 4), 1);
    assert_eq!(g.count_neighbors(2, 4), 0);
    assert_eq!(g.count_neighbors(0, 3), 2);
    assert_eq!(g.count_neighbors(3, 4), 1);
    assert_eq!(g.count_neighbors(1, 1), 4);
}

#[test]
fn single_row_and_single_cell_grids() {
    let g = grid_with(1, 1, &[(0, 0)], 1);
    assert_eq!(g.count_neighbors(0, 0), 0);
    assert_eq!(is_alive(&g, 0, 0, BIRTH), 0);
    let g = grid_with(3, 1, &[(0, 0), (2, 0)], 1);
    assert_eq!(g.count_neighbors(1, 0), 2);
    assert_eq!(g.count_neighbors(0, 0), 0);
}

#[test]
fn sweep_reads_one_snapshot() {
    // A blinker flips between a row and a column.
    let current = grid_with(5, 5, &[(1, 2), (2, 2), (3, 2)], 9);
    let mut scratch = Grid::new(5, 5);
    next_generation(&current, &mut scratch, BIRTH);
    assert_eq!(scratch.get(2, 1), BIRTH);
    assert_eq!(scratch.get(2, 2), 9);
    assert_eq!(scratch.get(2, 3), BIRTH);
    assert_eq!(scratch.get(1, 2), 0);
    assert_eq!(scratch.get(3, 2), 0);
    assert_eq!(scratch.population(), 3);
}

#[test]
fn block_is_still_for_five_generations() {
    let block = [(3, 3), (4, 3), (3, 4), (4, 4)];
    let mut s = life_with(8, 8, &block);
    let before = s.buffer().clone();
    for _ in 0..5 {
        s.tick();
        assert_eq!(s.buffer(), &before);
    }
}

#[test]
fn block_in_a_corner_is_still() {
    let mut s = life_with(4, 4, &[(0, 0), (1, 0), (0, 1), (1, 1)]);
    let before = s.buffer().clone();
    for _ in 0..5 {
        s.tick();
    }
    assert_eq!(s.buffer(), &before);
}

#[test]
fn glider_moves_one_cell_diagonally_every_four_generations() {
    let glider = [(3, 2), (4, 3), (2, 4), (3, 4), (4, 4)];
    let mut s = life_with(10, 10, &glider);
    for _ in 0..4 {
        s.tick();
        assert_eq!(s.population(), 5);
    }
    let moved: Vec<(usize, usize)> = vec![(4, 3), (5, 4), (3, 5), (4, 5), (5, 5)];
    let mut got = live_cells(&s);
    got.sort_by_key(|&(x, y)| (y, x));
    assert_eq!(got, moved);
}

#[test]
fn scratch_is_clear_after_every_tick() {
    let mut s = life_with(6, 6, &[(1, 1), (2, 1), (3, 1), (2, 2), (4, 4)]);
    for _ in 0..4 {
        s.tick();
        assert!(s.scratch_is_clear());
    }
}

#[test]
fn population_never_grows_past_eight_times() {
    let mut s = Life::new(20, 15, BIRTH);
    s.populate_game(60);
    for _ in 0..10 {
        let before = s.population();
        s.tick();
        assert!(s.population() <= 8 * before);
    }
}

#[test]
fn full_grid_collapses() {
    let mut all = Vec::new();
    for y in 0..6 {
        for x in 0..6 {
            all.push((x, y));
        }
    }
    let mut s = life_with(6, 6, &all);
    assert_eq!(s.population(), 36);
    s.tick();
    assert_eq!(live_cells(&s), vec![(0, 0), (5, 0), (0, 5), (5, 5)]);
    s.tick();
    assert_eq!(s.population(), 0);
}

#[test]
fn empty_grid_stays_empty() {
    let mut s = Life::new(7, 3, BIRTH);
    s.tick();
    assert_eq!(s.population(), 0);
}

#[test]
fn random_seeding_stays_inside_the_grid() {
    let mut s = Life::new(3, 2, BIRTH);
    s.populate_game(50);
    assert!(s.population() >= 1);
    assert!(s.buffer().iter().all(|&v| v == 0 || v == BIRTH));
    assert_eq!(s.buffer().len(), 6);
}

#[test]
fn random_seeding_marks_between_one_and_count_cells() {
    let mut s = Life::new(30, 20, BIRTH);
    s.populate_game(120);
    let p = s.population();
    assert!(p >= 1 && p <= 120);
    let mut none = Life::new(30, 20, BIRTH);
    none.populate_game(0);
    assert_eq!(none.population(), 0);
}

#[test]
fn seeding_ignores_positions_outside_the_grid() {
    let mut s = Life::new(4, 4, BIRTH);
    s.seed(&vec![(1, 1), (4, 0), (0, 4), (1, 1)]);
    assert_eq!(live_cells(&s), vec![(1, 1)]);
    s.set_alive(3, 3);
    assert_eq!(s.cell(3, 3), BIRTH);
    assert_eq!(s.birth_color(), BIRTH);
}

#[test]
fn grid_clear_kills_every_cell() {
    let mut g = grid_with(3, 3, &[(0, 0), (2, 2), (1, 1)], 4);
    assert_eq!(g.population(), 3);
    g.clear();
    assert_eq!(g.population(), 0);
    assert!(!g.is_live_at(1, 1));
    assert!(!g.is_live_at(5, 5));
}
