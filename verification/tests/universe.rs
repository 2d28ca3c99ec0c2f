use game_of_life::Universe;

fn alive(u: &Universe, row: u32, col: u32) -> bool {
    u.get_cells().contains((row * u.width() + col) as usize)
}

fn live_cells(u: &Universe) -> Vec<(u32, u32)> {
    let mut out = Vec::new();
    for row in 0..u.height() {
        for col in 0..u.width() {
            if alive(u, row, col) {
                out.push((row, col));
            }
        }
    }
    out
}

#[test]
fn new_universe_is_all_dead() {
    let u = Universe::new(7, 5);
    assert_eq!(u.width(), 7);
    assert_eq!(u.height(), 5);
    assert_eq!(u.get_cells().len(), 35);
    assert_eq!(live_cells(&u), vec![]);
}

#[test]
fn set_cells_makes_listed_cells_alive() {
    let mut u = Universe::new(4, 4);
    u.set_cells(&[(0, 0), (1, 2), (3, 3)]);
    assert_eq!(live_cells(&u), vec![(0, 0), (1, 2), (3, 3)]);
}

#[test]
fn set_cells_is_additive() {
    let mut u = Universe::new(5, 5);
    u.set_cells(&[(0, 0), (1, 1)]);
    u.set_cells(&[(2, 2), (3, 4)]);
    assert_eq!(live_cells(&u), vec![(0, 0), (1, 1), (2, 2), (3, 4)]);
}

#[test]
fn set_cells_duplicates_are_idempotent() {
    let mut u = Universe::new(3, 3);
    u.set_cells(&[(1, 1), (1, 1), (1, 1)]);
    assert_eq!(live_cells(&u), vec![(1, 1)]);
}

#[test]
fn rule_birth_on_exactly_three_neighbors() {
    let mut u = Universe::new(5, 5);
    u.set_cells(&[(1, 1), (1, 2), (1, 3)]);
    u.tick();
    // The horizontal blinker flips to a vertical one: (2, 2) had three live
    // neighbors and is born, the ends had one and die, the center survives.
    assert_eq!(live_cells(&u), vec![(0, 2), (1, 2), (2, 2)]);
}

#[test]
fn rule_two_neighbors_keeps_prior_state() {
    let mut u = Universe::new(6, 6);
    // A block is a still life: every live cell has three live neighbors,
    // every dead cell at most two.
    u.set_cells(&[(1, 1), (1, 2), (2, 1), (2, 2)]);
    u.tick();
    assert_eq!(live_cells(&u), vec![(1, 1), (1, 2), (2, 1), (2, 2)]);
}

#[test]
fn rule_overcrowded_cell_dies() {
    let mut u = Universe::new(6, 6);
    // The center of a plus sign has four live neighbors and dies.
    u.set_cells(&[(2, 2), (1, 2), (3, 2), (2, 1), (2, 3)]);
    u.tick();
    assert!(!alive(&u, 2, 2));
}

#[test]
fn toroidal_wraparound_counts_opposite_corner() {
    let mut u = Universe::new(4, 4);
    // Three of the eight wrapped neighbors of (0, 0) are alive, so (0, 0)
    // is born even though all three sit on the far edges.
    u.set_cells(&[(3, 3), (3, 0), (0, 3)]);
    u.tick();
    assert!(alive(&u, 0, 0));
}

#[test]
fn lone_cell_dies_in_one_tick() {
    let mut u = Universe::new(5, 5);
    u.set_cells(&[(2, 2)]);
    u.tick();
    assert_eq!(live_cells(&u), vec![]);
}

#[test]
fn glider_advances_one_generation() {
    let mut u = Universe::new(6, 6);
    u.set_cells(&[(1, 2), (2, 3), (3, 1), (3, 2), (3, 3)]);
    u.tick();
    assert_eq!(live_cells(&u), vec![(2, 1), (2, 3), (3, 2), (3, 3), (4, 2)]);
}

#[test]
fn set_width_discards_all_state() {
    let mut u = Universe::new(4, 4);
    u.set_cells(&[(0, 0), (2, 2)]);
    u.set_width(6);
    assert_eq!(u.width(), 6);
    assert_eq!(u.height(), 4);
    assert_eq!(u.get_cells().len(), 24);
    assert_eq!(live_cells(&u), vec![]);
}

#[test]
fn set_width_to_same_width_still_clears() {
    let mut u = Universe::new(4, 4);
    u.set_cells(&[(1, 1)]);
    u.set_width(4);
    assert_eq!(u.width(), 4);
    assert_eq!(live_cells(&u), vec![]);
}

#[test]
fn set_height_discards_all_state() {
    let mut u = Universe::new(4, 4);
    u.set_cells(&[(3, 3)]);
    u.set_height(2);
    assert_eq!(u.width(), 4);
    assert_eq!(u.height(), 2);
    assert_eq!(u.get_cells().len(), 8);
    assert_eq!(live_cells(&u), vec![]);
}

#[test]
fn clear_kills_every_cell() {
    let mut u = Universe::new(3, 3);
    u.set_cells(&[(0, 0), (1, 1), (2, 2)]);
    u.clear();
    assert_eq!(live_cells(&u), vec![]);
    assert_eq!(u.get_cells().len(), 9);
}

#[test]
fn empty_kills_every_cell() {
    let mut u = Universe::new(3, 3);
    u.set_cells(&[(0, 1), (2, 0)]);
    u.empty();
    assert_eq!(live_cells(&u), vec![]);
    assert_eq!(u.get_cells().len(), 9);
}

#[test]
fn toggle_cell_flips_and_flips_back() {
    let mut u = Universe::new(4, 4);
    u.toggle_cell(1, 2);
    assert!(alive(&u, 1, 2));
    u.toggle_cell(1, 2);
    assert!(!alive(&u, 1, 2));
}

#[test]
fn toggle_cell_wraps_exactly_out_of_bounds_coordinates() {
    let mut u = Universe::new(4, 4);
    // (height, width) is out of bounds by exactly one in each direction and
    // must address the same cell as (0, 0).
    u.toggle_cell(4, 4);
    assert!(alive(&u, 0, 0));
    u.toggle_cell(0, 0);
    assert!(!alive(&u, 0, 0));
}

#[test]
fn activate_cell_is_idempotent_and_wraps() {
    let mut u = Universe::new(5, 3);
    u.activate_cell(1, 2);
    u.activate_cell(1, 2);
    assert_eq!(live_cells(&u), vec![(1, 2)]);
    u.activate_cell(3 + 2, 5 + 4);
    assert_eq!(live_cells(&u), vec![(1, 2), (2, 4)]);
}

#[test]
fn randomize_writes_exactly_the_injected_flips() {
    let mut u = Universe::new(3, 3);
    u.set_cells(&[(0, 0)]);
    let flips = vec![false, true, false, true, false, true, false, true, false];
    u.randomize(&flips);
    assert_eq!(live_cells(&u), vec![(0, 1), (1, 0), (1, 2), (2, 1)]);
}

#[test]
fn cells_exposes_packed_row_major_bits() {
    let mut u = Universe::new(2, 2);
    u.set_cells(&[(0, 0), (1, 1)]);
    // Four bits, row-major: indices 0 and 3 set, in one little-endian block.
    assert_eq!(u.cells(), &[0b1001]);
}

#[test]
fn cells_spans_multiple_blocks() {
    let mut u = Universe::new(6, 6);
    u.set_cells(&[(0, 0), (5, 5)]);
    let blocks = u.cells();
    // 36 bits need two blocks; bit 0 and bit 35 are set.
    assert_eq!(blocks.len(), 2);
    assert_eq!(blocks[0], 1);
    assert_eq!(blocks[1], 1 << 3);
}

#[test]
fn tick_preserves_dimensions() {
    let mut u = Universe::new(3, 7);
    u.set_cells(&[(0, 0), (1, 1), (2, 2)]);
    u.tick();
    assert_eq!(u.width(), 3);
    assert_eq!(u.height(), 7);
    assert_eq!(u.get_cells().len(), 21);
}

#[test]
fn lone_cell_dies_on_one_by_two_grid() {
    // Height 1: the offset pair (height - 1, 0) collapses to (0, 0) and is
    // skipped, so the lone cell counts itself only once and dies.
    let mut u = Universe::new(2, 1);
    u.set_cells(&[(0, 0)]);
    u.tick();
    assert_eq!(live_cells(&u), vec![]);
}

#[test]
fn lone_cell_on_one_by_three_grid_births_both_neighbors() {
    // On a single row of three, each side cell sees the live middle cell
    // three times through the wraparound, so the middle dies and both
    // sides are born.
    let mut u = Universe::new(3, 1);
    u.set_cells(&[(0, 1)]);
    u.tick();
    assert_eq!(live_cells(&u), vec![(0, 0), (0, 2)]);
}

#[test]
fn lone_cell_dies_on_single_cell_grid() {
    // On 1-by-1 every surviving offset pair wraps to the cell itself: it is
    // its own neighbor five times and dies of overcrowding.
    let mut u = Universe::new(1, 1);
    u.set_cells(&[(0, 0)]);
    u.tick();
    assert_eq!(live_cells(&u), vec![]);
}

#[test]
fn lone_cell_dies_on_two_by_one_grid() {
    // Width 1: the mirror case of the single-row grid, skipping the
    // (0, width - 1) pair instead.
    let mut u = Universe::new(1, 2);
    u.set_cells(&[(1, 0)]);
    u.tick();
    assert_eq!(live_cells(&u), vec![]);
}
