use game_of_life::cell::Cell;
use game_of_life::pattern::pulsar_has;
use game_of_life::universe::{rule, Universe};

fn empty(width: u32, height: u32) -> Universe {
    Universe::new(width, height, &[])
}

fn live_cells(universe: &Universe) -> Vec<(u32, u32)> {
    let mut found = Vec::new();
    for row in 0..universe.height() {
        for col in 0..universe.width() {
            if universe.get_cell(row, col) == Cell::Alive {
                found.push((row, col));
            }
        }
    }
    found
}

fn input_spaceship() -> Universe {
    let mut universe = empty(6, 6);
    universe.set_width(6);
    universe.set_height(6);
    universe.set_cells(&[(1, 2), (2, 3), (3, 1), (3, 2), (3, 3)]);
    universe
}

fn expected_spaceship() -> Universe {
    let mut universe = empty(6, 6);
    universe.set_width(6);
    universe.set_height(6);
    universe.set_cells(&[(2, 1), (2, 3), (3, 2), (3, 3), (4, 2)]);
    universe
}

fn pulsar_offsets() -> Vec<(i32, i32)> {
    vec![
        (-6, -4), (-6, -3), (-6, -2), (-6, 2), (-6, 3), (-6, 4),
        (-2, -6), (-3, -6), (-4, -6), (2, -6), (3, -6), (4, -6),
        (-2, 6), (-3, 6), (-4, 6), (2, 6), (3, 6), (4, 6),
        (-1, -2), (-1, -3), (-1, -4), (-1, 2), (-1, 3), (-1, 4),
        (1, -2), (1, -3), (1, -4), (1, 2), (1, 3), (1, 4),
        (6, -4), (6, -3), (6, -2), (6, 2), (6, 3), (6, 4),
        (-2, -1), (-3, -1), (-4, -1), (2, -1), (3, -1), (4, -1),
        (-2, 1), (-3, 1), (-4, 1), (2, 1), (3, 1), (4, 1),
    ]
}

#[test]
fn tick_moves_the_spaceship() {
    let mut universe = input_spaceship();
    let expected = expected_spaceship();
    universe.tick();
    assert_eq!(universe.cells(), expected.cells());
    assert_eq!(live_cells(&universe), vec![(2, 1), (2, 3), (3, 2), (3, 3), (4, 2)]);
}

#[test]
fn tick_reads_only_the_old_generation() {
    // A blinker: a row of three becomes a column of three.
    let mut universe = empty(5, 5);
    universe.set_cells(&[(2, 1), (2, 2), (2, 3)]);
    universe.tick();
    assert_eq!(live_cells(&universe), vec![(1, 2), (2, 2), (3, 2)]);
    universe.tick();
    assert_eq!(live_cells(&universe), vec![(2, 1), (2, 2), (2, 3)]);
}

#[test]
fn block_is_a_still_life() {
    let mut universe = empty(6, 6);
    universe.set_cells(&[(2, 2), (2, 3), (3, 2), (3, 3)]);
    let before = universe.cells().to_vec();
    universe.tick();
    assert_eq!(universe.cells(), &before[..]);
    assert_eq!(live_cells(&universe), vec![(2, 2), (2, 3), (3, 2), (3, 3)]);
}

#[test]
fn lone_cell_dies() {
    let mut universe = empty(4, 4);
    universe.set_cells(&[(1, 1)]);
    universe.tick();
    assert_eq!(live_cells(&universe), vec![]);
}

#[test]
fn crowded_cell_dies_and_empty_cell_is_born() {
    // A plus sign: the centre has four live neighbours, the corners three.
    let mut universe = empty(7, 7);
    universe.set_cells(&[(2, 3), (3, 2), (3, 3), (3, 4), (4, 3)]);
    assert_eq!(universe.live_neighbor_count(3, 3), 4);
    assert_eq!(universe.live_neighbor_count(2, 2), 3);
    universe.tick();
    assert_eq!(universe.get_cell(3, 3), Cell::Dead);
    assert_eq!(universe.get_cell(2, 2), Cell::Alive);
    assert_eq!(
        live_cells(&universe),
        vec![(2, 2), (2, 3), (2, 4), (3, 2), (3, 4), (4, 2), (4, 3), (4, 4)]
    );
}

#[test]
fn rule_table() {
    assert!(!rule(true, 0));
    assert!(!rule(true, 1));
    assert!(rule(true, 2));
    assert!(rule(true, 3));
    assert!(!rule(true, 4));
    assert!(!rule(true, 8));
    assert!(!rule(false, 0));
    assert!(!rule(false, 2));
    assert!(rule(false, 3));
    assert!(!rule(false, 4));
    assert!(!rule(false, 8));
}

#[test]
fn corner_cell_is_counted_across_the_edges() {
    let n = 5;
    let mut universe = empty(n, n);
    universe.set_cells(&[(0, 0)]);
    assert_eq!(universe.live_neighbor_count(n - 1, n - 1), 1);
    assert_eq!(universe.live_neighbor_count(n - 1, 0), 1);
    assert_eq!(universe.live_neighbor_count(0, n - 1), 1);
    assert_eq!(universe.live_neighbor_count(n - 1, 1), 1);
    assert_eq!(universe.live_neighbor_count(1, n - 1), 1);
    assert_eq!(universe.live_neighbor_count(1, 1), 1);
    assert_eq!(universe.live_neighbor_count(0, 1), 1);
    assert_eq!(universe.live_neighbor_count(1, 0), 1);
    assert_eq!(universe.live_neighbor_count(0, 0), 0);
    assert_eq!(universe.live_neighbor_count(2, 2), 0);
    assert_eq!(universe.live_neighbor_count(n - 2, n - 1), 0);
}

#[test]
fn far_corner_is_counted_across_the_edges() {
    let mut universe = empty(4, 3);
    universe.set_cells(&[(2, 3)]);
    assert_eq!(universe.live_neighbor_count(0, 0), 1);
    assert_eq!(universe.live_neighbor_count(1, 0), 1);
    assert_eq!(universe.live_neighbor_count(0, 3), 1);
    assert_eq!(universe.live_neighbor_count(2, 0), 1);
    assert_eq!(universe.live_neighbor_count(0, 1), 0);
}

#[test]
fn all_alive_counts_eight() {
    let draws = vec![true; 16];
    let universe = Universe::new(4, 4, &draws);
    for row in 0..4 {
        for col in 0..4 {
            assert_eq!(universe.live_neighbor_count(row, col), 8);
        }
    }
}

#[test]
fn single_column_counts_each_offset() {
    let mut universe = empty(1, 3);
    universe.set_cells(&[(0, 0)]);
    // Left and right of (0, 0) are the cell itself.
    assert_eq!(universe.live_neighbor_count(0, 0), 2);
    // The three cells above (1, 0) are all (0, 0).
    assert_eq!(universe.live_neighbor_count(1, 0), 3);
    assert_eq!(universe.live_neighbor_count(2, 0), 3);
}

#[test]
fn single_cell_grid_counts_itself_eight_times() {
    let mut universe = Universe::new(1, 1, &[true]);
    assert_eq!(universe.live_neighbor_count(0, 0), 8);
    universe.tick();
    assert_eq!(universe.get_cell(0, 0), Cell::Dead);
}

#[test]
fn empty_grid_ticks_to_itself() {
    let mut universe = empty(0, 7);
    assert_eq!(universe.size(), 0);
    universe.tick();
    assert_eq!(universe.width(), 0);
    assert_eq!(universe.height(), 7);
    assert_eq!(universe.cells().len(), 0);
    let mut universe = empty(7, 0);
    universe.tick();
    universe.reset();
    universe.random(&[true, true]);
    assert_eq!(universe.size(), 0);
    assert_eq!(universe.cells().len(), 0);
}

#[test]
fn new_takes_one_draw_per_cell() {
    let universe = Universe::new(3, 2, &[true, false, false, true, true, false]);
    assert_eq!(universe.width(), 3);
    assert_eq!(universe.height(), 2);
    assert_eq!(universe.size(), 6);
    assert_eq!(live_cells(&universe), vec![(0, 0), (1, 0), (1, 1)]);
    assert_eq!(universe.cells(), &[0b011001u32][..]);
}

#[test]
fn missing_draws_are_dead_and_spare_ones_unused() {
    let universe = Universe::new(2, 2, &[true, true]);
    assert_eq!(live_cells(&universe), vec![(0, 0), (0, 1)]);
    let universe = Universe::new(2, 2, &[false, true, false, true, true, true]);
    assert_eq!(live_cells(&universe), vec![(0, 1), (1, 1)]);
    assert_eq!(universe.cells(), &[0b1010u32][..]);
}

#[test]
fn random_replaces_every_cell() {
    let mut universe = Universe::new(2, 3, &[true; 6]);
    universe.random(&[false, false, true, false, false, false]);
    assert_eq!(universe.size(), 6);
    assert_eq!(live_cells(&universe), vec![(1, 0)]);
    universe.random(&[]);
    assert_eq!(live_cells(&universe), vec![]);
}

#[test]
fn size_follows_the_dimensions() {
    let mut universe = Universe::new(10, 7, &[true; 70]);
    assert_eq!(universe.size(), 70);
    assert_eq!(universe.cells().len(), 3);
    universe.tick();
    assert_eq!(universe.size(), 70);
    assert_eq!(universe.cells().len(), 3);
    universe.set_width(33);
    assert_eq!(universe.size(), 231);
    assert_eq!(universe.cells().len(), 8);
    universe.set_height(1);
    assert_eq!(universe.size(), 33);
    assert_eq!(universe.cells().len(), 2);
    universe.toggle_cell(0, 32);
    universe.set_cells(&[(0, 1)]);
    universe.glider(0, 0);
    universe.pulsar(0, 0);
    universe.random(&[true]);
    assert_eq!(universe.size(), 33);
    assert_eq!(universe.cells().len(), 2);
    universe.reset();
    assert_eq!(universe.size(), 33);
    assert_eq!(universe.cells().len(), 2);
    universe.set_width(0);
    assert_eq!(universe.size(), 0);
    assert_eq!(universe.cells().len(), 0);
}

#[test]
fn cells_are_packed_low_bit_first() {
    let mut universe = empty(6, 6);
    assert_eq!(universe.cells(), &[0u32, 0][..]);
    universe.set_cells(&[(0, 0)]);
    assert_eq!(universe.cells(), &[1u32, 0][..]);
    universe.set_cells(&[(5, 5)]);
    assert_eq!(universe.cells(), &[1u32, 8][..]);
    universe.set_cells(&[(5, 1)]);
    assert_eq!(universe.cells(), &[0x8000_0001u32, 8][..]);
    assert_eq!(universe.get_index(5, 1), 31);
    assert_eq!(universe.get_index(5, 5), 35);
    assert_eq!(universe.get_index(0, 0), 0);
    assert_eq!(universe.get_index(2, 3), 15);
}

#[test]
fn set_cells_leaves_the_others_alone() {
    let mut universe = empty(4, 4);
    universe.set_cells(&[(3, 0), (1, 2)]);
    universe.set_cells(&[(1, 2), (0, 3), (0, 3)]);
    assert_eq!(live_cells(&universe), vec![(0, 3), (1, 2), (3, 0)]);
    universe.set_cells(&[]);
    assert_eq!(live_cells(&universe), vec![(0, 3), (1, 2), (3, 0)]);
}

#[test]
fn toggle_flips_one_cell() {
    let mut universe = empty(4, 3);
    universe.set_cells(&[(0, 1), (2, 3)]);
    universe.toggle_cell(1, 2);
    assert_eq!(live_cells(&universe), vec![(0, 1), (1, 2), (2, 3)]);
    universe.toggle_cell(0, 1);
    assert_eq!(live_cells(&universe), vec![(1, 2), (2, 3)]);
}

#[test]
fn toggle_twice_restores_the_grid() {
    let mut universe = input_spaceship();
    let before = universe.cells().to_vec();
    universe.toggle_cell(3, 2);
    assert_ne!(universe.cells(), &before[..]);
    universe.toggle_cell(3, 2);
    assert_eq!(universe.cells(), &before[..]);
    universe.toggle_cell(0, 5);
    universe.toggle_cell(0, 5);
    assert_eq!(universe.cells(), &before[..]);
}

#[test]
fn reset_and_resize_clear_the_grid() {
    let mut universe = Universe::new(5, 5, &[true; 25]);
    universe.tick();
    universe.toggle_cell(2, 2);
    universe.reset();
    assert_eq!(universe.width(), 5);
    assert_eq!(universe.height(), 5);
    assert_eq!(live_cells(&universe), vec![]);

    let mut universe = Universe::new(5, 5, &[true; 25]);
    universe.set_width(5);
    assert_eq!(live_cells(&universe), vec![]);
    universe.random(&[true; 25]);
    universe.set_width(8);
    assert_eq!(universe.width(), 8);
    assert_eq!(universe.height(), 5);
    assert_eq!(universe.size(), 40);
    assert_eq!(live_cells(&universe), vec![]);

    universe.random(&[true; 40]);
    universe.set_height(2);
    assert_eq!(universe.width(), 8);
    assert_eq!(universe.height(), 2);
    assert_eq!(universe.size(), 16);
    assert_eq!(live_cells(&universe), vec![]);
    assert_eq!(universe.cells(), &[0u32][..]);
}

#[test]
fn will_fit_keeps_a_margin() {
    let universe = empty(20, 10);
    // A 3 by 3 box needs 2 cells of margin, and may not touch the edge.
    assert!(universe.will_fit(3, 3, 3, 3));
    assert!(!universe.will_fit(2, 3, 3, 3));
    assert!(!universe.will_fit(3, 2, 3, 3));
    assert!(universe.will_fit(7, 17, 3, 3));
    assert!(!universe.will_fit(8, 17, 3, 3));
    assert!(!universe.will_fit(7, 18, 3, 3));
    // Width and height are taken apart: 5 columns need 3, 1 row needs 1.
    assert!(universe.will_fit(2, 4, 5, 1));
    assert!(!universe.will_fit(2, 3, 5, 1));
    assert!(!universe.will_fit(1, 4, 5, 1));
    assert!(universe.will_fit(8, 16, 5, 1));
    assert!(!universe.will_fit(9, 16, 5, 1));
    assert!(!universe.will_fit(8, 17, 5, 1));
    assert!(!universe.will_fit(u32::MAX, u32::MAX, u32::MAX, u32::MAX));
    assert!(!universe.will_fit(5, 5, 14, 14));
}

#[test]
fn glider_is_stamped_where_it_fits() {
    let mut universe = empty(8, 8);
    universe.glider(3, 4);
    assert_eq!(live_cells(&universe), vec![(2, 3), (2, 4), (2, 5), (3, 3), (4, 4)]);
}

#[test]
fn glider_keeps_live_cells() {
    let mut universe = empty(6, 6);
    universe.set_cells(&[(0, 0), (2, 2), (5, 5)]);
    universe.glider(3, 3);
    assert_eq!(
        live_cells(&universe),
        vec![(0, 0), (2, 2), (2, 3), (2, 4), (3, 2), (4, 3), (5, 5)]
    );
}

#[test]
fn glider_near_an_edge_is_not_stamped() {
    for (row, col) in [(2, 4), (4, 2), (6, 4), (4, 6), (0, 0), (7, 7), (1, 1)] {
        let mut universe = empty(8, 8);
        universe.set_cells(&[(4, 4)]);
        universe.glider(row, col);
        assert_eq!(live_cells(&universe), vec![(4, 4)]);
    }
    let mut universe = empty(8, 8);
    universe.glider(5, 5);
    assert_eq!(live_cells(&universe).len(), 5);
}

#[test]
fn pulsar_is_stamped_where_it_fits() {
    let mut universe = empty(20, 18);
    universe.pulsar(9, 10);
    let mut expected: Vec<(u32, u32)> = pulsar_offsets()
        .iter()
        .map(|&(dr, dc)| ((9 + dr) as u32, (10 + dc) as u32))
        .collect();
    expected.sort();
    assert_eq!(expected.len(), 48);
    assert_eq!(live_cells(&universe), expected);
}

#[test]
fn pulsar_has_forty_eight_cells() {
    let listed = pulsar_offsets();
    let mut count = 0;
    for dr in -8..=8 {
        for dc in -8..=8 {
            assert_eq!(pulsar_has(dr, dc), listed.contains(&(dr, dc)));
            if pulsar_has(dr, dc) {
                count += 1;
            }
        }
    }
    assert_eq!(count, 48);
    assert!(!pulsar_has(i32::MIN, i32::MAX));
    assert!(!pulsar_has(0, 0));
}

#[test]
fn pulsar_oscillates_with_period_three() {
    let mut universe = empty(20, 20);
    universe.pulsar(9, 9);
    let start = universe.cells().to_vec();
    universe.tick();
    assert_ne!(universe.cells(), &start[..]);
    universe.tick();
    assert_ne!(universe.cells(), &start[..]);
    universe.tick();
    assert_eq!(universe.cells(), &start[..]);
}

#[test]
fn pulsar_near_an_edge_changes_nothing() {
    let anchors = [
        (8, 10), (10, 8), (12, 10), (10, 12), (0, 0), (19, 19), (8, 8), (12, 12), (3, 10),
        (10, 16),
    ];
    for (row, col) in anchors {
        let mut universe = Universe::new(20, 20, &[false, true, true]);
        universe.set_cells(&[(10, 10), (19, 0)]);
        let before = universe.cells().to_vec();
        universe.pulsar(row, col);
        assert_eq!(universe.cells(), &before[..]);
    }
    let mut universe = empty(20, 20);
    universe.pulsar(9, 9);
    assert_eq!(live_cells(&universe).len(), 48);
    universe.pulsar(9, 9);
    assert_eq!(live_cells(&universe).len(), 48);
    let mut universe = empty(20, 20);
    universe.pulsar(11, 11);
    assert_eq!(live_cells(&universe).len(), 48);
}

#[test]
fn cell_and_bit() {
    assert!(Cell::Alive.is_alive());
    assert!(!Cell::Dead.is_alive());
    assert_eq!(Cell::from_bit(true), Cell::Alive);
    assert_eq!(Cell::from_bit(false), Cell::Dead);
    assert_ne!(Cell::Alive, Cell::Dead);
}
