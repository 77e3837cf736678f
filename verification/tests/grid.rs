use train_thing::grid::floor_sqrt;
use train_thing::grid::snap_to_grid;
use train_thing::grid::Grid;
use train_thing::path::Pos;

fn open_grid() -> Grid {
    Grid::new(32, Pos(-10_000, -10_000), Pos(10_000, 10_000)).unwrap()
}

#[test]
fn grid_lengths_for_cell_32() {
    let g = open_grid();
    assert_eq!(g.cell, 32);
    assert_eq!(g.diag, 45);
    assert_eq!(g.turn, 51);
    assert_eq!(g.min, Pos(-10_000, -10_000));
    assert_eq!(g.max, Pos(10_000, 10_000));
}

#[test]
fn grid_lengths_for_other_cells() {
    let g = Grid::new(1, Pos(0, 0), Pos(10, 10)).unwrap();
    assert_eq!((g.cell, g.diag, g.turn), (1, 1, 1));
    let g = Grid::new(100, Pos(0, 0), Pos(10, 10)).unwrap();
    assert_eq!((g.cell, g.diag, g.turn), (100, 141, 160));
    let g = Grid::new(64, Pos(0, 0), Pos(10, 10)).unwrap();
    assert_eq!((g.cell, g.diag, g.turn), (64, 90, 102));
}

#[test]
fn grid_rejects_cell_that_is_not_positive() {
    assert!(Grid::new(0, Pos(0, 0), Pos(100, 100)).is_none());
    assert!(Grid::new(-32, Pos(0, 0), Pos(100, 100)).is_none());
}

#[test]
fn grid_rejects_cell_whose_lengths_do_not_fit() {
    assert!(Grid::new(i32::MAX, Pos(0, 0), Pos(100, 100)).is_none());
    assert!(Grid::new(1_400_000_000, Pos(0, 0), Pos(100, 100)).is_none());
    assert!(Grid::new(1_300_000_000, Pos(0, 0), Pos(100, 100)).is_some());
}

#[test]
fn canvas_border_is_outside() {
    let g = Grid::new(32, Pos(0, 0), Pos(1280, 800)).unwrap();
    assert!(g.contains(Pos(1, 1)));
    assert!(g.contains(Pos(1279, 799)));
    assert!(!g.contains(Pos(0, 5)));
    assert!(!g.contains(Pos(5, 0)));
    assert!(!g.contains(Pos(1280, 5)));
    assert!(!g.contains(Pos(5, 800)));
    assert!(!g.contains(Pos(-3, 5)));
}

#[test]
fn floor_sqrt_values() {
    assert_eq!(floor_sqrt(0), 0);
    assert_eq!(floor_sqrt(1), 1);
    assert_eq!(floor_sqrt(3), 1);
    assert_eq!(floor_sqrt(4), 2);
    assert_eq!(floor_sqrt(2048), 45);
    assert_eq!(floor_sqrt(2025), 45);
    assert_eq!(floor_sqrt(2024), 44);
    assert_eq!(floor_sqrt(u64::MAX), 4_294_967_295);
}

#[test]
fn snap_picks_the_nearest_side() {
    let g = open_grid();
    assert_eq!(snap_to_grid(&g, Pos(5, 3)), Pos(16, 0));
    assert_eq!(snap_to_grid(&g, Pos(30, 20)), Pos(32, 16));
    assert_eq!(snap_to_grid(&g, Pos(3, 5)), Pos(0, 16));
    assert_eq!(snap_to_grid(&g, Pos(20, 30)), Pos(16, 32));
    assert_eq!(snap_to_grid(&g, Pos(64 + 5, 96 + 3)), Pos(64 + 16, 96));
}

#[test]
fn snap_on_a_corner_and_on_the_diagonals() {
    let g = open_grid();
    assert_eq!(snap_to_grid(&g, Pos(0, 0)), Pos(0, 16));
    assert_eq!(snap_to_grid(&g, Pos(16, 16)), Pos(16, 32));
    assert_eq!(snap_to_grid(&g, Pos(10, 10)), Pos(0, 16));
    assert_eq!(snap_to_grid(&g, Pos(20, 12)), Pos(32, 16));
}

#[test]
fn snap_with_negative_coordinates() {
    let g = open_grid();
    // the rest of a negative coordinate is negative: (-5, 3) has rests (-5, 3)
    assert_eq!(snap_to_grid(&g, Pos(-5, 3)), Pos(0, 16));
    assert_eq!(snap_to_grid(&g, Pos(5, -3)), Pos(16, 0));
}

#[test]
fn snap_stops_at_the_end_of_the_range() {
    let g = open_grid();
    assert_eq!(snap_to_grid(&g, Pos(i32::MAX, 0)), Pos(i32::MAX - 15, 0));
    assert_eq!(snap_to_grid(&g, Pos(i32::MAX, 16)), Pos(i32::MAX, 16));
    assert_eq!(snap_to_grid(&g, Pos(16, i32::MAX)), Pos(16, i32::MAX));
}
