use grid_visibility::error::VisibilityError;
use grid_visibility::grid::{OccupancyGrid, MAX_GRID_SIDE};

fn grid_3x2() -> OccupancyGrid {
    // row 0: passable, blocked, passable; row 1: blocked, passable, passable
    OccupancyGrid::from_cells(3, 2, vec![true, false, true, false, true, true]).unwrap()
}

#[test]
fn grid_from_cells_keeps_sides_and_states() {
    let g = grid_3x2();
    assert_eq!(g.width(), 3);
    assert_eq!(g.height(), 2);
    assert!(g.is_passable((0, 0)));
    assert!(g.is_blocked((1, 0)));
    assert!(g.is_passable((2, 0)));
    assert!(g.is_blocked((0, 1)));
    assert!(g.is_passable((1, 1)));
    assert!(g.is_passable((2, 1)));
}

#[test]
fn grid_rejects_zero_sides() {
    assert_eq!(
        OccupancyGrid::from_cells(0, 2, vec![]).err(),
        Some(VisibilityError::InvalidDimensions)
    );
    assert_eq!(
        OccupancyGrid::from_cells(2, 0, vec![]).err(),
        Some(VisibilityError::InvalidDimensions)
    );
}

#[test]
fn grid_rejects_wrong_cell_count() {
    assert_eq!(
        OccupancyGrid::from_cells(2, 2, vec![true, true, true]).err(),
        Some(VisibilityError::InvalidDimensions)
    );
    assert_eq!(
        OccupancyGrid::from_cells(2, 2, vec![true; 5]).err(),
        Some(VisibilityError::InvalidDimensions)
    );
}

#[test]
fn grid_rejects_sides_beyond_the_coordinate_range() {
    assert_eq!(MAX_GRID_SIDE, i32::MAX as u32);
    assert_eq!(
        OccupancyGrid::from_cells(MAX_GRID_SIDE + 1, 1, vec![]).err(),
        Some(VisibilityError::InvalidDimensions)
    );
    assert_eq!(
        OccupancyGrid::from_cells(1, u32::MAX, vec![true]).err(),
        Some(VisibilityError::InvalidDimensions)
    );
}

#[test]
fn grid_may_be_long_and_thin() {
    let g = OccupancyGrid::from_cells(100_000, 1, vec![true; 100_000]).unwrap();
    assert_eq!(g.width(), 100_000);
    assert!(g.contains((99_999, 0)));
    assert!(!g.contains((100_000, 0)));
    assert!(g.is_passable((99_999, 0)));
}

#[test]
fn grid_contains_exactly_its_cells() {
    let g = grid_3x2();
    assert!(g.contains((0, 0)));
    assert!(g.contains((2, 1)));
    assert!(!g.contains((3, 0)));
    assert!(!g.contains((0, 2)));
    assert!(!g.contains((-1, 0)));
    assert!(!g.contains((0, -1)));
}

#[test]
fn grid_all_cells_are_row_major() {
    let g = grid_3x2();
    assert_eq!(g.all_cells(), vec![(0, 0), (1, 0), (2, 0), (0, 1), (1, 1), (2, 1)]);
}

#[test]
fn grid_blocked_and_passable_cells_are_row_major() {
    let g = grid_3x2();
    assert_eq!(g.blocked_cells(), vec![(1, 0), (0, 1)]);
    assert_eq!(g.passable_cells(), vec![(0, 0), (2, 0), (1, 1), (2, 1)]);
}

#[test]
fn grid_cells_split_into_blocked_and_passable() {
    let states: Vec<bool> = (0..35).map(|i| i % 3 != 0 && i % 5 != 1).collect();
    let g = OccupancyGrid::from_cells(7, 5, states).unwrap();
    let all = g.all_cells();
    let blocked = g.blocked_cells();
    let passable = g.passable_cells();
    assert_eq!(all.len(), 35);
    assert_eq!(blocked.len() + passable.len(), all.len());
    for c in &blocked {
        assert!(g.is_blocked(*c));
    }
    for c in &passable {
        assert!(g.is_passable(*c));
    }
}

#[test]
fn error_messages_name_the_failure() {
    assert_eq!(VisibilityError::InvalidDimensions.message(), "invalid grid dimensions");
    assert_eq!(VisibilityError::ImageLoadError.message(), "image could not be loaded");
    assert_eq!(
        VisibilityError::OutOfBoundsCoordinate.message(),
        "coordinate outside the grid"
    );
}
