use grid_visibility::grid::OccupancyGrid;
use grid_visibility::sight::{is_line_clear, is_visible};

fn open_grid(width: u32, height: u32) -> OccupancyGrid {
    OccupancyGrid::from_cells(width, height, vec![true; (width * height) as usize]).unwrap()
}

fn grid_with_blocked(width: u32, height: u32, blocked: &[(i32, i32)]) -> OccupancyGrid {
    let mut cells = vec![true; (width * height) as usize];
    for &(x, y) in blocked {
        cells[(y as u32 * width + x as u32) as usize] = false;
    }
    OccupancyGrid::from_cells(width, height, cells).unwrap()
}

#[test]
fn cell_sees_itself_whatever_its_state() {
    let g = grid_with_blocked(3, 3, &[(1, 1)]);
    assert!(is_visible((1, 1), (1, 1), &g));
    assert!(is_visible((0, 0), (0, 0), &g));
}

#[test]
fn cell_sees_itself_even_outside_the_grid() {
    let g = open_grid(2, 2);
    assert!(is_visible((9, -4), (9, -4), &g));
}

#[test]
fn blocked_cell_does_not_clear_its_own_line() {
    let g = grid_with_blocked(3, 3, &[(1, 1)]);
    assert!(!is_line_clear((1, 1), (1, 1), &g));
}

#[test]
fn open_grid_is_clear_everywhere() {
    let g = open_grid(4, 4);
    for c in g.all_cells() {
        for d in g.all_cells() {
            assert!(is_visible(c, d, &g));
        }
    }
}

#[test]
fn blocked_cell_between_hides() {
    let g = grid_with_blocked(3, 3, &[(1, 0)]);
    assert!(!is_visible((0, 0), (2, 0), &g));
    assert!(!is_visible((2, 0), (0, 0), &g));
    assert!(is_visible((0, 1), (2, 1), &g));
}

#[test]
fn blocked_end_hides() {
    let g = grid_with_blocked(3, 3, &[(2, 2)]);
    assert!(!is_visible((0, 0), (2, 2), &g));
    assert!(!is_visible((2, 2), (0, 0), &g));
    assert!(!is_visible((2, 2), (2, 1), &g));
}

#[test]
fn any_blocked_cell_on_the_path_hides() {
    let a = (0, 0);
    let b = (5, 2);
    let path = grid_visibility::line::bresenham_line(a.0, a.1, b.0, b.1);
    for cell in path {
        let g = grid_with_blocked(6, 3, &[cell]);
        assert!(!is_visible(a, b, &g));
    }
}

#[test]
fn blocked_cell_off_the_path_does_not_hide() {
    // the path from (0, 0) to (2, 1) runs through (1, 0), not (1, 1)
    let g = grid_with_blocked(3, 2, &[(1, 1)]);
    assert!(is_visible((0, 0), (2, 1), &g));
}

#[test]
fn sight_is_mutual_on_rows_columns_and_diagonals() {
    let g = grid_with_blocked(5, 5, &[(2, 2), (0, 3), (4, 1)]);
    for a in g.all_cells() {
        for b in g.all_cells() {
            let dx = (a.0 - b.0).abs();
            let dy = (a.1 - b.1).abs();
            if dx == 0 || dy == 0 || dx == dy {
                assert_eq!(is_visible(a, b, &g), is_visible(b, a, &g));
            }
        }
    }
}

#[test]
fn sight_is_mutual_on_an_open_grid() {
    let g = open_grid(5, 4);
    for a in g.all_cells() {
        for b in g.all_cells() {
            assert_eq!(is_visible(a, b, &g), is_visible(b, a, &g));
        }
    }
}

#[test]
fn sight_is_mutual_where_the_segment_has_no_half_step() {
    // (0, 0) to (3, 1): 2 * k * 1 is never an odd multiple of 3 for k in 0..=3
    for blocked in [(1, 0), (2, 1), (1, 1), (2, 0)] {
        let g = grid_with_blocked(4, 2, &[blocked]);
        assert_eq!(is_visible((0, 0), (3, 1), &g), is_visible((3, 1), (0, 0), &g));
    }
}

#[test]
fn half_step_is_rounded_toward_the_viewer() {
    // between (0, 0) and (2, 1) the segment runs midway between (1, 0) and (1, 1)
    let g = grid_with_blocked(3, 2, &[(1, 0)]);
    assert!(!is_visible((0, 0), (2, 1), &g));
    assert!(is_visible((2, 1), (0, 0), &g));
}
