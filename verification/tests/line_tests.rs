use grid_visibility::line::bresenham_line;

/// The error-accumulator walk, written out for comparison.
fn walk(x0: i32, y0: i32, x1: i32, y1: i32) -> Vec<(i32, i32)> {
    let mut points = Vec::new();
    let (mut x, mut y) = (x0, y0);
    let dx = (x1 - x).abs();
    let dy = (y1 - y).abs();
    let sx = if x < x1 { 1 } else { -1 };
    let sy = if y < y1 { 1 } else { -1 };
    let mut err = dx - dy;
    loop {
        points.push((x, y));
        if x == x1 && y == y1 {
            break;
        }
        let e2 = err * 2;
        if e2 > -dy {
            err -= dy;
            x += sx;
        }
        if e2 < dx {
            err += dx;
            y += sy;
        }
    }
    points
}

#[test]
fn line_single_point() {
    assert_eq!(bresenham_line(3, -4, 3, -4), vec![(3, -4)]);
}

#[test]
fn line_horizontal_both_ways() {
    assert_eq!(bresenham_line(0, 2, 3, 2), vec![(0, 2), (1, 2), (2, 2), (3, 2)]);
    assert_eq!(bresenham_line(3, 2, 0, 2), vec![(3, 2), (2, 2), (1, 2), (0, 2)]);
}

#[test]
fn line_vertical_both_ways() {
    assert_eq!(bresenham_line(1, 0, 1, 2), vec![(1, 0), (1, 1), (1, 2)]);
    assert_eq!(bresenham_line(1, 2, 1, 0), vec![(1, 2), (1, 1), (1, 0)]);
}

#[test]
fn line_diagonals() {
    assert_eq!(bresenham_line(0, 0, 2, 2), vec![(0, 0), (1, 1), (2, 2)]);
    assert_eq!(bresenham_line(2, 0, 0, 2), vec![(2, 0), (1, 1), (0, 2)]);
    assert_eq!(bresenham_line(-1, -1, -3, -3), vec![(-1, -1), (-2, -2), (-3, -3)]);
}

#[test]
fn line_half_step_rounds_toward_start() {
    assert_eq!(bresenham_line(0, 0, 2, 1), vec![(0, 0), (1, 0), (2, 1)]);
    assert_eq!(bresenham_line(2, 1, 0, 0), vec![(2, 1), (1, 1), (0, 0)]);
}

#[test]
fn line_shallow() {
    assert_eq!(
        bresenham_line(0, 0, 5, 2),
        vec![(0, 0), (1, 0), (2, 1), (3, 1), (4, 2), (5, 2)]
    );
}

#[test]
fn line_steep() {
    assert_eq!(bresenham_line(0, 0, 1, 3), vec![(0, 0), (0, 1), (1, 2), (1, 3)]);
    assert_eq!(bresenham_line(0, 0, -1, -3), vec![(0, 0), (0, -1), (-1, -2), (-1, -3)]);
}

#[test]
fn line_includes_both_ends() {
    for &(a, b) in &[((0, 0), (7, 3)), ((5, 5), (-2, 9)), ((-4, 1), (-4, -6))] {
        let points = bresenham_line(a.0, a.1, b.0, b.1);
        assert_eq!(points[0], a);
        assert_eq!(points[points.len() - 1], b);
        let steps = (b.0 - a.0).abs().max((b.1 - a.1).abs()) as usize;
        assert_eq!(points.len(), steps + 1);
    }
}

#[test]
fn line_matches_error_accumulator_walk() {
    for x0 in -4..=4 {
        for y0 in -4..=4 {
            for x1 in -4..=4 {
                for y1 in -4..=4 {
                    assert_eq!(bresenham_line(x0, y0, x1, y1), walk(x0, y0, x1, y1));
                }
            }
        }
    }
}

#[test]
fn line_matches_walk_on_long_segments() {
    for &(x0, y0, x1, y1) in &[
        (0, 0, 1000, 1),
        (0, 0, 1000, 999),
        (17, -300, -250, 411),
        (5, 5, 6, 900),
        (-1000, 1000, 1000, -1000),
        (0, 0, 30, 20),
    ] {
        assert_eq!(bresenham_line(x0, y0, x1, y1), walk(x0, y0, x1, y1));
    }
}

#[test]
fn line_between_far_corners_of_the_coordinate_range() {
    let points = bresenham_line(i32::MAX - 2, i32::MIN, i32::MAX, i32::MIN + 2);
    assert_eq!(
        points,
        vec![
            (i32::MAX - 2, i32::MIN),
            (i32::MAX - 1, i32::MIN + 1),
            (i32::MAX, i32::MIN + 2)
        ]
    );
}

#[test]
fn line_cells_are_neighbours() {
    let points = bresenham_line(-3, 7, 12, -2);
    for pair in points.windows(2) {
        let dx = (pair[1].0 - pair[0].0).abs();
        let dy = (pair[1].1 - pair[0].1).abs();
        assert!(dx <= 1 && dy <= 1 && dx + dy >= 1);
    }
}
