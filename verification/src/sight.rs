//! The line-of-sight test between two cells of a grid.

use vstd::prelude::*;
use crate::error::VisibilityError;
use crate::grid::{GridView, OccupancyGrid};
use crate::line::{
    bresenham_line, lemma_line_point_in_box, lemma_minor_steps_range, lemma_minor_steps_rounds,
    lemma_minor_steps_unique, line_cell, line_cells, line_steps, minor_steps, rounds_to, span,
    Coordinate,
};

verus! {

/// Every cell of the segment from `a` to `b`, both ends included, is passable.
pub open spec fn line_clear(a: Coordinate, b: Coordinate, g: GridView) -> bool {
    forall|k: int| 0 <= k <= line_steps(a, b) ==> g.passable(#[trigger] line_cell(a, b, k))
}

/// `b` can be seen from `a`: a cell always sees itself, and any other cell
/// exactly when the segment between the two is clear.
pub open spec fn visible(a: Coordinate, b: Coordinate, g: GridView) -> bool {
    a == b || line_clear(a, b, g)
}

/// After `k` steps from `a` the ideal segment to `b` runs exactly midway
/// between two cells, so that the step is rounded toward `a`.
pub open spec fn half_step_at(a: Coordinate, b: Coordinate, k: int) -> bool {
    let dx = span(a.0 as int, b.0 as int);
    let dy = span(a.1 as int, b.1 as int);
    if dx >= dy {
        dx > 0 && 2 * (k * dy) == (2 * minor_steps(k, dy, dx) + 1) * dx
    } else {
        2 * (k * dx) == (2 * minor_steps(k, dx, dy) + 1) * dy
    }
}

/// A segment between cells of a grid stays inside the grid.
pub proof fn lemma_line_in_bounds(a: Coordinate, b: Coordinate, g: GridView, k: int)
    requires
        g.in_bounds(a),
        g.in_bounds(b),
        0 <= k <= line_steps(a, b),
    ensures
        g.in_bounds(line_cell(a, b, k)),
{
    lemma_line_point_in_box(a, b, k);
}

/// Walked from the other end, a segment passes through the same cell at the
/// same place, unless the ideal segment runs midway between two cells there.
pub proof fn lemma_line_reverses(a: Coordinate, b: Coordinate, k: int)
    requires
        0 <= k <= line_steps(a, b),
        !half_step_at(a, b, k),
    ensures
        line_steps(b, a) == line_steps(a, b),
        line_cell(b, a, line_steps(a, b) - k) == line_cell(a, b, k),
{
    let dx = span(a.0 as int, b.0 as int);
    let dy = span(a.1 as int, b.1 as int);
    let major = if dx >= dy { dx } else { dy };
    let minor = if dx >= dy { dy } else { dx };
    let j = minor_steps(k, minor, major);
    lemma_minor_steps_range(k, minor, major);
    lemma_minor_steps_range(major - k, minor, major);
    if major > 0 {
        lemma_minor_steps_rounds(k, minor, major);
        assert(rounds_to(major - k, minor, major, minor - j)) by (nonlinear_arith)
            requires
                rounds_to(k, minor, major, j),
                2 * (k * minor) != (2 * j + 1) * major,
        ;
        lemma_minor_steps_unique(major - k, minor, major, minor - j);
    }
    lemma_line_point_in_box(a, b, k);
    lemma_line_point_in_box(b, a, major - k);
}

/// A cell sees itself, whatever its state.
pub proof fn law_self_visible(p: Coordinate, g: GridView)
    ensures
        visible(p, p, g),
{
}

/// A blocked cell anywhere on the segment from `a` to a different cell `b`,
/// the ends included, hides `b` from `a`.
pub proof fn law_blocked_cell_hides(a: Coordinate, b: Coordinate, g: GridView, k: int)
    requires
        a != b,
        0 <= k <= line_steps(a, b),
        g.blocked(line_cell(a, b, k)),
    ensures
        !visible(a, b, g),
{
}

/// Every cell of the segment from `a` to `b` that both directions of the
/// walk pass through is passable: every cell but those at half steps.
pub open spec fn common_cells_clear(a: Coordinate, b: Coordinate, g: GridView) -> bool {
    forall|k: int|
        0 <= k <= line_steps(a, b) && !#[trigger] half_step_at(a, b, k) ==> g.passable(
            line_cell(a, b, k),
        )
}

/// At every half step the cell that the walk from `a` takes is passable.
pub open spec fn near_half_steps_clear(a: Coordinate, b: Coordinate, g: GridView) -> bool {
    forall|k: int|
        0 <= k <= line_steps(a, b) && #[trigger] half_step_at(a, b, k) ==> g.passable(
            line_cell(a, b, k),
        )
}

/// At every half step of the walk from `a` the cell that the walk from `b`
/// takes at that place is passable.
pub open spec fn far_half_steps_clear(a: Coordinate, b: Coordinate, g: GridView) -> bool {
    forall|k: int|
        0 <= k <= line_steps(a, b) && #[trigger] half_step_at(a, b, k) ==> g.passable(
            line_cell(b, a, line_steps(a, b) - k),
        )
}

/// The two directions of a segment cannot be told apart by sight: a cell
/// that both pass through is blocked, or the cells that the two walks take at
/// the half steps are all passable for both or for neither.
pub open spec fn sight_is_mutual(a: Coordinate, b: Coordinate, g: GridView) -> bool {
    !common_cells_clear(a, b, g) || near_half_steps_clear(a, b, g) == far_half_steps_clear(
        a,
        b,
        g,
    )
}

/// A segment is clear in a direction exactly when the cells common to both
/// directions and the cells that this direction takes at the half steps are
/// passable.
proof fn lemma_clear_splits(a: Coordinate, b: Coordinate, g: GridView)
    ensures
        line_clear(a, b, g) == (common_cells_clear(a, b, g) && near_half_steps_clear(a, b, g)),
        line_clear(b, a, g) == (common_cells_clear(a, b, g) && far_half_steps_clear(a, b, g)),
        a == b ==> near_half_steps_clear(a, b, g) && far_half_steps_clear(a, b, g),
{
    let n = line_steps(a, b);
    assert(line_steps(b, a) == n);
    if common_cells_clear(a, b, g) && near_half_steps_clear(a, b, g) {
        assert forall|k: int| 0 <= k <= n implies g.passable(#[trigger] line_cell(a, b, k)) by {
            if half_step_at(a, b, k) {
            }
        }
    }
    if line_clear(b, a, g) {
        assert forall|k: int| 0 <= k <= n && !#[trigger] half_step_at(a, b, k) implies g.passable(
            line_cell(a, b, k),
        ) by {
            lemma_line_reverses(a, b, k);
            assert(g.passable(line_cell(b, a, n - k)));
        }
        assert forall|k: int| 0 <= k <= n && #[trigger] half_step_at(a, b, k) implies g.passable(
            line_cell(b, a, n - k),
        ) by {
            assert(g.passable(line_cell(b, a, n - k)));
        }
    }
    if common_cells_clear(a, b, g) && far_half_steps_clear(a, b, g) {
        assert forall|i: int| 0 <= i <= n implies g.passable(#[trigger] line_cell(b, a, i)) by {
            let k = n - i;
            assert(n - k == i);
            if half_step_at(a, b, k) {
            } else {
                lemma_line_reverses(a, b, k);
            }
        }
    }
}

/// Sight is mutual wherever rounding cannot tell the two directions apart:
/// `a` sees `b` exactly when `b` sees `a`, provided that a cell common to
/// both directions is blocked, or that the cells which the two walks take at
/// the half steps are all passable for both walks or for neither.
pub proof fn law_visibility_symmetric(a: Coordinate, b: Coordinate, g: GridView)
    requires
        sight_is_mutual(a, b, g),
    ensures
        visible(a, b, g) == visible(b, a, g),
{
    lemma_clear_splits(a, b, g);
}

/// Where [`law_visibility_symmetric`] does not apply, sight is one-sided:
/// exactly one of the two cells sees the other.
pub proof fn law_visibility_one_sided(a: Coordinate, b: Coordinate, g: GridView)
    requires
        !sight_is_mutual(a, b, g),
    ensures
        a != b,
        visible(a, b, g) != visible(b, a, g),
{
    lemma_clear_splits(a, b, g);
}

/// Sight is mutual between two cells whose ideal segment never runs midway
/// between two cells, as on every row, column and diagonal.
pub proof fn law_visibility_symmetric_without_half_steps(
    a: Coordinate,
    b: Coordinate,
    g: GridView,
)
    requires
        forall|k: int| 0 <= k <= line_steps(a, b) ==> !#[trigger] half_step_at(a, b, k),
    ensures
        visible(a, b, g) == visible(b, a, g),
        line_cells(b, a) == line_cells(a, b).reverse(),
{
    assert(near_half_steps_clear(a, b, g) && far_half_steps_clear(a, b, g));
    law_visibility_symmetric(a, b, g);
    let n = line_steps(a, b);
    assert(line_steps(b, a) == n);
    assert forall|i: int| 0 <= i <= n implies line_cells(b, a)[i] == line_cells(a, b).reverse()[i] by {
        lemma_line_reverses(a, b, n - i);
    }
    assert(line_cells(b, a) =~= line_cells(a, b).reverse());
}

/// Whether every cell of the segment from `a` to `b`, both ends included,
/// is passable.
pub fn is_line_clear(a: Coordinate, b: Coordinate, grid: &OccupancyGrid) -> (clear: bool)
    requires
        grid.wf(),
        grid@.in_bounds(a),
        grid@.in_bounds(b),
    ensures
        clear == line_clear(a, b, grid@),
{
    let points = bresenham_line(a.0, a.1, b.0, b.1);
    let mut i: usize = 0;
    while i < points.len()
        invariant
            grid.wf(),
            grid@.in_bounds(a),
            grid@.in_bounds(b),
            points@ == line_cells(a, b),
            i <= points.len(),
            forall|k: int| 0 <= k < i ==> grid@.passable(#[trigger] line_cell(a, b, k)),
        decreases points.len() - i,
    {
        let c = points[i];
        proof {
            lemma_line_in_bounds(a, b, grid@, i as int);
        }
        if grid.is_blocked(c) {
            assert(grid@.blocked(line_cell(a, b, i as int)));
            return false;
        }
        i += 1;
    }
    true
}

/// Whether `b` can be seen from `a`. A cell always sees itself; two different
/// cells see each other when no cell of the segment between them is blocked.
pub fn is_visible(a: Coordinate, b: Coordinate, grid: &OccupancyGrid) -> (seen: bool)
    requires
        grid.wf(),
        a == b || (grid@.in_bounds(a) && grid@.in_bounds(b)),
    ensures
        seen == visible(a, b, grid@),
{
    (a.0 == b.0 && a.1 == b.1) || is_line_clear(a, b, grid)
}

/// Whether `b` can be seen from `a`, for cells that need not lie in the grid.
/// Fails where the two differ and one of them lies outside the grid.
pub fn checked_is_visible(a: Coordinate, b: Coordinate, grid: &OccupancyGrid) -> (r: Result<
    bool,
    VisibilityError,
>)
    requires
        grid.wf(),
    ensures
        r is Ok <==> a == b || (grid@.in_bounds(a) && grid@.in_bounds(b)),
        r matches Ok(seen) ==> seen == visible(a, b, grid@),
        r matches Err(e) ==> e == VisibilityError::OutOfBoundsCoordinate,
{
    if (a.0 == b.0 && a.1 == b.1) || (grid.contains(a) && grid.contains(b)) {
        Ok(is_visible(a, b, grid))
    } else {
        Err(VisibilityError::OutOfBoundsCoordinate)
    }
}

} // verus!
