//! Rasterization of straight segments between grid cells.
//!
//! A segment from `a` to `b` takes one step along its longer axis per cell. The
//! offset along the shorter axis after `k` steps is `k * minor / major` rounded
//! to the nearest integer, a half rounding toward the start of the segment.

use vstd::prelude::*;
use vstd::arithmetic::div_mod::lemma_fundamental_div_mod_converse;

verus! {

/// A grid cell, as `(x, y)`.
pub type Coordinate = (i32, i32);

/// Distance between two positions on one axis.
pub open spec fn span(from: int, to: int) -> int {
    if from <= to {
        to - from
    } else {
        from - to
    }
}

/// The position `steps` away from `from`, in the direction of `to`.
pub open spec fn toward(from: int, to: int, steps: int) -> int {
    if from < to {
        from + steps
    } else {
        from - steps
    }
}

/// Offset along the shorter axis after `k` steps along the longer one:
/// `k * minor / major`, rounded to the nearest integer, halves rounded down.
pub open spec fn minor_steps(k: int, minor: int, major: int) -> int {
    if major > 0 {
        (2 * k * minor + major - 1) / (2 * major)
    } else {
        0
    }
}

/// Number of steps of the segment from `a` to `b`: its extent on the longer axis.
pub open spec fn line_steps(a: Coordinate, b: Coordinate) -> int {
    let dx = span(a.0 as int, b.0 as int);
    let dy = span(a.1 as int, b.1 as int);
    if dx >= dy {
        dx
    } else {
        dy
    }
}

/// The cell that the segment from `a` to `b` reaches after `k` steps, over the integers.
pub open spec fn line_point(a: Coordinate, b: Coordinate, k: int) -> (int, int) {
    let dx = span(a.0 as int, b.0 as int);
    let dy = span(a.1 as int, b.1 as int);
    if dx >= dy {
        (toward(a.0 as int, b.0 as int, k), toward(a.1 as int, b.1 as int, minor_steps(k, dy, dx)))
    } else {
        (toward(a.0 as int, b.0 as int, minor_steps(k, dx, dy)), toward(a.1 as int, b.1 as int, k))
    }
}

/// The cell that the segment from `a` to `b` reaches after `k` steps.
pub open spec fn line_cell(a: Coordinate, b: Coordinate, k: int) -> Coordinate {
    let p = line_point(a, b, k);
    (p.0 as i32, p.1 as i32)
}

/// The cells of the segment from `a` to `b`, both ends included, in the order
/// in which the segment is walked from `a`.
pub open spec fn line_cells(a: Coordinate, b: Coordinate) -> Seq<Coordinate> {
    Seq::new((line_steps(a, b) + 1) as nat, |k: int| line_cell(a, b, k))
}

/// `j` is the rounded offset for `k` steps: `k * minor / major` lies within a
/// half of it, the upper half included.
pub open spec fn rounds_to(k: int, minor: int, major: int, j: int) -> bool {
    (2 * j - 1) * major < 2 * (k * minor) <= (2 * j + 1) * major
}

/// The rounded offset is the only integer within a half of `k * minor / major`.
pub proof fn lemma_minor_steps_unique(k: int, minor: int, major: int, j: int)
    requires
        major > 0,
        rounds_to(k, minor, major, j),
    ensures
        minor_steps(k, minor, major) == j,
{
    let x = 2 * k * minor + major - 1;
    let d = 2 * major;
    let r = x - j * d;
    assert(2 * k * minor == 2 * (k * minor)) by (nonlinear_arith);
    assert((2 * j - 1) * major == j * d - major) by (nonlinear_arith)
        requires
            d == 2 * major,
    ;
    assert((2 * j + 1) * major == j * d + major) by (nonlinear_arith)
        requires
            d == 2 * major,
    ;
    lemma_fundamental_div_mod_converse(x, d, j, r);
}

/// The rounded offset lies within a half of `k * minor / major`.
pub proof fn lemma_minor_steps_rounds(k: int, minor: int, major: int)
    requires
        major > 0,
    ensures
        rounds_to(k, minor, major, minor_steps(k, minor, major)),
{
    let x = 2 * k * minor + major - 1;
    let d = 2 * major;
    let j = x / d;
    vstd::arithmetic::div_mod::lemma_fundamental_div_mod(x, d);
    vstd::arithmetic::div_mod::lemma_mod_bound(x, d);
    assert(2 * k * minor == 2 * (k * minor)) by (nonlinear_arith);
    assert((2 * j - 1) * major == d * j - major) by (nonlinear_arith)
        requires
            d == 2 * major,
    ;
    assert((2 * j + 1) * major == d * j + major) by (nonlinear_arith)
        requires
            d == 2 * major,
    ;
}

/// Within the segment the rounded offset stays between nothing and the whole
/// shorter extent, starts at nothing and ends at the whole.
pub proof fn lemma_minor_steps_range(k: int, minor: int, major: int)
    requires
        0 <= minor <= major,
        0 <= k <= major,
    ensures
        0 <= minor_steps(k, minor, major) <= minor,
        minor_steps(k, minor, major) <= k,
        minor_steps(0, minor, major) == 0,
        minor_steps(major, minor, major) == minor,
        minor == major ==> minor_steps(k, minor, major) == k,
{
    if major > 0 {
        let j = minor_steps(k, minor, major);
        lemma_minor_steps_rounds(k, minor, major);
        assert(0 <= k * minor <= major * minor && k * minor <= k * major) by (nonlinear_arith)
            requires
                0 <= minor <= major,
                0 <= k <= major,
        ;
        assert(j >= 0) by (nonlinear_arith)
            requires
                (2 * j + 1) * major >= 0,
                major > 0,
        ;
        assert(j <= minor) by (nonlinear_arith)
            requires
                (2 * j - 1) * major < 2 * (major * minor),
                major > 0,
        ;
        assert(j <= k) by (nonlinear_arith)
            requires
                (2 * j - 1) * major < 2 * (k * major),
                major > 0,
        ;
        assert(rounds_to(0, minor, major, 0)) by (nonlinear_arith)
            requires
                major > 0,
        ;
        lemma_minor_steps_unique(0, minor, major, 0);
        assert(rounds_to(major, minor, major, minor)) by (nonlinear_arith)
            requires
                major > 0,
        ;
        lemma_minor_steps_unique(major, minor, major, minor);
        if minor == major {
            assert(rounds_to(k, minor, major, k)) by (nonlinear_arith)
                requires
                    major > 0,
                    minor == major,
            ;
            lemma_minor_steps_unique(k, minor, major, k);
        }
    }
}

/// Every cell of a segment lies in the box spanned by its ends; the segment
/// starts at `a` and ends at `b`.
pub proof fn lemma_line_point_in_box(a: Coordinate, b: Coordinate, k: int)
    requires
        0 <= k <= line_steps(a, b),
    ensures
        a.0 <= b.0 ==> a.0 <= line_point(a, b, k).0 <= b.0,
        b.0 <= a.0 ==> b.0 <= line_point(a, b, k).0 <= a.0,
        a.1 <= b.1 ==> a.1 <= line_point(a, b, k).1 <= b.1,
        b.1 <= a.1 ==> b.1 <= line_point(a, b, k).1 <= a.1,
        line_point(a, b, k) == (line_cell(a, b, k).0 as int, line_cell(a, b, k).1 as int),
        k == 0 ==> line_cell(a, b, k) == a,
        k == line_steps(a, b) ==> line_cell(a, b, k) == b,
{
    let dx = span(a.0 as int, b.0 as int);
    let dy = span(a.1 as int, b.1 as int);
    if dx >= dy {
        lemma_minor_steps_range(k, dy, dx);
    } else {
        lemma_minor_steps_range(k, dx, dy);
    }
}

/// Where the error-accumulator walk stands: the cell it has reached and its
/// error term.
pub struct WalkState {
    pub x: int,
    pub y: int,
    pub err: int,
}

/// The walk before its first step: at `a`, the error term the extent in `x`
/// less the extent in `y`.
pub open spec fn walk_start(a: Coordinate, b: Coordinate) -> WalkState {
    WalkState {
        x: a.0 as int,
        y: a.1 as int,
        err: span(a.0 as int, b.0 as int) - span(a.1 as int, b.1 as int),
    }
}

/// One step of the walk toward `b`. With `e2` twice the error term, the walk
/// moves one cell in `x` where `e2 > -dy` and one cell in `y` where `e2 < dx`,
/// each in the direction from `a` to `b`; a move in `x` takes `dy` from the
/// error term and a move in `y` adds `dx` to it.
pub open spec fn walk_step(s: WalkState, a: Coordinate, b: Coordinate) -> WalkState {
    let dx = span(a.0 as int, b.0 as int);
    let dy = span(a.1 as int, b.1 as int);
    let sx: int = if a.0 < b.0 {
        1
    } else {
        -1
    };
    let sy: int = if a.1 < b.1 {
        1
    } else {
        -1
    };
    let e2 = 2 * s.err;
    let x = if e2 > -dy {
        s.x + sx
    } else {
        s.x
    };
    let y = if e2 < dx {
        s.y + sy
    } else {
        s.y
    };
    let err = s.err - (if e2 > -dy {
        dy
    } else {
        0
    }) + (if e2 < dx {
        dx
    } else {
        0
    });
    WalkState { x, y, err }
}

/// The walk from `a` toward `b` after `k` steps.
pub open spec fn walk(a: Coordinate, b: Coordinate, k: nat) -> WalkState
    decreases k,
{
    if k == 0 {
        walk_start(a, b)
    } else {
        walk_step(walk(a, b, (k - 1) as nat), a, b)
    }
}

/// The error-accumulator walk and the rounded segment are the same: after `k`
/// steps the walk stands on the `k`-th cell of the segment. Its error term
/// stays within twice the number of steps of the segment.
pub proof fn lemma_walk_is_line(a: Coordinate, b: Coordinate, k: nat)
    requires
        k <= line_steps(a, b),
    ensures
        (walk(a, b, k).x, walk(a, b, k).y) == line_point(a, b, k as int),
        -2 * line_steps(a, b) <= walk(a, b, k).err <= 2 * line_steps(a, b),
        walk(a, b, k).err == walk_err(a, b, k as int),
    decreases k,
{
    let dx = span(a.0 as int, b.0 as int);
    let dy = span(a.1 as int, b.1 as int);
    let major = if dx >= dy { dx } else { dy };
    let minor = if dx >= dy { dy } else { dx };
    lemma_minor_steps_range(k as int, minor, major);
    if k == 0 {
        assert((0 + 1) * dx - (0 + 1) * dy == dx - dy) by (nonlinear_arith);
    } else {
        let before = (k - 1) as nat;
        lemma_walk_is_line(a, b, before);
        lemma_minor_steps_range(before as int, minor, major);
        lemma_minor_steps_rounds(before as int, minor, major);
        lemma_line_point_in_box(a, b, before as int);
        let j = minor_steps(before as int, minor, major);
        let km = before * minor;
        let jm = j * major;
        let prev = walk(a, b, before);
        assert((before + 1) * minor == km + minor) by (nonlinear_arith)
            requires
                km == before * minor,
        ;
        assert((k + 1) * minor == km + 2 * minor) by (nonlinear_arith)
            requires
                km == (k - 1) * minor,
        ;
        assert((j + 1) * major == jm + major && (j + 2) * major == jm + 2 * major)
            by (nonlinear_arith)
            requires
                jm == j * major,
        ;
        assert((2 * j - 1) * major == 2 * jm - major && (2 * j + 1) * major == 2 * jm + major)
            by (nonlinear_arith)
            requires
                jm == j * major,
        ;
        assert(prev.err == if dx >= dy {
            jm + dx - km - dy
        } else {
            km + dx - jm - dy
        });
        let stepped = if dx >= dy {
            2 * prev.err < dx
        } else {
            2 * prev.err > -dy
        };
        let j2 = if stepped {
            j + 1
        } else {
            j
        };
        assert(rounds_to(k as int, minor, major, j2)) by (nonlinear_arith)
            requires
                k * minor == km + minor,
                j2 * major == if stepped {
                    jm + major
                } else {
                    jm
                },
                2 * jm - major < 2 * km <= 2 * jm + major,
                0 <= minor <= major,
                stepped == (2 * jm + major < 2 * (km + minor)),
        ;
        lemma_minor_steps_unique(k as int, minor, major, j2);
        assert(j2 * major == if stepped {
            jm + major
        } else {
            jm
        });
        assert((j2 + 1) * major == j2 * major + major) by (nonlinear_arith);
    }
}

/// The error term of the walk after `k` steps, from the rounded offset.
pub open spec fn walk_err(a: Coordinate, b: Coordinate, k: int) -> int {
    let dx = span(a.0 as int, b.0 as int);
    let dy = span(a.1 as int, b.1 as int);
    if dx >= dy {
        (minor_steps(k, dy, dx) + 1) * dx - (k + 1) * dy
    } else {
        (k + 1) * dx - (minor_steps(k, dx, dy) + 1) * dy
    }
}

/// The cells of the segment from `(x0, y0)` to `(x1, y1)`, both ends included,
/// in the order in which the error-accumulator walk visits them.
pub fn bresenham_line(x0: i32, y0: i32, x1: i32, y1: i32) -> (points: Vec<Coordinate>)
    ensures
        points@ == line_cells((x0, y0), (x1, y1)),
        points@.len() == line_steps((x0, y0), (x1, y1)) + 1,
        points@[0] == (x0, y0),
        points@.last() == (x1, y1),
        forall|k: nat|
            k < points@.len() ==> points@[k as int].0 == (#[trigger] walk(
                (x0, y0),
                (x1, y1),
                k,
            )).x && points@[k as int].1 == walk((x0, y0), (x1, y1), k).y,
{
    let mut points: Vec<Coordinate> = Vec::new();
    let tx: i64 = x1 as i64;
    let ty: i64 = y1 as i64;
    let mut x: i64 = x0 as i64;
    let mut y: i64 = y0 as i64;
    let dx: i64 = if x < tx { tx - x } else { x - tx };
    let dy: i64 = if y < ty { ty - y } else { y - ty };
    let sx: i64 = if x < tx { 1 } else { -1 };
    let sy: i64 = if y < ty { 1 } else { -1 };
    let mut err: i64 = dx - dy;
    let ghost a: Coordinate = (x0, y0);
    let ghost b: Coordinate = (x1, y1);
    let ghost n: int = line_steps(a, b);
    let ghost mut k: nat = 0;
    loop
        invariant_except_break
            points@ == Seq::new(k, |i: int| line_cell(a, b, i)),
        invariant
            a == (x0, y0),
            b == (x1, y1),
            tx == x1,
            ty == y1,
            dx == span(x0 as int, x1 as int),
            dy == span(y0 as int, y1 as int),
            sx == if x0 < x1 { 1i64 } else { -1i64 },
            sy == if y0 < y1 { 1i64 } else { -1i64 },
            n == line_steps(a, b),
            k <= n,
            walk(a, b, k) == (WalkState { x: x as int, y: y as int, err: err as int }),
        ensures
            points@ == line_cells(a, b),
        decreases n - k,
    {
        proof {
            lemma_walk_is_line(a, b, k);
            lemma_line_point_in_box(a, b, k as int);
            lemma_line_point_in_box(a, b, n);
        }
        points.push((x as i32, y as i32));
        assert(points@ =~= Seq::new(k + 1, |i: int| line_cell(a, b, i)));
        if x == tx && y == ty {
            assert(k == n);
            assert(points@ =~= line_cells(a, b));
            break;
        }
        assert(k < n);
        let e2: i64 = err * 2;
        if e2 > -dy {
            err -= dy;
            x += sx;
        }
        if e2 < dx {
            err += dx;
            y += sy;
        }
        proof {
            k = k + 1;
        }
    }
    proof {
        lemma_line_point_in_box(a, b, 0);
        lemma_line_point_in_box(a, b, n);
        assert forall|i: nat| i < points@.len() implies points@[i as int].0 == (#[trigger] walk(
            a,
            b,
            i,
        )).x && points@[i as int].1 == walk(a, b, i).y by {
            lemma_walk_is_line(a, b, i);
            lemma_line_point_in_box(a, b, i as int);
        }
    }
    points
}

} // verus!
