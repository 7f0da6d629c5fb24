//! The path of a stroke: the pixels of the straight line between two
//! endpoints, one per unit step along the longer axis.

use vstd::prelude::*;
use vstd::arithmetic::div_mod::lemma_fundamental_div_mod;
use vstd::arithmetic::div_mod::lemma_fundamental_div_mod_converse;
use vstd::arithmetic::div_mod::lemma_mod_bound;

verus! {

/// Distance between two coordinates.
pub open spec fn span(a: int, b: int) -> int {
    if a < b {
        b - a
    } else {
        a - b
    }
}

/// The coordinate `offset` pixels away from `from`, in the direction of
/// `to`.
pub open spec fn advance(from: int, to: int, offset: int) -> int {
    if from < to {
        from + offset
    } else {
        from - offset
    }
}

/// Number of unit steps from the first endpoint to the last; the line has
/// one point more than this.
pub open spec fn line_steps(x0: int, y0: int, x1: int, y1: int) -> int {
    if span(x0, x1) >= span(y0, y1) {
        span(x0, x1)
    } else {
        span(y0, y1)
    }
}

/// How far the line has moved along its shorter axis after `k` steps along
/// the longer one: `minor * k / major`, rounded to the nearest integer with
/// halves rounded up.
pub open spec fn minor_offset(minor: int, major: int, k: int) -> int {
    if major == 0 {
        0
    } else {
        (2 * minor * k + major) / (2 * major)
    }
}

/// The `k`-th point of the line from `(x0, y0)` to `(x1, y1)`, for
/// `0 <= k <= line_steps(..)`.  The longer axis advances by one pixel per
/// step, the shorter one follows [`minor_offset`].
pub open spec fn line_point(x0: int, y0: int, x1: int, y1: int, k: int) -> (int, int) {
    let dx = span(x0, x1);
    let dy = span(y0, y1);
    if dx >= dy {
        (advance(x0, x1, k), advance(y0, y1, minor_offset(dy, dx, k)))
    } else {
        (advance(x0, x1, minor_offset(dx, dy, k)), advance(y0, y1, k))
    }
}

/// The quantity that the stepping rule tests to decide whether the shorter
/// axis advances: twice the signed error after `k` steps with the shorter
/// axis at offset `m`.
pub open spec fn decision(minor: int, major: int, k: int, m: int) -> int {
    2 * major * (1 + m) - 2 * minor * (1 + k)
}

/// How the decision value moves with a step along either axis.
pub proof fn lemma_decision_moves(minor: int, major: int, k: int, m: int)
    ensures
        decision(minor, major, k + 1, m) == decision(minor, major, k, m) - 2 * minor,
        decision(minor, major, k + 1, m + 1) == decision(minor, major, k, m) - 2 * minor + 2
            * major,
{
    assert(2 * major * (1 + (m + 1)) == 2 * major * (1 + m) + 2 * major) by (nonlinear_arith);
    assert(2 * minor * (1 + (k + 1)) == 2 * minor * (1 + k) + 2 * minor) by (nonlinear_arith);
}

/// The shorter axis does not move before the first step.
pub proof fn lemma_minor_offset_start(minor: int, major: int)
    requires
        0 <= minor <= major,
    ensures
        minor_offset(minor, major, 0) == 0,
{
    if major != 0 {
        assert(2 * minor * 0 + major == major);
        lemma_fundamental_div_mod_converse(major, 2 * major, 0, major);
    }
}

/// After the last step the shorter axis has covered its whole span.
pub proof fn lemma_minor_offset_end(minor: int, major: int)
    requires
        0 <= minor <= major,
    ensures
        minor_offset(minor, major, major) == minor,
{
    if major != 0 {
        assert(2 * minor * major + major == minor * (2 * major) + major) by (nonlinear_arith);
        lemma_fundamental_div_mod_converse(2 * minor * major + major, 2 * major, minor, major);
    }
}

/// One step of the error-driven rule: the decision value stays within one
/// major span of its start, and the shorter axis advances exactly when the
/// decision value is at most `major`.
pub proof fn lemma_minor_offset_step(minor: int, major: int, k: int)
    requires
        0 <= minor <= major,
        0 < major,
        0 <= k,
    ensures
        major - 2 * minor < decision(minor, major, k, minor_offset(minor, major, k)) <= 3 * major
            - 2 * minor,
        minor_offset(minor, major, k + 1) == if decision(
            minor,
            major,
            k,
            minor_offset(minor, major, k),
        ) <= major {
            minor_offset(minor, major, k) + 1
        } else {
            minor_offset(minor, major, k)
        },
{
    let d = 2 * major;
    let a = 2 * minor * k + major;
    let m = a / d;
    let r = a % d;
    lemma_fundamental_div_mod(a, d);
    lemma_mod_bound(a, d);
    assert(d * m == 2 * major * m) by (nonlinear_arith)
        requires
            d == 2 * major,
    ;
    assert(2 * major * (1 + m) == 2 * major + 2 * major * m) by (nonlinear_arith);
    assert(2 * minor * (1 + k) == 2 * minor + 2 * minor * k) by (nonlinear_arith);
    let e = decision(minor, major, k, m);
    assert(e == 3 * major - 2 * minor - r);
    let a_next = 2 * minor * (k + 1) + major;
    assert(2 * minor * (k + 1) == 2 * minor * k + 2 * minor) by (nonlinear_arith);
    assert(a_next == a + 2 * minor);
    if e <= major {
        assert((m + 1) * d == d * m + d) by (nonlinear_arith);
        lemma_fundamental_div_mod_converse(a_next, d, m + 1, r + 2 * minor - d);
    } else {
        assert(m * d == d * m) by (nonlinear_arith);
        lemma_fundamental_div_mod_converse(a_next, d, m, r + 2 * minor);
    }
}

/// The shorter axis never runs backwards and never overshoots its span.
pub proof fn lemma_minor_offset_range(minor: int, major: int, k: int)
    requires
        0 <= minor <= major,
        0 <= k <= major,
    ensures
        0 <= minor_offset(minor, major, k) <= minor,
        minor_offset(minor, major, k) <= k,
    decreases k,
{
    if major == 0 {
    } else if k == 0 {
        lemma_minor_offset_start(minor, major);
    } else {
        lemma_minor_offset_range(minor, major, k - 1);
        lemma_minor_offset_step(minor, major, k - 1);
        let m = minor_offset(minor, major, k);
        if m > minor {
            // Past the span the remaining steps could only move further away.
            lemma_minor_offset_monotone(minor, major, k, major);
            lemma_minor_offset_end(minor, major);
        }
    }
}

/// The shorter axis moves monotonically with the longer one.
pub proof fn lemma_minor_offset_monotone(minor: int, major: int, j: int, k: int)
    requires
        0 <= minor <= major,
        0 < major,
        0 <= j <= k,
    ensures
        minor_offset(minor, major, j) <= minor_offset(minor, major, k),
    decreases k - j,
{
    if j < k {
        lemma_minor_offset_monotone(minor, major, j, k - 1);
        lemma_minor_offset_step(minor, major, k - 1);
    }
}

/// Unit step from `from` towards `to`.
pub open spec fn sign(from: int, to: int) -> int {
    if from < to {
        1
    } else {
        -1
    }
}

/// State of the error-driven walk along a line: the current pixel and the
/// running error term.
pub struct Walk {
    pub x: int,
    pub y: int,
    pub err: int,
}

/// Where the walk begins: at the first endpoint, with the error term at
/// the difference of the two spans.
pub open spec fn walk_start(x0: int, y0: int, x1: int, y1: int) -> Walk {
    Walk { x: x0, y: y0, err: span(x0, x1) - span(y0, y1) }
}

/// One iteration of the walk: twice the error is compared with both
/// spans, and each comparison that succeeds moves the pixel by one along
/// its axis and corrects the error by the span of the other axis.
pub open spec fn walk_next(x0: int, y0: int, x1: int, y1: int, s: Walk) -> Walk {
    let dx = span(x0, x1);
    let dy = -span(y0, y1);
    let step_x = 2 * s.err >= dy;
    let step_y = 2 * s.err <= dx;
    Walk {
        x: if step_x { s.x + sign(x0, x1) } else { s.x },
        y: if step_y { s.y + sign(y0, y1) } else { s.y },
        err: s.err + (if step_x { dy } else { 0 }) + (if step_y { dx } else { 0 }),
    }
}

/// The state of the walk after `k` iterations.
pub open spec fn walk(x0: int, y0: int, x1: int, y1: int, k: nat) -> Walk
    decreases k,
{
    if k == 0 {
        walk_start(x0, y0, x1, y1)
    } else {
        walk_next(x0, y0, x1, y1, walk(x0, y0, x1, y1, (k - 1) as nat))
    }
}

/// The walk stands on the `k`-th point of the line, and its error term is
/// the one that belongs to that point.
pub open spec fn on_track(x0: int, y0: int, x1: int, y1: int, k: int, s: Walk) -> bool {
    let dx = span(x0, x1);
    let dy = span(y0, y1);
    &&& (s.x, s.y) == line_point(x0, y0, x1, y1, k)
    &&& if dx >= dy {
        2 * s.err == decision(dy, dx, k, minor_offset(dy, dx, k))
    } else {
        -2 * s.err == decision(dx, dy, k, minor_offset(dx, dy, k))
    }
}

/// The walk starts on track.
pub proof fn lemma_walk_start(x0: int, y0: int, x1: int, y1: int)
    ensures
        on_track(x0, y0, x1, y1, 0, walk_start(x0, y0, x1, y1)),
{
    let dx = span(x0, x1);
    let dy = span(y0, y1);
    if dx >= dy {
        lemma_minor_offset_start(dy, dx);
        assert(2 * dx * (1 + 0) == 2 * dx) by (nonlinear_arith);
        assert(2 * dy * (1 + 0) == 2 * dy) by (nonlinear_arith);
    } else {
        lemma_minor_offset_start(dx, dy);
        assert(2 * dx * (1 + 0) == 2 * dx) by (nonlinear_arith);
        assert(2 * dy * (1 + 0) == 2 * dy) by (nonlinear_arith);
    }
}

/// A walk that is on track before the last point of the line is on track
/// again after one more iteration, and its error term stays within three
/// times the length of the line.
pub proof fn lemma_walk_step(x0: int, y0: int, x1: int, y1: int, k: int, s: Walk)
    requires
        0 <= k < line_steps(x0, y0, x1, y1),
        on_track(x0, y0, x1, y1, k, s),
    ensures
        on_track(x0, y0, x1, y1, k + 1, walk_next(x0, y0, x1, y1, s)),
        -3 * line_steps(x0, y0, x1, y1) <= 2 * s.err <= 3 * line_steps(x0, y0, x1, y1),
{
    let dx = span(x0, x1);
    let dy = span(y0, y1);
    if dx >= dy {
        let m = minor_offset(dy, dx, k);
        lemma_minor_offset_step(dy, dx, k);
        lemma_decision_moves(dy, dx, k, m);
    } else {
        let m = minor_offset(dx, dy, k);
        lemma_minor_offset_step(dx, dy, k);
        lemma_decision_moves(dx, dy, k, m);
    }
}

/// The error-driven walk visits the points of the line in order: after
/// `k` iterations it stands on the `k`-th point.
pub proof fn lemma_walk_follows_line(x0: int, y0: int, x1: int, y1: int, k: nat)
    requires
        k <= line_steps(x0, y0, x1, y1),
    ensures
        on_track(x0, y0, x1, y1, k as int, walk(x0, y0, x1, y1, k)),
        (walk(x0, y0, x1, y1, k).x, walk(x0, y0, x1, y1, k).y) == line_point(
            x0,
            y0,
            x1,
            y1,
            k as int,
        ),
    decreases k,
{
    if k == 0 {
        lemma_walk_start(x0, y0, x1, y1);
    } else {
        let j = (k - 1) as nat;
        lemma_walk_follows_line(x0, y0, x1, y1, j);
        lemma_walk_step(x0, y0, x1, y1, j as int, walk(x0, y0, x1, y1, j));
    }
}

/// The line starts at its first endpoint.
pub proof fn lemma_line_starts(x0: int, y0: int, x1: int, y1: int)
    ensures
        line_point(x0, y0, x1, y1, 0) == (x0, y0),
{
    let dx = span(x0, x1);
    let dy = span(y0, y1);
    if dx >= dy {
        lemma_minor_offset_start(dy, dx);
    } else {
        lemma_minor_offset_start(dx, dy);
    }
}

/// The line reaches its second endpoint with its last step, and not before.
pub proof fn lemma_line_ends(x0: int, y0: int, x1: int, y1: int, k: int)
    requires
        0 <= k <= line_steps(x0, y0, x1, y1),
    ensures
        line_point(x0, y0, x1, y1, k) == (x1, y1) <==> k == line_steps(x0, y0, x1, y1),
{
    let dx = span(x0, x1);
    let dy = span(y0, y1);
    if dx >= dy {
        lemma_minor_offset_end(dy, dx);
    } else {
        lemma_minor_offset_end(dx, dy);
    }
}

/// Every point of the line lies in the bounding box of the two endpoints.
pub proof fn lemma_line_within_box(x0: int, y0: int, x1: int, y1: int, k: int)
    requires
        0 <= k <= line_steps(x0, y0, x1, y1),
    ensures
        span(x0, line_point(x0, y0, x1, y1, k).0) <= span(x0, x1),
        span(y0, line_point(x0, y0, x1, y1, k).1) <= span(y0, y1),
        span(line_point(x0, y0, x1, y1, k).0, x1) <= span(x0, x1),
        span(line_point(x0, y0, x1, y1, k).1, y1) <= span(y0, y1),
{
    let dx = span(x0, x1);
    let dy = span(y0, y1);
    if dx >= dy {
        lemma_minor_offset_range(dy, dx, k);
    } else {
        lemma_minor_offset_range(dx, dy, k);
    }
}

/// Consecutive points of the line are neighbours: each step moves by one
/// pixel along the longer axis and by at most one along the shorter.
pub proof fn lemma_line_connected(x0: int, y0: int, x1: int, y1: int, k: int)
    requires
        0 <= k < line_steps(x0, y0, x1, y1),
    ensures
        span(line_point(x0, y0, x1, y1, k).0, line_point(x0, y0, x1, y1, k + 1).0) <= 1,
        span(line_point(x0, y0, x1, y1, k).1, line_point(x0, y0, x1, y1, k + 1).1) <= 1,
        line_point(x0, y0, x1, y1, k) != line_point(x0, y0, x1, y1, k + 1),
{
    let dx = span(x0, x1);
    let dy = span(y0, y1);
    if dx >= dy {
        lemma_minor_offset_step(dy, dx, k);
    } else {
        lemma_minor_offset_step(dx, dy, k);
    }
}

} // verus!
