//! The footprint of the brush: a filled disk stamped at every point of a
//! stroke's path, clipped to the surface.

use vstd::prelude::*;
use crate::line::lemma_line_starts;
use crate::line::line_point;
use crate::line::line_steps;
use crate::raster::in_canvas;

verus! {

/// Radius of a brush of diameter `size`.
pub open spec fn brush_radius(size: u32) -> int {
    size as int / 2
}

/// Whether pixel `(px, py)` lies in the closed disk of the given radius
/// around `(cx, cy)`.
pub open spec fn in_disk(cx: int, cy: int, radius: int, px: int, py: int) -> bool {
    (px - cx) * (px - cx) + (py - cy) * (py - cy) <= radius * radius
}

/// The pixels of the surface that one stamp of the brush at `(cx, cy)`
/// covers.
pub open spec fn stamp_region(width: int, height: int, cx: int, cy: int, radius: int) -> Set<
    (int, int),
> {
    Set::new(
        |p: (int, int)| in_canvas(width, height, p.0, p.1) && in_disk(cx, cy, radius, p.0, p.1),
    )
}

/// Whether the stamp at the `k`-th point of the line covers `(px, py)`.
pub open spec fn stamp_covers(
    x0: int,
    y0: int,
    x1: int,
    y1: int,
    radius: int,
    k: int,
    px: int,
    py: int,
) -> bool {
    in_disk(line_point(x0, y0, x1, y1, k).0, line_point(x0, y0, x1, y1, k).1, radius, px, py)
}

/// The pixels of the surface covered by the first `count` stamps of a
/// stroke.
pub open spec fn stroke_prefix(
    width: int,
    height: int,
    x0: int,
    y0: int,
    x1: int,
    y1: int,
    radius: int,
    count: int,
) -> Set<(int, int)> {
    Set::new(
        |p: (int, int)|
            in_canvas(width, height, p.0, p.1) && exists|k: int|
                0 <= k < count && #[trigger] stamp_covers(x0, y0, x1, y1, radius, k, p.0, p.1),
    )
}

/// The footprint of a whole stroke: every pixel of the surface that lies in
/// the disk around some point of the line.
pub open spec fn stroke_region(
    width: int,
    height: int,
    x0: int,
    y0: int,
    x1: int,
    y1: int,
    radius: int,
) -> Set<(int, int)> {
    stroke_prefix(width, height, x0, y0, x1, y1, radius, line_steps(x0, y0, x1, y1) + 1)
}

/// A pixel of a disk is no further than the radius from the centre along
/// either axis.
pub proof fn lemma_disk_in_box(cx: int, cy: int, radius: int, px: int, py: int)
    requires
        0 <= radius,
        in_disk(cx, cy, radius, px, py),
    ensures
        cx - radius <= px <= cx + radius,
        cy - radius <= py <= cy + radius,
{
    let dx = px - cx;
    let dy = py - cy;
    assert(-radius <= dx <= radius && -radius <= dy <= radius) by (nonlinear_arith)
        requires
            0 <= radius,
            dx * dx + dy * dy <= radius * radius,
    ;
}

/// No stamps cover nothing.
pub proof fn lemma_stroke_prefix_none(
    width: int,
    height: int,
    x0: int,
    y0: int,
    x1: int,
    y1: int,
    radius: int,
)
    ensures
        stroke_prefix(width, height, x0, y0, x1, y1, radius, 0) == Set::<(int, int)>::empty(),
{
    assert(stroke_prefix(width, height, x0, y0, x1, y1, radius, 0) =~= Set::<(int, int)>::empty());
}

/// One more stamp adds the disk around the next point of the line.
pub proof fn lemma_stroke_prefix_next(
    width: int,
    height: int,
    x0: int,
    y0: int,
    x1: int,
    y1: int,
    radius: int,
    count: int,
)
    requires
        0 <= count,
    ensures
        stroke_prefix(width, height, x0, y0, x1, y1, radius, count + 1) == stroke_prefix(
            width,
            height,
            x0,
            y0,
            x1,
            y1,
            radius,
            count,
        ).union(
            stamp_region(
                width,
                height,
                line_point(x0, y0, x1, y1, count).0,
                line_point(x0, y0, x1, y1, count).1,
                radius,
            ),
        ),
{
    let before = stroke_prefix(width, height, x0, y0, x1, y1, radius, count);
    let after = stroke_prefix(width, height, x0, y0, x1, y1, radius, count + 1);
    let c = line_point(x0, y0, x1, y1, count);
    let stamp = stamp_region(width, height, c.0, c.1, radius);
    assert forall|p: (int, int)| after.contains(p) <==> before.union(stamp).contains(p) by {
        if after.contains(p) {
            let k = choose|k: int|
                0 <= k < count + 1 && #[trigger] stamp_covers(x0, y0, x1, y1, radius, k, p.0, p.1);
            if k < count {
                assert(before.contains(p));
            } else {
                assert(stamp.contains(p));
            }
        }
        if before.contains(p) {
            let k = choose|k: int|
                0 <= k < count && #[trigger] stamp_covers(x0, y0, x1, y1, radius, k, p.0, p.1);
            assert(stamp_covers(x0, y0, x1, y1, radius, k, p.0, p.1));
        }
        if stamp.contains(p) {
            assert(stamp_covers(x0, y0, x1, y1, radius, count, p.0, p.1));
        }
    }
    assert(after =~= before.union(stamp));
}

/// A stroke whose endpoints coincide covers exactly one disk: the one
/// around that point.
pub proof fn lemma_dot_is_one_stamp(width: int, height: int, x: int, y: int, radius: int)
    ensures
        stroke_region(width, height, x, y, x, y, radius) == stamp_region(
            width,
            height,
            x,
            y,
            radius,
        ),
{
    lemma_line_starts(x, y, x, y);
    lemma_stroke_prefix_none(width, height, x, y, x, y, radius);
    lemma_stroke_prefix_next(width, height, x, y, x, y, radius, 0);
    assert(Set::<(int, int)>::empty().union(stamp_region(width, height, x, y, radius))
        =~= stamp_region(width, height, x, y, radius));
}

} // verus!
