//! Stroke rasterisation: a line of brush stamps drawn into the scratch
//! buffer, with the dirty region growing to cover every pixel touched.

use vstd::prelude::*;
use crate::brush::brush_radius;
use crate::brush::in_disk;
use crate::brush::lemma_disk_in_box;
use crate::brush::lemma_stroke_prefix_next;
use crate::brush::lemma_stroke_prefix_none;
use crate::brush::stamp_region;
use crate::brush::stroke_prefix;
use crate::brush::stroke_region;
use crate::canvas::Canvas;
use crate::canvas::lemma_area_bounded;
use crate::color::Rgba;
use crate::dirty::grow;
use crate::dirty::lemma_bounding_grow;
use crate::dirty::lemma_bounding_nothing;
use crate::line::Walk;
use crate::line::lemma_line_ends;
use crate::line::lemma_line_within_box;
use crate::line::lemma_walk_start;
use crate::line::lemma_walk_step;
use crate::line::line_steps;
use crate::line::on_track;
use crate::line::sign;
use crate::line::span;
use crate::model::lemma_stroked_chain;
use crate::model::lemma_stroked_nothing;
use crate::raster::in_canvas;
use crate::raster::lemma_byte_index;
use crate::raster::lemma_overlay_empty;
use crate::raster::lemma_painted_alpha;
use crate::raster::lemma_pixel_of_byte;
use crate::raster::painted;
use crate::raster::solid;

verus! {

/// The region made of the single pixel `(x, y)`, or of nothing if that
/// pixel is not on the surface.
pub open spec fn pixel_region(width: int, height: int, x: int, y: int) -> Set<(int, int)> {
    if in_canvas(width, height, x, y) {
        set![(x, y)]
    } else {
        Set::empty()
    }
}

/// The part of a stamp that a row-by-row scan has dealt with when it
/// stands at `(px, py)`: the rows above `py`, and the pixels of row `py`
/// to the left of `px`.
pub open spec fn stamp_scanned(
    width: int,
    height: int,
    cx: int,
    cy: int,
    radius: int,
    px: int,
    py: int,
) -> Set<(int, int)> {
    Set::new(
        |p: (int, int)|
            stamp_region(width, height, cx, cy, radius).contains(p) && (p.1 < py || (p.1 == py
                && p.0 < px)),
    )
}

impl Canvas {
    /// Writes `color` to pixel `(x, y)` of the scratch buffer and grows the
    /// dirty region to include it.  A pixel outside the surface is skipped.
    pub(crate) fn set_pixel(&mut self, x: u32, y: u32, color: Rgba)
        requires
            old(self).wf(),
            color.alpha_is_binary(),
        ensures
            final(self).wf(),
            old(self)@.stroked(
                final(self)@,
                pixel_region(old(self)@.width, old(self)@.height, x as int, y as int),
                color,
            ),
            in_canvas(old(self)@.width, old(self)@.height, x as int, y as int)
                ==> final(self)@.dirty == Some(grow(old(self)@.dirty, x as int, y as int)),
            !in_canvas(old(self)@.width, old(self)@.height, x as int, y as int)
                ==> final(self)@ == old(self)@,
    {
        let ghost w = self.width as int;
        let ghost h = self.height as int;
        let ghost before = self.drawing_buffer@;
        if x < self.width && y < self.height {
            proof {
                lemma_area_bounded(w, h);
                lemma_byte_index(w, h, x as int, y as int, 0);
                lemma_byte_index(w, h, x as int, y as int, 3);
            }
            let idx = (y as usize * self.width as usize + x as usize) * 4;
            self.drawing_buffer[idx] = color.r;
            self.drawing_buffer[idx + 1] = color.g;
            self.drawing_buffer[idx + 2] = color.b;
            self.drawing_buffer[idx + 3] = color.a;
            let grown = match self.dirty_rect {
                Some((dx, dy, dw, dh)) => {
                    let left = if x < dx { x } else { dx };
                    let top = if y < dy { y } else { dy };
                    let right = if x + 1 > dx + dw { x + 1 } else { dx + dw };
                    let bottom = if y + 1 > dy + dh { y + 1 } else { dy + dh };
                    (left, top, right - left, bottom - top)
                },
                None => (x, y, 1, 1),
            };
            self.dirty_rect = Some(grown);
            proof {
                let region = pixel_region(w, h, x as int, y as int);
                let after = self.drawing_buffer@;
                let expect = painted(before, w, region, color);
                assert forall|i: int| 0 <= i < before.len() implies after[i] == expect[i] by {
                    lemma_pixel_of_byte(w, h, i);
                    if idx <= i < idx + 4 {
                        lemma_byte_index(w, h, x as int, y as int, i - idx);
                    }
                }
                assert(after =~= expect);
                lemma_painted_alpha(before, w, region, color);
                lemma_bounding_nothing(old(self)@.dirty);
                lemma_bounding_grow(
                    old(self)@.dirty,
                    old(self)@.dirty,
                    Set::empty(),
                    x as int,
                    y as int,
                );
                assert(Set::<(int, int)>::empty().insert((x as int, y as int)) =~= region);
            }
        } else {
            proof {
                lemma_overlay_empty(before, solid(before.len() as int, color), w);
                lemma_bounding_nothing(old(self)@.dirty);
            }
        }
    }

    /// Stamps the brush once: paints the disk of the given radius around
    /// `(cx, cy)`, as far as it lies on the surface.  Only the part of the
    /// disk's bounding box that overlaps the surface is scanned.
    pub(crate) fn stamp(&mut self, cx: i64, cy: i64, radius: i64, color: Rgba)
        requires
            old(self).wf(),
            color.alpha_is_binary(),
            0 <= radius <= i32::MAX,
            i32::MIN <= cx <= i32::MAX,
            i32::MIN <= cy <= i32::MAX,
        ensures
            final(self).wf(),
            old(self)@.stroked(
                final(self)@,
                stamp_region(old(self)@.width, old(self)@.height, cx as int, cy as int, radius as int),
                color,
            ),
    {
        let ghost start = self@;
        let ghost w = self.width as int;
        let ghost h = self.height as int;
        let ghost disk = stamp_region(w, h, cx as int, cy as int, radius as int);
        assert(radius * radius <= 0x3fff_ffff_0000_0001) by (nonlinear_arith)
            requires
                0 <= radius <= 0x7fff_ffff,
        ;
        let radius_squared = radius * radius;
        let top = if cy - radius > 0 { cy - radius } else { 0 };
        let bottom = if cy + radius + 1 < self.height as i64 {
            cy + radius + 1
        } else {
            self.height as i64
        };
        let left = if cx - radius > 0 { cx - radius } else { 0 };
        let right = if cx + radius + 1 < self.width as i64 {
            cx + radius + 1
        } else {
            self.width as i64
        };
        proof {
            assert forall|p: (int, int)| disk.contains(p) implies top <= p.1 < bottom && left
                <= p.0 < right by {
                lemma_disk_in_box(cx as int, cy as int, radius as int, p.0, p.1);
            }
            assert(stamp_scanned(w, h, cx as int, cy as int, radius as int, left as int, top as int)
                =~= Set::<(int, int)>::empty());
            lemma_stroked_nothing(start, color);
        }
        let mut py = top;
        while py < bottom
            invariant
                self.wf(),
                color.alpha_is_binary(),
                start.wf(),
                w == self.width,
                h == self.height,
                w == start.width,
                h == start.height,
                disk == stamp_region(w, h, cx as int, cy as int, radius as int),
                0 <= radius <= i32::MAX,
                radius_squared == radius * radius,
                radius_squared <= 0x3fff_ffff_0000_0001,
                i32::MIN <= cx <= i32::MAX,
                i32::MIN <= cy <= i32::MAX,
                0 <= top <= py,
                bottom <= h,
                py <= bottom || top >= bottom,
                0 <= left,
                right <= w,
                cy - radius <= top,
                bottom <= cy + radius + 1,
                cx - radius <= left,
                right <= cx + radius + 1,
                forall|p: (int, int)| disk.contains(p) ==> top <= p.1 < bottom && left <= p.0 < right,
                start.stroked(
                    self@,
                    stamp_scanned(w, h, cx as int, cy as int, radius as int, left as int, py as int),
                    color,
                ),
            decreases bottom - py,
        {
            let mut px = left;
            while px < right
                invariant
                    self.wf(),
                    color.alpha_is_binary(),
                    start.wf(),
                    w == self.width,
                    h == self.height,
                    w == start.width,
                    h == start.height,
                    disk == stamp_region(w, h, cx as int, cy as int, radius as int),
                    0 <= radius <= i32::MAX,
                    radius_squared == radius * radius,
                    radius_squared <= 0x3fff_ffff_0000_0001,
                    i32::MIN <= cx <= i32::MAX,
                    i32::MIN <= cy <= i32::MAX,
                    0 <= top <= py < bottom <= h,
                    0 <= left <= px,
                    px <= right || left >= right,
                    right <= w,
                    cy - radius <= top,
                    bottom <= cy + radius + 1,
                    cx - radius <= left,
                    right <= cx + radius + 1,
                    forall|p: (int, int)|
                        disk.contains(p) ==> top <= p.1 < bottom && left <= p.0 < right,
                    start.stroked(
                        self@,
                        stamp_scanned(w, h, cx as int, cy as int, radius as int, px as int, py as int),
                        color,
                    ),
                decreases right - px,
            {
                let ghost here = self@;
                let ghost done = stamp_scanned(
                    w,
                    h,
                    cx as int,
                    cy as int,
                    radius as int,
                    px as int,
                    py as int,
                );
                let ghost next = stamp_scanned(
                    w,
                    h,
                    cx as int,
                    cy as int,
                    radius as int,
                    px + 1,
                    py as int,
                );
                let off_x = px - cx;
                let off_y = py - cy;
                assert(0 <= off_x * off_x <= radius * radius && 0 <= off_y * off_y <= radius
                    * radius) by (nonlinear_arith)
                    requires
                        -radius <= off_x <= radius,
                        -radius <= off_y <= radius,
                ;
                if off_x * off_x + off_y * off_y <= radius_squared {
                    self.set_pixel(px as u32, py as u32, color);
                    proof {
                        assert(in_disk(cx as int, cy as int, radius as int, px as int, py as int));
                        assert(in_canvas(w, h, px as int, py as int));
                        let one = pixel_region(w, h, px as int, py as int);
                        lemma_stroked_chain(start, here, self@, done, one, color);
                        assert(done.union(one) =~= next);
                    }
                } else {
                    proof {
                        assert(!in_disk(cx as int, cy as int, radius as int, px as int, py as int));
                        assert(done =~= next);
                    }
                }
                px = px + 1;
            }
            proof {
                assert(stamp_scanned(w, h, cx as int, cy as int, radius as int, px as int, py as int)
                    =~= stamp_scanned(
                    w,
                    h,
                    cx as int,
                    cy as int,
                    radius as int,
                    left as int,
                    py + 1,
                ));
            }
            py = py + 1;
        }
        proof {
            assert(stamp_scanned(w, h, cx as int, cy as int, radius as int, left as int, py as int)
                =~= disk);
        }
    }

    /// Draws a stroke from `(x0, y0)` to `(x1, y1)` into the scratch buffer:
    /// the brush, a disk of diameter `size`, is stamped at every point of
    /// the line between the endpoints.  The eraser paints transparent
    /// black, any other stroke the opaque colour `0xRRGGBB`.  Parts of the
    /// stroke that fall outside the surface are skipped.  The dirty region
    /// grows to cover every pixel painted; committed layers are untouched.
    pub fn draw_line(
        &mut self,
        x0: i32,
        y0: i32,
        x1: i32,
        y1: i32,
        color: u32,
        is_eraser: bool,
        size: u32,
    )
        requires
            old(self).wf(),
        ensures
            final(self).wf(),
            old(self)@.stroked(
                final(self)@,
                stroke_region(
                    old(self)@.width,
                    old(self)@.height,
                    x0 as int,
                    y0 as int,
                    x1 as int,
                    y1 as int,
                    brush_radius(size),
                ),
                Rgba::paint(color, is_eraser),
            ),
    {
        let paint = Rgba::for_stroke(color, is_eraser);
        let dx: i64 = if x0 < x1 { x1 as i64 - x0 as i64 } else { x0 as i64 - x1 as i64 };
        let dy: i64 = if y0 < y1 { y0 as i64 - y1 as i64 } else { y1 as i64 - y0 as i64 };
        let sx: i64 = if x0 < x1 { 1 } else { -1 };
        let sy: i64 = if y0 < y1 { 1 } else { -1 };
        let mut err: i64 = dx + dy;
        let mut x: i64 = x0 as i64;
        let mut y: i64 = y0 as i64;
        let radius: i64 = (size / 2) as i64;

        let ghost start = self@;
        let ghost w = self.width as int;
        let ghost h = self.height as int;
        let ghost steps = line_steps(x0 as int, y0 as int, x1 as int, y1 as int);
        let ghost mut k: int = 0;
        proof {
            lemma_walk_start(x0 as int, y0 as int, x1 as int, y1 as int);
            lemma_stroke_prefix_none(w, h, x0 as int, y0 as int, x1 as int, y1 as int, radius as int);
            lemma_stroked_nothing(start, paint);
        }
        loop
            invariant_except_break
                self.wf(),
                0 <= k <= steps,
                on_track(x0 as int, y0 as int, x1 as int, y1 as int, k, Walk { x: x as int, y: y as int, err: err as int }),
                start.stroked(
                    self@,
                    stroke_prefix(w, h, x0 as int, y0 as int, x1 as int, y1 as int, radius as int, k),
                    paint,
                ),
            invariant
                start.wf(),
                w == start.width,
                h == start.height,
                paint == Rgba::paint(color, is_eraser),
                paint.alpha_is_binary(),
                steps == line_steps(x0 as int, y0 as int, x1 as int, y1 as int),
                dx == span(x0 as int, x1 as int),
                dy == -span(y0 as int, y1 as int),
                sx == sign(x0 as int, x1 as int),
                sy == sign(y0 as int, y1 as int),
                radius == brush_radius(size),
            ensures
                self.wf(),
                start.stroked(
                    self@,
                    stroke_region(w, h, x0 as int, y0 as int, x1 as int, y1 as int, radius as int),
                    paint,
                ),
            decreases steps - k,
        {
            let ghost here = self@;
            let ghost done = stroke_prefix(
                w,
                h,
                x0 as int,
                y0 as int,
                x1 as int,
                y1 as int,
                radius as int,
                k,
            );
            proof {
                lemma_line_within_box(x0 as int, y0 as int, x1 as int, y1 as int, k);
                lemma_line_ends(x0 as int, y0 as int, x1 as int, y1 as int, k);
            }
            self.stamp(x, y, radius, paint);
            proof {
                lemma_stroked_chain(
                    start,
                    here,
                    self@,
                    done,
                    stamp_region(w, h, x as int, y as int, radius as int),
                    paint,
                );
                lemma_stroke_prefix_next(
                    w,
                    h,
                    x0 as int,
                    y0 as int,
                    x1 as int,
                    y1 as int,
                    radius as int,
                    k,
                );
            }
            if x == x1 as i64 && y == y1 as i64 {
                break ;
            }
            proof {
                lemma_walk_step(
                    x0 as int,
                    y0 as int,
                    x1 as int,
                    y1 as int,
                    k,
                    Walk { x: x as int, y: y as int, err: err as int },
                );
            }
            let e2 = 2 * err;
            if e2 >= dy {
                err = err + dy;
                x = x + sx;
            }
            if e2 <= dx {
                err = err + dx;
                y = y + sy;
            }
            proof {
                k = k + 1;
            }
        }
    }
}

} // verus!
