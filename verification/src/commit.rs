//! Commit: the dirty part of the scratch buffer becomes layer content.

use vstd::prelude::*;
use crate::canvas::Canvas;
use crate::canvas::lemma_area_bounded;
use crate::dirty::Rect;
use crate::dirty::rect_of;
use crate::raster::buffer_len;
use crate::raster::lemma_byte_index;
use crate::raster::lemma_overlay_alpha;
use crate::raster::lemma_pixel_of_byte;
use crate::raster::overlay;

verus! {

/// The part of a rectangle that a row-by-row scan has dealt with when it
/// stands at `(px, py)`.
pub open spec fn rect_scanned(rect: Rect, px: int, py: int) -> Set<(int, int)> {
    Set::new(
        |p: (int, int)| rect.contains(p.0, p.1) && (p.1 < py || (p.1 == py && p.0 < px)),
    )
}

/// Copying the four bytes of pixel `(x, y)` from `src` extends an overlay
/// by that pixel.
pub proof fn lemma_overlay_pixel(
    dst: Seq<u8>,
    src: Seq<u8>,
    width: int,
    height: int,
    region: Set<(int, int)>,
    x: int,
    y: int,
    next: Seq<u8>,
)
    requires
        0 <= width,
        0 <= height,
        dst.len() == buffer_len(width, height),
        src.len() == dst.len(),
        0 <= x < width,
        0 <= y < height,
        next.len() == dst.len(),
        forall|i: int|
            0 <= i < dst.len() ==> #[trigger] next[i] == if (y * width + x) * 4 <= i < (y * width
                + x) * 4 + 4 {
                src[i]
            } else {
                overlay(dst, src, width, region)[i]
            },
    ensures
        next == overlay(dst, src, width, region.insert((x, y))),
{
    let expect = overlay(dst, src, width, region.insert((x, y)));
    assert forall|i: int| 0 <= i < dst.len() implies next[i] == expect[i] by {
        lemma_pixel_of_byte(width, height, i);
        let base = (y * width + x) * 4;
        if base <= i < base + 4 {
            lemma_byte_index(width, height, x, y, i - base);
        }
    }
    assert(next =~= expect);
}

/// Copies the pixels of `rect` from `src` to `dst`, leaving the rest of
/// `dst` as it is.
pub(crate) fn copy_rect(
    dst: &mut Vec<u8>,
    src: &Vec<u8>,
    width: u32,
    height: u32,
    rect: (u32, u32, u32, u32),
)
    requires
        buffer_len(width as int, height as int) <= u32::MAX,
        old(dst)@.len() == buffer_len(width as int, height as int),
        src@.len() == old(dst)@.len(),
        rect_of(rect).fits(width as int, height as int),
    ensures
        final(dst)@ == overlay(old(dst)@, src@, width as int, rect_of(rect).region()),
{
    let (x, y, w, h) = rect;
    let ghost first = dst@;
    let ghost r = rect_of(rect);
    let ghost cw = width as int;
    let ghost ch = height as int;
    proof {
        lemma_area_bounded(cw, ch);
        assert(rect_scanned(r, x as int, y as int) =~= Set::<(int, int)>::empty());
        assert(overlay(first, src@, cw, Set::empty()) =~= first);
    }
    let mut dy: u32 = 0;
    while dy < h
        invariant
            0 <= dy <= h,
            r == rect_of(rect),
            r == (Rect { x: x as int, y: y as int, w: w as int, h: h as int }),
            r.fits(cw, ch),
            cw == width,
            ch == height,
            0 <= cw * ch <= u32::MAX / 4,
            first.len() == buffer_len(cw, ch),
            src@.len() == first.len(),
            dst@.len() == first.len(),
            dst@ == overlay(first, src@, cw, rect_scanned(r, x as int, y + dy)),
        decreases h - dy,
    {
        let mut dx: u32 = 0;
        while dx < w
            invariant
                0 <= dy < h,
                0 <= dx <= w,
                r == rect_of(rect),
                r == (Rect { x: x as int, y: y as int, w: w as int, h: h as int }),
                r.fits(cw, ch),
                cw == width,
                ch == height,
                0 <= cw * ch <= u32::MAX / 4,
                first.len() == buffer_len(cw, ch),
                src@.len() == first.len(),
                dst@.len() == first.len(),
                dst@ == overlay(first, src@, cw, rect_scanned(r, x + dx, y + dy)),
            decreases w - dx,
        {
            let ghost done = rect_scanned(r, x + dx, y + dy);
            let ghost prev = dst@;
            proof {
                lemma_byte_index(cw, ch, x + dx, y + dy, 0);
                lemma_byte_index(cw, ch, x + dx, y + dy, 3);
            }
            let idx = ((y + dy) as usize * width as usize + (x + dx) as usize) * 4;
            dst[idx] = src[idx];
            dst[idx + 1] = src[idx + 1];
            dst[idx + 2] = src[idx + 2];
            dst[idx + 3] = src[idx + 3];
            proof {
                lemma_overlay_pixel(first, src@, cw, ch, done, x + dx, y + dy, dst@);
                assert(done.insert((x + dx, y + dy)) =~= rect_scanned(r, x + dx + 1, y + dy));
            }
            dx = dx + 1;
        }
        proof {
            assert(rect_scanned(r, x + dx, y + dy) =~= rect_scanned(r, x as int, y + dy + 1));
        }
        dy = dy + 1;
    }
    proof {
        assert(rect_scanned(r, x as int, y + dy) =~= r.region());
    }
}

impl Canvas {
    /// Copies every pixel of the dirty region from the scratch buffer into
    /// the active layer of the current frame, overwriting what was there,
    /// and clears the dirty region.  Does nothing if nothing is dirty.
    pub fn commit_drawing(&mut self)
        requires
            old(self).wf(),
        ensures
            final(self).wf(),
            final(self)@ == old(self)@.commit(),
            final(self)@.dirty is None,
    {
        if let Some(rect) = self.dirty_rect {
            let cur = self.current_frame;
            let frame = &mut self.frames[cur];
            let active = frame.active_layer;
            let layer = &mut frame.layers[active];
            copy_rect(&mut layer.data, &self.drawing_buffer, self.width, self.height, rect);
            self.dirty_rect = None;
            proof {
                let before = old(self)@;
                let after = self@;
                let expect = before.commit();
                lemma_overlay_alpha(
                    before.active_data(),
                    before.scratch,
                    before.width,
                    rect_of(rect).region(),
                );
                assert(after.frames[cur as int].layers =~= expect.frames[cur as int].layers);
                assert(after.frames =~= expect.frames);
            }
        }
    }
}

} // verus!
