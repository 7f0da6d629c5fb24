//! Addressing of RGBA buffers: row-major, four bytes per pixel.

use vstd::prelude::*;
use vstd::arithmetic::div_mod::lemma_div_pos_is_pos;
use vstd::arithmetic::div_mod::lemma_fundamental_div_mod;
use vstd::arithmetic::div_mod::lemma_fundamental_div_mod_converse;
use vstd::arithmetic::div_mod::lemma_mod_bound;
use crate::color::Rgba;

verus! {

/// Number of bytes in a buffer of `width` by `height` pixels.
pub open spec fn buffer_len(width: int, height: int) -> int {
    width * height * 4
}

/// Whether `(x, y)` names a pixel of a `width` by `height` surface.
pub open spec fn in_canvas(width: int, height: int, x: int, y: int) -> bool {
    0 <= x < width && 0 <= y < height
}

/// Position of channel `c` of pixel `(x, y)` in a buffer `width` pixels wide.
pub open spec fn byte_index(width: int, x: int, y: int, c: int) -> int {
    (y * width + x) * 4 + c
}

/// Column of the pixel that byte `i` belongs to.
pub open spec fn pixel_x(width: int, i: int) -> int {
    (i / 4) % width
}

/// Row of the pixel that byte `i` belongs to.
pub open spec fn pixel_y(width: int, i: int) -> int {
    (i / 4) / width
}

/// Every alpha byte of `buf` is either 0 or 255.
pub open spec fn alpha_is_binary(buf: Seq<u8>) -> bool {
    forall|i: int| 0 <= i < buf.len() && i % 4 == 3 ==> #[trigger] buf[i] == 0 || buf[i] == 255
}

/// The all-zero buffer of `len` bytes: transparent black everywhere.
pub open spec fn blank(len: int) -> Seq<u8> {
    Seq::new(len as nat, |i: int| 0u8)
}

/// A buffer of `len` bytes in which every pixel is `color`.
pub open spec fn solid(len: int, color: Rgba) -> Seq<u8> {
    Seq::new(len as nat, |i: int| color.channel(i % 4))
}

/// `dst` with exactly the pixels of `region` replaced by the pixels that
/// `src` holds at the same place.
pub open spec fn overlay(dst: Seq<u8>, src: Seq<u8>, width: int, region: Set<(int, int)>) -> Seq<
    u8,
> {
    Seq::new(
        dst.len(),
        |i: int|
            if region.contains((pixel_x(width, i), pixel_y(width, i))) {
                src[i]
            } else {
                dst[i]
            },
    )
}

/// `buf` with exactly the pixels of `region` set to `color`.
pub open spec fn painted(buf: Seq<u8>, width: int, region: Set<(int, int)>, color: Rgba) -> Seq<
    u8,
> {
    overlay(buf, solid(buf.len() as int, color), width, region)
}

/// The four bytes of an in-range pixel lie inside the buffer, and map back
/// to the pixel's own coordinates.
pub proof fn lemma_byte_index(width: int, height: int, x: int, y: int, c: int)
    requires
        in_canvas(width, height, x, y),
        0 <= c < 4,
    ensures
        0 <= y * width + x < width * height,
        0 <= byte_index(width, x, y, c) < buffer_len(width, height),
        byte_index(width, x, y, c) / 4 == y * width + x,
        byte_index(width, x, y, c) % 4 == c,
        pixel_x(width, byte_index(width, x, y, c)) == x,
        pixel_y(width, byte_index(width, x, y, c)) == y,
{
    let p = y * width + x;
    assert(0 <= y * width && (y + 1) * width <= height * width) by (nonlinear_arith)
        requires
            0 <= y < height,
            0 < width,
    ;
    assert((y + 1) * width == y * width + width) by (nonlinear_arith);
    assert(height * width == width * height) by (nonlinear_arith);
    assert(width * height * 4 == 4 * (width * height));
    lemma_fundamental_div_mod_converse(p, width, y, x);
}

/// Every byte of a buffer belongs to exactly one in-range pixel.
pub proof fn lemma_pixel_of_byte(width: int, height: int, i: int)
    requires
        0 <= width,
        0 <= height,
        0 <= i < buffer_len(width, height),
    ensures
        in_canvas(width, height, pixel_x(width, i), pixel_y(width, i)),
        i == byte_index(width, pixel_x(width, i), pixel_y(width, i), i % 4),
{
    let p = i / 4;
    assert(width > 0) by (nonlinear_arith)
        requires
            0 <= width,
            0 <= i < width * height * 4,
    ;
    assert(0 <= p < width * height);
    lemma_fundamental_div_mod(p, width);
    lemma_mod_bound(p, width);
    lemma_div_pos_is_pos(p, width);
    let y = p / width;
    let x = p % width;
    assert(width * y == y * width) by (nonlinear_arith);
    assert(y < height) by (nonlinear_arith)
        requires
            y * width + x < width * height,
            0 <= x,
            0 < width,
            0 <= y,
    ;
}

/// Overlaying one region after another from the same source is overlaying
/// their union.
pub proof fn lemma_overlay_union(
    dst: Seq<u8>,
    src: Seq<u8>,
    width: int,
    first: Set<(int, int)>,
    second: Set<(int, int)>,
)
    ensures
        overlay(overlay(dst, src, width, first), src, width, second) == overlay(
            dst,
            src,
            width,
            first.union(second),
        ),
{
    assert(overlay(overlay(dst, src, width, first), src, width, second) =~= overlay(
        dst,
        src,
        width,
        first.union(second),
    ));
}

/// Overlaying the empty region changes nothing.
pub proof fn lemma_overlay_empty(dst: Seq<u8>, src: Seq<u8>, width: int)
    ensures
        overlay(dst, src, width, Set::empty()) == dst,
{
    assert(overlay(dst, src, width, Set::empty()) =~= dst);
}

/// Painting with a colour whose alpha is 0 or 255 keeps every alpha byte
/// at 0 or 255.
pub proof fn lemma_painted_alpha(buf: Seq<u8>, width: int, region: Set<(int, int)>, color: Rgba)
    requires
        alpha_is_binary(buf),
        color.alpha_is_binary(),
    ensures
        alpha_is_binary(painted(buf, width, region, color)),
        painted(buf, width, region, color).len() == buf.len(),
{
}

/// Copying pixels between two buffers whose alpha bytes are 0 or 255 keeps
/// that property.
pub proof fn lemma_overlay_alpha(dst: Seq<u8>, src: Seq<u8>, width: int, region: Set<(int, int)>)
    requires
        alpha_is_binary(dst),
        alpha_is_binary(src),
        src.len() == dst.len(),
    ensures
        alpha_is_binary(overlay(dst, src, width, region)),
        overlay(dst, src, width, region).len() == dst.len(),
{
}

} // verus!
