//! Paint colours: four 8-bit channels in R, G, B, A order.

use vstd::prelude::*;

verus! {

/// One pixel's worth of channels.
#[derive(Clone, Copy, Debug, PartialEq, Eq, Structural)]
pub struct Rgba {
    pub r: u8,
    pub g: u8,
    pub b: u8,
    pub a: u8,
}

impl Rgba {
    /// The channel stored at byte `c` of a pixel (0 = red .. 3 = alpha).
    pub open spec fn channel(self, c: int) -> u8 {
        if c == 0 {
            self.r
        } else if c == 1 {
            self.g
        } else if c == 2 {
            self.b
        } else {
            self.a
        }
    }

    /// The colour a stroke paints with: fully transparent black for the
    /// eraser, otherwise the three bytes of `color` (0xRRGGBB) at full alpha.
    /// Bits of `color` above the low 24 are ignored.
    pub open spec fn paint(color: u32, is_eraser: bool) -> Rgba {
        if is_eraser {
            Rgba { r: 0, g: 0, b: 0, a: 0 }
        } else {
            Rgba {
                r: ((color as int / 0x1_0000) % 0x100) as u8,
                g: ((color as int / 0x100) % 0x100) as u8,
                b: (color as int % 0x100) as u8,
                a: 255,
            }
        }
    }

    /// A paint colour is either opaque or fully transparent.
    pub open spec fn alpha_is_binary(self) -> bool {
        self.a == 0 || self.a == 255
    }

    /// Resolves the colour of a stroke from its packed 24-bit value and the
    /// eraser flag.
    pub fn for_stroke(color: u32, is_eraser: bool) -> (c: Rgba)
        ensures
            c == Rgba::paint(color, is_eraser),
            c.alpha_is_binary(),
    {
        if is_eraser {
            Rgba { r: 0, g: 0, b: 0, a: 0 }
        } else {
            let r: u32 = (color >> 16) & 255;
            let g: u32 = (color >> 8) & 255;
            let b: u32 = color & 255;
            assert(((color >> 16) & 255) == (color / 0x1_0000) % 0x100) by (bit_vector);
            assert(((color >> 8) & 255) == (color / 0x100) % 0x100) by (bit_vector);
            assert((color & 255) == color % 0x100) by (bit_vector);
            Rgba { r: r as u8, g: g as u8, b: b as u8, a: 255 }
        }
    }
}

} // verus!
