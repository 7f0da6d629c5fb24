//! Compositing: flattening the visible layers of a frame into one image.
//!
//! A source pixel of alpha `a` (as a fraction of 255) is laid over a
//! destination pixel by
//!
//! ```text
//! out.rgb = (1 - a) * dst.rgb + a * src.rgb
//! out.a   = dst.a + (255 - dst.a) * a
//! ```
//!
//! Layers hold only opaque and fully transparent pixels, so at full
//! strength `a` is 1 or 0 and nothing is rounded: an opaque pixel replaces
//! what is below it, alpha included, and a transparent one leaves it alone.
//! That is what [`over`] says and what this module computes.
//!
//! Reference frames shown as onion skins are blended at a fraction of their
//! strength: three tenths, divided by their distance from the current
//! frame.  That blend is the host's to carry out; this module tells it
//! which layers to blend, in which order and at which distance.

use vstd::prelude::*;
use crate::canvas::Canvas;
use crate::canvas::lemma_area_bounded;
use crate::line::span;
use crate::model::CanvasView;
use crate::model::LayerView;
use crate::raster::alpha_is_binary;
use crate::raster::blank;

verus! {

/// Position of the alpha byte of the pixel that byte `i` belongs to.
pub open spec fn alpha_index(i: int) -> int {
    i - i % 4 + 3
}

/// `src` laid over `dst` at full strength, for a source whose pixels are
/// all opaque or fully transparent: where `src` is opaque the result is the
/// pixel of `src`, elsewhere it is the pixel of `dst`.
pub open spec fn over(dst: Seq<u8>, src: Seq<u8>) -> Seq<u8> {
    Seq::new(
        dst.len(),
        |i: int|
            if src[alpha_index(i)] == 255 {
                src[i]
            } else {
                dst[i]
            },
    )
}

/// The visible layers of `layers`, laid over `dst` one after another in
/// storage order, so that later layers end up on top.
pub open spec fn flatten(dst: Seq<u8>, layers: Seq<LayerView>) -> Seq<u8>
    decreases layers.len(),
{
    if layers.len() == 0 {
        dst
    } else {
        let below = flatten(dst, layers.drop_last());
        if layers.last().visible {
            over(below, layers.last().data)
        } else {
            below
        }
    }
}

/// Index of the topmost visible layer that is opaque at the pixel of byte
/// `i`, or `-1` if there is none.
pub open spec fn topmost_opaque(layers: Seq<LayerView>, i: int) -> int
    decreases layers.len(),
{
    if layers.len() == 0 {
        -1
    } else if layers.last().visible && layers.last().data[alpha_index(i)] == 255 {
        layers.len() - 1
    } else {
        topmost_opaque(layers.drop_last(), i)
    }
}

/// One layer of a reference frame that is to be blended beneath the
/// current frame.
#[derive(Clone, Copy, Debug, PartialEq, Eq, Structural)]
pub struct OnionPass {
    /// Index of the reference frame.
    pub frame: usize,
    /// Index of the layer within that frame.
    pub layer: usize,
    /// How many frames lie between the reference frame and the current
    /// one; at least 1.
    pub distance: usize,
}

impl OnionPass {
    /// Numerator of the strength at which the pass is blended.
    pub open spec fn weight_num(self) -> int {
        3
    }

    /// Denominator of the strength at which the pass is blended: the
    /// strength is three tenths divided by the distance.
    pub open spec fn weight_den(self) -> int {
        10 * self.distance
    }
}

/// The passes for the first `upto` layers of reference frame
/// `frame_index`: one per visible layer, bottom to top, each at the
/// frame's distance from the current frame.
pub open spec fn layer_passes(canvas: CanvasView, frame_index: int, upto: int) -> Seq<OnionPass>
    decreases upto,
{
    if upto <= 0 {
        Seq::empty()
    } else {
        let below = layer_passes(canvas, frame_index, upto - 1);
        if canvas.frames[frame_index].layers[upto - 1].visible {
            below.push(
                OnionPass {
                    frame: frame_index as usize,
                    layer: (upto - 1) as usize,
                    distance: span(frame_index, canvas.current_frame) as usize,
                },
            )
        } else {
            below
        }
    }
}

/// The passes that one requested reference frame gives rise to: one per
/// visible layer, bottom to top.  The current frame and frames that do not
/// exist give rise to none.
pub open spec fn frame_passes(canvas: CanvasView, frame_index: int) -> Seq<OnionPass> {
    if frame_index == canvas.current_frame || !(0 <= frame_index < canvas.frames.len()) {
        Seq::empty()
    } else {
        layer_passes(canvas, frame_index, canvas.frames[frame_index].layers.len() as int)
    }
}

/// The passes for a list of requested reference frames, in the order of
/// the requests.
pub open spec fn onion_passes(canvas: CanvasView, requested: Seq<usize>) -> Seq<OnionPass>
    decreases requested.len(),
{
    if requested.len() == 0 {
        Seq::empty()
    } else {
        onion_passes(canvas, requested.drop_last()) + frame_passes(
            canvas,
            requested.last() as int,
        )
    }
}

/// Lays `src` over `dst` at full strength.
pub(crate) fn lay_over(dst: &mut Vec<u8>, src: &Vec<u8>)
    requires
        src@.len() == old(dst)@.len(),
        src@.len() % 4 == 0,
        alpha_is_binary(src@),
    ensures
        final(dst)@ == over(old(dst)@, src@),
{
    let ghost first = dst@;
    let len = dst.len();
    let mut base: usize = 0;
    while base < len
        invariant
            len == first.len(),
            src@.len() == len,
            dst@.len() == len,
            len % 4 == 0,
            base % 4 == 0,
            base <= len,
            forall|i: int|
                0 <= i < len ==> #[trigger] dst@[i] == if i < base {
                    over(first, src@)[i]
                } else {
                    first[i]
                },
        decreases len - base,
    {
        if src[base + 3] == 255 {
            dst[base] = src[base];
            dst[base + 1] = src[base + 1];
            dst[base + 2] = src[base + 2];
            dst[base + 3] = src[base + 3];
        }
        base = base + 4;
    }
    assert(dst@ =~= over(first, src@));
}

impl Canvas {
    /// A transparent image of the size of the canvas: what a composite
    /// starts from.
    pub fn blank_composite(&self) -> (image: Vec<u8>)
        requires
            self.wf(),
        ensures
            image@ == blank(self@.size()),
            image@.len() == self@.size(),
    {
        let size = self.byte_count();
        let image = vec![0u8; size];
        assert(image@ =~= blank(size as int));
        image
    }

    /// The pixels of layer `layer` of frame `frame`, if there is such a
    /// layer.
    pub fn layer_data(&self, frame: usize, layer: usize) -> (data: Option<&Vec<u8>>)
        requires
            self.wf(),
        ensures
            data matches Some(d) ==> 0 <= frame < self@.frames.len() && 0 <= layer
                < self@.frames[frame as int].layers.len() && d@
                == self@.frames[frame as int].layers[layer as int].data,
            data is None <==> !(0 <= frame < self@.frames.len() && 0 <= layer
                < self@.frames[frame as int].layers.len()),
    {
        if frame < self.frames.len() {
            let f = &self.frames[frame];
            if layer < f.layers.len() {
                return Some(&f.layers[layer].data);
            }
        }
        None
    }

    /// Lays the visible layers of frame `frame_index` over `composite` at
    /// full strength, bottom layer first.  Does nothing if there is no
    /// such frame.
    pub fn composite_frame(&self, composite: &mut Vec<u8>, frame_index: usize)
        requires
            self.wf(),
            old(composite)@.len() == self@.size(),
        ensures
            final(composite)@.len() == self@.size(),
            0 <= frame_index < self@.frames.len() ==> final(composite)@ == flatten(
                old(composite)@,
                self@.frames[frame_index as int].layers,
            ),
            !(0 <= frame_index < self@.frames.len()) ==> final(composite)@ == old(composite)@,
    {
        if frame_index < self.frames.len() {
            let ghost first = composite@;
            let ghost layers = self@.frames[frame_index as int].layers;
            let frame = &self.frames[frame_index];
            let count = frame.layers.len();
            proof {
                lemma_area_bounded(self.width as int, self.height as int);
                assert(layers.take(0) =~= Seq::<LayerView>::empty());
            }
            let mut l: usize = 0;
            while l < count
                invariant
                    self.wf(),
                    0 <= frame_index < self.frames.len(),
                    *frame == self.frames[frame_index as int],
                    layers == self@.frames[frame_index as int].layers,
                    layers == frame@.layers,
                    count == layers.len(),
                    0 <= l <= count,
                    first.len() == self@.size(),
                    self@.size() % 4 == 0,
                    composite@.len() == first.len(),
                    composite@ == flatten(first, layers.take(l as int)),
                decreases count - l,
            {
                let layer = &frame.layers[l];
                proof {
                    assert(layers.take(l + 1).drop_last() =~= layers.take(l as int));
                    assert(layers.take(l + 1).last() == layers[l as int]);
                    assert(layers[l as int] == layer@);
                    assert(self@.frames[frame_index as int].wf(self@.size()));
                    assert(layers[l as int].wf(self@.size()));
                }
                if layer.visible {
                    lay_over(composite, &layer.data);
                }
                l = l + 1;
            }
            proof {
                assert(layers.take(count as int) =~= layers);
            }
        }
    }

    /// The image of the canvas: the visible layers of the current frame,
    /// bottom to top and at full strength, over `underlay`.  The underlay
    /// is what lies beneath the current frame: a blank image, or one on
    /// which the onion-skin passes have been blended.  The output always
    /// has four bytes for every pixel of the canvas.
    pub fn get_composite_data(&self, underlay: Vec<u8>) -> (image: Vec<u8>)
        requires
            self.wf(),
            underlay@.len() == self@.size(),
        ensures
            image@ == self@.composite(underlay@),
            image@.len() == self@.width * self@.height * 4,
    {
        let mut image = underlay;
        self.composite_frame(&mut image, self.current_frame);
        image
    }

    /// Plans the onion-skin passes for the requested reference frames: for
    /// each request in turn that names an existing frame other than the
    /// current one, one pass per visible layer, bottom to top.
    pub fn onion_skin_passes(&self, onion_skin_frames: &Vec<usize>) -> (passes: Vec<OnionPass>)
        requires
            self.wf(),
        ensures
            passes@ == onion_passes(self@, onion_skin_frames@),
    {
        let mut passes: Vec<OnionPass> = Vec::new();
        let requests = onion_skin_frames.len();
        proof {
            assert(onion_skin_frames@.take(0) =~= Seq::<usize>::empty());
        }
        let mut r: usize = 0;
        while r < requests
            invariant
                self.wf(),
                requests == onion_skin_frames@.len(),
                0 <= r <= requests,
                passes@ == onion_passes(self@, onion_skin_frames@.take(r as int)),
            decreases requests - r,
        {
            let frame_index = onion_skin_frames[r];
            let ghost before = passes@;
            proof {
                assert(onion_skin_frames@.take(r + 1).drop_last() =~= onion_skin_frames@.take(
                    r as int,
                ));
                assert(onion_skin_frames@.take(r + 1).last() == frame_index);
            }
            if frame_index != self.current_frame && frame_index < self.frames.len() {
                let distance = if frame_index < self.current_frame {
                    self.current_frame - frame_index
                } else {
                    frame_index - self.current_frame
                };
                let frame = &self.frames[frame_index];
                let count = frame.layers.len();
                let ghost fv = self@.frames[frame_index as int];
                let mut l: usize = 0;
                proof {
                    assert(before + layer_passes(self@, frame_index as int, 0) =~= before);
                }
                while l < count
                    invariant
                        self.wf(),
                        0 <= frame_index < self.frames.len(),
                        frame_index != self.current_frame,
                        *frame == self.frames[frame_index as int],
                        fv == self@.frames[frame_index as int],
                        fv == frame@,
                        count == fv.layers.len(),
                        0 <= l <= count,
                        distance == span(frame_index as int, self@.current_frame),
                        passes@ == before + layer_passes(self@, frame_index as int, l as int),
                    decreases count - l,
                {
                    let ghost sofar = layer_passes(self@, frame_index as int, l as int);
                    proof {
                        assert(fv.layers[l as int] == frame.layers[l as int]@);
                    }
                    if frame.layers[l].visible {
                        let pass = OnionPass { frame: frame_index, layer: l, distance };
                        passes.push(pass);
                        proof {
                            assert(passes@ =~= before + sofar.push(pass));
                        }
                    }
                    l = l + 1;
                }
            } else {
                proof {
                    assert(before + Seq::<OnionPass>::empty() =~= before);
                }
            }
            r = r + 1;
        }
        proof {
            assert(onion_skin_frames@.take(requests as int) =~= onion_skin_frames@);
        }
        passes
    }
}

} // verus!
