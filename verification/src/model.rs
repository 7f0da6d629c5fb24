//! The mathematical view of a canvas, and what each operation does to it.

use vstd::prelude::*;
use crate::color::Rgba;
use crate::composite::flatten;
use crate::dirty::Rect;
use crate::dirty::is_bounding;
use crate::dirty::lemma_bounding_chain;
use crate::dirty::lemma_bounding_nothing;
use crate::raster::alpha_is_binary;
use crate::raster::blank;
use crate::raster::buffer_len;
use crate::raster::lemma_overlay_empty;
use crate::raster::lemma_overlay_union;
use crate::raster::overlay;
use crate::raster::painted;
use crate::raster::solid;

verus! {

/// A layer: its pixels and whether it takes part in compositing.
pub struct LayerView {
    pub data: Seq<u8>,
    pub visible: bool,
}

/// A frame: its layers from bottom to top, and the one that commits go to.
pub struct FrameView {
    pub layers: Seq<LayerView>,
    pub active_layer: int,
}

/// A canvas: its fixed extent, its frames, the frame being edited, the
/// scratch buffer strokes are drawn into, and the part of the scratch
/// buffer drawn on since the last commit.
pub struct CanvasView {
    pub width: int,
    pub height: int,
    pub frames: Seq<FrameView>,
    pub current_frame: int,
    pub scratch: Seq<u8>,
    pub dirty: Option<Rect>,
}

impl LayerView {
    /// A fresh layer: visible, transparent everywhere.
    pub open spec fn fresh(size: int) -> LayerView {
        LayerView { data: blank(size), visible: true }
    }

    /// The layer's buffer has `size` bytes and only opaque or fully
    /// transparent pixels.
    pub open spec fn wf(self, size: int) -> bool {
        &&& self.data.len() == size
        &&& alpha_is_binary(self.data)
    }
}

impl FrameView {
    /// A fresh frame: one fresh layer, active.
    pub open spec fn fresh(size: int) -> FrameView {
        FrameView { layers: seq![LayerView::fresh(size)], active_layer: 0 }
    }

    /// The frame has at least one layer and no more than can be indexed,
    /// its active layer exists, and every layer is well formed.
    pub open spec fn wf(self, size: int) -> bool {
        &&& 1 <= self.layers.len() <= usize::MAX
        &&& 0 <= self.active_layer < self.layers.len()
        &&& forall|l: int| 0 <= l < self.layers.len() ==> (#[trigger] self.layers[l]).wf(size)
    }
}

impl CanvasView {
    /// Number of bytes in each buffer of the canvas.
    pub open spec fn size(self) -> int {
        buffer_len(self.width, self.height)
    }

    /// The invariant of a canvas: buffers of the right size everywhere,
    /// holding only opaque and fully transparent pixels; at least one frame
    /// and one layer per frame; selectors in range; and a dirty region that
    /// lies on the surface.
    pub open spec fn wf(self) -> bool {
        &&& 0 <= self.width <= u32::MAX
        &&& 0 <= self.height <= u32::MAX
        &&& self.size() <= u32::MAX
        &&& 1 <= self.frames.len() <= usize::MAX
        &&& 0 <= self.current_frame < self.frames.len()
        &&& forall|f: int| 0 <= f < self.frames.len() ==> (#[trigger] self.frames[f]).wf(self.size())
        &&& self.scratch.len() == self.size()
        &&& alpha_is_binary(self.scratch)
        &&& self.dirty matches Some(r) ==> r.fits(self.width, self.height)
    }

    /// The frame being edited.
    pub open spec fn frame(self) -> FrameView {
        self.frames[self.current_frame]
    }

    /// The pixels of the active layer of the frame being edited.
    pub open spec fn active_data(self) -> Seq<u8> {
        self.frame().layers[self.frame().active_layer].data
    }

    /// The canvas with the frame being edited replaced by `frame`.
    pub open spec fn with_frame(self, frame: FrameView) -> CanvasView {
        CanvasView { frames: self.frames.update(self.current_frame, frame), ..self }
    }

    /// The canvas with the pixels of the active layer replaced by `data`.
    pub open spec fn with_active_data(self, data: Seq<u8>) -> CanvasView {
        let frame = self.frame();
        let layer = frame.layers[frame.active_layer];
        self.with_frame(
            FrameView {
                layers: frame.layers.update(frame.active_layer, LayerView { data: data, ..layer }),
                ..frame
            },
        )
    }

    /// A new canvas: one frame with one transparent layer, a transparent
    /// scratch buffer, nothing dirty.
    pub open spec fn create(width: int, height: int) -> CanvasView {
        CanvasView {
            width: width,
            height: height,
            frames: seq![FrameView::fresh(buffer_len(width, height))],
            current_frame: 0,
            scratch: blank(buffer_len(width, height)),
            dirty: None,
        }
    }

    /// A fresh layer is put on top of the current frame.
    pub open spec fn add_layer(self) -> CanvasView {
        let frame = self.frame();
        self.with_frame(
            FrameView { layers: frame.layers.push(LayerView::fresh(self.size())), ..frame },
        )
    }

    /// The active layer becomes `index` if the current frame has such a
    /// layer; otherwise nothing changes.
    pub open spec fn set_active_layer(self, index: int) -> CanvasView {
        let frame = self.frame();
        if 0 <= index < frame.layers.len() {
            self.with_frame(FrameView { active_layer: index, ..frame })
        } else {
            self
        }
    }

    /// Layer `index` leaves the current frame, unless it is the only layer
    /// or does not exist.  An active selector left past the end moves to the
    /// new last layer.
    pub open spec fn remove_layer(self, index: int) -> CanvasView {
        let frame = self.frame();
        if frame.layers.len() > 1 && 0 <= index < frame.layers.len() {
            let layers = frame.layers.remove(index);
            let active = if frame.active_layer >= layers.len() {
                layers.len() - 1
            } else {
                frame.active_layer
            };
            self.with_frame(FrameView { layers: layers, active_layer: active })
        } else {
            self
        }
    }

    /// Layer `index` of the current frame flips between visible and
    /// hidden; nothing changes if there is no such layer.
    pub open spec fn toggle_layer_visibility(self, index: int) -> CanvasView {
        let frame = self.frame();
        if 0 <= index < frame.layers.len() {
            let layer = frame.layers[index];
            self.with_frame(
                FrameView {
                    layers: frame.layers.update(
                        index,
                        LayerView { visible: !layer.visible, ..layer },
                    ),
                    ..frame
                },
            )
        } else {
            self
        }
    }

    /// Whether layer `index` of the current frame exists and is visible.
    pub open spec fn is_layer_visible(self, index: int) -> bool {
        0 <= index < self.frame().layers.len() && self.frame().layers[index].visible
    }

    /// A fresh frame is appended and becomes the current one.
    pub open spec fn add_frame(self) -> CanvasView {
        CanvasView {
            frames: self.frames.push(FrameView::fresh(self.size())),
            current_frame: self.frames.len() as int,
            ..self
        }
    }

    /// The current frame becomes `index` if there is such a frame;
    /// otherwise nothing changes.
    pub open spec fn set_current_frame(self, index: int) -> CanvasView {
        if 0 <= index < self.frames.len() {
            CanvasView { current_frame: index, ..self }
        } else {
            self
        }
    }

    /// `after` is this canvas with the pixels of `region` painted in
    /// `color` on the scratch buffer: the scratch buffer changes there and
    /// nowhere else, the dirty region grows to the tight bounding rectangle
    /// of what it was and `region`, and the frames are untouched.
    pub open spec fn stroked(self, after: CanvasView, region: Set<(int, int)>, color: Rgba) -> bool {
        &&& after == CanvasView {
            scratch: painted(self.scratch, self.width, region, color),
            dirty: after.dirty,
            ..self
        }
        &&& is_bounding(after.dirty, self.dirty, region)
    }

    /// The pixels of the dirty region are copied from the scratch buffer
    /// into the active layer of the current frame, and the dirty region is
    /// cleared.  With nothing dirty, nothing changes.
    pub open spec fn commit(self) -> CanvasView {
        match self.dirty {
            None => self,
            Some(r) => CanvasView {
                dirty: None,
                ..self.with_active_data(
                    overlay(self.active_data(), self.scratch, self.width, r.region()),
                )
            },
        }
    }

    /// The current frame at full strength over `underlay`: its visible
    /// layers, bottom to top.
    pub open spec fn composite(self, underlay: Seq<u8>) -> Seq<u8> {
        flatten(underlay, self.frame().layers)
    }
}

/// Two rounds of painting in one colour amount to painting the union of
/// their regions.
pub proof fn lemma_stroked_chain(
    start: CanvasView,
    middle: CanvasView,
    end: CanvasView,
    first: Set<(int, int)>,
    second: Set<(int, int)>,
    color: Rgba,
)
    requires
        start.stroked(middle, first, color),
        middle.stroked(end, second, color),
    ensures
        start.stroked(end, first.union(second), color),
{
    lemma_overlay_union(
        start.scratch,
        solid(start.scratch.len() as int, color),
        start.width,
        first,
        second,
    );
    lemma_bounding_chain(start.dirty, middle.dirty, end.dirty, first, second);
}

/// Painting nothing leaves a canvas as it is.
pub proof fn lemma_stroked_nothing(canvas: CanvasView, color: Rgba)
    requires
        canvas.wf(),
    ensures
        canvas.stroked(canvas, Set::empty(), color),
{
    lemma_overlay_empty(canvas.scratch, solid(canvas.scratch.len() as int, color), canvas.width);
    lemma_bounding_nothing(canvas.dirty);
}

} // verus!
