//! The canvas itself: construction, queries, and the layer and frame
//! collection operations.

use vstd::prelude::*;
use crate::dirty::dirty_of;
use crate::model::CanvasView;
use crate::model::FrameView;
use crate::model::LayerView;
use crate::raster::blank;
use crate::raster::buffer_len;

verus! {

/// One raster surface of a frame.
pub(crate) struct Layer {
    pub(crate) data: Vec<u8>,
    pub(crate) visible: bool,
}

/// An ordered stack of layers, bottom first.
pub(crate) struct Frame {
    pub(crate) layers: Vec<Layer>,
    pub(crate) active_layer: usize,
}

/// A drawing surface of fixed extent with frames, layers, a scratch buffer
/// for strokes in progress and the dirty region of that buffer.
pub struct Canvas {
    pub(crate) width: u32,
    pub(crate) height: u32,
    pub(crate) frames: Vec<Frame>,
    pub(crate) current_frame: usize,
    pub(crate) drawing_buffer: Vec<u8>,
    pub(crate) dirty_rect: Option<(u32, u32, u32, u32)>,
}

impl Layer {
    pub(crate) open spec fn view(&self) -> LayerView {
        LayerView { data: self.data@, visible: self.visible }
    }

    /// A visible, fully transparent layer of `size` bytes.
    pub(crate) fn transparent(size: usize) -> (layer: Layer)
        ensures
            layer@ == LayerView::fresh(size as int),
    {
        let data = vec![0u8; size];
        assert(data@ =~= blank(size as int));
        Layer { data, visible: true }
    }
}

impl Frame {
    pub(crate) open spec fn view(&self) -> FrameView {
        FrameView {
            layers: self.layers@.map_values(|l: Layer| l@),
            active_layer: self.active_layer as int,
        }
    }

    /// A frame holding one transparent layer of `size` bytes.
    pub(crate) fn with_one_layer(size: usize) -> (frame: Frame)
        ensures
            frame@ == FrameView::fresh(size as int),
    {
        let frame = Frame { layers: vec![Layer::transparent(size)], active_layer: 0 };
        assert(frame@.layers =~= seq![LayerView::fresh(size as int)]);
        frame
    }
}

impl Canvas {
    /// The mathematical view of the canvas.
    pub open(crate) spec fn view(&self) -> CanvasView {
        CanvasView {
            width: self.width as int,
            height: self.height as int,
            frames: self.frames@.map_values(|f: Frame| f@),
            current_frame: self.current_frame as int,
            scratch: self.drawing_buffer@,
            dirty: dirty_of(self.dirty_rect),
        }
    }

    /// The invariant that every operation keeps.
    pub open spec fn wf(&self) -> bool {
        self@.wf()
    }

    /// Size in bytes of every buffer of the canvas.
    pub(crate) fn byte_count(&self) -> (size: usize)
        requires
            self.wf(),
        ensures
            size == self@.size(),
    {
        proof {
            lemma_area_bounded(self.width as int, self.height as int);
        }
        let area: u64 = self.width as u64 * self.height as u64;
        (area * 4) as usize
    }

    /// Creates a canvas of `width` by `height` pixels with one frame that
    /// holds one transparent layer.  The buffers must be addressable with
    /// 32 bits.
    pub fn new(width: u32, height: u32) -> (canvas: Canvas)
        requires
            buffer_len(width as int, height as int) <= u32::MAX,
        ensures
            canvas.wf(),
            canvas@ == CanvasView::create(width as int, height as int),
    {
        proof {
            lemma_area_bounded(width as int, height as int);
        }
        let area: u64 = width as u64 * height as u64;
        let size = (area * 4) as usize;
        let drawing_buffer = vec![0u8; size];
        assert(drawing_buffer@ =~= blank(size as int));
        let canvas = Canvas {
            width,
            height,
            frames: vec![Frame::with_one_layer(size)],
            current_frame: 0,
            drawing_buffer,
            dirty_rect: None,
        };
        assert(canvas@.frames =~= seq![FrameView::fresh(size as int)]);
        canvas
    }

    /// Width of the canvas in pixels.
    pub fn width(&self) -> (w: u32)
        ensures
            w == self@.width,
    {
        self.width
    }

    /// Height of the canvas in pixels.
    pub fn height(&self) -> (h: u32)
        ensures
            h == self@.height,
    {
        self.height
    }

    /// Number of frames.
    pub fn frame_count(&self) -> (n: usize)
        ensures
            n == self@.frames.len(),
    {
        self.frames.len()
    }

    /// Index of the frame being edited.
    pub fn get_current_frame(&self) -> (index: usize)
        ensures
            index == self@.current_frame,
    {
        self.current_frame
    }

    /// Number of layers of the frame being edited.
    pub fn layer_count(&self) -> (n: usize)
        requires
            self.wf(),
        ensures
            n == self@.frame().layers.len(),
    {
        self.frames[self.current_frame].layers.len()
    }

    /// Index of the active layer of the frame being edited.
    pub fn get_active_layer(&self) -> (index: usize)
        requires
            self.wf(),
        ensures
            index == self@.frame().active_layer,
    {
        self.frames[self.current_frame].active_layer
    }
}

/// A buffer length that fits 32 bits bounds the pixel count.
pub(crate) proof fn lemma_area_bounded(width: int, height: int)
    requires
        0 <= width,
        0 <= height,
        buffer_len(width, height) <= u32::MAX,
    ensures
        0 <= width * height <= u32::MAX / 4,
        width * height * 4 == buffer_len(width, height),
{
    assert(0 <= width * height) by (nonlinear_arith)
        requires
            0 <= width,
            0 <= height,
    ;
}

} // verus!
