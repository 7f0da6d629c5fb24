//! Pixel core of a layered, multi-frame raster canvas.
//!
//! A [`Canvas`] owns a sequence of frames, each a stack of RGBA layers, plus
//! a scratch buffer that strokes are rasterised into before they are
//! committed to the active layer of the current frame.  Every operation is
//! specified over the mathematical view of the canvas ([`model`]) and proved
//! against it; [`laws`] states what follows for sequences of operations.
//!
//! * [`raster`], [`color`] and [`dirty`] describe buffers, colours and the
//!   dirty rectangle.
//! * [`line`] and [`brush`] describe the path and the footprint of a stroke.
//! * [`canvas`], [`layers`], [`stroke`], [`commit`] and [`composite`] hold
//!   the operations.
//!
//! Layers only ever hold opaque and fully transparent pixels, so the
//! composite of a frame at full strength is exact integer work and lives
//! here.  Blending onion skins at a fraction of their strength is
//! floating-point work and is left to the host: it asks
//! [`Canvas::onion_skin_passes`] what to blend, blends each pass onto
//! [`Canvas::blank_composite`], and hands the result to
//! [`Canvas::get_composite_data`] as the underlay of the current frame.

pub mod brush;
pub mod canvas;
pub mod color;
pub mod commit;
pub mod composite;
pub mod dirty;
pub mod laws;
pub mod layers;
pub mod line;
pub mod model;
pub mod raster;
pub mod stroke;

pub use canvas::Canvas;
pub use color::Rgba;
pub use composite::OnionPass;
