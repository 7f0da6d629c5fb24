//! Laws that relate several operations of the canvas, proved over its
//! mathematical view.

use vstd::prelude::*;
use crate::brush::brush_radius;
use crate::brush::in_disk;
use crate::brush::lemma_dot_is_one_stamp;
use crate::brush::stroke_region;
use crate::color::Rgba;
use crate::composite::OnionPass;
use crate::composite::alpha_index;
use crate::composite::flatten;
use crate::composite::layer_passes;
use crate::composite::onion_passes;
use crate::composite::topmost_opaque;
use crate::line::span;
use crate::model::CanvasView;
use crate::model::LayerView;
use crate::raster::blank;
use crate::raster::byte_index;
use crate::raster::in_canvas;
use crate::raster::lemma_byte_index;
use crate::raster::lemma_overlay_alpha;
use crate::raster::painted;

verus! {

/// Painting a region sets every channel of every pixel of the region to
/// the colour and leaves every other pixel of the surface as it was.
pub proof fn lemma_painted_pixel(
    buf: Seq<u8>,
    width: int,
    height: int,
    region: Set<(int, int)>,
    color: Rgba,
    x: int,
    y: int,
    c: int,
)
    requires
        buf.len() == width * height * 4,
        in_canvas(width, height, x, y),
        0 <= c < 4,
    ensures
        painted(buf, width, region, color)[byte_index(width, x, y, c)] == if region.contains(
            (x, y),
        ) {
            color.channel(c)
        } else {
            buf[byte_index(width, x, y, c)]
        },
{
    lemma_byte_index(width, height, x, y, c);
}

/// A stroke whose two endpoints coincide paints exactly the disk of the
/// brush around that point, as far as it lies on the surface: a brush of
/// diameter `size` colours every pixel within `size / 2` of the point, and
/// every other pixel of the scratch buffer, inside the bounding box of the
/// disk or not, keeps its value.
pub proof fn lemma_dot_paints_disk(
    before: CanvasView,
    after: CanvasView,
    x: int,
    y: int,
    size: u32,
    color: Rgba,
    px: int,
    py: int,
    c: int,
)
    requires
        before.wf(),
        before.stroked(
            after,
            stroke_region(before.width, before.height, x, y, x, y, brush_radius(size)),
            color,
        ),
        in_canvas(before.width, before.height, px, py),
        0 <= c < 4,
    ensures
        after.scratch[byte_index(before.width, px, py, c)] == if in_disk(
            x,
            y,
            size as int / 2,
            px,
            py,
        ) {
            color.channel(c)
        } else {
            before.scratch[byte_index(before.width, px, py, c)]
        },
{
    lemma_dot_is_one_stamp(before.width, before.height, x, y, brush_radius(size));
    lemma_painted_pixel(
        before.scratch,
        before.width,
        before.height,
        stroke_region(before.width, before.height, x, y, x, y, brush_radius(size)),
        color,
        px,
        py,
        c,
    );
}

/// A stroke never shrinks the dirty region: what was dirty before is
/// dirty afterwards, and so is every pixel that the stroke painted.
pub proof fn lemma_dirty_grows(
    before: CanvasView,
    after: CanvasView,
    region: Set<(int, int)>,
    color: Rgba,
)
    requires
        before.stroked(after, region, color),
    ensures
        before.dirty matches Some(b) ==> (after.dirty matches Some(r) && r.encloses(b)),
        forall|p: (int, int)|
            region.contains(p) ==> (after.dirty matches Some(r) && r.contains(p.0, p.1)),
{
}

/// A stroke that has not been committed does not show: the composite is
/// the same before and after it.
pub proof fn lemma_stroke_is_not_composited(
    before: CanvasView,
    after: CanvasView,
    region: Set<(int, int)>,
    color: Rgba,
    underlay: Seq<u8>,
)
    requires
        before.stroked(after, region, color),
    ensures
        after.frames == before.frames,
        after.composite(underlay) == before.composite(underlay),
{
}

/// Committing keeps a canvas well formed.
pub proof fn lemma_commit_wf(canvas: CanvasView)
    requires
        canvas.wf(),
    ensures
        canvas.commit().wf(),
        canvas.commit().dirty is None,
{
    match canvas.dirty {
        None => {},
        Some(r) => {
            let frame = canvas.frame();
            assert(frame.wf(canvas.size()));
            assert(frame.layers[frame.active_layer].wf(canvas.size()));
            lemma_overlay_alpha(canvas.active_data(), canvas.scratch, canvas.width, r.region());
            let after = canvas.commit();
            assert forall|f: int| 0 <= f < after.frames.len() implies (#[trigger] after.frames[f]).wf(
                after.size(),
            ) by {
                assert(canvas.frames[f].wf(canvas.size()));
                if f == canvas.current_frame {
                    assert forall|l: int| 0 <= l < after.frames[f].layers.len() implies (
                    #[trigger] after.frames[f].layers[l]).wf(after.size()) by {
                        assert(frame.layers[l].wf(canvas.size()));
                    }
                }
            }
        },
    }
}

/// A second commit with no stroke in between changes nothing.
pub proof fn lemma_commit_idempotent(canvas: CanvasView)
    requires
        canvas.wf(),
    ensures
        canvas.commit().commit() == canvas.commit(),
{
}

/// After a stroke and a commit, every pixel of the stroke's region holds
/// the stroke's colour in the active layer of the current frame.
pub proof fn lemma_stroke_then_commit(
    before: CanvasView,
    after: CanvasView,
    region: Set<(int, int)>,
    color: Rgba,
    px: int,
    py: int,
    c: int,
)
    requires
        before.wf(),
        before.stroked(after, region, color),
        region.contains((px, py)),
        in_canvas(before.width, before.height, px, py),
        0 <= c < 4,
    ensures
        after.commit().active_data()[byte_index(before.width, px, py, c)] == color.channel(c),
{
    lemma_byte_index(before.width, before.height, px, py, c);
    let r = after.dirty->Some_0;
    assert(r.contains(px, py));
    assert(r.region().contains((px, py)));
    let frame = before.frame();
    assert(frame.wf(before.size()));
    assert(frame.layers[frame.active_layer].wf(before.size()));
}

/// After an eraser stroke and a commit, every pixel of the stroke's
/// footprint is fully transparent in the active layer of the current
/// frame: its alpha, like its other channels, is 0.
pub proof fn lemma_eraser_clears(
    before: CanvasView,
    after: CanvasView,
    x0: int,
    y0: int,
    x1: int,
    y1: int,
    size: u32,
    color: u32,
    px: int,
    py: int,
)
    requires
        before.wf(),
        before.stroked(
            after,
            stroke_region(before.width, before.height, x0, y0, x1, y1, brush_radius(size)),
            Rgba::paint(color, true),
        ),
        stroke_region(before.width, before.height, x0, y0, x1, y1, brush_radius(size)).contains(
            (px, py),
        ),
    ensures
        after.commit().active_data()[byte_index(before.width, px, py, 3)] == 0,
        forall|c: int|
            0 <= c < 4 ==> after.commit().active_data()[#[trigger] byte_index(
                before.width,
                px,
                py,
                c,
            )] == 0,
{
    let region = stroke_region(before.width, before.height, x0, y0, x1, y1, brush_radius(size));
    let paint = Rgba::paint(color, true);
    assert forall|c: int| 0 <= c < 4 implies after.commit().active_data()[#[trigger] byte_index(
        before.width,
        px,
        py,
        c,
    )] == 0 by {
        lemma_stroke_then_commit(before, after, region, paint, px, py, c);
    }
}

/// Removing a layer from a frame that has only one leaves the canvas as it
/// is, whatever the index.
pub proof fn lemma_last_layer_stays(canvas: CanvasView, index: int)
    requires
        canvas.wf(),
        canvas.frame().layers.len() == 1,
    ensures
        canvas.remove_layer(index) == canvas,
        canvas.remove_layer(index).frame().layers.len() == 1,
{
}

/// A composite has the size of what it is laid over.
pub proof fn lemma_flatten_len(dst: Seq<u8>, layers: Seq<LayerView>)
    ensures
        flatten(dst, layers).len() == dst.len(),
    decreases layers.len(),
{
    if layers.len() > 0 {
        lemma_flatten_len(dst, layers.drop_last());
    }
}

/// Hidden layers do not show: if no layer is visible, the composite is the
/// underlay.
pub proof fn lemma_flatten_hidden(dst: Seq<u8>, layers: Seq<LayerView>)
    requires
        forall|l: int| 0 <= l < layers.len() ==> !(#[trigger] layers[l]).visible,
    ensures
        flatten(dst, layers) == dst,
    decreases layers.len(),
{
    if layers.len() > 0 {
        let below = layers.drop_last();
        assert forall|l: int| 0 <= l < below.len() implies !(#[trigger] below[l]).visible by {
            assert(below[l] == layers[l]);
        }
        lemma_flatten_hidden(dst, below);
    }
}

/// A frame whose layers are all hidden composites, over a blank underlay,
/// to the fully transparent image.
pub proof fn lemma_composite_all_hidden(canvas: CanvasView)
    requires
        canvas.wf(),
        forall|l: int|
            0 <= l < canvas.frame().layers.len() ==> !(#[trigger] canvas.frame().layers[l]).visible,
    ensures
        canvas.composite(blank(canvas.size())) == blank(canvas.size()),
        forall|i: int| 0 <= i < canvas.size() ==> canvas.composite(blank(canvas.size()))[i] == 0,
{
    lemma_flatten_hidden(blank(canvas.size()), canvas.frame().layers);
}

/// The layer that `topmost_opaque` names is visible and opaque at the
/// pixel, and every layer above it is hidden or transparent there.
pub proof fn lemma_topmost_opaque(layers: Seq<LayerView>, i: int)
    ensures
        -1 <= topmost_opaque(layers, i) < layers.len(),
        topmost_opaque(layers, i) >= 0 ==> layers[topmost_opaque(layers, i)].visible
            && layers[topmost_opaque(layers, i)].data[alpha_index(i)] == 255,
        forall|l: int|
            topmost_opaque(layers, i) < l < layers.len() ==> !((#[trigger] layers[l]).visible
                && layers[l].data[alpha_index(i)] == 255),
    decreases layers.len(),
{
    if layers.len() > 0 {
        if !(layers.last().visible && layers.last().data[alpha_index(i)] == 255) {
            let below = layers.drop_last();
            lemma_topmost_opaque(below, i);
            assert forall|l: int| topmost_opaque(layers, i) < l < layers.len() implies !((
            #[trigger] layers[l]).visible && layers[l].data[alpha_index(i)] == 255) by {
                if l < below.len() {
                    assert(below[l] == layers[l]);
                }
            }
            if topmost_opaque(layers, i) >= 0 {
                assert(below[topmost_opaque(below, i)] == layers[topmost_opaque(layers, i)]);
            }
        }
    }
}

/// Every byte of a composite comes from the topmost visible layer that is
/// opaque at its pixel, or from the underlay if there is no such layer.
pub proof fn lemma_flatten_topmost(dst: Seq<u8>, layers: Seq<LayerView>, i: int)
    requires
        0 <= i < dst.len(),
    ensures
        flatten(dst, layers)[i] == if topmost_opaque(layers, i) >= 0 {
            layers[topmost_opaque(layers, i)].data[i]
        } else {
            dst[i]
        },
    decreases layers.len(),
{
    if layers.len() > 0 {
        let below = layers.drop_last();
        lemma_flatten_topmost(dst, below, i);
        lemma_flatten_len(dst, below);
        lemma_topmost_opaque(below, i);
        if topmost_opaque(below, i) >= 0 {
            assert(below[topmost_opaque(below, i)] == layers[topmost_opaque(below, i)]);
        }
    }
}

/// Where the current frame has a visible opaque pixel, the composite shows
/// it whatever lies beneath: the underlay, and with it every onion skin,
/// has no say there.
pub proof fn lemma_current_frame_dominates(
    canvas: CanvasView,
    first: Seq<u8>,
    second: Seq<u8>,
    i: int,
)
    requires
        0 <= i < first.len(),
        first.len() == second.len(),
        topmost_opaque(canvas.frame().layers, i) >= 0,
    ensures
        canvas.composite(first)[i] == canvas.composite(second)[i],
        canvas.composite(first)[i] == canvas.frame().layers[topmost_opaque(
            canvas.frame().layers,
            i,
        )].data[i],
{
    lemma_flatten_topmost(first, canvas.frame().layers, i);
    lemma_flatten_topmost(second, canvas.frame().layers, i);
}

/// An onion-skin pass is never blended at more than three tenths of its
/// strength.
pub proof fn lemma_onion_weight_bounded(pass: OnionPass)
    requires
        pass.distance >= 1,
    ensures
        pass.weight_den() > 0,
        pass.weight_num() * 10 <= 3 * pass.weight_den(),
{
}

/// The further a reference frame is from the current one, the weaker its
/// passes are blended.
pub proof fn lemma_onion_weight_monotone(near: OnionPass, far: OnionPass)
    requires
        1 <= near.distance <= far.distance,
    ensures
        far.weight_num() * near.weight_den() <= near.weight_num() * far.weight_den(),
        near.distance < far.distance ==> far.weight_num() * near.weight_den() < near.weight_num()
            * far.weight_den(),
{
}

/// What the passes of one reference frame look like: each names that
/// frame, a visible layer of it, and the frame's distance from the current
/// one; layers come in ascending order.
pub proof fn lemma_layer_passes(canvas: CanvasView, frame_index: int, upto: int, i: int)
    requires
        canvas.wf(),
        0 <= frame_index < canvas.frames.len(),
        frame_index != canvas.current_frame,
        0 <= upto <= canvas.frames[frame_index].layers.len(),
        0 <= i < layer_passes(canvas, frame_index, upto).len(),
    ensures
        layer_passes(canvas, frame_index, upto).len() <= upto,
        layer_passes(canvas, frame_index, upto)[i].frame == frame_index,
        layer_passes(canvas, frame_index, upto)[i].layer < upto,
        canvas.frames[frame_index].layers[layer_passes(canvas, frame_index, upto)[i].layer as int].visible,
        layer_passes(canvas, frame_index, upto)[i].distance == span(
            frame_index,
            canvas.current_frame,
        ),
        layer_passes(canvas, frame_index, upto)[i].distance >= 1,
        i > 0 ==> layer_passes(canvas, frame_index, upto)[i - 1].layer < layer_passes(
            canvas,
            frame_index,
            upto,
        )[i].layer,
    decreases upto,
{
    if upto > 0 {
        let below = layer_passes(canvas, frame_index, upto - 1);
        if i < below.len() {
            lemma_layer_passes(canvas, frame_index, upto - 1, i);
        } else if i > 0 {
            lemma_layer_passes(canvas, frame_index, upto - 1, i - 1);
        }
        if below.len() > 0 {
            lemma_layer_passes(canvas, frame_index, upto - 1, 0);
        }
    }
}

/// Whatever reference frames are requested, no onion-skin pass names the
/// current frame: every pass names another existing frame, one of its
/// visible layers, and a distance of at least one frame.  The current
/// frame is composited by itself, at full strength.
pub proof fn lemma_onion_passes_skip_current(canvas: CanvasView, requested: Seq<usize>, i: int)
    requires
        canvas.wf(),
        0 <= i < onion_passes(canvas, requested).len(),
    ensures
        onion_passes(canvas, requested)[i].frame != canvas.current_frame,
        onion_passes(canvas, requested)[i].frame < canvas.frames.len(),
        onion_passes(canvas, requested)[i].layer < canvas.frames[onion_passes(
            canvas,
            requested,
        )[i].frame as int].layers.len(),
        canvas.frames[onion_passes(canvas, requested)[i].frame as int].layers[onion_passes(
            canvas,
            requested,
        )[i].layer as int].visible,
        onion_passes(canvas, requested)[i].distance == span(
            onion_passes(canvas, requested)[i].frame as int,
            canvas.current_frame,
        ),
        onion_passes(canvas, requested)[i].distance >= 1,
    decreases requested.len(),
{
    if requested.len() > 0 {
        let earlier = onion_passes(canvas, requested.drop_last());
        if i < earlier.len() {
            lemma_onion_passes_skip_current(canvas, requested.drop_last(), i);
        } else {
            let f = requested.last() as int;
            lemma_layer_passes(
                canvas,
                f,
                canvas.frames[f].layers.len() as int,
                i - earlier.len(),
            );
        }
    }
}

} // verus!
