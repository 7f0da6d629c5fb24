//! Layer and frame collection operations.  Every one of them tolerates an
//! index that is out of range: the canvas is then left exactly as it was.

use vstd::prelude::*;
use crate::canvas::Canvas;
use crate::canvas::Frame;
use crate::canvas::Layer;

verus! {

impl Canvas {
    /// Puts a new transparent, visible layer on top of the current frame
    /// and returns its index.
    pub fn add_layer(&mut self) -> (index: usize)
        requires
            old(self).wf(),
        ensures
            final(self).wf(),
            final(self)@ == old(self)@.add_layer(),
            index == old(self)@.frame().layers.len(),
            index == final(self)@.frame().layers.len() - 1,
    {
        let size = self.byte_count();
        let new_layer = Layer::transparent(size);
        let cur = self.current_frame;
        let frame = &mut self.frames[cur];
        frame.layers.push(new_layer);
        let index = frame.layers.len() - 1;
        proof {
            let after = final(self)@;
            let expect = old(self)@.add_layer();
            assert(after.frames[cur as int].layers =~= expect.frames[cur as int].layers);
            assert(after.frames =~= expect.frames);
        }
        index
    }

    /// Makes layer `index` of the current frame the active one.  Does
    /// nothing if the frame has no such layer.
    pub fn set_active_layer(&mut self, index: usize)
        requires
            old(self).wf(),
        ensures
            final(self).wf(),
            final(self)@ == old(self)@.set_active_layer(index as int),
    {
        let cur = self.current_frame;
        let frame = &mut self.frames[cur];
        if index < frame.layers.len() {
            frame.active_layer = index;
        }
        proof {
            let after = final(self)@;
            let expect = old(self)@.set_active_layer(index as int);
            assert(after.frames =~= expect.frames);
        }
    }

    /// Removes layer `index` from the current frame; the layers above it
    /// move down by one.  Does nothing if it is the frame's only layer or
    /// if there is no such layer.
    pub fn remove_layer(&mut self, index: usize)
        requires
            old(self).wf(),
        ensures
            final(self).wf(),
            final(self)@ == old(self)@.remove_layer(index as int),
            old(self)@.frame().layers.len() == 1 ==> final(self)@ == old(self)@,
    {
        let cur = self.current_frame;
        let frame = &mut self.frames[cur];
        if frame.layers.len() > 1 && index < frame.layers.len() {
            frame.layers.remove(index);
            if frame.active_layer >= frame.layers.len() {
                frame.active_layer = frame.layers.len() - 1;
            }
        }
        proof {
            let after = final(self)@;
            let expect = old(self)@.remove_layer(index as int);
            assert(after.frames[cur as int].layers =~= expect.frames[cur as int].layers);
            assert(after.frames =~= expect.frames);
        }
    }

    /// Flips layer `index` of the current frame between visible and
    /// hidden.  Does nothing if the frame has no such layer.
    pub fn toggle_layer_visibility(&mut self, index: usize)
        requires
            old(self).wf(),
        ensures
            final(self).wf(),
            final(self)@ == old(self)@.toggle_layer_visibility(index as int),
    {
        let cur = self.current_frame;
        let frame = &mut self.frames[cur];
        if index < frame.layers.len() {
            frame.layers[index].visible = !frame.layers[index].visible;
        }
        proof {
            let after = final(self)@;
            let expect = old(self)@.toggle_layer_visibility(index as int);
            assert(after.frames[cur as int].layers =~= expect.frames[cur as int].layers);
            assert(after.frames =~= expect.frames);
        }
    }

    /// Whether layer `index` of the current frame is visible; `false` if
    /// the frame has no such layer.
    pub fn is_layer_visible(&self, index: usize) -> (visible: bool)
        requires
            self.wf(),
        ensures
            visible == self@.is_layer_visible(index as int),
    {
        let frame = &self.frames[self.current_frame];
        if index < frame.layers.len() {
            frame.layers[index].visible
        } else {
            false
        }
    }

    /// Appends a new frame with one transparent layer, makes it the
    /// current frame and returns its index.
    pub fn add_frame(&mut self) -> (index: usize)
        requires
            old(self).wf(),
        ensures
            final(self).wf(),
            final(self)@ == old(self)@.add_frame(),
            index == old(self)@.frames.len(),
            index == final(self)@.current_frame,
    {
        let size = self.byte_count();
        let new_frame = Frame::with_one_layer(size);
        self.frames.push(new_frame);
        self.current_frame = self.frames.len() - 1;
        proof {
            assert(final(self)@.frames =~= old(self)@.add_frame().frames);
        }
        self.current_frame
    }

    /// Makes frame `index` the current one.  Does nothing if there is no
    /// such frame.
    pub fn set_current_frame(&mut self, index: usize)
        requires
            old(self).wf(),
        ensures
            final(self).wf(),
            final(self)@ == old(self)@.set_current_frame(index as int),
    {
        if index < self.frames.len() {
            self.current_frame = index;
        }
    }
}

} // verus!
