//! The top-level gui: a stack of windows, the topmost of which is rendered
//! and receives events.

use vstd::prelude::*;

use crate::buffer::{Buff, same_size};
use crate::events::Event;
use crate::graphics::{Graphics, Renderable};
use crate::rect::Rect;
use crate::window::{OnEvent, OnLoad, OnUnload, Window};

verus! {

/// Top-level gui object: a graphics context covering the screen and the
/// window stack.
pub struct Gui<Pixel, R, H> {
    graphics: Graphics<Pixel>,
    windows: Vec<Window<Pixel, R, H>>,
}

impl<Pixel, R, H> Gui<Pixel, R, H> {
    /// Bounds of the screen context.
    pub closed spec fn spec_bounds(&self) -> Rect {
        self.graphics@
    }

    /// The window stack, bottom first.
    pub closed spec fn stack(&self) -> Seq<Window<Pixel, R, H>> {
        self.windows@
    }

    /// A `w` by `h` gui with no windows.
    pub fn new(w: usize, h: usize) -> (g: Self)
        ensures
            g.spec_bounds() == (Rect { x: 0, y: 0, w, h }),
            g.stack().len() == 0,
    {
        let graphics = Graphics::new(0, 0, w, h);
        let windows = Vec::new();
        Gui { graphics, windows }
    }
}

impl<Pixel, R, H: OnLoad> Gui<Pixel, R, H> {
    /// Loads `w` and pushes it on top of the stack, where it is rendered.
    pub fn push_window(&mut self, w: Window<Pixel, R, H>)
        ensures
            final(self).spec_bounds() == old(self).spec_bounds(),
            final(self).stack().len() == old(self).stack().len() + 1,
            final(self).stack().drop_last() == old(self).stack(),
            final(self).stack().last().spec_bounds() == w.spec_bounds(),
            final(self).stack().last().bound_handlers() == w.bound_handlers(),
    {
        let mut w = w;
        w.on_load();
        self.windows.push(w);
        assert(self.windows@.drop_last() =~= old(self).windows@);
    }
}

impl<Pixel, R, H: OnUnload> Gui<Pixel, R, H> {
    /// Pops the top window and unloads it; the one below, if any, is rendered next.
    pub fn pop_window(&mut self) -> (r: Option<Window<Pixel, R, H>>)
        ensures
            final(self).spec_bounds() == old(self).spec_bounds(),
            r is Some <==> old(self).stack().len() > 0,
            old(self).stack().len() > 0 ==> final(self).stack() == old(self).stack().drop_last(),
            old(self).stack().len() == 0 ==> final(self).stack() == old(self).stack(),
            r matches Some(w) ==> w.spec_bounds() == old(self).stack().last().spec_bounds()
                && w.bound_handlers() == old(self).stack().last().bound_handlers(),
    {
        let mut window = self.windows.pop();
        match &mut window {
            Some(w) => w.on_unload(),
            None => {},
        }
        window
    }
}

impl<Pixel, R: Renderable<Pixel>, H> Gui<Pixel, R, H> {
    /// Renders the top window onto `buff`; with no window, nothing is drawn.
    pub fn render<B: Buff<Pixel>>(&mut self, buff: &mut B)
        requires
            old(buff).inv(),
        ensures
            final(buff).inv(),
            same_size(*old(buff), *final(buff)),
            old(self).stack().len() == 0 ==> *final(buff) == *old(buff),
            final(self).spec_bounds() == old(self).spec_bounds(),
            final(self).stack().len() == old(self).stack().len(),
            final(self).stack().len() > 0 ==> final(self).stack().drop_last() == old(self).stack().drop_last() && final(self).stack().last().spec_bounds() == old(self).stack().last().spec_bounds(),
    {
        let len = self.windows.len();
        if len == 0 {
            return ;
        }
        let mut active = self.windows.pop().unwrap();
        active.render(&mut self.graphics, buff);
        self.windows.push(active);
        assert(self.windows@.drop_last() =~= old(self).windows@.drop_last());
    }
}

impl<Pixel, R, H: OnEvent> Gui<Pixel, R, H> {
    /// Passes `e` to the top window; with no window it is dropped.
    pub fn event(&mut self, e: &Event)
        ensures
            final(self).spec_bounds() == old(self).spec_bounds(),
            final(self).stack().len() == old(self).stack().len(),
            final(self).stack().len() > 0 ==> final(self).stack().drop_last() == old(self).stack().drop_last() && final(self).stack().last().spec_bounds() == old(self).stack().last().spec_bounds(),
    {
        let len = self.windows.len();
        if len == 0 {
            return ;
        }
        let mut active = self.windows.pop().unwrap();
        active.on_event(e);
        self.windows.push(active);
        assert(self.windows@.drop_last() =~= old(self).windows@.drop_last());
    }
}

} // verus!
