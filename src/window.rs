//! Windows: the top-level unit the gui stacks, holding a base layer and
//! optional load, unload and event handlers.

use vstd::prelude::*;

use crate::buffer::{Buff, same_size};
use crate::events::Event;
use crate::graphics::{Graphics, Renderable};
use crate::layer::Layer;
use crate::rect::Rect;

verus! {

/// Called when a window is loaded.
pub trait OnLoad {
    fn on_load(&mut self);
}

/// Called when a window is unloaded.
pub trait OnUnload {
    fn on_unload(&mut self);
}

/// Called to receive an event.
pub trait OnEvent {
    fn on_event(&mut self, e: &Event);
}

/// A window: a base layer covering the window, and optional handlers.
pub struct Window<Pixel, R, H> {
    base: Layer<Pixel, R>,
    on_load: Option<H>,
    on_unload: Option<H>,
    on_event: Option<H>,
}

impl<Pixel, R, H> Window<Pixel, R, H> {
    /// Bounds of the window's base layer.
    pub closed spec fn spec_bounds(&self) -> Rect {
        self.base.spec_bounds()
    }

    /// The window's base layer.
    pub closed spec fn base_layer(&self) -> Layer<Pixel, R> {
        self.base
    }

    /// The bound load, unload and event handlers.
    pub closed spec fn handlers(&self) -> (Option<H>, Option<H>, Option<H>) {
        (self.on_load, self.on_unload, self.on_event)
    }

    /// Which of the load, unload and event handlers are bound.
    pub closed spec fn bound_handlers(&self) -> (bool, bool, bool) {
        (self.on_load is Some, self.on_unload is Some, self.on_event is Some)
    }

    /// A `w` by `h` window drawn by `renderer`, with no handlers.
    pub fn new(w: usize, h: usize, renderer: Option<R>) -> (win: Self)
        ensures
            win.spec_bounds() == (Rect { x: 0, y: 0, w, h }),
            win.base_layer().is_visible(),
            win.base_layer().renderer() == renderer,
            win.base_layer().child_count() == 0,
            win.handlers() == (None::<H>, None::<H>, None::<H>),
            win.bound_handlers() == (false, false, false),
    {
        let bounds = Rect::new(0, 0, w, h);
        let base = Layer::new(bounds, renderer);
        Window { base, on_load: None, on_unload: None, on_event: None }
    }

    /// Binds the optional load, unload and event handlers.
    pub fn bind_handlers(&mut self, on_load: Option<H>, on_unload: Option<H>, on_event: Option<H>)
        ensures
            final(self).spec_bounds() == old(self).spec_bounds(),
            final(self).base_layer() == old(self).base_layer(),
            final(self).handlers() == (on_load, on_unload, on_event),
            final(self).bound_handlers() == (on_load is Some, on_unload is Some, on_event is Some),
    {
        self.on_load = on_load;
        self.on_unload = on_unload;
        self.on_event = on_event;
    }
}

impl<Pixel, R: Renderable<Pixel>, H> Window<Pixel, R, H> {
    /// Renders the window's base layer.
    pub fn render<B: Buff<Pixel>>(&mut self, graphics: &mut Graphics<Pixel>, buffer: &mut B)
        requires
            old(buffer).inv(),
        ensures
            final(buffer).inv(),
            same_size(*old(buffer), *final(buffer)),
            final(graphics)@ == old(graphics)@,
            final(self).spec_bounds() == old(self).spec_bounds(),
            final(self).bound_handlers() == old(self).bound_handlers(),
            final(self).handlers() == old(self).handlers(),
            !old(self).base_layer().is_visible() ==> *final(buffer) == *old(buffer) && *final(self)
                == *old(self),
    {
        self.base.render(graphics, buffer);
    }
}

impl<Pixel, R, H: OnLoad> OnLoad for Window<Pixel, R, H> {
    fn on_load(&mut self)
        ensures
            final(self).spec_bounds() == old(self).spec_bounds(),
            final(self).bound_handlers() == old(self).bound_handlers(),
            final(self).base_layer() == old(self).base_layer(),
            final(self).handlers().1 == old(self).handlers().1,
            final(self).handlers().2 == old(self).handlers().2,
            old(self).handlers().0 is None ==> *final(self) == *old(self),
    {
        match &mut self.on_load {
            Some(h) => h.on_load(),
            None => {},
        }
    }
}

impl<Pixel, R, H: OnUnload> OnUnload for Window<Pixel, R, H> {
    fn on_unload(&mut self)
        ensures
            final(self).spec_bounds() == old(self).spec_bounds(),
            final(self).bound_handlers() == old(self).bound_handlers(),
            final(self).base_layer() == old(self).base_layer(),
            final(self).handlers().0 == old(self).handlers().0,
            final(self).handlers().2 == old(self).handlers().2,
            old(self).handlers().1 is None ==> *final(self) == *old(self),
    {
        match &mut self.on_unload {
            Some(h) => h.on_unload(),
            None => {},
        }
    }
}

impl<Pixel, R, H: OnEvent> OnEvent for Window<Pixel, R, H> {
    fn on_event(&mut self, e: &Event)
        ensures
            final(self).spec_bounds() == old(self).spec_bounds(),
            final(self).bound_handlers() == old(self).bound_handlers(),
            final(self).base_layer() == old(self).base_layer(),
            final(self).handlers().0 == old(self).handlers().0,
            final(self).handlers().1 == old(self).handlers().1,
            old(self).handlers().2 is None ==> *final(self) == *old(self),
    {
        match &mut self.on_event {
            Some(h) => h.on_event(e),
            None => {},
        }
    }
}

} // verus!
