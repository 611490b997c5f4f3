//! Layers: a renderer and child layers placed at an offset within the
//! enclosing context, forming the scene-graph tree.

use core::marker::PhantomData;
use vstd::prelude::*;

use crate::buffer::{Buff, same_size};
use crate::graphics::{Graphics, Renderable};
use crate::rect::Rect;

verus! {

/// The context a layer at `bounds` hands to its children and renderer inside
/// a context at `gfx`: shifted by the layer's offset, with the smaller of the
/// two widths and of the two heights. `None` when the shifted offset leaves
/// the addressable range.
pub open spec fn nested_bounds(gfx: Rect, bounds: Rect) -> Option<Rect> {
    if gfx.x + bounds.x <= usize::MAX && gfx.y + bounds.y <= usize::MAX {
        Some(
            Rect {
                x: (gfx.x + bounds.x) as usize,
                y: (gfx.y + bounds.y) as usize,
                w: if gfx.w > bounds.w {
                    bounds.w
                } else {
                    gfx.w
                },
                h: if gfx.h > bounds.h {
                    bounds.h
                } else {
                    gfx.h
                },
            },
        )
    } else {
        None
    }
}

/// Computes `nested_bounds(gfx, bounds)`.
pub fn child_bounds(gfx: Rect, bounds: Rect) -> (r: Option<Rect>)
    ensures
        r == nested_bounds(gfx, bounds),
{
    let x = match gfx.x.checked_add(bounds.x) {
        Some(v) => v,
        None => return None,
    };
    let y = match gfx.y.checked_add(bounds.y) {
        Some(v) => v,
        None => return None,
    };
    let w = if gfx.w > bounds.w {
        bounds.w
    } else {
        gfx.w
    };
    let h = if gfx.h > bounds.h {
        bounds.h
    } else {
        gfx.h
    };
    Some(Rect { x, y, w, h })
}

/// A layer: an optional renderer drawn at an offset, limited to `bounds`.
pub struct Layer<Pixel, R> {
    bounds: Rect,
    visible: bool,
    renderer: Option<R>,
    children: Vec<Layer<Pixel, R>>,
    format: PhantomData<Pixel>,
}

impl<Pixel, R> Layer<Pixel, R> {
    /// The layer's bounds.
    pub closed spec fn spec_bounds(&self) -> Rect {
        self.bounds
    }

    /// Whether the layer is drawn.
    pub closed spec fn is_visible(&self) -> bool {
        self.visible
    }

    /// The layer's own renderer.
    pub closed spec fn renderer(&self) -> Option<R> {
        self.renderer
    }

    /// How many child layers the layer holds.
    pub closed spec fn child_count(&self) -> nat {
        self.children@.len()
    }

    /// A visible layer with the given bounds and renderer, and no children.
    pub fn new(bounds: Rect, renderer: Option<R>) -> (l: Self)
        ensures
            l.spec_bounds() == bounds,
            l.is_visible(),
            l.renderer() == renderer,
            l.child_count() == 0,
    {
        Layer { bounds, visible: true, renderer, children: Vec::new(), format: PhantomData }
    }

    /// The layer's bounds.
    pub fn bounds(&self) -> (r: Rect)
        ensures
            r == self.spec_bounds(),
    {
        self.bounds
    }

    /// Adds `child` on top of the layer's existing children; children are
    /// placed relative to the layer and drawn before its own renderer.
    pub fn add_child(&mut self, child: Layer<Pixel, R>)
        ensures
            final(self).is_visible() == old(self).is_visible(),
            final(self).spec_bounds() == old(self).spec_bounds(),
            final(self).renderer() == old(self).renderer(),
            final(self).child_count() == old(self).child_count() + 1,
    {
        self.children.push(child);
    }

    /// Shows or hides the layer.
    pub fn set_visible(&mut self, visible: bool)
        ensures
            final(self).is_visible() == visible,
            final(self).spec_bounds() == old(self).spec_bounds(),
            final(self).renderer() == old(self).renderer(),
            final(self).child_count() == old(self).child_count(),
    {
        self.visible = visible;
    }
}

impl<Pixel, R: Renderable<Pixel>> Layer<Pixel, R> {
    /// Renders the children, first to last, then the layer's own renderer,
    /// with the context narrowed to the layer; the context is restored after.
    fn render_tree<B: Buff<Pixel>>(&mut self, graphics: &mut Graphics<Pixel>, buffer: &mut B)
        requires
            old(buffer).inv(),
        ensures
            final(buffer).inv(),
            same_size(*old(buffer), *final(buffer)),
            final(graphics)@ == old(graphics)@,
            !old(self).visible ==> *final(buffer) == *old(buffer) && *final(self) == *old(self),
            old(self).visible && nested_bounds(old(graphics)@, old(self).bounds) is None
                ==> *final(buffer) == *old(buffer) && *final(self) == *old(self),
            final(self).bounds == old(self).bounds,
            final(self).visible == old(self).visible,
            final(self).children@.len() == old(self).children@.len(),
        decreases *old(self),
    {
        if !self.visible {
            return ;
        }
        let gfx_bounds = graphics.get_bounds();
        let new_bounds = match child_bounds(gfx_bounds, self.bounds) {
            Some(b) => b,
            None => return ,
        };
        graphics.set_bounds(&new_bounds);
        let n = self.children.len();
        let mut i: usize = 0;
        while i < n
            invariant
                buffer.inv(),
                same_size(*old(buffer), *buffer),
                graphics@ == new_bounds,
                self.bounds == old(self).bounds,
                self.visible == old(self).visible,
                self.children@.len() == n,
                n == old(self).children@.len(),
                i <= n,
                forall|j: int| i <= j < n ==> self.children@[j] == old(self).children@[j],
            decreases n - i,
        {
            let mut child = self.children.remove(i);
            assert(decreases_to!(*old(self) => child));
            child.render_tree(graphics, buffer);
            self.children.insert(i, child);
            i = i + 1;
        }
        match &mut self.renderer {
            Some(r) => r.render(graphics, buffer),
            None => {},
        }
        graphics.set_bounds(&gfx_bounds);
    }
}

impl<Pixel, R: Renderable<Pixel>> Renderable<Pixel> for Layer<Pixel, R> {
    /// Renders the layer's children and then its renderer with the context
    /// narrowed to the layer, then restores the context. A hidden layer, or
    /// one whose offset leaves the addressable range, draws nothing.
    fn render<B: Buff<Pixel>>(&mut self, graphics: &mut Graphics<Pixel>, buffer: &mut B)
        ensures
            !old(self).is_visible() ==> *final(buffer) == *old(buffer) && *final(self) == *old(self),
            old(self).is_visible() && nested_bounds(old(graphics)@, old(self).spec_bounds()) is None
                ==> *final(buffer) == *old(buffer) && *final(self) == *old(self),
            final(self).spec_bounds() == old(self).spec_bounds(),
            final(self).is_visible() == old(self).is_visible(),
            final(self).child_count() == old(self).child_count(),
    {
        self.render_tree(graphics, buffer)
    }
}

} // verus!
