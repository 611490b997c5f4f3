//! A demonstration widget that exercises every drawing primitive.

use vstd::prelude::*;

use crate::buffer::Buff;
use crate::graphics::{Graphics, Renderable};
use crate::pixel::{BW, RGB};
use crate::point::Point;
use crate::rect::Rect;

verus! {

/// Draws lines, a polyline, three circles and some rectangles scaled to the
/// context's bounds.
pub struct DemoWidget {}

impl DemoWidget {
    pub fn new() -> DemoWidget {
        DemoWidget {  }
    }
}

impl<Pixel: BW + RGB> Renderable<Pixel> for DemoWidget {
    fn render<B: Buff<Pixel>>(&mut self, graphics: &mut Graphics<Pixel>, buffer: &mut B) {
        let bounds = graphics.get_bounds();
        let black = Pixel::black();

        // Lines
        graphics.draw_line(
            buffer,
            Point { x: 20, y: 20 },
            Point { x: bounds.w.saturating_sub(20), y: 20 },
            &black,
        );
        graphics.draw_line(buffer, Point { x: 0, y: 0 }, Point { x: bounds.w, y: bounds.h }, &black);
        graphics.draw_line(buffer, Point { x: 0, y: bounds.h }, Point { x: bounds.w, y: 0 }, &black);

        let points = vec![
            Point { x: bounds.w / 6 * 1, y: bounds.h / 8 * 2 },
            Point { x: bounds.w / 6 * 2, y: bounds.h / 8 * 1 },
            Point { x: bounds.w / 6 * 3, y: bounds.h / 8 * 2 },
            Point { x: bounds.w / 6 * 4, y: bounds.h / 8 * 1 },
            Point { x: bounds.w / 6 * 5, y: bounds.h / 8 * 2 },
        ];
        graphics.draw_polyline(buffer, points.as_slice(), &black);

        // Circles, while their size suits the ellipse rasteriser
        let ellipse_r = bounds.w / 4;
        if ellipse_r < 0x8000_0000 {
            let cx = (bounds.w - ellipse_r) / 2;
            let cy = bounds.h.saturating_sub(ellipse_r) / 2;
            let shift = ellipse_r / 5 * 3;
            let circles = vec![
                Rect { x: cx.saturating_sub(shift), y: cy, w: ellipse_r, h: ellipse_r },
                Rect { x: cx, y: cy, w: ellipse_r, h: ellipse_r },
                Rect { x: cx + shift, y: cy, w: ellipse_r, h: ellipse_r },
            ];
            graphics.draw_ellipse(buffer, circles[0], &Pixel::red());
            graphics.draw_ellipse(buffer, circles[1], &Pixel::green());
            graphics.draw_ellipse(buffer, circles[2], &Pixel::blue());
        }

        // Rectangles
        graphics.draw_rect(
            buffer,
            Rect::new(
                (bounds.w / 7 * 1).saturating_sub(16),
                (bounds.h / 8 * 6).saturating_sub(16),
                bounds.w / 7 * 5 + 32,
                bounds.h / 6 + 32,
            ),
            &black,
        );
        graphics.fill_rect(
            buffer,
            Rect::new(bounds.w / 7 * 1, bounds.h / 8 * 6, bounds.w / 7, bounds.h / 6),
            &Pixel::red(),
        );
        graphics.fill_rect(
            buffer,
            Rect::new(bounds.w / 7 * 3, bounds.h / 8 * 6, bounds.w / 7, bounds.h / 6),
            &Pixel::green(),
        );
        graphics.fill_rect(
            buffer,
            Rect::new(bounds.w / 7 * 5, bounds.h / 8 * 6, bounds.w / 7, bounds.h / 6),
            &Pixel::blue(),
        );
    }
}

} // verus!
