use std::cell::Cell;
use std::rc::Rc;

use micro_gui::buffer::{Buff, Buffer};
use micro_gui::demo::DemoWidget;
use micro_gui::events::Event;
use micro_gui::graphics::{Graphics, Renderable};
use micro_gui::gui::Gui;
use micro_gui::layer::{child_bounds, Layer};
use micro_gui::pixel::{PixelBW, PixelRGB24};
use micro_gui::rect::Rect;
use micro_gui::window::{OnEvent, OnLoad, OnUnload, Window};

/// Inks every pixel of the context it is given.
struct Fill;

impl Renderable<PixelBW> for Fill {
    fn render<B: Buff<PixelBW>>(&mut self, graphics: &mut Graphics<PixelBW>, buffer: &mut B) {
        let b = graphics.get_bounds();
        graphics.fill_rect(buffer, Rect::new(0, 0, b.w, b.h), &true);
    }
}

#[derive(Clone, Default)]
struct Counts {
    loads: Rc<Cell<u32>>,
    unloads: Rc<Cell<u32>>,
    events: Rc<Cell<u32>>,
    last: Rc<Cell<Option<Event>>>,
}

impl OnLoad for Counts {
    fn on_load(&mut self) {
        self.loads.set(self.loads.get() + 1);
    }
}

impl OnUnload for Counts {
    fn on_unload(&mut self) {
        self.unloads.set(self.unloads.get() + 1);
    }
}

impl OnEvent for Counts {
    fn on_event(&mut self, e: &Event) {
        self.events.set(self.events.get() + 1);
        self.last.set(Some(*e));
    }
}

fn inked(b: &Buffer<PixelBW>) -> usize {
    let (w, h) = b.size();
    let mut n = 0;
    for y in 0..h {
        for x in 0..w {
            if b.get(x, y) == Ok(true) {
                n += 1;
            }
        }
    }
    n
}

#[test]
fn layer_renders_inside_its_bounds() {
    let mut buffer = Buffer::<PixelBW>::new(8, 8, 0, 0, vec![0; 8]).unwrap();
    let mut graphics = Graphics::<PixelBW>::new(1, 1, 6, 6);
    let mut layer = Layer::new(Rect::new(2, 3, 2, 10), Some(Fill));
    assert_eq!(layer.bounds(), Rect::new(2, 3, 2, 10));
    layer.render(&mut graphics, &mut buffer);
    assert_eq!(graphics.get_bounds(), Rect::new(1, 1, 6, 6));
    for y in 0..8 {
        for x in 0..8 {
            let expect = (3..5).contains(&x) && (4..8).contains(&y);
            assert_eq!(buffer.get(x, y), Ok(expect), "pixel ({}, {})", x, y);
        }
    }

    let mut hidden_buffer = Buffer::<PixelBW>::new(8, 8, 0, 0, vec![0; 8]).unwrap();
    layer.set_visible(false);
    layer.render(&mut graphics, &mut hidden_buffer);
    assert_eq!(inked(&hidden_buffer), 0);
}

#[test]
fn child_layers_render_relative_to_their_parent() {
    let mut buffer = Buffer::<PixelBW>::new(8, 8, 0, 0, vec![0; 8]).unwrap();
    let mut graphics = Graphics::<PixelBW>::new(0, 0, 8, 8);
    let mut parent: Layer<PixelBW, Fill> = Layer::new(Rect::new(1, 1, 6, 6), None);
    parent.add_child(Layer::new(Rect::new(2, 2, 2, 2), Some(Fill)));
    parent.render(&mut graphics, &mut buffer);
    assert_eq!(graphics.get_bounds(), Rect::new(0, 0, 8, 8));
    for y in 0..8 {
        for x in 0..8 {
            let expect = (3..5).contains(&x) && (3..5).contains(&y);
            assert_eq!(buffer.get(x, y), Ok(expect), "pixel ({}, {})", x, y);
        }
    }
}

#[test]
fn gui_renders_and_feeds_the_top_window() {
    let counts = Counts::default();
    let mut gui: Gui<PixelBW, Fill, Counts> = Gui::new(8, 8);
    let mut buffer = Buffer::<PixelBW>::new(8, 8, 0, 0, vec![0; 8]).unwrap();

    gui.render(&mut buffer);
    gui.event(&Event::Up);
    assert_eq!(inked(&buffer), 0);
    assert!(gui.pop_window().is_none());

    let mut lower = Window::new(8, 8, Some(Fill));
    lower.bind_handlers(Some(counts.clone()), Some(counts.clone()), None);
    gui.push_window(lower);
    assert_eq!(counts.loads.get(), 1);

    let mut upper = Window::new(3, 2, Some(Fill));
    upper.bind_handlers(None, Some(counts.clone()), Some(counts.clone()));
    gui.push_window(upper);
    assert_eq!(counts.loads.get(), 1);

    gui.render(&mut buffer);
    assert_eq!(inked(&buffer), 6);
    gui.event(&Event::Click { x: 1, y: 2 });
    assert_eq!(counts.events.get(), 1);
    assert_eq!(counts.last.get(), Some(Event::Click { x: 1, y: 2 }));

    assert!(gui.pop_window().is_some());
    assert_eq!(counts.unloads.get(), 1);
    gui.event(&Event::Back);
    assert_eq!(counts.events.get(), 1);
    gui.render(&mut buffer);
    assert_eq!(inked(&buffer), 64);
    assert!(gui.pop_window().is_some());
    assert_eq!(counts.unloads.get(), 2);
    assert!(gui.pop_window().is_none());
}

#[test]
fn demo_widget_draws_within_the_buffer() {
    let mut buffer = Buffer::<PixelRGB24>::new(64, 48, 0, 0, vec![0xFF; 64 * 48 * 3]).unwrap();
    let mut graphics = Graphics::<PixelRGB24>::new(0, 0, 64, 48);
    let mut demo = DemoWidget::new();
    demo.render(&mut graphics, &mut buffer);
    assert_eq!(graphics.get_bounds(), Rect::new(0, 0, 64, 48));
    assert_eq!(buffer.get(0, 0), Ok(PixelRGB24::new(0, 0, 0)));
    assert_eq!(buffer.get(20, 20), Ok(PixelRGB24::new(0, 0, 0)));
    assert!(buffer.data.iter().any(|b| *b == 0xB2));
}

#[test]
fn child_bounds_shift_and_narrow() {
    assert_eq!(
        child_bounds(Rect::new(1, 2, 10, 3), Rect::new(4, 5, 6, 7)),
        Some(Rect::new(5, 7, 6, 3))
    );
    assert_eq!(child_bounds(Rect::new(usize::MAX, 0, 1, 1), Rect::new(1, 0, 1, 1)), None);
    assert_eq!(child_bounds(Rect::new(0, usize::MAX, 1, 1), Rect::new(0, 1, 1, 1)), None);
}

#[test]
fn layer_beyond_the_addressable_range_draws_nothing() {
    let mut buffer = Buffer::<PixelBW>::new(8, 8, 0, 0, vec![0; 8]).unwrap();
    let mut graphics = Graphics::<PixelBW>::new(usize::MAX, 0, 8, 8);
    let mut layer = Layer::new(Rect::new(1, 0, 4, 4), Some(Fill));
    layer.render(&mut graphics, &mut buffer);
    assert_eq!(inked(&buffer), 0);
    assert_eq!(graphics.get_bounds(), Rect::new(usize::MAX, 0, 8, 8));
}
