use micro_gui::buffer::{Buff, Buffer, BufferError};
use micro_gui::graphics::Graphics;
use micro_gui::pixel::PixelBW;
use micro_gui::point::Point;
use micro_gui::rect::Rect;

fn blank(w: usize, h: usize) -> Buffer<PixelBW> {
    Buffer::<PixelBW>::new(w, h, 0, 0, vec![0; (w + 7) / 8 * h]).unwrap()
}

fn inked(b: &Buffer<PixelBW>) -> Vec<(usize, usize)> {
    let (w, h) = b.size();
    let mut out = Vec::new();
    for y in 0..h {
        for x in 0..w {
            if b.get(x, y) == Ok(true) {
                out.push((x, y));
            }
        }
    }
    out
}

fn sorted(mut v: Vec<(usize, usize)>) -> Vec<(usize, usize)> {
    v.sort();
    v
}

#[test]
fn graphics_set_offsets_and_clips() {
    let mut b = blank(8, 8);
    let g = Graphics::<PixelBW>::new(2, 3, 3, 3);
    assert_eq!(g.set(&mut b, 1, 2, &true), Ok(()));
    assert_eq!(inked(&b), vec![(3, 5)]);

    let before = b.data.clone();
    assert_eq!(g.set(&mut b, 3, 0, &true), Ok(()));
    assert_eq!(g.set(&mut b, 0, 3, &true), Ok(()));
    assert_eq!(g.set(&mut b, usize::MAX, usize::MAX, &true), Ok(()));
    assert_eq!(b.data, before);
}

#[test]
fn graphics_set_outside_the_buffer_fails() {
    let mut b = blank(8, 8);
    let g = Graphics::<PixelBW>::new(6, 6, 4, 4);
    assert_eq!(g.set(&mut b, 3, 3, &true), Err(BufferError::OutOfRange));
    let far = Graphics::<PixelBW>::new(usize::MAX, 0, 4, 4);
    assert_eq!(far.set(&mut b, 1, 0, &true), Err(BufferError::OutOfRange));
    assert!(inked(&b).is_empty());
}

#[test]
fn bounds_round_trip() {
    let mut g = Graphics::<PixelBW>::new(1, 2, 3, 4);
    assert_eq!(g.get_bounds(), Rect::new(1, 2, 3, 4));
    g.set_bounds(&Rect::new(5, 6, 7, 8));
    assert_eq!(g.get_bounds(), Rect::new(5, 6, 7, 8));
}

#[test]
fn line_to_itself_is_one_pixel() {
    let mut b = blank(8, 8);
    let g = Graphics::<PixelBW>::new(0, 0, 8, 8);
    g.draw_line(&mut b, Point::new(0, 0), Point::new(0, 0), &true);
    assert_eq!(inked(&b), vec![(0, 0)]);
}

#[test]
fn line_follows_bresenham() {
    let mut b = blank(8, 8);
    let g = Graphics::<PixelBW>::new(0, 0, 8, 8);
    g.draw_line(&mut b, Point::new(0, 0), Point::new(7, 3), &true);
    assert_eq!(
        sorted(inked(&b)),
        vec![(0, 0), (1, 0), (2, 1), (3, 1), (4, 2), (5, 2), (6, 3), (7, 3)]
    );

    let mut b = blank(8, 8);
    g.draw_line(&mut b, Point::new(0, 0), Point::new(2, 1), &true);
    assert_eq!(sorted(inked(&b)), vec![(0, 0), (1, 0), (2, 1)]);

    let mut b = blank(8, 8);
    g.draw_line(&mut b, Point::new(2, 1), Point::new(0, 0), &true);
    assert_eq!(sorted(inked(&b)), vec![(0, 0), (1, 1), (2, 1)]);

    let mut b = blank(8, 8);
    g.draw_line(&mut b, Point::new(1, 6), Point::new(2, 0), &true);
    assert_eq!(
        sorted(inked(&b)),
        vec![(1, 3), (1, 4), (1, 5), (1, 6), (2, 0), (2, 1), (2, 2)]
    );
}

#[test]
fn axis_and_diagonal_lines_are_symmetric() {
    let g = Graphics::<PixelBW>::new(0, 0, 8, 8);
    let cases = [
        (Point::new(1, 1), Point::new(6, 6)),
        (Point::new(6, 1), Point::new(1, 6)),
        (Point::new(0, 3), Point::new(7, 3)),
        (Point::new(4, 7), Point::new(4, 0)),
    ];
    for (p1, p2) in cases {
        let mut a = blank(8, 8);
        let mut b = blank(8, 8);
        g.draw_line(&mut a, p1, p2, &true);
        g.draw_line(&mut b, p2, p1, &true);
        assert_eq!(a.data, b.data);
    }
    let mut d = blank(8, 8);
    g.draw_line(&mut d, Point::new(6, 1), Point::new(1, 6), &true);
    assert_eq!(
        sorted(inked(&d)),
        vec![(1, 6), (2, 5), (3, 4), (4, 3), (5, 2), (6, 1)]
    );
}

#[test]
fn rect_outline_in_a_clipped_context() {
    let mut b = blank(10, 10);
    let g = Graphics::<PixelBW>::new(2, 1, 5, 5);
    g.draw_rect(&mut b, Rect::new(1, 1, 2, 2), &true);
    assert_eq!(sorted(inked(&b)), vec![(3, 2), (3, 3), (4, 2), (4, 3)]);

    let mut b = blank(10, 10);
    g.draw_rect(&mut b, Rect::new(3, 3, 4, 4), &true);
    assert_eq!(sorted(inked(&b)), vec![(5, 4), (5, 5), (6, 4)]);

    let mut b = blank(10, 10);
    g.draw_rect(&mut b, Rect::new(0, 0, 0, 3), &true);
    assert!(inked(&b).is_empty());
}

#[test]
fn rect_outline_has_a_hollow_inside() {
    let mut b = blank(8, 8);
    let g = Graphics::<PixelBW>::new(0, 0, 8, 8);
    g.draw_rect(&mut b, Rect::new(1, 1, 4, 3), &true);
    assert_eq!(
        sorted(inked(&b)),
        vec![(1, 1), (1, 2), (1, 3), (2, 1), (2, 3), (3, 1), (3, 3), (4, 1), (4, 2), (4, 3)]
    );
}

#[test]
fn fill_rect_is_clipped() {
    let mut b = blank(8, 8);
    let g = Graphics::<PixelBW>::new(1, 1, 4, 4);
    g.fill_rect(&mut b, Rect::new(2, 2, 5, 5), &true);
    assert_eq!(sorted(inked(&b)), vec![(3, 3), (3, 4), (4, 3), (4, 4)]);

    let mut b = blank(8, 8);
    g.fill_rect(&mut b, Rect::new(0, 0, 2, 1), &true);
    assert_eq!(sorted(inked(&b)), vec![(1, 1), (2, 1)]);
}

#[test]
fn polyline_joins_consecutive_points() {
    let g = Graphics::<PixelBW>::new(0, 0, 8, 8);
    let mut b = blank(8, 8);
    let pts = [Point::new(0, 0), Point::new(3, 0), Point::new(3, 2)];
    g.draw_polyline(&mut b, &pts, &true);
    assert_eq!(
        sorted(inked(&b)),
        vec![(0, 0), (1, 0), (2, 0), (3, 0), (3, 1), (3, 2)]
    );

    let mut b = blank(8, 8);
    g.draw_polyline(&mut b, &pts[..1], &true);
    g.draw_polyline(&mut b, &[], &true);
    assert!(inked(&b).is_empty());
}

#[test]
fn ellipse_is_a_closed_outline() {
    let mut b = blank(8, 8);
    let g = Graphics::<PixelBW>::new(0, 0, 8, 8);
    g.draw_ellipse(&mut b, Rect::new(0, 0, 4, 4), &true);
    assert_eq!(
        sorted(inked(&b)),
        vec![
            (0, 1), (0, 2), (0, 3), (1, 0), (1, 4), (2, 0),
            (2, 4), (3, 0), (3, 4), (4, 1), (4, 2), (4, 3),
        ]
    );
}

#[test]
fn degenerate_ellipse_draws_nothing() {
    let mut b = blank(8, 8);
    let g = Graphics::<PixelBW>::new(0, 0, 8, 8);
    g.draw_ellipse(&mut b, Rect::new(2, 2, 0, 5), &true);
    g.draw_ellipse(&mut b, Rect::new(2, 2, 5, 0), &true);
    g.draw_ellipse(&mut b, Rect::new(2, 2, usize::MAX, 0), &true);
    g.draw_ellipse(&mut b, Rect::new(2, 2, 0, usize::MAX), &true);
    assert!(inked(&b).is_empty());
}
