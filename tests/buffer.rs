use micro_gui::buffer::{Buff, Buffer, BufferError};
use micro_gui::pixel::{PixelBW, PixelRGB24, BW};

const WIDTH: usize = 16;
const HEIGHT: usize = 16;
const PORCH: usize = 1;
const TRAILER: usize = 1;
const SIZE_BW: usize = (PORCH + WIDTH / 8 + TRAILER) * HEIGHT;
const SIZE_RGB24: usize = (PORCH + WIDTH * 3 + TRAILER) * HEIGHT;

#[test]
fn test_bw() {
    let data: [u8; SIZE_BW] = [0; SIZE_BW];
    let mut buffer =
        Buffer::<PixelBW>::new(WIDTH, HEIGHT, PORCH, TRAILER, data.to_vec()).unwrap();

    buffer.set(0, 0, &true).unwrap();
    assert_eq!(buffer.get(0, 0), Ok(true));
    assert_eq!(buffer.data[PORCH], 0x80);

    buffer.set(0, 0, &false).unwrap();
    assert_eq!(buffer.get(0, 0), Ok(false));
    assert_eq!(buffer.data[PORCH], 0x00);

    buffer.set(1, 1, &true).unwrap();
    assert_eq!(buffer.get(1, 1), Ok(true));
    assert_eq!(buffer.data[PORCH + WIDTH / 8 + TRAILER + PORCH], 0x40);

    buffer.set(1, 1, &false).unwrap();
    assert_eq!(buffer.get(1, 1), Ok(false));
    assert_eq!(buffer.data[PORCH + WIDTH / 8 + TRAILER + PORCH], 0x00);
}

#[test]
fn buffer_test_bw() {
    let data: [u8; SIZE_BW] = [0; SIZE_BW];
    let mut buffer = Buffer::new_bw(WIDTH, HEIGHT, PORCH, TRAILER, data.to_vec()).unwrap();

    buffer.set_bw(0, 0, &true).unwrap();
    assert_eq!(buffer.get_bw(0, 0), Ok(true));
    assert_eq!(buffer.data[PORCH], 0x80);

    buffer.set_bw(0, 0, &false).unwrap();
    assert_eq!(buffer.get_bw(0, 0), Ok(false));
    assert_eq!(buffer.data[PORCH], 0x00);

    buffer.set_bw(1, 1, &true).unwrap();
    assert_eq!(buffer.get_bw(1, 1), Ok(true));
    assert_eq!(buffer.data[PORCH + WIDTH / 8 + TRAILER + PORCH], 0x40);

    buffer.set_bw(1, 1, &false).unwrap();
    assert_eq!(buffer.get_bw(1, 1), Ok(false));
    assert_eq!(buffer.data[PORCH + WIDTH / 8 + TRAILER + PORCH], 0x00);
}

#[test]
fn test_rgb24() {
    let data: [u8; SIZE_RGB24] = [0; SIZE_RGB24];
    let blank: [u8; SIZE_RGB24] = [0; SIZE_RGB24];
    let blank_slice = &blank[..];

    let mut buffer = Buffer::new_rgb24(WIDTH, HEIGHT, PORCH, TRAILER, data.to_vec()).unwrap();

    buffer.set_rgb24(0, 0, &PixelRGB24::white()).unwrap();
    assert_eq!(buffer.get_rgb24(0, 0), Ok(PixelRGB24::white()));
    assert_eq!(buffer.data[PORCH + 0], 0xFF);
    assert_eq!(buffer.data[PORCH + 1], 0xFF);
    assert_eq!(buffer.data[PORCH + 2], 0xFF);

    buffer.set_rgb24(0, 0, &PixelRGB24::black()).unwrap();
    assert_eq!(buffer.get_rgb24(0, 0), Ok(PixelRGB24::black()));
    assert_eq!(buffer.data, blank_slice);

    buffer.set_rgb24(1, 1, &PixelRGB24::white()).unwrap();
    assert_eq!(buffer.get_rgb24(1, 1), Ok(PixelRGB24::white()));

    let index: usize = (PORCH + WIDTH * 3 + TRAILER) + 3 + PORCH;
    assert_eq!(buffer.data[index + 0], 0xFF);
    assert_eq!(buffer.data[index + 1], 0xFF);
    assert_eq!(buffer.data[index + 2], 0xFF);

    buffer.set_rgb24(1, 1, &PixelRGB24::black()).unwrap();
    assert_eq!(buffer.get_rgb24(1, 1), Ok(PixelRGB24::black()));
    assert_eq!(buffer.data, blank_slice);
}

#[test]
fn test_rgb24_porch_trailer() {
    let data: [u8; SIZE_RGB24] = [0; SIZE_RGB24];
    let blank: [u8; SIZE_RGB24] = [0; SIZE_RGB24];
    let blank_slice = &blank[..];

    let mut buffer =
        Buffer::<PixelRGB24>::new(WIDTH, HEIGHT, PORCH, TRAILER, data.to_vec()).unwrap();

    buffer.set(0, 0, &PixelRGB24::white()).unwrap();
    assert_eq!(buffer.get(0, 0), Ok(PixelRGB24::white()));
    assert_eq!(buffer.data[PORCH + 0], 0xFF);
    assert_eq!(buffer.data[PORCH + 1], 0xFF);
    assert_eq!(buffer.data[PORCH + 2], 0xFF);

    buffer.set(0, 0, &PixelRGB24::black()).unwrap();
    assert_eq!(buffer.get(0, 0), Ok(PixelRGB24::black()));
    assert_eq!(buffer.data, blank_slice);

    buffer.set(1, 1, &PixelRGB24::white()).unwrap();
    assert_eq!(buffer.get(1, 1), Ok(PixelRGB24::white()));

    let index: usize = (PORCH + WIDTH * 3 + TRAILER) + 3 + PORCH;
    assert_eq!(buffer.data[index + 0], 0xFF);
    assert_eq!(buffer.data[index + 1], 0xFF);
    assert_eq!(buffer.data[index + 2], 0xFF);

    buffer.set(1, 1, &PixelRGB24::black()).unwrap();
    assert_eq!(buffer.get(1, 1), Ok(PixelRGB24::black()));
    assert_eq!(buffer.data, blank_slice);
}

const X: usize = 2;
const Y: usize = 2;

#[test]
fn test_rgb24_buffer() {
    let data = [0u8; X * Y * 3];

    let mut buffer = Buffer::<PixelRGB24>::new(X, Y, 0, 0, data.to_vec()).unwrap();

    let white = PixelRGB24::white();
    let black = PixelRGB24::black();

    for y in 0..Y {
        for x in 0..X {
            buffer.clear(&white);

            buffer.set(x, y, &black).unwrap();
            assert_eq!(buffer.get(x, y), Ok(black));

            let index = (y * Y + x) * 3;
            assert_eq!(buffer.data[index + 0], 0x00);
            assert_eq!(buffer.data[index + 1], 0x00);
            assert_eq!(buffer.data[index + 2], 0x00);
        }
    }
}

#[test]
fn set_then_get_returns_every_value() {
    let mut bw = Buffer::<PixelBW>::new(13, 5, 2, 3, vec![0xA5; (2 + 2 + 3) * 5]).unwrap();
    for y in 0..5 {
        for x in 0..13 {
            for p in [true, false] {
                bw.set(x, y, &p).unwrap();
                assert_eq!(bw.get(x, y), Ok(p));
            }
        }
    }
    let mut rgb = Buffer::<PixelRGB24>::new(3, 2, 1, 1, vec![0; (1 + 9 + 1) * 2]).unwrap();
    let p = PixelRGB24::new(0x12, 0x34, 0x56);
    rgb.set(2, 1, &p).unwrap();
    assert_eq!(rgb.get(2, 1), Ok(p));
    assert_eq!(&rgb.data[11 + 1 + 6..11 + 1 + 9], &[0x12, 0x34, 0x56]);
}

#[test]
fn set_leaves_other_rows_porch_and_trailer_alone() {
    let mut bw = Buffer::<PixelBW>::new(8, 3, 1, 1, vec![0x00; 3 * 3]).unwrap();
    bw.set(3, 1, &true).unwrap();
    assert_eq!(bw.data, vec![0, 0, 0, 0, 0x10, 0, 0, 0, 0]);

    let mut full = Buffer::<PixelBW>::new(8, 3, 1, 1, vec![0xFF; 3 * 3]).unwrap();
    full.set(0, 2, &false).unwrap();
    assert_eq!(full.data, vec![0xFF, 0xFF, 0xFF, 0xFF, 0xFF, 0xFF, 0xFF, 0x7F, 0xFF]);

    let mut rgb = Buffer::<PixelRGB24>::new(2, 2, 2, 1, vec![7; 9 * 2]).unwrap();
    rgb.set(1, 0, &PixelRGB24::black()).unwrap();
    assert_eq!(rgb.data, vec![7, 7, 7, 7, 7, 0, 0, 0, 7, 7, 7, 7, 7, 7, 7, 7, 7, 7]);
}

#[test]
fn clear_fills_and_is_idempotent() {
    let mut bw = Buffer::<PixelBW>::new(10, 3, 1, 2, vec![0x5A; (1 + 2 + 2) * 3]).unwrap();
    bw.clear(&true);
    for y in 0..3 {
        for x in 0..10 {
            assert_eq!(bw.get(x, y), Ok(true));
        }
    }
    let once = bw.data.clone();
    bw.clear(&true);
    assert_eq!(bw.data, once);
    // padding bits past the last column and the porch/trailer bytes are untouched
    assert_eq!(once, vec![0x5A, 0xFF, 0xDA, 0x5A, 0x5A, 0x5A, 0xFF, 0xDA, 0x5A, 0x5A, 0x5A, 0xFF, 0xDA, 0x5A, 0x5A]);

    let mut rgb = Buffer::<PixelRGB24>::new(2, 2, 0, 0, vec![1; 12]).unwrap();
    rgb.clear(&PixelRGB24::nice_yellow());
    let once = rgb.data.clone();
    rgb.clear(&PixelRGB24::nice_yellow());
    assert_eq!(rgb.data, once);
    assert_eq!(once, vec![0xFF, 0xD1, 0x19, 0xFF, 0xD1, 0x19, 0xFF, 0xD1, 0x19, 0xFF, 0xD1, 0x19]);
}

#[test]
fn out_of_range_access_is_refused() {
    let mut bw = Buffer::<PixelBW>::new(8, 2, 0, 0, vec![0; 2]).unwrap();
    assert_eq!(bw.set(8, 0, &true), Err(BufferError::OutOfRange));
    assert_eq!(bw.set(0, 2, &true), Err(BufferError::OutOfRange));
    assert_eq!(bw.get(8, 0), Err(BufferError::OutOfRange));
    assert_eq!(bw.data, vec![0, 0]);
    let mut rgb = Buffer::<PixelRGB24>::new(1, 1, 0, 0, vec![0; 3]).unwrap();
    assert_eq!(rgb.set(1, 0, &PixelRGB24::white()), Err(BufferError::OutOfRange));
    assert_eq!(rgb.get(0, 1), Err(BufferError::OutOfRange));
}

#[test]
fn short_store_is_refused_at_construction() {
    assert_eq!(
        Buffer::<PixelBW>::new(16, 16, 1, 1, vec![0; SIZE_BW - 1]).err(),
        Some(BufferError::SizeMismatch)
    );
    assert_eq!(
        Buffer::<PixelRGB24>::new(16, 16, 1, 1, vec![0; SIZE_RGB24 - 1]).err(),
        Some(BufferError::SizeMismatch)
    );
    assert_eq!(
        Buffer::<PixelRGB24>::new(usize::MAX, 1, 0, 0, vec![]).err(),
        Some(BufferError::SizeMismatch)
    );
    // a monochrome row rounds up to whole bytes
    let b = Buffer::<PixelBW>::new(9, 2, 0, 0, vec![0; 4]).unwrap();
    assert_eq!(b.line_width_bytes, 2);
    assert_eq!(b.size(), (9, 2));
    assert!(Buffer::<PixelBW>::new(9, 2, 0, 0, vec![0; 3]).is_err());
    assert_eq!(b.data(), &[0u8, 0, 0, 0][..]);
}
