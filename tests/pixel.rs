use micro_gui::pixel::{PixelG8, PixelRGB24, BW, RGB};

#[test]
fn rgb24_from_hex_splits_channels() {
    assert_eq!(PixelRGB24::from_hex(0x123456), PixelRGB24::new(0x12, 0x34, 0x56));
    assert_eq!(PixelRGB24::from_hex(0xAB_FF_00_01), PixelRGB24::new(0xFF, 0x00, 0x01));
    assert_eq!(PixelRGB24::nice_red(), PixelRGB24::new(0xB2, 0x00, 0x0E));
    assert_eq!(PixelRGB24::nice_blue(), PixelRGB24::new(0x00, 0x09, 0xB2));
    assert_eq!(PixelRGB24::nice_green(), PixelRGB24::new(0x00, 0xB2, 0x2B));
    assert_eq!(PixelRGB24::nice_yellow(), PixelRGB24::new(0xFF, 0xD1, 0x19));
}

#[test]
fn format_constants() {
    assert_eq!(PixelRGB24::black(), PixelRGB24::new(0, 0, 0));
    assert_eq!(PixelRGB24::white(), PixelRGB24::new(0xFF, 0xFF, 0xFF));
    assert_eq!(PixelRGB24::red(), PixelRGB24::nice_red());
    assert_eq!(PixelRGB24::green(), PixelRGB24::nice_green());
    assert_eq!(PixelRGB24::blue(), PixelRGB24::nice_blue());
    assert_eq!(PixelG8::black(), PixelG8(0xFF));
    assert_eq!(PixelG8::white(), PixelG8(0x00));
    assert_eq!(PixelG8::red(), PixelG8(0x20));
    assert_eq!(PixelG8::green(), PixelG8(0x40));
    assert_eq!(PixelG8::blue(), PixelG8(0x80));
    assert_eq!(<bool as BW>::black(), true);
    assert_eq!(<bool as BW>::white(), false);
    assert_eq!(<bool as RGB>::red(), true);
}
