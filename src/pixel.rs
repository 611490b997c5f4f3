//! Pixel formats: monochrome, 24-bit RGB and 8-bit grey.

use vstd::prelude::*;

verus! {

/// Formats that can express black and white.
pub trait BW: Sized {
    spec fn spec_black() -> Self;

    spec fn spec_white() -> Self;

    fn black() -> (r: Self)
        ensures
            r == Self::spec_black(),
    ;

    fn white() -> (r: Self)
        ensures
            r == Self::spec_white(),
    ;
}

/// Formats that can express the three primary colours.
pub trait RGB: Sized {
    spec fn spec_red() -> Self;

    spec fn spec_green() -> Self;

    spec fn spec_blue() -> Self;

    fn red() -> (r: Self)
        ensures
            r == Self::spec_red(),
    ;

    fn green() -> (r: Self)
        ensures
            r == Self::spec_green(),
    ;

    fn blue() -> (r: Self)
        ensures
            r == Self::spec_blue(),
    ;
}

/// 24-bit RGB pixel.
#[derive(Clone, Copy, Default, Debug, PartialEq, Eq, Structural)]
pub struct PixelRGB24 {
    pub r: u8,
    pub g: u8,
    pub b: u8,
}

/// The colour whose channels are the bytes of `hex` below its top byte,
/// red in the highest of them.
pub open spec fn rgb_of_hex(hex: u32) -> PixelRGB24 {
    PixelRGB24 {
        r: ((hex as int / 0x10000) % 0x100) as u8,
        g: ((hex as int / 0x100) % 0x100) as u8,
        b: (hex as int % 0x100) as u8,
    }
}

impl PixelRGB24 {
    pub fn new(r: u8, g: u8, b: u8) -> (p: Self)
        ensures
            p == (PixelRGB24 { r, g, b }),
    {
        Self { r, g, b }
    }

    /// Builds a colour from `0xRRGGBB`; the top byte is ignored.
    pub fn from_hex(hex: u32) -> (p: Self)
        ensures
            p == rgb_of_hex(hex),
    {
        let r = ((hex >> 16) & 0xFF) as u8;
        let g = ((hex >> 8) & 0xFF) as u8;
        let b = (hex & 0xFF) as u8;
        assert(((hex >> 16) & 0xFF) == (hex / 0x10000) % 0x100) by (bit_vector);
        assert(((hex >> 8) & 0xFF) == (hex / 0x100) % 0x100) by (bit_vector);
        assert((hex & 0xFF) == hex % 0x100) by (bit_vector);
        Self { r, g, b }
    }

    pub fn nice_red() -> (p: Self)
        ensures
            p == (PixelRGB24 { r: 0xB2, g: 0x00, b: 0x0E }),
    {
        Self::from_hex(0xB2000E)
    }

    pub fn nice_blue() -> (p: Self)
        ensures
            p == (PixelRGB24 { r: 0x00, g: 0x09, b: 0xB2 }),
    {
        Self::from_hex(0x0009B2)
    }

    pub fn nice_green() -> (p: Self)
        ensures
            p == (PixelRGB24 { r: 0x00, g: 0xB2, b: 0x2B }),
    {
        Self::from_hex(0x00B22B)
    }

    pub fn nice_yellow() -> (p: Self)
        ensures
            p == (PixelRGB24 { r: 0xFF, g: 0xD1, b: 0x19 }),
    {
        Self::from_hex(0xFFD119)
    }
}

impl BW for PixelRGB24 {
    open spec fn spec_black() -> Self {
        PixelRGB24 { r: 0x00, g: 0x00, b: 0x00 }
    }

    open spec fn spec_white() -> Self {
        PixelRGB24 { r: 0xFF, g: 0xFF, b: 0xFF }
    }

    fn black() -> (r: Self) {
        Self { r: 0x00, g: 0x00, b: 0x00 }
    }

    fn white() -> (r: Self) {
        Self { r: 0xFF, g: 0xFF, b: 0xFF }
    }
}

impl RGB for PixelRGB24 {
    open spec fn spec_red() -> Self {
        rgb_of_hex(0xB2000E)
    }

    open spec fn spec_green() -> Self {
        rgb_of_hex(0x00B22B)
    }

    open spec fn spec_blue() -> Self {
        rgb_of_hex(0x0009B2)
    }

    fn red() -> (r: Self) {
        Self::nice_red()
    }

    fn green() -> (r: Self) {
        Self::nice_green()
    }

    fn blue() -> (r: Self) {
        Self::nice_blue()
    }
}

/// 8-bit grey-scale pixel; larger values are darker.
#[derive(Clone, Copy, Default, Debug, PartialEq, Eq, Structural)]
pub struct PixelG8(pub u8);

impl BW for PixelG8 {
    open spec fn spec_black() -> Self {
        PixelG8(0xFF)
    }

    open spec fn spec_white() -> Self {
        PixelG8(0x00)
    }

    fn black() -> (r: Self) {
        PixelG8(0xFF)
    }

    fn white() -> (r: Self) {
        PixelG8(0x00)
    }
}

impl RGB for PixelG8 {
    open spec fn spec_red() -> Self {
        PixelG8(0x20)
    }

    open spec fn spec_green() -> Self {
        PixelG8(0x40)
    }

    open spec fn spec_blue() -> Self {
        PixelG8(0x80)
    }

    fn red() -> (r: Self) {
        PixelG8(0x20)
    }

    fn green() -> (r: Self) {
        PixelG8(0x40)
    }

    fn blue() -> (r: Self) {
        PixelG8(0x80)
    }
}

/// Monochrome pixel: `true` is ink, `false` is blank.
pub type PixelBW = bool;

impl BW for bool {
    open spec fn spec_black() -> Self {
        true
    }

    open spec fn spec_white() -> Self {
        false
    }

    fn black() -> (r: Self) {
        true
    }

    fn white() -> (r: Self) {
        false
    }
}

impl RGB for bool {
    open spec fn spec_red() -> Self {
        true
    }

    open spec fn spec_green() -> Self {
        true
    }

    open spec fn spec_blue() -> Self {
        true
    }

    fn red() -> (r: Self) {
        true
    }

    fn green() -> (r: Self) {
        true
    }

    fn blue() -> (r: Self) {
        true
    }
}

} // verus!
