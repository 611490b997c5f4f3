//! Conversion of buffer contents to 32-bit RGBA, one pixel per four bytes,
//! for display back ends. The buffers converted here have no porch or trailer.

use vstd::prelude::*;

verus! {

/// The RGBA byte value of monochrome pixel `n` of a `w`-wide image packed in
/// `pixels`: `0x00` where the pixel's bit is set, `0xFF` where it is clear.
pub open spec fn bw_rgba_value(w: int, pixels: Seq<u8>, n: int) -> u8 {
    let y = n / w;
    let x = n % w;
    if pixels[y * w / 8 + x / 8] & (1u8 << ((7 - x % 8) as u8)) == 0 {
        0xFF
    } else {
        0x00
    }
}

/// Byte of pixel `n`'s row-major position among `h` rows of `w` pixels, with
/// `w` a multiple of eight, stays inside the packed image.
proof fn lemma_bw_source_index(w: int, h: int, n: int)
    requires
        w > 0,
        w % 8 == 0,
        0 <= n < w * h,
    ensures
        n / w * w / 8 + n % w / 8 == (n - n % w) / 8 + n % w / 8,
        0 <= (n - n % w) / 8 + n % w / 8 < w * h / 8,
{
    let y = n / w;
    let x = n % w;
    vstd::arithmetic::div_mod::lemma_fundamental_div_mod(n, w);
    assert(n == w * y + x);
    assert(y * w == n - x) by (nonlinear_arith)
        requires
            n == w * y + x,
    ;
    assert(y < h) by (nonlinear_arith)
        requires
            n == w * y + x,
            0 <= x < w,
            0 <= n < w * h,
            w > 0,
    ;
    assert(y * w + w <= w * h) by (nonlinear_arith)
        requires
            y < h,
            w > 0,
            y >= 0,
    ;
}

/// Expands a bit-packed monochrome image, `w` pixels (a multiple of eight)
/// by `h`, to RGBA: set bits become `0x00 0x00 0x00 0x00`, clear bits
/// `0xFF 0xFF 0xFF 0xFF`.
pub fn bw_to_rgba32(w: usize, h: usize, pixels: &[u8]) -> (r: Vec<u8>)
    requires
        w % 8 == 0,
        w * h * 4 <= usize::MAX,
        w * h / 8 <= pixels@.len(),
    ensures
        r@.len() == w * h * 4,
        forall|n: int, c: int|
            0 <= n < w * h && 0 <= c < 4 ==> #[trigger] r@[4 * n + c] == bw_rgba_value(
                w as int,
                pixels@,
                n,
            ),
{
    let count = w * h;
    let mut data: Vec<u8> = Vec::with_capacity(count * 4);
    let mut n: usize = 0;
    while n < count
        invariant
            count == w * h,
            count * 4 <= usize::MAX,
            w % 8 == 0,
            w * h / 8 <= pixels@.len(),
            n <= count,
            data@.len() == 4 * n,
            forall|m: int, c: int|
                0 <= m < n && 0 <= c < 4 ==> #[trigger] data@[4 * m + c] == bw_rgba_value(
                    w as int,
                    pixels@,
                    m,
                ),
        decreases count - n,
    {
        let x = n % w;
        proof {
            lemma_bw_source_index(w as int, h as int, n as int);
        }
        let index = (n - x) / 8 + x / 8;
        let mask: u8 = 1u8 << (7 - (x % 8) as u8);
        let m: u8 = if pixels[index] & mask == 0 {
            0xFF
        } else {
            0x00
        };
        assert(m == bw_rgba_value(w as int, pixels@, n as int));
        data.push(m);
        data.push(m);
        data.push(m);
        data.push(m);
        n = n + 1;
    }
    data
}

/// Expands an RGB24 image of `w` by `h` pixels to RGBA: each pixel `r g b`
/// becomes `0xFF b g r`.
pub fn rgb24_to_rgba32(w: usize, h: usize, pixels: &[u8]) -> (r: Vec<u8>)
    requires
        w * h * 4 <= usize::MAX,
        w * h * 3 <= pixels@.len(),
    ensures
        r@.len() == w * h * 4,
        forall|n: int|
            0 <= n < w * h ==> {
                &&& #[trigger] r@[4 * n] == 0xFF
                &&& r@[4 * n + 1] == pixels@[3 * n + 2]
                &&& r@[4 * n + 2] == pixels@[3 * n + 1]
                &&& r@[4 * n + 3] == pixels@[3 * n]
            },
{
    let count = w * h;
    let mut data: Vec<u8> = Vec::with_capacity(count * 4);
    let mut n: usize = 0;
    while n < count
        invariant
            count == w * h,
            count * 4 <= usize::MAX,
            count * 3 <= pixels@.len(),
            n <= count,
            data@.len() == 4 * n,
            forall|m: int|
                0 <= m < n ==> {
                    &&& #[trigger] data@[4 * m] == 0xFF
                    &&& data@[4 * m + 1] == pixels@[3 * m + 2]
                    &&& data@[4 * m + 2] == pixels@[3 * m + 1]
                    &&& data@[4 * m + 3] == pixels@[3 * m]
                },
        decreases count - n,
    {
        let i = n * 3;
        let ghost before = data@;
        data.push(0xFF);
        data.push(pixels[i + 2]);
        data.push(pixels[i + 1]);
        data.push(pixels[i]);
        assert(data@ == before + seq![0xFFu8, pixels@[3 * n + 2], pixels@[3 * n + 1], pixels@[3 * n]]);
        assert forall|m: int| 0 <= m < n + 1 implies {
            &&& #[trigger] data@[4 * m] == 0xFF
            &&& data@[4 * m + 1] == pixels@[3 * m + 2]
            &&& data@[4 * m + 2] == pixels@[3 * m + 1]
            &&& data@[4 * m + 3] == pixels@[3 * m]
        } by {
            if m < n {
                assert(before[4 * m] == 0xFF);
            }
        }
        n = n + 1;
    }
    data
}

} // verus!
