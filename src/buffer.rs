//! A frame buffer over a byte store: rows of packed pixels, each row framed
//! by porch bytes before and trailer bytes after its pixel data.

use core::marker::PhantomData;
use vstd::prelude::*;

use crate::pixel::{PixelBW, PixelRGB24};

verus! {

broadcast use vstd::std_specs::vec::group_vec_axioms;

/// Why a buffer operation was refused.
#[derive(Clone, Copy, Debug, PartialEq, Eq, Structural)]
pub enum BufferError {
    /// A coordinate lies outside the buffer.
    OutOfRange,
    /// The byte store is too short for the requested geometry.
    SizeMismatch,
}

/// The operations a graphics buffer offers over one pixel format.
pub trait Buff<Pixel>: Sized {
    /// Well-formedness of the buffer.
    spec fn inv(&self) -> bool;

    /// Width in pixels.
    spec fn spec_width(&self) -> usize;

    /// Height in pixels.
    spec fn spec_height(&self) -> usize;

    /// The pixel stored at `(x, y)`; meaningful inside the buffer.
    spec fn pixel(&self, x: int, y: int) -> Pixel;

    /// Writes one pixel. Writing the value already there changes nothing.
    fn set(&mut self, x: usize, y: usize, p: &Pixel) -> (r: Result<(), BufferError>)
        requires
            old(self).inv(),
        ensures
            final(self).inv(),
            r == (if x < old(self).spec_width() && y < old(self).spec_height() {
                Ok(())
            } else {
                Err(BufferError::OutOfRange)
            }),
            r is Ok ==> final(self).spec_width() == old(self).spec_width() && final(self).spec_height() == old(self).spec_height(),
            r is Ok ==> forall|i: int, j: int|
                0 <= i < old(self).spec_width() && 0 <= j < old(self).spec_height()
                    ==> #[trigger] final(self).pixel(i, j) == (if i == x && j == y {
                    *p
                } else {
                    old(self).pixel(i, j)
                }),
            r is Err ==> *final(self) == *old(self),
            old(self).pixel(x as int, y as int) == *p ==> *final(self) == *old(self),
    ;

    /// Reads one pixel.
    fn get(&self, x: usize, y: usize) -> (r: Result<Pixel, BufferError>)
        requires
            self.inv(),
        ensures
            r == (if x < self.spec_width() && y < self.spec_height() {
                Ok(self.pixel(x as int, y as int))
            } else {
                Err(BufferError::OutOfRange)
            }),
    ;

    /// Width and height in pixels.
    fn size(&self) -> (r: (usize, usize))
        requires
            self.inv(),
        ensures
            r.0 == self.spec_width(),
            r.1 == self.spec_height(),
    ;

    /// Sets every pixel to `p`.
    fn clear(&mut self, p: &Pixel)
        requires
            old(self).inv(),
        ensures
            final(self).inv(),
            final(self).spec_width() == old(self).spec_width(),
            final(self).spec_height() == old(self).spec_height(),
            forall|i: int, j: int|
                0 <= i < old(self).spec_width() && 0 <= j < old(self).spec_height()
                    ==> #[trigger] final(self).pixel(i, j) == *p,
            (forall|i: int, j: int|
                0 <= i < old(self).spec_width() && 0 <= j < old(self).spec_height()
                    ==> #[trigger] old(self).pixel(i, j) == *p) ==> *final(self) == *old(self),
    ;
}

/// `(x, y)` addresses a pixel of `b`.
pub open spec fn in_bounds<P, B: Buff<P>>(b: B, x: int, y: int) -> bool {
    0 <= x < b.spec_width() && 0 <= y < b.spec_height()
}

/// `after` has the size of `before`.
pub open spec fn same_size<P, B: Buff<P>>(before: B, after: B) -> bool {
    after.spec_width() == before.spec_width() && after.spec_height() == before.spec_height()
}

/// `after` is `before` with the one pixel `(x, y)` set to `p`.
pub open spec fn written<P, B: Buff<P>>(before: B, after: B, x: int, y: int, p: P) -> bool {
    &&& same_size(before, after)
    &&& after.inv()
    &&& forall|i: int, j: int|
        in_bounds::<P, B>(before, i, j) ==> #[trigger] after.pixel(i, j) == (if i == x && j == y {
            p
        } else {
            before.pixel(i, j)
        })
}

/// Every pixel of `b` is `p`.
pub open spec fn uniform<P, B: Buff<P>>(b: B, p: P) -> bool {
    forall|i: int, j: int| in_bounds::<P, B>(b, i, j) ==> #[trigger] b.pixel(i, j) == p
}

/// `after` has the size of `before` and every pixel set to `p`.
pub open spec fn filled<P, B: Buff<P>>(before: B, after: B, p: P) -> bool {
    &&& same_size(before, after)
    &&& after.inv()
    &&& uniform(after, p)
}

/// What `clear` promises: `after` has every pixel set to `p`, and is `before`
/// itself when every pixel of `before` already was `p`.
pub open spec fn cleared<P, B: Buff<P>>(before: B, after: B, p: P) -> bool {
    &&& filled(before, after, p)
    &&& uniform(before, p) ==> after == before
}

/// A pixel read back right after it was written holds the written value.
pub proof fn lemma_set_then_get<P, B: Buff<P>>(before: B, after: B, x: int, y: int, p: P)
    requires
        before.inv(),
        in_bounds::<P, B>(before, x, y),
        written(before, after, x, y, p),
    ensures
        in_bounds::<P, B>(after, x, y),
        after.pixel(x, y) == p,
{
}

/// After `clear(p)` every pixel reads `p`, and clearing with `p` again leaves
/// the buffer exactly as it was (for a `Buffer`, byte for byte).
pub proof fn lemma_clear_twice<P, B: Buff<P>>(b0: B, b1: B, b2: B, p: P)
    requires
        b0.inv(),
        cleared(b0, b1, p),
        cleared(b1, b2, p),
    ensures
        forall|i: int, j: int| in_bounds::<P, B>(b1, i, j) ==> #[trigger] b1.pixel(i, j) == p,
        b2 == b1,
{
}

/// A frame buffer of `width` by `height` pixels over the bytes `data`.
/// Row `y` starts at byte `line_width_bytes * y`; its pixel data starts
/// `porch_bytes` further on and is followed by `trailer_bytes` bytes.
#[derive(Debug)]
pub struct Buffer<Pixel> {
    pub width: usize,
    pub height: usize,
    pub porch_bytes: usize,
    pub trailer_bytes: usize,
    pub line_width_bytes: usize,
    pub data: Vec<u8>,
    /// Marks the pixel format; holds no data.
    pub format: PhantomData<Pixel>,
}

/// Bytes of pixel data in a monochrome row: one bit per pixel, rounded up.
pub open spec fn bw_row_bytes(width: int) -> int {
    (width + 7) / 8
}

/// Bytes of pixel data in an RGB24 row: three per pixel.
pub open spec fn rgb24_row_bytes(width: int) -> int {
    width * 3
}

/// Bit `s` of byte `b`, as a mask: `b & (1 << s)`.
pub open spec fn bit_of(b: u8, s: int) -> u8 {
    b & (1u8 << (s as u8))
}

/// The mask selecting pixel column `x` within its byte, most significant bit first.
pub open spec fn bw_mask(x: int) -> u8 {
    1u8 << ((7 - x % 8) as u8)
}

impl<Pixel> Buffer<Pixel> {
    /// Rows hold `row_bytes` bytes of pixel data and the store holds every row.
    pub open spec fn laid_out(self, row_bytes: int) -> bool {
        &&& self.line_width_bytes == self.porch_bytes + row_bytes + self.trailer_bytes
        &&& self.line_width_bytes * self.height <= self.data@.len()
    }

    /// Index of the first pixel byte of row `y`.
    pub open spec fn row_start(self, y: int) -> int {
        self.line_width_bytes * y + self.porch_bytes
    }

    /// Byte `i` lies in the pixel data of some row, not in a porch, a trailer
    /// or past the last row, for rows of `row_bytes` bytes of pixel data.
    pub open spec fn in_pixel_rows(self, i: int, row_bytes: int) -> bool {
        exists|y: int|
            0 <= y < self.height && #[trigger] self.row_start(y) <= i < self.row_start(y)
                + row_bytes
    }

    /// Both buffers have the same geometry.
    pub open spec fn same_geometry(self, other: Self) -> bool {
        &&& self.width == other.width
        &&& self.height == other.height
        &&& self.porch_bytes == other.porch_bytes
        &&& self.trailer_bytes == other.trailer_bytes
        &&& self.line_width_bytes == other.line_width_bytes
        &&& self.data@.len() == other.data@.len()
    }

    /// The backing bytes.
    pub fn data(&self) -> (r: &[u8])
        ensures
            r@ == self.data@,
    {
        self.data.as_slice()
    }
}

/// `line * y + c` with `c` inside a line stays inside `line * height` bytes,
/// and determines `y` and `c`.
proof fn lemma_cell(line: int, height: int, y: int, c: int)
    requires
        0 <= y < height,
        0 <= c < line,
    ensures
        0 <= line * y,
        line * y + c < line * height,
        forall|y2: int, c2: int|
            0 <= y2 && 0 <= c2 < line && #[trigger] (line * y2 + c2) == line * y + c ==> y2 == y
                && c2 == c,
{
    assert(0 <= line * y) by (nonlinear_arith)
        requires
            0 <= y,
            0 <= line,
    ;
    assert(line * y + c < line * height) by (nonlinear_arith)
        requires
            0 <= y < height,
            0 <= c < line,
    ;
    assert forall|y2: int, c2: int|
        0 <= y2 && 0 <= c2 < line && #[trigger] (line * y2 + c2) == line * y + c implies y2 == y
            && c2 == c by {
        assert(y2 == y) by (nonlinear_arith)
            requires
                0 <= y2,
                0 <= y,
                0 <= c2 < line,
                0 <= c < line,
                line * y2 + c2 == line * y + c,
        ;
    }
}

/// Every byte of an earlier row comes before every byte of a later one.
proof fn lemma_row_order(line: int, j: int, y: int)
    requires
        0 <= line,
        0 <= j < y,
    ensures
        line * j + line <= line * y,
{
    assert(line * j + line <= line * y) by (nonlinear_arith)
        requires
            0 <= line,
            0 <= j < y,
    ;
}

/// What the bit operations on a monochrome byte do to each pixel bit.
proof fn lemma_bw_bits(b: u8, k: u8, j: u8)
    requires
        k < 8,
        j < 8,
    ensures
        ((b | (1u8 << k)) & (1u8 << j)) != 0 <==> (j == k || (b & (1u8 << j)) != 0),
        ((b & !(1u8 << k)) & (1u8 << j)) != 0 <==> (j != k && (b & (1u8 << j)) != 0),
        (b & (1u8 << k)) != 0 ==> (b | (1u8 << k)) == b,
        (b & (1u8 << k)) == 0 ==> (b & !(1u8 << k)) == b,
{
    assert((b & (1u8 << k)) != 0 ==> (b | (1u8 << k)) == b) by (bit_vector)
        requires
            k < 8,
    ;
    assert((b & (1u8 << k)) == 0 ==> (b & !(1u8 << k)) == b) by (bit_vector)
        requires
            k < 8,
    ;
    assert(((b | (1u8 << k)) & (1u8 << j)) != 0 <==> (j == k || (b & (1u8 << j)) != 0))
        by (bit_vector)
        requires
            k < 8,
            j < 8,
    ;
    assert(((b & !(1u8 << k)) & (1u8 << j)) != 0 <==> (j != k && (b & (1u8 << j)) != 0))
        by (bit_vector)
        requires
            k < 8,
            j < 8,
    ;
}

/// Setting one bit of a byte keeps every other bit.
proof fn lemma_other_bits(b: u8, k: u8, s: u8)
    requires
        k < 8,
        s < 8,
        k != s,
    ensures
        ((b | (1u8 << k)) & (1u8 << s)) == (b & (1u8 << s)),
        ((b & !(1u8 << k)) & (1u8 << s)) == (b & (1u8 << s)),
{
    assert(((b | (1u8 << k)) & (1u8 << s)) == (b & (1u8 << s))) by (bit_vector)
        requires
            k < 8,
            s < 8,
            k != s,
    ;
    assert(((b & !(1u8 << k)) & (1u8 << s)) == (b & (1u8 << s))) by (bit_vector)
        requires
            k < 8,
            s < 8,
            k != s,
    ;
}

impl Buffer<PixelBW> {
    /// Bit `s` of byte `i` holds a monochrome pixel.
    pub open spec fn bw_holds_bit(self, i: int, s: int) -> bool {
        exists|x: int, y: int|
            0 <= x < self.width && 0 <= y < self.height && #[trigger] self.bw_index(x, y) == i && 7
                - x % 8 == s
    }

    /// `after` has the geometry of `self`, and every byte and bit of the store
    /// that holds no pixel (porch, trailer, the unused low bits ending a row,
    /// bytes past the last row) keeps its value.
    pub open spec fn bw_padding_kept(self, after: Self) -> bool {
        &&& after.same_geometry(self)
        &&& forall|i: int|
            0 <= i < self.data@.len() && !self.in_pixel_rows(i, bw_row_bytes(self.width as int))
                ==> #[trigger] after.data@[i] == self.data@[i]
        &&& forall|i: int, s: int|
            0 <= i < self.data@.len() && 0 <= s < 8 && !self.bw_holds_bit(i, s) ==> #[trigger] bit_of(
                after.data@[i],
                s,
            ) == bit_of(self.data@[i], s)
    }

    /// Monochrome pixel `(x, y)`: the bit for column `x` in its byte.
    pub open spec fn bw_pixel(self, x: int, y: int) -> bool {
        self.data@[self.bw_index(x, y)] & bw_mask(x) != 0
    }

    /// Byte holding monochrome pixel `(x, y)`.
    pub open spec fn bw_index(self, x: int, y: int) -> int {
        self.row_start(y) + x / 8
    }

    /// The bytes after monochrome pixel `(x, y)` is set to `p`.
    pub open spec fn bw_set_bytes(self, x: int, y: int, p: bool) -> Seq<u8> {
        let i = self.bw_index(x, y);
        let byte = self.data@[i];
        self.data@.update(i, if p { byte | bw_mask(x) } else { byte & !bw_mask(x) })
    }

    /// Monochrome buffer over `data`; fails when `data` cannot hold
    /// `height` rows of `porch_bytes + ceil(width / 8) + trailer_bytes` bytes.
    pub fn new(
        width: usize,
        height: usize,
        porch_bytes: usize,
        trailer_bytes: usize,
        data: Vec<u8>,
    ) -> (r: Result<Self, BufferError>)
        ensures
            r is Ok <==> porch_bytes + bw_row_bytes(width as int) + trailer_bytes <= usize::MAX && (
            porch_bytes + bw_row_bytes(width as int) + trailer_bytes) * height <= data@.len(),
            r is Err ==> r == Err::<Self, BufferError>(BufferError::SizeMismatch),
            r matches Ok(b) ==> b.inv() && b.width == width && b.height == height && b.porch_bytes
                == porch_bytes && b.trailer_bytes == trailer_bytes && b.data@ == data@,
    {
        Self::new_bw(width, height, porch_bytes, trailer_bytes, data)
    }

    /// Monochrome buffer over `data`, as `new`.
    pub fn new_bw(
        width: usize,
        height: usize,
        porch_bytes: usize,
        trailer_bytes: usize,
        data: Vec<u8>,
    ) -> (r: Result<Self, BufferError>)
        ensures
            r is Ok <==> porch_bytes + bw_row_bytes(width as int) + trailer_bytes <= usize::MAX && (
            porch_bytes + bw_row_bytes(width as int) + trailer_bytes) * height <= data@.len(),
            r is Err ==> r == Err::<Self, BufferError>(BufferError::SizeMismatch),
            r matches Ok(b) ==> b.inv() && b.width == width && b.height == height && b.porch_bytes
                == porch_bytes && b.trailer_bytes == trailer_bytes && b.data@ == data@,
    {
        let len = data.len();
        let row: usize = width / 8 + if width % 8 != 0 {
            1
        } else {
            0
        };
        assert(row == bw_row_bytes(width as int));
        let line = match porch_bytes.checked_add(row) {
            Some(v) => match v.checked_add(trailer_bytes) {
                Some(l) => l,
                None => return Err(BufferError::SizeMismatch),
            },
            None => return Err(BufferError::SizeMismatch),
        };
        let total = match line.checked_mul(height) {
            Some(t) => t,
            None => return Err(BufferError::SizeMismatch),
        };
        if len < total {
            return Err(BufferError::SizeMismatch);
        }
        Ok(Buffer {
            width,
            height,
            porch_bytes,
            trailer_bytes,
            line_width_bytes: line,
            data,
            format: PhantomData,
        })
    }

    /// Writes monochrome pixel `(x, y)`: sets its bit for ink, clears it for blank.
    pub fn set_bw(&mut self, x: usize, y: usize, p: &PixelBW) -> (r: Result<(), BufferError>)
        requires
            old(self).inv(),
        ensures
            final(self).inv(),
            r == (if x < old(self).width && y < old(self).height {
                Ok(())
            } else {
                Err(BufferError::OutOfRange)
            }),
            r is Ok ==> forall|i: int, j: int|
                0 <= i < old(self).width && 0 <= j < old(self).height
                    ==> #[trigger] final(self).bw_pixel(i, j) == (if i == x && j == y {
                    *p
                } else {
                    old(self).bw_pixel(i, j)
                }),
            r is Ok ==> final(self).same_geometry(*old(self)) && final(self).data@ == old(self).bw_set_bytes(x as int, y as int, *p),
            r is Err ==> *final(self) == *old(self),
            old(self).bw_pixel(x as int, y as int) == *p ==> *final(self) == *old(self),
    {
        if x >= self.width || y >= self.height {
            return Err(BufferError::OutOfRange);
        }
        proof {
            lemma_cell(
                self.line_width_bytes as int,
                self.height as int,
                y as int,
                self.porch_bytes + x / 8,
            );
        }
        let len = self.data.len();
        let index = self.line_width_bytes * y + self.porch_bytes + x / 8;
        let mask: u8 = 1u8 << (7 - (x % 8) as u8);
        let byte = self.data[index];
        let current = byte & mask != 0;
        if current == *p {
            proof {
                lemma_bw_bits(byte, (7 - x % 8) as u8, (7 - x % 8) as u8);
                assert(self.data@ =~= self.bw_set_bytes(x as int, y as int, *p));
            }
            return Ok(());
        }
        let ghost before = *self;
        if *p {
            self.data.set(index, byte | mask);
        } else {
            self.data.set(index, byte & !mask);
        }
        proof {
            assert forall|i: int, j: int|
                0 <= i < before.width && 0 <= j < before.height implies #[trigger] self.bw_pixel(
                i,
                j,
            ) == (if i == x && j == y {
                *p
            } else {
                before.bw_pixel(i, j)
            }) by {
                lemma_cell(
                    before.line_width_bytes as int,
                    before.height as int,
                    j,
                    before.porch_bytes + i / 8,
                );
                lemma_bw_bits(byte, (7 - x % 8) as u8, (7 - i % 8) as u8);
                if before.bw_index(i, j) == before.bw_index(x as int, y as int) {
                    assert(j == y && i / 8 == x / 8);
                    if i % 8 == x % 8 {
                        assert(i == x);
                    }
                }
            }
        }
        Ok(())
    }

    /// Reads monochrome pixel `(x, y)`.
    pub fn get_bw(&self, x: usize, y: usize) -> (r: Result<PixelBW, BufferError>)
        requires
            self.inv(),
        ensures
            r == (if x < self.width && y < self.height {
                Ok(self.bw_pixel(x as int, y as int))
            } else {
                Err(BufferError::OutOfRange)
            }),
    {
        if x >= self.width || y >= self.height {
            return Err(BufferError::OutOfRange);
        }
        proof {
            lemma_cell(
                self.line_width_bytes as int,
                self.height as int,
                y as int,
                self.porch_bytes + x / 8,
            );
        }
        let len = self.data.len();
        let index = self.line_width_bytes * y + self.porch_bytes + x / 8;
        let mask: u8 = 1u8 << (7 - (x % 8) as u8);
        Ok(self.data[index] & mask != 0)
    }

    /// Sets every monochrome pixel to `p`, row by row.
    pub fn clear_bw(&mut self, p: &PixelBW)
        requires
            old(self).inv(),
        ensures
            final(self).inv(),
            final(self).width == old(self).width,
            final(self).height == old(self).height,
            forall|i: int, j: int|
                0 <= i < old(self).width && 0 <= j < old(self).height
                    ==> #[trigger] final(self).bw_pixel(i, j) == *p,
            (forall|i: int, j: int|
                0 <= i < old(self).width && 0 <= j < old(self).height
                    ==> #[trigger] old(self).bw_pixel(i, j) == *p) ==> *final(self) == *old(self),
            old(self).bw_padding_kept(*final(self)),
    {
        let w = self.width;
        let h = self.height;
        let ghost start = *self;
        let mut y: usize = 0;
        while y < h
            invariant
                start == *old(self),
                self.inv(),
                self.width == w && self.height == h,
                w == start.width && h == start.height,
                y <= h,
                forall|i: int, j: int|
                    0 <= i < w && 0 <= j < h ==> #[trigger] self.bw_pixel(i, j) == (if j < y {
                        *p
                    } else {
                        start.bw_pixel(i, j)
                    }),
                (forall|i: int, j: int|
                    0 <= i < w && 0 <= j < h ==> #[trigger] start.bw_pixel(i, j) == *p) ==> *self
                    == start,
                start.bw_padding_kept(*self),
            decreases h - y,
        {
            let mut x: usize = 0;
            while x < w
                invariant
                    start == *old(self),
                    self.inv(),
                    self.width == w && self.height == h,
                    w == start.width && h == start.height,
                    y < h,
                    x <= w,
                    forall|i: int, j: int|
                        0 <= i < w && 0 <= j < h ==> #[trigger] self.bw_pixel(i, j) == (if j < y
                            || (j == y && i < x) {
                            *p
                        } else {
                            start.bw_pixel(i, j)
                        }),
                    (forall|i: int, j: int|
                        0 <= i < w && 0 <= j < h ==> #[trigger] start.bw_pixel(i, j) == *p)
                        ==> *self == start,
                    start.bw_padding_kept(*self),
                decreases w - x,
            {
                let ghost before = *self;
                let _ = self.set_bw(x, y, p);
                proof {
                    if *self != before {
                        lemma_bw_set_keeps_padding(start, before, *self, x as int, y as int, *p);
                    }
                }
                x = x + 1;
            }
            y = y + 1;
        }
    }
}

/// Writing a monochrome pixel keeps what a clear must keep.
proof fn lemma_bw_set_keeps_padding(
    start: Buffer<PixelBW>,
    before: Buffer<PixelBW>,
    after: Buffer<PixelBW>,
    x: int,
    y: int,
    p: bool,
)
    requires
        before.inv(),
        start.bw_padding_kept(before),
        0 <= x < before.width,
        0 <= y < before.height,
        after.same_geometry(before),
        after.data@ == before.bw_set_bytes(x, y, p),
    ensures
        start.bw_padding_kept(after),
{
    let idx = before.bw_index(x, y);
    lemma_cell(before.line_width_bytes as int, before.height as int, y, before.porch_bytes + x / 8);
    assert(start.row_start(y) <= idx < start.row_start(y) + bw_row_bytes(start.width as int));
    assert(start.bw_index(x, y) == idx);
    assert forall|i: int, s: int|
        0 <= i < start.data@.len() && 0 <= s < 8 && !start.bw_holds_bit(i, s) implies #[trigger] bit_of(
        after.data@[i],
        s,
    ) == bit_of(start.data@[i], s) by {
        assert(bit_of(before.data@[i], s) == bit_of(start.data@[i], s));
        if i == idx {
            if s == 7 - x % 8 {
                assert(start.bw_holds_bit(i, s));
            }
            lemma_other_bits(before.data@[idx], (7 - x % 8) as u8, s as u8);
            assert(bit_of(after.data@[i], s) == bit_of(before.data@[i], s));
        } else {
            assert(after.data@[i] == before.data@[i]);
        }
    }
}

/// Writing an RGB24 pixel keeps what a clear must keep.
proof fn lemma_rgb24_set_keeps_padding(
    start: Buffer<PixelRGB24>,
    before: Buffer<PixelRGB24>,
    after: Buffer<PixelRGB24>,
    x: int,
    y: int,
    p: PixelRGB24,
)
    requires
        before.inv(),
        start.rgb24_padding_kept(before),
        0 <= x < before.width,
        0 <= y < before.height,
        after.same_geometry(before),
        after.data@ == before.rgb24_set_bytes(x, y, p),
    ensures
        start.rgb24_padding_kept(after),
{
    let idx = before.rgb24_index(x, y);
    lemma_cell(before.line_width_bytes as int, before.height as int, y, before.porch_bytes + 3 * x + 2);
    assert(start.row_start(y) <= idx && idx + 2 < start.row_start(y) + rgb24_row_bytes(
        start.width as int,
    ));
}

impl Buff<PixelBW> for Buffer<PixelBW> {
    open spec fn inv(&self) -> bool {
        self.laid_out(bw_row_bytes(self.width as int))
    }

    open spec fn spec_width(&self) -> usize {
        self.width
    }

    open spec fn spec_height(&self) -> usize {
        self.height
    }

    open spec fn pixel(&self, x: int, y: int) -> PixelBW {
        self.bw_pixel(x, y)
    }

    fn set(&mut self, x: usize, y: usize, p: &PixelBW) -> (r: Result<(), BufferError>)
        ensures
            r is Ok ==> final(self).same_geometry(*old(self)) && final(self).data@ == old(self).bw_set_bytes(x as int, y as int, *p),
    {
        self.set_bw(x, y, p)
    }

    fn get(&self, x: usize, y: usize) -> (r: Result<PixelBW, BufferError>) {
        self.get_bw(x, y)
    }

    fn size(&self) -> (r: (usize, usize)) {
        (self.width, self.height)
    }

    fn clear(&mut self, p: &PixelBW)
        ensures
            old(self).bw_padding_kept(*final(self)),
    {
        proof {
            if forall|i: int, j: int|
                0 <= i < self.width && 0 <= j < self.height ==> #[trigger] self.pixel(i, j) == *p {
                assert forall|i: int, j: int|
                    0 <= i < self.width && 0 <= j < self.height implies #[trigger] self.bw_pixel(
                    i,
                    j,
                ) == *p by {
                    assert(self.pixel(i, j) == *p);
                }
            }
        }
        self.clear_bw(p)
    }
}


impl Buffer<PixelRGB24> {
    /// `after` has the geometry of `self`, and every byte of the store that
    /// holds no pixel (porch, trailer, bytes past the last row) keeps its value.
    pub open spec fn rgb24_padding_kept(self, after: Self) -> bool {
        &&& after.same_geometry(self)
        &&& forall|i: int|
            0 <= i < self.data@.len() && !self.in_pixel_rows(i, rgb24_row_bytes(self.width as int))
                ==> #[trigger] after.data@[i] == self.data@[i]
    }

    /// Index of the red byte of RGB24 pixel `(x, y)`; green and blue follow it.
    pub open spec fn rgb24_index(self, x: int, y: int) -> int {
        self.row_start(y) + 3 * x
    }

    /// RGB24 pixel `(x, y)`: the three bytes from its index.
    pub open spec fn rgb24_pixel(self, x: int, y: int) -> PixelRGB24 {
        let i = self.rgb24_index(x, y);
        PixelRGB24 { r: self.data@[i], g: self.data@[i + 1], b: self.data@[i + 2] }
    }

    /// The bytes after RGB24 pixel `(x, y)` is set to `p`.
    pub open spec fn rgb24_set_bytes(self, x: int, y: int, p: PixelRGB24) -> Seq<u8> {
        let i = self.rgb24_index(x, y);
        self.data@.update(i, p.r).update(i + 1, p.g).update(i + 2, p.b)
    }

    /// RGB24 buffer over `data`; fails when `data` cannot hold
    /// `height` rows of `porch_bytes + 3 * width + trailer_bytes` bytes.
    pub fn new(
        width: usize,
        height: usize,
        porch_bytes: usize,
        trailer_bytes: usize,
        data: Vec<u8>,
    ) -> (r: Result<Self, BufferError>)
        ensures
            r is Ok <==> porch_bytes + rgb24_row_bytes(width as int) + trailer_bytes <= usize::MAX
                && (porch_bytes + rgb24_row_bytes(width as int) + trailer_bytes) * height
                <= data@.len(),
            r is Err ==> r == Err::<Self, BufferError>(BufferError::SizeMismatch),
            r matches Ok(b) ==> b.inv() && b.width == width && b.height == height && b.porch_bytes
                == porch_bytes && b.trailer_bytes == trailer_bytes && b.data@ == data@,
    {
        Self::new_rgb24(width, height, porch_bytes, trailer_bytes, data)
    }

    /// RGB24 buffer over `data`, as `new`.
    pub fn new_rgb24(
        width: usize,
        height: usize,
        porch_bytes: usize,
        trailer_bytes: usize,
        data: Vec<u8>,
    ) -> (r: Result<Self, BufferError>)
        ensures
            r is Ok <==> porch_bytes + rgb24_row_bytes(width as int) + trailer_bytes <= usize::MAX
                && (porch_bytes + rgb24_row_bytes(width as int) + trailer_bytes) * height
                <= data@.len(),
            r is Err ==> r == Err::<Self, BufferError>(BufferError::SizeMismatch),
            r matches Ok(b) ==> b.inv() && b.width == width && b.height == height && b.porch_bytes
                == porch_bytes && b.trailer_bytes == trailer_bytes && b.data@ == data@,
    {
        let len = data.len();
        let row = match width.checked_mul(3) {
            Some(v) => v,
            None => return Err(BufferError::SizeMismatch),
        };
        let line = match porch_bytes.checked_add(row) {
            Some(v) => match v.checked_add(trailer_bytes) {
                Some(l) => l,
                None => return Err(BufferError::SizeMismatch),
            },
            None => return Err(BufferError::SizeMismatch),
        };
        let total = match line.checked_mul(height) {
            Some(t) => t,
            None => return Err(BufferError::SizeMismatch),
        };
        if len < total {
            return Err(BufferError::SizeMismatch);
        }
        Ok(Buffer {
            width,
            height,
            porch_bytes,
            trailer_bytes,
            line_width_bytes: line,
            data,
            format: PhantomData,
        })
    }

    /// Writes RGB24 pixel `(x, y)` as its red, green and blue bytes.
    pub fn set_rgb24(&mut self, x: usize, y: usize, p: &PixelRGB24) -> (r: Result<
        (),
        BufferError,
    >)
        requires
            old(self).inv(),
        ensures
            final(self).inv(),
            r == (if x < old(self).width && y < old(self).height {
                Ok(())
            } else {
                Err(BufferError::OutOfRange)
            }),
            r is Ok ==> forall|i: int, j: int|
                0 <= i < old(self).width && 0 <= j < old(self).height
                    ==> #[trigger] final(self).rgb24_pixel(i, j) == (if i == x && j == y {
                    *p
                } else {
                    old(self).rgb24_pixel(i, j)
                }),
            r is Ok ==> final(self).same_geometry(*old(self)) && final(self).data@ == old(self).rgb24_set_bytes(x as int, y as int, *p),
            r is Err ==> *final(self) == *old(self),
            old(self).rgb24_pixel(x as int, y as int) == *p ==> *final(self) == *old(self),
    {
        if x >= self.width || y >= self.height {
            return Err(BufferError::OutOfRange);
        }
        proof {
            lemma_cell(
                self.line_width_bytes as int,
                self.height as int,
                y as int,
                self.porch_bytes + 3 * x + 2,
            );
        }
        let len = self.data.len();
        let index = self.line_width_bytes * y + self.porch_bytes + x * 3;
        let current = PixelRGB24 {
            r: self.data[index],
            g: self.data[index + 1],
            b: self.data[index + 2],
        };
        if current == *p {
            assert(self.data@ =~= self.rgb24_set_bytes(x as int, y as int, *p));
            return Ok(());
        }
        let ghost before = *self;
        self.data.set(index, p.r);
        self.data.set(index + 1, p.g);
        self.data.set(index + 2, p.b);
        proof {
            assert(self.data@ =~= before.rgb24_set_bytes(x as int, y as int, *p));
            assert forall|i: int, j: int|
                0 <= i < before.width && 0 <= j < before.height implies #[trigger] self.rgb24_pixel(
                i,
                j,
            ) == (if i == x && j == y {
                *p
            } else {
                before.rgb24_pixel(i, j)
            }) by {
                if j < y {
                    lemma_row_order(before.line_width_bytes as int, j, y as int);
                } else if y < j {
                    lemma_row_order(before.line_width_bytes as int, y as int, j);
                }
                lemma_cell(
                    before.line_width_bytes as int,
                    before.height as int,
                    j,
                    before.porch_bytes + 3 * i + 2,
                );
            }
        }
        Ok(())
    }

    /// Reads RGB24 pixel `(x, y)`.
    pub fn get_rgb24(&self, x: usize, y: usize) -> (r: Result<PixelRGB24, BufferError>)
        requires
            self.inv(),
        ensures
            r == (if x < self.width && y < self.height {
                Ok(self.rgb24_pixel(x as int, y as int))
            } else {
                Err(BufferError::OutOfRange)
            }),
    {
        if x >= self.width || y >= self.height {
            return Err(BufferError::OutOfRange);
        }
        proof {
            lemma_cell(
                self.line_width_bytes as int,
                self.height as int,
                y as int,
                self.porch_bytes + 3 * x + 2,
            );
        }
        let len = self.data.len();
        let index = self.line_width_bytes * y + self.porch_bytes + x * 3;
        Ok(PixelRGB24 { r: self.data[index], g: self.data[index + 1], b: self.data[index + 2] })
    }

    /// Sets every RGB24 pixel to `p`, row by row.
    pub fn clear_rgb24(&mut self, p: &PixelRGB24)
        requires
            old(self).inv(),
        ensures
            final(self).inv(),
            final(self).width == old(self).width,
            final(self).height == old(self).height,
            forall|i: int, j: int|
                0 <= i < old(self).width && 0 <= j < old(self).height
                    ==> #[trigger] final(self).rgb24_pixel(i, j) == *p,
            (forall|i: int, j: int|
                0 <= i < old(self).width && 0 <= j < old(self).height
                    ==> #[trigger] old(self).rgb24_pixel(i, j) == *p) ==> *final(self) == *old(self),
            old(self).rgb24_padding_kept(*final(self)),
    {
        let w = self.width;
        let h = self.height;
        let ghost start = *self;
        let mut y: usize = 0;
        while y < h
            invariant
                start == *old(self),
                self.inv(),
                self.width == w && self.height == h,
                w == start.width && h == start.height,
                y <= h,
                forall|i: int, j: int|
                    0 <= i < w && 0 <= j < h ==> #[trigger] self.rgb24_pixel(i, j) == (if j < y {
                        *p
                    } else {
                        start.rgb24_pixel(i, j)
                    }),
                (forall|i: int, j: int|
                    0 <= i < w && 0 <= j < h ==> #[trigger] start.rgb24_pixel(i, j) == *p)
                    ==> *self == start,
                start.rgb24_padding_kept(*self),
            decreases h - y,
        {
            let mut x: usize = 0;
            while x < w
                invariant
                    start == *old(self),
                    self.inv(),
                    self.width == w && self.height == h,
                    w == start.width && h == start.height,
                    y < h,
                    x <= w,
                    forall|i: int, j: int|
                        0 <= i < w && 0 <= j < h ==> #[trigger] self.rgb24_pixel(i, j) == (if j
                            < y || (j == y && i < x) {
                            *p
                        } else {
                            start.rgb24_pixel(i, j)
                        }),
                    (forall|i: int, j: int|
                        0 <= i < w && 0 <= j < h ==> #[trigger] start.rgb24_pixel(i, j) == *p)
                        ==> *self == start,
                    start.rgb24_padding_kept(*self),
                decreases w - x,
            {
                let ghost before = *self;
                let _ = self.set_rgb24(x, y, p);
                proof {
                    if *self != before {
                        lemma_rgb24_set_keeps_padding(start, before, *self, x as int, y as int, *p);
                    }
                }
                x = x + 1;
            }
            y = y + 1;
        }
    }
}

impl Buff<PixelRGB24> for Buffer<PixelRGB24> {
    open spec fn inv(&self) -> bool {
        self.laid_out(rgb24_row_bytes(self.width as int))
    }

    open spec fn spec_width(&self) -> usize {
        self.width
    }

    open spec fn spec_height(&self) -> usize {
        self.height
    }

    open spec fn pixel(&self, x: int, y: int) -> PixelRGB24 {
        self.rgb24_pixel(x, y)
    }

    fn set(&mut self, x: usize, y: usize, p: &PixelRGB24) -> (r: Result<(), BufferError>)
        ensures
            r is Ok ==> final(self).same_geometry(*old(self)) && final(self).data@ == old(self).rgb24_set_bytes(x as int, y as int, *p),
    {
        self.set_rgb24(x, y, p)
    }

    fn get(&self, x: usize, y: usize) -> (r: Result<PixelRGB24, BufferError>) {
        self.get_rgb24(x, y)
    }

    fn size(&self) -> (r: (usize, usize)) {
        (self.width, self.height)
    }

    fn clear(&mut self, p: &PixelRGB24)
        ensures
            old(self).rgb24_padding_kept(*final(self)),
    {
        proof {
            if forall|i: int, j: int|
                0 <= i < self.width && 0 <= j < self.height ==> #[trigger] self.pixel(i, j) == *p {
                assert forall|i: int, j: int|
                    0 <= i < self.width && 0 <= j < self.height implies #[trigger] self.rgb24_pixel(
                    i,
                    j,
                ) == *p by {
                    assert(self.pixel(i, j) == *p);
                }
            }
        }
        self.clear_rgb24(p)
    }
}

/// Setting a monochrome pixel of row `y` changes no byte outside the pixel
/// bytes of row `y`: other rows, and the porch and trailer of row `y`, keep
/// their values.
pub proof fn lemma_bw_set_stays_in_row(b: Buffer<PixelBW>, x: int, y: int, p: bool, i: int)
    requires
        b.inv(),
        0 <= x < b.width,
        0 <= y < b.height,
        0 <= i < b.data@.len(),
        !(b.row_start(y) <= i < b.row_start(y) + bw_row_bytes(b.width as int)),
    ensures
        b.bw_set_bytes(x, y, p)[i] == b.data@[i],
{
    lemma_cell(b.line_width_bytes as int, b.height as int, y, b.porch_bytes + x / 8);
}

/// Setting an RGB24 pixel of row `y` changes no byte outside the pixel bytes
/// of row `y`: other rows, and the porch and trailer of row `y`, keep their
/// values.
pub proof fn lemma_rgb24_set_stays_in_row(
    b: Buffer<PixelRGB24>,
    x: int,
    y: int,
    p: PixelRGB24,
    i: int,
)
    requires
        b.inv(),
        0 <= x < b.width,
        0 <= y < b.height,
        0 <= i < b.data@.len(),
        !(b.row_start(y) <= i < b.row_start(y) + rgb24_row_bytes(b.width as int)),
    ensures
        b.rgb24_set_bytes(x, y, p)[i] == b.data@[i],
{
    lemma_cell(b.line_width_bytes as int, b.height as int, y, b.porch_bytes + 3 * x + 2);
}

} // verus!
