//! The pixel buffer that a frame is painted into.

use crate::geometry::Position;
use vstd::prelude::*;

verus! {

/// Bytes that one pixel takes: red, green, blue, alpha.
pub const BYTES_PER_PIXEL: usize = 4;

/// What a canvas holds: its size in pixels and its bytes, row after row,
/// four bytes to a pixel.
pub struct Frame {
    pub width: nat,
    pub height: nat,
    pub bytes: Seq<u8>,
}

/// The grid position of the pixel with the given row-major index on a canvas
/// of the given width.
pub open spec fn position_of(index: int, width: nat) -> Position {
    ((index % width as int) as u32, (index / width as int) as u32)
}

/// The row-major index of the pixel at a grid position on a canvas of the
/// given width.
pub open spec fn index_of(at: Position, width: nat) -> int {
    at.1 * width + at.0
}

impl Frame {
    /// The number of pixels.
    pub open spec fn pixel_count(self) -> nat {
        self.width * self.height
    }

    /// The buffer has exactly four bytes for each pixel.
    pub open spec fn well_formed(self) -> bool {
        self.bytes.len() == self.pixel_count() * 4
    }

    /// Whether a grid position lies on the canvas.
    pub open spec fn contains(self, at: Position) -> bool {
        at.0 < self.width && at.1 < self.height
    }

    /// The four bytes of the pixel with the given row-major index.
    pub open spec fn pixel(self, index: int) -> Seq<u8> {
        self.bytes.subrange(4 * index, 4 * index + 4)
    }

    /// The frame with the pixel of the given index replaced and every other
    /// byte kept.
    pub open spec fn with_pixel(self, index: int, pixel: Seq<u8>) -> Frame {
        Frame {
            width: self.width,
            height: self.height,
            bytes: Seq::new(
                self.bytes.len(),
                |k: int|
                    if 4 * index <= k < 4 * index + 4 {
                        pixel[k - 4 * index]
                    } else {
                        self.bytes[k]
                    },
            ),
        }
    }
}

/// A position on a grid of the given width has the index that
/// `index_of` gives it, and that index leads back to the position.
pub proof fn lemma_index_round_trip(at: Position, width: nat, height: nat)
    requires
        at.0 < width,
        at.1 < height,
    ensures
        0 <= index_of(at, width) < width * height,
        position_of(index_of(at, width), width) == at,
{
    let x = at.0 as int;
    let y = at.1 as int;
    let w = width as int;
    vstd::arithmetic::div_mod::lemma_fundamental_div_mod_converse(y * w + x, w, y, x);
    assert(y * w + x < w * height) by (nonlinear_arith)
        requires
            0 <= x < w,
            0 <= y < height,
    ;
    assert(0 <= y * w) by (nonlinear_arith)
        requires
            0 <= y,
            0 <= w,
    ;
}

/// A canvas of a fixed size, four bytes per pixel in the order red, green,
/// blue, alpha, rows from top to bottom and each row from left to right.
pub struct Canvas {
    width: u32,
    height: u32,
    pixels: Vec<u8>,
}

impl View for Canvas {
    type V = Frame;

    closed spec fn view(&self) -> Frame {
        Frame { width: self.width as nat, height: self.height as nat, bytes: self.pixels@ }
    }
}

impl Canvas {
    #[verifier::type_invariant]
    spec fn sized(self) -> bool {
        self.pixels@.len() == self.width as nat * self.height as nat * 4
    }

    /// A canvas of the given size with every byte zero, or `None` when its
    /// bytes would be more than memory can address.
    pub fn new(width: u32, height: u32) -> (canvas: Option<Canvas>)
        ensures
            canvas is Some <==> width * height * 4 <= usize::MAX,
            canvas matches Some(c) ==> c@ == (Frame {
                width: width as nat,
                height: height as nat,
                bytes: Seq::new((width * height * 4) as nat, |k: int| 0u8),
            }),
    {
        assert(width * height <= 0xffff_ffff * 0xffff_ffff) by (nonlinear_arith)
            requires
                width <= 0xffff_ffff,
                height <= 0xffff_ffff,
        ;
        let total: u128 = (width as u128) * (height as u128) * 4;
        if total > usize::MAX as u128 {
            return None;
        }
        let pixels: Vec<u8> = vec![0u8; total as usize];
        assert(pixels@ =~= Seq::new((width * height * 4) as nat, |k: int| 0u8));
        Some(Canvas { width, height, pixels })
    }

    /// The width in pixels.
    pub fn width(&self) -> (width: u32)
        ensures
            width == self@.width,
    {
        self.width
    }

    /// The height in pixels.
    pub fn height(&self) -> (height: u32)
        ensures
            height == self@.height,
    {
        self.height
    }

    /// The number of pixels. The buffer holds four bytes for each.
    pub fn pixel_count(&self) -> (count: usize)
        ensures
            count == self@.pixel_count(),
            self@.well_formed(),
    {
        proof {
            use_type_invariant(self);
        }
        self.pixels.len() / BYTES_PER_PIXEL
    }

    /// The whole buffer.
    pub fn as_bytes(&self) -> (bytes: &[u8])
        ensures
            bytes@ == self@.bytes,
            self@.well_formed(),
    {
        proof {
            use_type_invariant(self);
        }
        self.pixels.as_slice()
    }

    /// The pixel at column `x` of row `y`, or `None` off the canvas.
    pub fn pixel(&self, x: u32, y: u32) -> (pixel: Option<[u8; 4]>)
        ensures
            pixel is Some <==> self@.contains((x, y)),
            pixel matches Some(p) ==> p@ == self@.pixel(index_of((x, y), self@.width)),
    {
        if x >= self.width || y >= self.height {
            return None;
        }
        proof {
            use_type_invariant(self);
            lemma_index_round_trip((x, y), self.width as nat, self.height as nat);
            assert(0 <= y * self.width <= y * self.width + x) by (nonlinear_arith);
            assert((y * self.width + x) * 4 < self.pixels.len());
        }
        let index: usize = y as usize * self.width as usize + x as usize;
        let base: usize = index * BYTES_PER_PIXEL;
        let p: [u8; 4] = [
            self.pixels[base],
            self.pixels[base + 1],
            self.pixels[base + 2],
            self.pixels[base + 3],
        ];
        assert(p@ =~= self@.pixel(index as int));
        Some(p)
    }

    /// Overwrites the pixel with the given row-major index.
    pub fn put(&mut self, index: usize, pixel: [u8; 4])
        requires
            index < old(self)@.pixel_count(),
        ensures
            final(self)@ == old(self)@.with_pixel(index as int, pixel@),
    {
        proof {
            use_type_invariant(&*self);
            assert(index * 4 < self.pixels.len());
        }
        let base: usize = index * BYTES_PER_PIXEL;
        self.pixels[base] = pixel[0];
        self.pixels[base + 1] = pixel[1];
        self.pixels[base + 2] = pixel[2];
        self.pixels[base + 3] = pixel[3];
        assert(self.pixels@ =~= old(self)@.with_pixel(index as int, pixel@).bytes);
    }
}

} // verus!
