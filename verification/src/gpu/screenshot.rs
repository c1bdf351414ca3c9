//! Reading a rendered target back as pixels.
//!
//! The device copies a texture into a buffer with its rows aligned. The rows of the
//! pixels that are handed out follow each other without gaps.
use vstd::prelude::*;

use crate::geometry::Size;

verus! {

/// The alignment of the rows in a buffer that a texture is copied into, in bytes.
pub const ROW_ALIGNMENT: usize = 256;

/// The number of bytes of a pixel: red, green, blue and alpha.
pub const PIXEL_SIZE: usize = 4;

/// The layout of a buffer that a texture is copied into.
#[derive(Debug, Clone, Copy, PartialEq)]
pub struct BufferDimensions {
    /// The width of the texture, in pixels.
    pub width: u32,
    /// The height of the texture, in pixels.
    pub height: u32,
    /// The number of bytes of a row that hold pixels.
    pub unpadded_bytes_per_row: usize,
    /// The number of bytes from one row to the next.
    pub padded_bytes_per_row: usize,
}

impl BufferDimensions {
    /// Rows hold their pixels, are aligned, and waste less than the alignment.
    pub open spec fn wf(self) -> bool {
        &&& self.unpadded_bytes_per_row == self.width * PIXEL_SIZE
        &&& self.unpadded_bytes_per_row <= self.padded_bytes_per_row
        &&& self.padded_bytes_per_row < self.unpadded_bytes_per_row + ROW_ALIGNMENT
        &&& self.padded_bytes_per_row as int % ROW_ALIGNMENT as int == 0
    }

    /// Computes the layout for a texture of the given size.
    pub fn new(size: Size<u32>) -> (r: BufferDimensions)
        requires
            size.width * PIXEL_SIZE + ROW_ALIGNMENT <= usize::MAX,
        ensures
            r.wf(),
            r.width == size.width,
            r.height == size.height,
    {
        let unpadded_bytes_per_row: usize = size.width as usize * PIXEL_SIZE;
        let padding: usize = (ROW_ALIGNMENT - unpadded_bytes_per_row % ROW_ALIGNMENT)
            % ROW_ALIGNMENT;
        BufferDimensions {
            width: size.width,
            height: size.height,
            unpadded_bytes_per_row,
            padded_bytes_per_row: unpadded_bytes_per_row + padding,
        }
    }

    /// Returns the number of bytes of the buffer.
    pub fn buffer_size(&self) -> (r: u64)
        requires
            self.padded_bytes_per_row * self.height <= usize::MAX,
        ensures
            r == self.padded_bytes_per_row * self.height,
    {
        (self.padded_bytes_per_row * self.height as usize) as u64
    }
}

/// The first `unpadded` bytes of each of the first `n` rows.
pub open spec fn rows(bytes: Seq<u8>, padded: int, unpadded: int, n: int) -> Seq<u8>
    decreases n,
{
    if n <= 0 {
        Seq::empty()
    } else {
        rows(bytes, padded, unpadded, n - 1) + bytes.subrange(
            (n - 1) * padded,
            (n - 1) * padded + unpadded,
        )
    }
}

proof fn lemma_row_in_bounds(padded: int, unpadded: int, height: int, y: int)
    requires
        0 <= y < height,
        0 <= unpadded <= padded,
    ensures
        0 <= y * padded,
        y * padded + unpadded <= height * padded,
        (y + 1) * padded == y * padded + padded,
        (y + 1) * padded <= height * padded,
{
    assert(0 <= y * padded && (y + 1) * padded == y * padded + padded && (y + 1) * padded <= height
        * padded) by (nonlinear_arith)
        requires
            0 <= y < height,
            0 <= padded,
    ;
}

/// Takes the padding out of the bytes of a buffer with the given layout.
pub fn unpad(bytes: &[u8], dimensions: BufferDimensions) -> (r: Vec<u8>)
    requires
        dimensions.wf(),
        bytes@.len() == dimensions.height * dimensions.padded_bytes_per_row,
    ensures
        r@ == rows(
            bytes@,
            dimensions.padded_bytes_per_row as int,
            dimensions.unpadded_bytes_per_row as int,
            dimensions.height as int,
        ),
{
    let padded: usize = dimensions.padded_bytes_per_row;
    let unpadded: usize = dimensions.unpadded_bytes_per_row;
    let height: u32 = dimensions.height;
    let len: usize = bytes.len();
    let mut pixels: Vec<u8> = Vec::new();
    let mut start: usize = 0;
    let mut y: u32 = 0;
    while y < height
        invariant
            y <= height,
            unpadded <= padded,
            len == bytes@.len(),
            bytes@.len() == height * padded,
            start == y * padded,
            pixels@ == rows(bytes@, padded as int, unpadded as int, y as int),
        decreases height - y,
    {
        proof {
            lemma_row_in_bounds(padded as int, unpadded as int, height as int, y as int);
        }
        let ghost before = pixels@;
        let mut x: usize = 0;
        assert(pixels@ =~= before + bytes@.subrange(start as int, start as int));
        while x < unpadded
            invariant
                x <= unpadded,
                start + unpadded <= len,
                len == bytes@.len(),
                pixels@ == before + bytes@.subrange(start as int, start + x),
            decreases unpadded - x,
        {
            pixels.push(bytes[start + x]);
            x = x + 1;
            assert(pixels@ =~= before + bytes@.subrange(start as int, start + x));
        }
        start = start + padded;
        y = y + 1;
    }
    pixels
}

/// Byte `x` of row `y` of the pixels is byte `x` of row `y` of the buffer.
pub proof fn law_unpad_keeps_every_pixel(
    bytes: Seq<u8>,
    padded: int,
    unpadded: int,
    n: int,
    x: int,
    y: int,
)
    requires
        0 <= unpadded <= padded,
        0 <= n,
        bytes.len() >= n * padded,
        0 <= x < unpadded,
        0 <= y < n,
    ensures
        rows(bytes, padded, unpadded, n).len() == n * unpadded,
        rows(bytes, padded, unpadded, n)[y * unpadded + x] == bytes[y * padded + x],
    decreases n,
{
    lemma_rows_len(bytes, padded, unpadded, n);
    lemma_row_in_bounds(padded, unpadded, n, n - 1);
    lemma_rows_len(bytes, padded, unpadded, n - 1);
    lemma_row_in_bounds(unpadded, unpadded, n, y);
    if y < n - 1 {
        assert((n - 1) * padded <= n * padded);
        lemma_row_in_bounds(unpadded, unpadded, n - 1, y);
        law_unpad_keeps_every_pixel(bytes, padded, unpadded, n - 1, x, y);
    }
}

proof fn lemma_rows_len(bytes: Seq<u8>, padded: int, unpadded: int, n: int)
    requires
        0 <= unpadded <= padded,
        0 <= n,
        bytes.len() >= n * padded,
    ensures
        rows(bytes, padded, unpadded, n).len() == n * unpadded,
    decreases n,
{
    if n > 0 {
        lemma_row_in_bounds(padded, unpadded, n, n - 1);
        lemma_row_in_bounds(unpadded, unpadded, n, n - 1);
        lemma_rows_len(bytes, padded, unpadded, n - 1);
    } else {
        assert(n * unpadded == 0) by (nonlinear_arith)
            requires
                n == 0,
        ;
    }
}

/// A row takes up the least multiple of the alignment that holds its pixels.
pub proof fn law_rows_are_padded_to_the_next_multiple(dimensions: BufferDimensions, other: int)
    requires
        dimensions.wf(),
        0 <= other,
        other % 256 == 0,
        other >= 4 * dimensions.width,
    ensures
        dimensions.unpadded_bytes_per_row == 4 * dimensions.width,
        dimensions.padded_bytes_per_row >= 4 * dimensions.width,
        dimensions.padded_bytes_per_row as int % 256 == 0,
        dimensions.padded_bytes_per_row <= other,
{
}

} // verus!
