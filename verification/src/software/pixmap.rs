//! The pixmaps and masks of `tiny_skia`.
//!
//! The functions here call into that crate and say, over the bytes and the
//! dimensions of a pixmap or mask, what the calls do.
use vstd::prelude::*;

verus! {

/// A pixmap of `tiny_skia`: premultiplied pixels of four bytes.
#[verifier::external_type_specification]
#[verifier::external_body]
pub struct ExPixmap(tiny_skia::Pixmap);

/// A mask of `tiny_skia`: one byte for each pixel.
#[verifier::external_type_specification]
#[verifier::external_body]
pub struct ExMask(tiny_skia::Mask);

/// The bytes of a pixmap, row by row.
pub uninterp spec fn pixmap_bytes(pixmap: tiny_skia::Pixmap) -> Seq<u8>;

/// The width and the height of a pixmap, in pixels.
pub uninterp spec fn pixmap_dimensions(pixmap: tiny_skia::Pixmap) -> (u32, u32);

/// The bytes of a mask, row by row.
pub uninterp spec fn mask_bytes(mask: tiny_skia::Mask) -> Seq<u8>;

/// The width and the height of a mask, in pixels.
pub uninterp spec fn mask_dimensions(mask: tiny_skia::Mask) -> (u32, u32);

/// `n` zeros.
pub open spec fn zeros(n: int) -> Seq<u8> {
    Seq::new(n as nat, |i: int| 0u8)
}

/// Whether a pixmap of the given dimensions can be allocated: neither is zero, a
/// row has no more bytes than an `i32` can count, and the pixels no more than an
/// `isize` can.
pub open spec fn can_allocate(width: u32, height: u32) -> bool {
    &&& 1 <= width
    &&& 1 <= height
    &&& width * 4 <= i32::MAX
    &&& width * height * 4 <= isize::MAX
}

/// Calls `tiny_skia::Pixmap::new`: allocates a pixmap of transparent pixels. It
/// comes to nothing if a dimension is zero or a row has more bytes than an `i32` can
/// count.
#[verifier::external_body]
pub(crate) fn new_pixmap(width: u32, height: u32) -> (r: Option<tiny_skia::Pixmap>)
    requires
        width * height * 4 <= isize::MAX,
    ensures
        r is Some <==> can_allocate(width, height),
        r matches Some(pixmap) ==> (pixmap_dimensions(pixmap) == (width, height) && pixmap_bytes(
            pixmap,
        ) == zeros(width * height * 4)),
{
    tiny_skia::Pixmap::new(width, height)
}

/// Calls `tiny_skia::Pixmap::fill` with `tiny_skia::Color::TRANSPARENT`: makes every
/// pixel transparent.
#[verifier::external_body]
pub(crate) fn clear_pixmap(pixmap: &mut tiny_skia::Pixmap)
    ensures
        pixmap_dimensions(*final(pixmap)) == pixmap_dimensions(*old(pixmap)),
        pixmap_bytes(*final(pixmap)) == zeros(pixmap_bytes(*old(pixmap)).len() as int),
{
    pixmap.fill(tiny_skia::Color::TRANSPARENT);
}

/// Calls `tiny_skia::Mask::new`: allocates a mask that lets nothing through. It
/// comes to nothing if a dimension is zero.
#[verifier::external_body]
pub(crate) fn new_mask(width: u32, height: u32) -> (r: Option<tiny_skia::Mask>)
    requires
        width * height <= isize::MAX,
    ensures
        r is Some <==> (1 <= width && 1 <= height),
        r matches Some(mask) ==> (mask_dimensions(mask) == (width, height) && mask_bytes(mask)
            == zeros(width * height)),
{
    tiny_skia::Mask::new(width, height)
}

} // verus!
