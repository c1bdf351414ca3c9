//! Geometry and color values.
//!
//! Single-precision numbers are carried through the library as their bit
//! patterns ([`Scalar`]). The library never does arithmetic on them; a drawing
//! backend turns them back into floats where it rasterizes.
use vstd::prelude::*;

verus! {

/// A single-precision float, held as its IEEE 754 bit pattern.
#[derive(Debug, Clone, Copy, PartialEq, Eq, Hash, Structural)]
pub struct Scalar {
    /// The bits of the number, as `f32::to_bits` gives them.
    pub bits: u32,
}

/// The bits of `1.0`.
pub const ONE_BITS: u32 = 0x3f80_0000;

/// The bits of positive infinity.
pub const INFINITY_BITS: u32 = 0x7f80_0000;

/// The bits of negative infinity.
pub const NEG_INFINITY_BITS: u32 = 0xff80_0000;

/// The bits of `16.0`.
pub const SIXTEEN_BITS: u32 = 0x4180_0000;

impl Scalar {
    /// The number `0.0`.
    pub open spec fn zero_spec() -> Scalar {
        Scalar { bits: 0 }
    }

    /// The number `1.0`.
    pub open spec fn one_spec() -> Scalar {
        Scalar { bits: ONE_BITS }
    }

    /// Returns `0.0`.
    pub fn zero() -> (r: Scalar)
        ensures
            r == Scalar::zero_spec(),
    {
        Scalar { bits: 0 }
    }

    /// Returns `1.0`.
    pub fn one() -> (r: Scalar)
        ensures
            r == Scalar::one_spec(),
    {
        Scalar { bits: ONE_BITS }
    }
}

/// A two-dimensional offset.
#[derive(Debug, Clone, Copy, PartialEq)]
pub struct Vector {
    pub x: Scalar,
    pub y: Scalar,
}

/// An extent in two dimensions.
#[derive(Debug, Copy, PartialEq)]
pub struct Size<T = Scalar> {
    pub width: T,
    pub height: T,
}

/// An axis-aligned rectangle.
#[derive(Debug, Copy, PartialEq)]
pub struct Rectangle<T = Scalar> {
    pub x: T,
    pub y: T,
    pub width: T,
    pub height: T,
}

impl<T: Copy> Clone for Size<T> {
    fn clone(&self) -> (r: Self)
        ensures
            r == *self,
    {
        *self
    }
}

impl<T: Copy> Clone for Rectangle<T> {
    fn clone(&self) -> (r: Self)
        ensures
            r == *self,
    {
        *self
    }
}

impl Size<u32> {
    /// Returns whether both extents agree.
    pub fn same(&self, other: &Size<u32>) -> (r: bool)
        ensures
            r == (*self == *other),
    {
        self.width == other.width && self.height == other.height
    }
}

impl Size<Scalar> {
    /// The empty size.
    pub open spec fn zero_spec() -> Size<Scalar> {
        Size { width: Scalar::zero_spec(), height: Scalar::zero_spec() }
    }

    /// Returns the empty size.
    pub fn zero() -> (r: Size<Scalar>)
        ensures
            r == Size::<Scalar>::zero_spec(),
    {
        Size { width: Scalar::zero(), height: Scalar::zero() }
    }
}

impl Rectangle<Scalar> {
    /// The rectangle of the given size with its corner at the origin.
    pub open spec fn with_size_spec(size: Size<Scalar>) -> Rectangle<Scalar> {
        Rectangle {
            x: Scalar::zero_spec(),
            y: Scalar::zero_spec(),
            width: size.width,
            height: size.height,
        }
    }

    /// Returns the rectangle of the given size with its corner at the origin.
    pub fn with_size(size: Size<Scalar>) -> (r: Rectangle<Scalar>)
        ensures
            r == Rectangle::with_size_spec(size),
    {
        Rectangle { x: Scalar::zero(), y: Scalar::zero(), width: size.width, height: size.height }
    }

    /// The rectangle that covers the whole plane: it starts at negative
    /// infinity and has infinite width and height.
    pub open spec fn infinite_spec() -> Rectangle<Scalar> {
        Rectangle {
            x: Scalar { bits: NEG_INFINITY_BITS },
            y: Scalar { bits: NEG_INFINITY_BITS },
            width: Scalar { bits: INFINITY_BITS },
            height: Scalar { bits: INFINITY_BITS },
        }
    }

    /// Returns the rectangle that covers the whole plane.
    pub fn infinite() -> (r: Rectangle<Scalar>)
        ensures
            r == Rectangle::<Scalar>::infinite_spec(),
    {
        Rectangle {
            x: Scalar { bits: NEG_INFINITY_BITS },
            y: Scalar { bits: NEG_INFINITY_BITS },
            width: Scalar { bits: INFINITY_BITS },
            height: Scalar { bits: INFINITY_BITS },
        }
    }
}

/// An affine transformation: a four by four matrix in column-major order.
#[derive(Debug, Clone, Copy, PartialEq)]
pub struct Transformation {
    pub matrix: [Scalar; 16],
}

impl Transformation {
    /// Whether the matrix translates by `(x, y)` and does nothing else.
    pub open spec fn is_translation(self, x: Scalar, y: Scalar) -> bool {
        forall|i: int|
            0 <= i < 16 ==> #[trigger] self.matrix@[i] == (if i == 12 {
                x
            } else if i == 13 {
                y
            } else if i % 5 == 0 {
                Scalar::one_spec()
            } else {
                Scalar::zero_spec()
            })
    }

    /// Whether the matrix leaves every point where it is.
    pub open spec fn is_identity(self) -> bool {
        self.is_translation(Scalar::zero_spec(), Scalar::zero_spec())
    }

    /// Returns the translation by `(x, y)`.
    pub fn translate(x: Scalar, y: Scalar) -> (r: Transformation)
        ensures
            r.is_translation(x, y),
    {
        let o = Scalar::zero();
        let i = Scalar::one();
        Transformation { matrix: [i, o, o, o, o, i, o, o, o, o, i, o, x, y, o, i] }
    }

    /// Returns the identity.
    pub fn identity() -> (r: Transformation)
        ensures
            r.is_identity(),
    {
        Transformation::translate(Scalar::zero(), Scalar::zero())
    }
}

/// A color in the sRGB color space.
#[derive(Debug, Clone, Copy, PartialEq)]
pub struct Color {
    pub r: Scalar,
    pub g: Scalar,
    pub b: Scalar,
    pub a: Scalar,
}

impl Color {
    /// Opaque black.
    pub open spec fn black_spec() -> Color {
        Color {
            r: Scalar::zero_spec(),
            g: Scalar::zero_spec(),
            b: Scalar::zero_spec(),
            a: Scalar::one_spec(),
        }
    }

    /// Fully transparent black.
    pub open spec fn transparent_spec() -> Color {
        Color {
            r: Scalar::zero_spec(),
            g: Scalar::zero_spec(),
            b: Scalar::zero_spec(),
            a: Scalar::zero_spec(),
        }
    }

    /// Returns opaque black.
    pub fn black() -> (r: Color)
        ensures
            r == Color::black_spec(),
    {
        Color { r: Scalar::zero(), g: Scalar::zero(), b: Scalar::zero(), a: Scalar::one() }
    }

    /// Returns fully transparent black.
    pub fn transparent() -> (r: Color)
        ensures
            r == Color::transparent_spec(),
    {
        Color { r: Scalar::zero(), g: Scalar::zero(), b: Scalar::zero(), a: Scalar::zero() }
    }
}

/// A translation moves by its last column and leaves everything else alone.
pub proof fn law_a_translation_is_in_the_last_column(
    transformation: Transformation,
    x: Scalar,
    y: Scalar,
    i: int,
)
    requires
        transformation.is_translation(x, y),
        0 <= i < 16,
    ensures
        transformation.matrix@[12] == x,
        transformation.matrix@[13] == y,
        i == 0 || i == 5 || i == 10 || i == 15 ==> transformation.matrix@[i].bits == 0x3f80_0000,
        i != 0 && i != 5 && i != 10 && i != 15 && i != 12 && i != 13
            ==> transformation.matrix@[i].bits == 0,
{
    assert(transformation.matrix@[12] == x);
    assert(transformation.matrix@[13] == y);
    assert(transformation.matrix@[i] == transformation.matrix@[i]);
}

/// A rectangle of a given size starts at the origin. The one that covers the plane
/// starts at negative infinity, in both directions, and has no end.
pub proof fn law_rectangles_start_where_they_should(size: Size<Scalar>)
    ensures
        Rectangle::with_size_spec(size).x.bits == 0,
        Rectangle::with_size_spec(size).y.bits == 0,
        Rectangle::with_size_spec(size).width == size.width,
        Rectangle::with_size_spec(size).height == size.height,
        Size::<Scalar>::zero_spec().width.bits == 0,
        Size::<Scalar>::zero_spec().height.bits == 0,
        Rectangle::<Scalar>::infinite_spec().x.bits == 0xff80_0000,
        Rectangle::<Scalar>::infinite_spec().y.bits == 0xff80_0000,
        Rectangle::<Scalar>::infinite_spec().width.bits == 0x7f80_0000,
        Rectangle::<Scalar>::infinite_spec().height.bits == 0x7f80_0000,
{
}

/// Black has no color and is opaque; what is transparent is not.
pub proof fn law_black_is_opaque()
    ensures
        Color::black_spec().r.bits == 0,
        Color::black_spec().g.bits == 0,
        Color::black_spec().b.bits == 0,
        Color::black_spec().a.bits == 0x3f80_0000,
        Color::transparent_spec().r.bits == 0,
        Color::transparent_spec().g.bits == 0,
        Color::transparent_spec().b.bits == 0,
        Color::transparent_spec().a.bits == 0,
{
}

} // verus!
