//! How large the textures behind caches are allocated.
//!
//! Each dimension grows geometrically, so that a cache whose contents grow a pixel
//! at a time gets a new texture only when a dimension has doubled.
use vstd::arithmetic::power2::is_pow2;
use vstd::prelude::*;

use crate::geometry::Size;

verus! {

/// The smallest extent of a texture, in physical pixels.
pub const MIN_CAPACITY: u32 = 128;

/// The largest extent that has a power of two above it.
pub const MAX_EXTENT: u32 = 0x8000_0000;

/// Whether `t` is the smallest power of two that is at least `n`.
pub open spec fn is_smallest_power(t: int, n: int) -> bool {
    &&& is_pow2(t)
    &&& n <= t
    &&& forall|u: int| #[trigger] is_pow2(u) && n <= u ==> t <= u
}

/// The larger of two extents.
pub open spec fn larger(a: int, b: int) -> int {
    if a < b {
        b
    } else {
        a
    }
}

/// Whether `r` is the extent to allocate for contents of extent `needed`, given
/// that the existing texture, if any, has extent `current`: the smallest power of
/// two that holds the contents and [`MIN_CAPACITY`], but never less than `current`.
pub open spec fn is_grown(r: int, needed: int, current: int) -> bool {
    exists|t: int| #[trigger]
        is_smallest_power(t, larger(needed, MIN_CAPACITY as int)) && r == larger(t, current)
}

/// Whether a texture of extent `capacity` holds contents of extent `contents`.
pub open spec fn holds(capacity: Size<u32>, contents: Size<u32>) -> bool {
    capacity.width >= contents.width && capacity.height >= contents.height
}

proof fn lemma_doubled_power(p: int)
    requires
        is_pow2(p),
    ensures
        is_pow2(2 * p),
{
    reveal_with_fuel(is_pow2, 2);
    assert((2 * p) / 2 == p && (2 * p) % 2 == 0);
}

/// Between a power of two and its double there is no other.
proof fn lemma_power_gap(u: int, q: int)
    requires
        is_pow2(u),
        is_pow2(q),
        q < u,
    ensures
        2 * q <= u,
    decreases q,
{
    reveal_with_fuel(is_pow2, 2);
    if q > 1 {
        lemma_power_gap(u / 2, q / 2);
    }
}

proof fn lemma_smallest_power(p: int, n: int)
    requires
        is_pow2(p),
        n <= p,
        exists|q: int| #[trigger] is_pow2(q) && 2 * q == p && q < n,
    ensures
        is_smallest_power(p, n),
{
    let q = choose|q: int| #[trigger] is_pow2(q) && 2 * q == p && q < n;
    assert forall|u: int| #[trigger] is_pow2(u) && n <= u implies p <= u by {
        lemma_power_gap(u, q);
    }
}

/// Returns the extent to allocate for contents of extent `needed`: the smallest
/// power of two that is at least `needed` and [`MIN_CAPACITY`], but never less than
/// `current`, so that resizing back and forth does not reallocate every time.
pub fn grow_capacity(needed: u32, current: u32) -> (r: u32)
    requires
        needed <= MAX_EXTENT,
    ensures
        is_grown(r as int, needed as int, current as int),
{
    let least: u32 = if needed < MIN_CAPACITY {
        MIN_CAPACITY
    } else {
        needed
    };
    let mut target: u32 = MIN_CAPACITY;
    proof {
        reveal_with_fuel(is_pow2, 9);
        assert(is_pow2(128));
        assert(is_pow2(64));
        lemma_smallest_power(128, 128);
    }
    while target < least
        invariant
            is_pow2(target as int),
            MIN_CAPACITY <= target <= MAX_EXTENT,
            MIN_CAPACITY <= least <= MAX_EXTENT,
            target >= least ==> is_smallest_power(target as int, least as int),
        decreases MAX_EXTENT - target,
    {
        proof {
            lemma_doubled_power(target as int);
            assert(target < MAX_EXTENT);
            assert(is_pow2(0x8000_0000)) by {
                reveal_with_fuel(is_pow2, 33);
            }
            lemma_power_gap(0x8000_0000, target as int);
            if 2 * target >= least {
                lemma_smallest_power(2 * target, least as int);
            }
        }
        target = target * 2;
    }
    assert(least as int == larger(needed as int, MIN_CAPACITY as int));
    if target < current {
        current
    } else {
        target
    }
}

/// Grows both dimensions.
pub fn grow(contents: Size<u32>, current: Size<u32>) -> (r: Size<u32>)
    requires
        contents.width <= MAX_EXTENT,
        contents.height <= MAX_EXTENT,
    ensures
        is_grown(r.width as int, contents.width as int, current.width as int),
        is_grown(r.height as int, contents.height as int, current.height as int),
{
    Size {
        width: grow_capacity(contents.width, current.width),
        height: grow_capacity(contents.height, current.height),
    }
}

/// The contract of [`grow_capacity`] leaves one result.
pub proof fn law_grown_is_unique(a: int, b: int, needed: int, current: int)
    requires
        is_grown(a, needed, current),
        is_grown(b, needed, current),
    ensures
        a == b,
{
    let n = larger(needed, MIN_CAPACITY as int);
    let t = choose|t: int| #[trigger] is_smallest_power(t, n) && a == larger(t, current);
    let u = choose|u: int| #[trigger] is_smallest_power(u, n) && b == larger(u, current);
    assert(t <= u && u <= t);
}

/// A grown extent holds the contents, has at least [`MIN_CAPACITY`] pixels and is
/// not smaller than the texture it replaces. Where it is larger than that texture,
/// it wastes less than half of itself.
pub proof fn law_grown_holds_the_contents(r: int, needed: int, current: int)
    requires
        is_grown(r, needed, current),
        0 <= needed,
        0 <= current,
    ensures
        needed <= r,
        MIN_CAPACITY <= r,
        current <= r,
        r == current || r < 2 * larger(needed, MIN_CAPACITY as int),
{
    let n = larger(needed, MIN_CAPACITY as int);
    let t = choose|t: int| #[trigger] is_smallest_power(t, n) && r == larger(t, current);
    if t >= 2 * n {
        reveal_with_fuel(is_pow2, 2);
        assert(is_pow2(t / 2));
        assert(false);
    }
}

/// An extent that grows from a power of two (or from nothing) is a power of two.
pub proof fn law_grown_is_a_power_of_two(r: int, needed: int, current: int)
    requires
        is_grown(r, needed, current),
        current == 0 || is_pow2(current),
    ensures
        is_pow2(r),
{
    let n = larger(needed, MIN_CAPACITY as int);
    let t = choose|t: int| #[trigger] is_smallest_power(t, n) && r == larger(t, current);
}

/// Contents that have no texture yet get one of the least extent if that holds them,
/// and else one that is less than twice as large.
pub proof fn law_first_textures_are_small(r: int, needed: int)
    requires
        is_grown(r, needed, 0),
        0 <= needed,
    ensures
        needed <= MIN_CAPACITY ==> r == MIN_CAPACITY,
        needed > MIN_CAPACITY ==> r < 2 * needed,
{
    law_grown_holds_the_contents(r, needed, 0);
    let n = larger(needed, MIN_CAPACITY as int);
    let t = choose|t: int| #[trigger] is_smallest_power(t, n) && r == larger(t, 0);
    if needed <= MIN_CAPACITY {
        reveal_with_fuel(is_pow2, 9);
        assert(is_pow2(128));
    }
}

/// An extent that no longer holds its contents at least doubles.
pub proof fn law_reallocation_doubles(r: int, needed: int, current: int)
    requires
        is_grown(r, needed, current),
        is_pow2(current),
        current < needed,
    ensures
        2 * current <= r,
{
    let n = larger(needed, MIN_CAPACITY as int);
    let t = choose|t: int| #[trigger] is_smallest_power(t, n) && r == larger(t, current);
    lemma_power_gap(t, current);
}

/// Contents that the existing texture holds do not change what is allocated.
pub proof fn law_grown_extent_is_kept(needed: int, current: int)
    requires
        is_pow2(current),
        MIN_CAPACITY <= current,
        needed <= current,
    ensures
        is_grown(current, needed, current),
{
    let n = larger(needed, MIN_CAPACITY as int);
    lemma_some_smallest(n, current);
}

proof fn lemma_some_smallest(n: int, p: int) -> (t: int)
    requires
        0 < n <= p,
        is_pow2(p),
    ensures
        is_smallest_power(t, n),
        t <= p,
    decreases p,
{
    reveal_with_fuel(is_pow2, 2);
    if p > 1 && n <= p / 2 {
        lemma_some_smallest(n, p / 2)
    } else {
        assert forall|u: int| #[trigger] is_pow2(u) && n <= u implies p <= u by {
            if u < p {
                lemma_power_gap(p, u);
                assert(2 * u <= p);
                assert(p > 1);
                assert(u <= p / 2);
            }
        }
        p
    }
}

} // verus!
