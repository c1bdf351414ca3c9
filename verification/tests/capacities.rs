use layer_compositor::geometry::Size;
use layer_compositor::gpu::capacity::{grow, grow_capacity, MAX_EXTENT, MIN_CAPACITY};

#[test]
fn extents_grow_to_powers_of_two() {
    assert_eq!(MIN_CAPACITY, 128);
    assert_eq!(grow_capacity(0, 0), 128);
    assert_eq!(grow_capacity(1, 0), 128);
    assert_eq!(grow_capacity(128, 0), 128);
    assert_eq!(grow_capacity(129, 0), 256);
    assert_eq!(grow_capacity(256, 0), 256);
    assert_eq!(grow_capacity(1000, 0), 1024);
    assert_eq!(grow_capacity(MAX_EXTENT, 0), MAX_EXTENT);
    assert_eq!(grow_capacity(MAX_EXTENT - 1, 0), MAX_EXTENT);
}

#[test]
fn extents_do_not_shrink() {
    assert_eq!(grow_capacity(10, 512), 512);
    assert_eq!(grow_capacity(513, 512), 1024);
    assert_eq!(grow_capacity(300, 300), 512);
    assert_eq!(grow_capacity(0, u32::MAX), u32::MAX);
}

#[test]
fn growth_agrees_with_the_next_power_of_two() {
    for needed in 0..5000u32 {
        let expected = needed.max(128).next_power_of_two();
        assert_eq!(grow_capacity(needed, 0), expected);
        assert_eq!(grow_capacity(needed, 700), expected.max(700));
    }
}

#[test]
fn an_extent_that_no_longer_suffices_doubles() {
    let mut capacity = grow_capacity(1, 0);
    let mut reallocations = 0;
    for needed in 1..=4096u32 {
        if needed > capacity {
            let grown = grow_capacity(needed, capacity);
            assert!(grown >= 2 * capacity);
            capacity = grown;
            reallocations += 1;
        }
    }
    assert_eq!(reallocations, 5);
    assert_eq!(capacity, 4096);
}

#[test]
fn both_dimensions_grow_on_their_own() {
    let contents = Size { width: 200, height: 50 };
    let current = Size { width: 128, height: 512 };
    let grown = grow(contents, current);
    assert_eq!((grown.width, grown.height), (256, 512));
}
