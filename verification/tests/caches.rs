use layer_compositor::texture_cache::{CacheFlags, TextureCache};

#[test]
fn ids_count_up_from_one() {
    let mut flags = CacheFlags::new();
    let a = TextureCache::new(&mut flags);
    let b = TextureCache::new(&mut flags);
    assert_eq!(a.id().as_u64(), 1);
    assert_eq!(b.id().as_u64(), 2);
    assert_ne!(a.id(), b.id());
}

#[test]
fn caches_start_invalidated() {
    let mut flags = CacheFlags::new();
    let cache = TextureCache::new(&mut flags);
    assert!(cache.is_invalidated(&flags));
    assert!(cache.is_invalidated(&flags));
}

#[test]
fn an_invalidation_is_taken_once() {
    let mut flags = CacheFlags::new();
    let cache = TextureCache::new(&mut flags);
    assert!(cache.take_invalidated(&mut flags));
    assert!(!cache.take_invalidated(&mut flags));
    assert!(!cache.is_invalidated(&flags));
    cache.invalidate(&mut flags);
    cache.invalidate(&mut flags);
    assert!(cache.is_invalidated(&flags));
    assert!(cache.take_invalidated(&mut flags));
    assert!(!cache.take_invalidated(&mut flags));
}

#[test]
fn clones_share_the_flag() {
    let mut flags = CacheFlags::new();
    let cache = TextureCache::new(&mut flags);
    let clone = cache.clone();
    assert_eq!(clone.id(), cache.id());
    assert!(clone.take_invalidated(&mut flags));
    assert!(!cache.is_invalidated(&flags));
    clone.invalidate(&mut flags);
    assert!(cache.is_invalidated(&flags));
}

#[test]
fn caches_do_not_affect_each_other() {
    let mut flags = CacheFlags::new();
    let a = TextureCache::new(&mut flags);
    let b = TextureCache::new(&mut flags);
    assert!(a.take_invalidated(&mut flags));
    assert!(b.is_invalidated(&flags));
    assert!(b.take_invalidated(&mut flags));
    a.invalidate(&mut flags);
    assert!(!b.is_invalidated(&flags));
}

#[test]
fn released_ids_are_not_given_out_again() {
    let mut flags = CacheFlags::new();
    let a = TextureCache::new(&mut flags);
    assert!(flags.is_live(1));
    flags.release(a);
    assert!(!flags.is_live(1));
    let b = TextureCache::new(&mut flags);
    assert_eq!(b.id().as_u64(), 2);
    assert!(flags.is_live(2));
    assert!(!flags.is_live(3));
}
