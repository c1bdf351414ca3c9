//! Handles to persistent backing stores (textures for GPU backends, pixmaps for
//! CPU backends) that widget contents are recorded into once and then replayed
//! cheaply under changing transformations.
//!
//! A [`TextureCache`] is a lightweight handle: its [`Id`] and nothing else. The
//! invalidation flag that all clones of a handle share lives in [`CacheFlags`],
//! keyed by that id, and so does the counter that ids are drawn from.
use std::collections::HashMap;
use vstd::prelude::*;

verus! {

/// A stable identifier for a [`TextureCache`]. Renderers key their backing
/// stores by it.
#[derive(Debug, Clone, Copy, PartialEq, Eq, Hash, Structural)]
pub struct Id(u64);

impl View for Id {
    type V = u64;

    closed spec fn view(&self) -> u64 {
        self.0
    }
}

impl Id {
    /// Returns the raw integer value of the [`Id`].
    pub fn as_u64(self) -> (r: u64)
        ensures
            r == self@,
    {
        self.0
    }
}

/// A handle to a persistent backing store.
///
/// Clones name the same backing store and share one invalidation flag.
#[derive(Debug)]
pub struct TextureCache {
    id: Id,
}

impl View for TextureCache {
    type V = u64;

    closed spec fn view(&self) -> u64 {
        self.id@
    }
}

impl Clone for TextureCache {
    fn clone(&self) -> (r: TextureCache)
        ensures
            r == *self,
    {
        TextureCache { id: self.id }
    }
}

/// The invalidation flags of all live caches, and the counter that the ids of
/// new caches are drawn from.
#[derive(Debug)]
pub struct CacheFlags {
    next: u64,
    invalidated: HashMap<u64, bool>,
}

impl View for CacheFlags {
    type V = Map<u64, bool>;

    /// The invalidation flag of each live cache, by its id.
    closed spec fn view(&self) -> Map<u64, bool> {
        self.invalidated@
    }
}

impl CacheFlags {
    /// The id that the next cache will get.
    pub closed spec fn next_id(&self) -> u64 {
        self.next
    }

    /// Ids count up from one, and every live cache has one that was given out.
    pub open spec fn wf(&self) -> bool {
        &&& 1 <= self.next_id()
        &&& forall|id: u64| #[trigger] self@.contains_key(id) ==> 1 <= id < self.next_id()
    }

    /// Whether `cache` was created here and not released since.
    pub open spec fn contains(&self, cache: TextureCache) -> bool {
        self@.contains_key(cache@)
    }

    /// Creates a set of flags without any cache. The first id given out is one.
    pub fn new() -> (r: CacheFlags)
        ensures
            r.wf(),
            r@ == Map::<u64, bool>::empty(),
            r.next_id() == 1,
    {
        CacheFlags { next: 1, invalidated: HashMap::new() }
    }

    /// Returns whether there is an id left for another cache.
    pub fn has_room(&self) -> (r: bool)
        ensures
            r == (self.next_id() < u64::MAX),
    {
        self.next < u64::MAX
    }

    /// Returns whether the cache with the given id is live.
    pub fn is_live(&self, id: u64) -> (r: bool)
        ensures
            r == self@.contains_key(id),
    {
        self.invalidated.contains_key(&id)
    }

    /// Forgets a cache whose handles are all gone. Its id is not given out again,
    /// and renderers may reclaim its backing store.
    pub fn release(&mut self, cache: TextureCache)
        requires
            old(self).wf(),
        ensures
            final(self).wf(),
            final(self)@ == old(self)@.remove(cache@),
            final(self).next_id() == old(self).next_id(),
    {
        let id = cache.id.0;
        self.invalidated.remove(&id);
        assert(forall|k: u64| #[trigger]
            self@.contains_key(k) ==> old(self)@.contains_key(k));
    }
}

impl TextureCache {
    /// Creates a new [`TextureCache`] handle with a freshly allocated [`Id`].
    ///
    /// The cache starts in the invalidated state, so the first attempt to draw
    /// into it records drawing operations.
    pub fn new(flags: &mut CacheFlags) -> (r: TextureCache)
        requires
            old(flags).wf(),
            old(flags).next_id() < u64::MAX,
        ensures
            final(flags).wf(),
            r@ == old(flags).next_id(),
            !old(flags).contains(r),
            final(flags)@ == old(flags)@.insert(r@, true),
            final(flags).next_id() == old(flags).next_id() + 1,
    {
        let id: u64 = flags.next;
        flags.next = id + 1;
        flags.invalidated.insert(id, true);
        assert(forall|k: u64| #[trigger]
            flags@.contains_key(k) ==> k == id || old(flags)@.contains_key(k));
        TextureCache { id: Id(id) }
    }

    /// Returns the stable [`Id`] of this cache.
    pub fn id(&self) -> (r: Id)
        ensures
            r@ == self@,
    {
        self.id
    }

    /// Marks the cache as invalidated. The next attempt to draw into it records
    /// drawing operations again and renders the backing store anew.
    pub fn invalidate(&self, flags: &mut CacheFlags)
        requires
            old(flags).wf(),
            old(flags).contains(*self),
        ensures
            final(flags).wf(),
            final(flags)@ == old(flags)@.insert(self@, true),
            final(flags).next_id() == old(flags).next_id(),
    {
        flags.invalidated.insert(self.id.0, true);
    }

    /// Reads the invalidation flag and resets it to `false`.
    ///
    /// Renderers call this to decide whether the drawing operations must be
    /// recorded again.
    pub fn take_invalidated(&self, flags: &mut CacheFlags) -> (r: bool)
        requires
            old(flags).wf(),
            old(flags).contains(*self),
        ensures
            final(flags).wf(),
            r == old(flags)@[self@],
            final(flags)@ == old(flags)@.insert(self@, false),
            final(flags).next_id() == old(flags).next_id(),
    {
        let was = flags.invalidated.insert(self.id.0, false);
        match was {
            Some(flag) => flag,
            None => false,
        }
    }

    /// Returns the current invalidation state without resetting it.
    pub fn is_invalidated(&self, flags: &CacheFlags) -> (r: bool)
        requires
            flags.contains(*self),
        ensures
            r == flags@[self@],
    {
        match flags.invalidated.get(&self.id.0) {
            Some(flag) => *flag,
            None => false,
        }
    }
}

/// A cache that has been invalidated, however often, is taken once: the next take
/// says so, and the one after it does not. Other caches are not affected.
pub proof fn law_an_invalidation_is_taken_once(flags: Map<u64, bool>, id: u64, other: u64)
    requires
        flags.contains_key(id),
    ensures
        flags.insert(id, true)[id],
        flags.insert(id, true).insert(id, true) == flags.insert(id, true),
        !flags.insert(id, true).insert(id, false)[id],
        other != id ==> flags.insert(id, true)[other] == flags[other],
        other != id ==> flags.insert(id, false)[other] == flags[other],
        flags.insert(id, true).dom() == flags.dom(),
        flags.insert(id, false).dom() == flags.dom(),
{
    assert(flags.insert(id, true).insert(id, true) =~= flags.insert(id, true));
    assert(flags.insert(id, true).dom() =~= flags.dom());
    assert(flags.insert(id, false).dom() =~= flags.dom());
}

/// A new cache has an id that no cache before it had, whether or not that one is
/// still live, and starts invalidated.
pub proof fn law_ids_are_not_given_out_again(flags: CacheFlags, earlier: u64)
    requires
        flags.wf(),
        flags@.contains_key(earlier) || earlier < flags.next_id(),
    ensures
        earlier != flags.next_id(),
        !flags@.contains_key(flags.next_id()),
        flags@.insert(flags.next_id(), true)[flags.next_id()],
{
}

} // verus!
