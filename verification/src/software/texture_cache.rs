//! The pixmaps behind caches.
use rustc_hash::FxHashMap;
use vstd::prelude::*;

use crate::fx;
use crate::geometry::{Scalar, Size};
use crate::recording::Stack;
use crate::software::pixmap;
use crate::texture_cache::CacheFlags;

verus! {

/// The pixmap behind a cache.
pub struct Entry {
    /// The pixmap itself.
    pub pixmap: tiny_skia::Pixmap,
    /// The size of the recorded contents, in logical pixels.
    pub size: Size<u32>,
    /// The size of the recorded contents, in physical pixels.
    pub physical_size: Size<u32>,
    /// The physical pixels per logical pixel.
    pub scale_factor: Scalar,
    /// Whether a recording of the cache has been finished.
    pub recorded: bool,
}

/// `extent`, but at least one.
pub open spec fn at_least_one(extent: u32) -> u32 {
    if extent < 1 {
        1
    } else {
        extent
    }
}

impl Entry {
    /// The pixmap has the size of the contents, but at least one pixel, of four bytes
    /// each.
    pub open spec fn wf(self) -> bool {
        let width = at_least_one(self.physical_size.width);
        let height = at_least_one(self.physical_size.height);
        &&& pixmap::can_allocate(width, height)
        &&& pixmap::pixmap_dimensions(self.pixmap) == (width, height)
        &&& pixmap::pixmap_bytes(self.pixmap).len() == width * height * 4
    }
}

/// The caches of one renderer.
pub struct Storage<P> {
    /// The pixmaps behind the caches, by cache id.
    pub entries: FxHashMap<u64, Entry>,
    /// The recordings that wait to be rendered into the pixmap of their cache.
    pub pending: Vec<(u64, Stack<P>)>,
    /// What was being recorded when a recording into a cache began, with the id of
    /// that cache and whether its recording will be kept; outermost first.
    pub recording_stack: Vec<(u64, Stack<P>, bool)>,
}

impl<P> Storage<P> {
    /// Every pixmap has the size of its contents, and no cache has two recordings
    /// waiting.
    pub open spec fn wf(self) -> bool {
        &&& forall|id: u64| #[trigger]
            self.entries@.contains_key(id) ==> self.entries@[id].wf()
        &&& crate::recording::distinct_pending(self.pending@)
    }

    /// Creates a storage without any cache.
    pub fn new() -> (r: Storage<P>)
        ensures
            r.wf(),
            r.entries@ == Map::<u64, Entry>::empty(),
            r.pending@.len() == 0,
            r.recording_stack@.len() == 0,
    {
        Storage {
            entries: FxHashMap::default(),
            pending: Vec::new(),
            recording_stack: Vec::new(),
        }
    }

    /// Drops the pixmaps of caches that are gone.
    pub fn reclaim(&mut self, flags: &CacheFlags)
        requires
            old(self).wf(),
        ensures
            final(self).wf(),
            final(self).entries@ == old(self).entries@.restrict(flags@.dom()),
            final(self).pending@ == old(self).pending@,
            final(self).recording_stack@ == old(self).recording_stack@,
    {
        fx::retain_live(&mut self.entries, flags);
        assert(forall|id: u64| #[trigger]
            self.entries@.contains_key(id) ==> old(self).entries@.contains_key(id));
    }
}

impl<P> Default for Storage<P> {
    fn default() -> (r: Storage<P>)
        ensures
            r.wf(),
            r.entries@ == Map::<u64, Entry>::empty(),
            r.pending@.len() == 0,
            r.recording_stack@.len() == 0,
    {
        Storage::new()
    }
}

} // verus!
