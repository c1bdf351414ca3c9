//! Rasterizing finished recordings into the pixmaps of their caches.
//!
//! [`Renderer::next_flush`] hands out the next recording with everything that it is
//! rasterized with, and [`Renderer::finish_flush`] takes the pixmap back.
use vstd::prelude::*;

use crate::fx;
use crate::recording::Stack;
use crate::renderer::{Drawing, Renderer as _};
use crate::software::pixmap;
use crate::software::texture_cache::Entry;
use crate::software::Renderer;

verus! {

/// A recording that is being rasterized.
pub struct Flush<P> {
    /// The id of the cache.
    pub id: u64,
    /// What was recorded.
    pub layers: Stack<P>,
    /// The entry of the cache. Its pixmap is transparent.
    pub entry: Entry,
    /// A mask of the size of the pixmap, to clip with.
    pub clip_mask: tiny_skia::Mask,
}

/// Whether `after` is `before` without the recording at position `k`, those before
/// it, and the entry of its cache, and `flush` is that recording, ready to be
/// rasterized.
pub open spec fn began<P>(
    before: Renderer<P>,
    after: Renderer<P>,
    k: int,
    flush: Flush<P>,
) -> bool {
    let (id, recording) = before.texture_cache.pending@[k];
    let entry = before.texture_cache.entries@[id];
    let (width, height) = pixmap::pixmap_dimensions(entry.pixmap);
    &&& flush.id == id
    &&& flush.layers == recording
    &&& flush.entry == (Entry { pixmap: flush.entry.pixmap, ..entry })
    &&& pixmap::pixmap_dimensions(flush.entry.pixmap) == (width, height)
    &&& pixmap::pixmap_bytes(flush.entry.pixmap) == pixmap::zeros(width * height * 4)
    &&& pixmap::mask_dimensions(flush.clip_mask) == (width, height)
    &&& pixmap::mask_bytes(flush.clip_mask) == pixmap::zeros(width * height)
    &&& after.texture_cache.entries@ == before.texture_cache.entries@.remove(id)
    &&& after.texture_cache.pending@ == before.texture_cache.pending@.skip(k + 1)
    &&& after.texture_cache.recording_stack == before.texture_cache.recording_stack
    &&& after.settings == before.settings
    &&& after.scale_factor == before.scale_factor
    &&& after.layers == before.layers
    &&& after.compose_index == before.compose_index
}

impl<P> Renderer<P> {
    /// Hands out the next recording to rasterize, in the order they were finished:
    /// `None` if no more wait. Recordings of caches that have no pixmap are dropped.
    pub fn next_flush(&mut self) -> (r: Option<Flush<P>>)
        requires
            old(self).wf(),
        ensures
            final(self).wf(),
            match r {
                Some(flush) => {
                    &&& flush.entry.wf()
                    &&& exists|k: int| #[trigger]
                        crate::recording::first_backed(
                            old(self).texture_cache.pending@,
                            old(self).texture_cache.entries@.dom(),
                            k,
                        ) && began(*old(self), *final(self), k, flush)
                },
                None => {
                    &&& forall|j: int|
                        0 <= j < old(self).texture_cache.pending@.len() ==> !old(
                            self,
                        ).texture_cache.entries@.contains_key(
                            (#[trigger] old(self).texture_cache.pending@[j]).0,
                        )
                    &&& final(self).texture_cache.pending@.len() == 0
                    &&& final(self).kept() == (crate::software::Kept {
                        pending: Seq::empty(),
                        ..old(self).kept()
                    })
                    &&& final(self).drawing() == (Drawing {
                        waiting: Seq::empty(),
                        ..old(self).drawing()
                    })
                },
            },
    {
        let ghost pending = self.texture_cache.pending@;
        let ghost backed = self.texture_cache.entries@.dom();
        let ghost mut k: int = 0;
        assert(pending.skip(0) =~= pending);
        while self.texture_cache.pending.len() > 0
            invariant
                0 <= k <= pending.len(),
                pending == old(self).texture_cache.pending@,
                backed == old(self).texture_cache.entries@.dom(),
                crate::recording::distinct_pending(pending),
                self.texture_cache.pending@ == pending.skip(k),
                forall|j: int| 0 <= j < k ==> !backed.contains((#[trigger] pending[j]).0),
                self.wf(),
                self.layers == old(self).layers,
                self.texture_cache.entries@ == old(self).texture_cache.entries@,
                self.texture_cache.recording_stack == old(self).texture_cache.recording_stack,
                self.settings == old(self).settings,
                self.scale_factor == old(self).scale_factor,
                self.compose_index == old(self).compose_index,
            decreases self.texture_cache.pending@.len(),
        {
            let (id, layers) = self.texture_cache.pending.remove(0);
            assert(self.texture_cache.pending@ =~= pending.skip(k + 1));
            assert((id, layers) == pending[k]);
            proof {
                let rest = pending.skip(k + 1);
                assert forall|i: int, j: int| 0 <= i < j < rest.len() implies (
                #[trigger] rest[i]).0 != (#[trigger] rest[j]).0 by {
                    assert(pending[k + 1 + i].0 != pending[k + 1 + j].0);
                }
            }
            let found = fx::remove(&mut self.texture_cache.entries, id);
            if let Some(mut entry) = found {
                pixmap::clear_pixmap(&mut entry.pixmap);
                let width: u32 = if entry.physical_size.width < 1 {
                    1
                } else {
                    entry.physical_size.width
                };
                let height: u32 = if entry.physical_size.height < 1 {
                    1
                } else {
                    entry.physical_size.height
                };
                let clip_mask = pixmap::new_mask(width, height).unwrap();
                assert(crate::recording::first_backed(pending, backed, k));
                return Some(Flush { id, layers, entry, clip_mask });
            }
            assert(old(self).texture_cache.entries@.remove(id)
                =~= old(self).texture_cache.entries@);
            proof {
                k = k + 1;
            }
        }
        None
    }

    /// Puts back the entry of a cache whose recording has been rasterized.
    pub fn finish_flush(&mut self, id: u64, entry: Entry)
        requires
            old(self).wf(),
            entry.wf(),
        ensures
            final(self).wf(),
            final(self).texture_cache.entries@ == old(self).texture_cache.entries@.insert(
                id,
                entry,
            ),
            final(self).drawing() == (Drawing {
                stored: old(self).drawing().stored.insert(id),
                backed: if entry.recorded {
                    old(self).drawing().backed.insert(id)
                } else {
                    old(self).drawing().backed.remove(id)
                },
                ..old(self).drawing()
            }),
            final(self).kept() == (crate::software::Kept {
                entries: old(self).texture_cache.entries@.insert(id, entry),
                ..old(self).kept()
            }),
    {
        let _ = fx::insert(&mut self.texture_cache.entries, id, entry);
        assert(forall|k: u64| #[trigger]
            self.texture_cache.entries@.contains_key(k) ==> k == id || old(
                self,
            ).texture_cache.entries@.contains_key(k));
    }
}

} // verus!
