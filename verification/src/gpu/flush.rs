//! Rendering finished recordings into the textures of their caches.
//!
//! A recording is rendered like a frame, with the buffers of its cache in place of
//! those of the frame. [`Renderer::next_flush`] sets this up and
//! [`Renderer::finish_flush`] undoes it; in between the device renders what is
//! recorded into the texture of the entry.
use vstd::prelude::*;

use crate::fx;
use crate::gpu::texture_cache::Entry;
use crate::gpu::{Backend, Renderer};
use crate::recording::Stack;
use crate::renderer::{Drawing, Renderer as _};

verus! {

/// A recording that is being rendered.
pub struct Flush<K: Backend> {
    /// The id of the cache.
    pub id: u64,
    /// The entry of the cache, with the buffers of the frame parked in it. The
    /// recording is rendered into its texture, at the size of the texture and not of
    /// the contents, so that the contents keep their physical pixels.
    pub entry: Entry<K>,
    /// What has been recorded for the frame.
    pub saved_layers: Stack<K::Primitive>,
}

/// Whether `after` is `before` but for what rendering the recording at position `k`
/// sets up, and `flush` is what it takes to undo that.
pub open spec fn began<K: Backend, C: FnOnce() -> K::State>(
    before: Renderer<K>,
    after: Renderer<K>,
    k: int,
    flush: Flush<K>,
    create_state: C,
) -> bool {
    let (id, recording) = before.texture_cache.pending@[k];
    let entry = before.texture_cache.entries@[id];
    &&& flush.id == id
    &&& flush.entry == (Entry { state: Some(before.state), ..entry })
    &&& flush.saved_layers == before.layers
    &&& after.layers == recording
    &&& match entry.state {
        Some(state) => after.state == state,
        None => call_ensures(create_state, (), after.state),
    }
    &&& after.texture_cache.entries@ == before.texture_cache.entries@.remove(id)
    &&& after.texture_cache.pending@ == before.texture_cache.pending@.skip(k + 1)
    &&& after.texture_cache.recording_stack == before.texture_cache.recording_stack
    &&& after.texture_cache.pipeline == before.texture_cache.pipeline
    &&& after.settings == before.settings
    &&& after.scale_factor == before.scale_factor
    &&& after.texture_cache_state == before.texture_cache_state
    &&& after.compose_index == before.compose_index
    &&& after.min_uniform_alignment == before.min_uniform_alignment
}

/// Whether `after` is `before` once the given recording has been rendered.
pub open spec fn finished<K: Backend>(
    before: Renderer<K>,
    flush: Flush<K>,
    after: Renderer<K>,
) -> bool {
    &&& after.layers == flush.saved_layers
    &&& Some(after.state) == flush.entry.state
    &&& after.texture_cache.entries@ == before.texture_cache.entries@.insert(
        flush.id,
        Entry { state: Some(before.state), ..flush.entry },
    )
    &&& after.texture_cache.pending == before.texture_cache.pending
    &&& after.texture_cache.recording_stack == before.texture_cache.recording_stack
    &&& after.texture_cache.pipeline == before.texture_cache.pipeline
    &&& after.settings == before.settings
    &&& after.scale_factor == before.scale_factor
    &&& after.texture_cache_state == before.texture_cache_state
    &&& after.compose_index == before.compose_index
    &&& after.min_uniform_alignment == before.min_uniform_alignment
}

impl<K: Backend> Renderer<K> {
    /// Sets up the rendering of the next recording, in the order they were
    /// finished: `None` if no more wait. Recordings of caches that have no texture
    /// are dropped.
    ///
    /// `create_state` creates the buffers of a cache that is rendered for the first
    /// time.
    pub fn next_flush<C: FnOnce() -> K::State>(&mut self, create_state: C) -> (r: Option<Flush<K>>)
        requires
            old(self).wf(),
            forall|k: int| #[trigger]
                crate::recording::first_backed(
                    old(self).texture_cache.pending@,
                    old(self).texture_cache.entries@.dom(),
                    k,
                ) && old(self).texture_cache.entries@[old(self).texture_cache.pending@[k].0].state
                    is None ==> call_requires(create_state, ()),
        ensures
            final(self).wf(),
            match r {
                Some(flush) => {
                    &&& flush.entry.wf()
                    &&& flush.entry.state is Some
                    &&& exists|k: int| #[trigger]
                        crate::recording::first_backed(
                            old(self).texture_cache.pending@,
                            old(self).texture_cache.entries@.dom(),
                            k,
                        ) && began(*old(self), *final(self), k, flush, create_state)
                },
                None => {
                    &&& forall|j: int|
                        0 <= j < old(self).texture_cache.pending@.len() ==> !old(
                            self,
                        ).texture_cache.entries@.contains_key(
                            (#[trigger] old(self).texture_cache.pending@[j]).0,
                        )
                    &&& final(self).texture_cache.pending@.len() == 0
                    &&& final(self).kept() == (crate::gpu::Kept {
                        pending: Seq::empty(),
                        ..old(self).kept()
                    })
                    &&& final(self).drawing() == (Drawing {
                        waiting: Seq::empty(),
                        ..old(self).drawing()
                    })
                },
            },
    {
        let ghost pending = self.texture_cache.pending@;
        let ghost backed = self.texture_cache.entries@.dom();
        let ghost mut k: int = 0;
        assert(pending.skip(0) =~= pending);
        while self.texture_cache.pending.len() > 0
            invariant
                0 <= k <= pending.len(),
                pending == old(self).texture_cache.pending@,
                backed == old(self).texture_cache.entries@.dom(),
                crate::recording::distinct_pending(pending),
                self.texture_cache.pending@ == pending.skip(k),
                forall|j: int| 0 <= j < k ==> !backed.contains((#[trigger] pending[j]).0),
                self.wf(),
                self.layers == old(self).layers,
                self.state == old(self).state,
                self.texture_cache.entries == old(self).texture_cache.entries,
                self.texture_cache.recording_stack == old(self).texture_cache.recording_stack,
                self.texture_cache.pipeline == old(self).texture_cache.pipeline,
                self.settings == old(self).settings,
                self.scale_factor == old(self).scale_factor,
                self.texture_cache_state == old(self).texture_cache_state,
                self.compose_index == old(self).compose_index,
                self.min_uniform_alignment == old(self).min_uniform_alignment,
                forall|k: int| #[trigger]
                    crate::recording::first_backed(pending, backed, k) && old(
                        self,
                    ).texture_cache.entries@[pending[k].0].state is None ==> call_requires(
                        create_state,
                        (),
                    ),
            decreases self.texture_cache.pending@.len(),
        {
            let (id, recording) = self.texture_cache.pending.remove(0);
            assert(self.texture_cache.pending@ =~= pending.skip(k + 1));
            assert((id, recording) == pending[k]);
            proof {
                let rest = pending.skip(k + 1);
                assert forall|i: int, j: int| 0 <= i < j < rest.len() implies (
                #[trigger] rest[i]).0 != (#[trigger] rest[j]).0 by {
                    assert(pending[k + 1 + i].0 != pending[k + 1 + j].0);
                }
            }
            let found = fx::get(&self.texture_cache.entries, id).is_some();
            if found {
                assert(crate::recording::first_backed(pending, backed, k));
                let mut entry = fx::remove(&mut self.texture_cache.entries, id).unwrap();
                let mut state = match entry.state {
                    Some(state) => state,
                    None => create_state(),
                };
                std::mem::swap(&mut state, &mut self.state);
                entry.state = Some(state);
                let mut saved_layers = recording;
                std::mem::swap(&mut saved_layers, &mut self.layers);
                return Some(Flush { id, entry, saved_layers });
            }
            proof {
                k = k + 1;
            }
        }
        None
    }

    /// Puts back what rendering the given recording has moved around.
    pub fn finish_flush(&mut self, flush: Flush<K>)
        requires
            old(self).wf(),
            flush.entry.wf(),
            flush.entry.state is Some,
            old(self).texture_cache.pipeline is Some,
        ensures
            final(self).wf(),
            finished(*old(self), flush, *final(self)),
    {
        let mut flush = flush;
        let mut state = flush.entry.state.unwrap();
        std::mem::swap(&mut state, &mut self.state);
        flush.entry.state = Some(state);
        self.layers = flush.saved_layers;
        let _ = fx::insert(&mut self.texture_cache.entries, flush.id, flush.entry);
        assert(forall|id: u64| #[trigger]
            self.texture_cache.entries@.contains_key(id) ==> id == flush.id || old(
                self,
            ).texture_cache.entries@.contains_key(id));
    }
}

/// Rendering a recording leaves the frame as it was: its operations and its buffers
/// are in place again. Every cache has the entry it had, except that the buffers that
/// the recording was rendered with now belong to its cache. The recordings behind it
/// still wait, and no other.
///
/// `set_up` and `rendered` are the renderer before and after the device rendered the
/// recording, which changes the buffers in use and the state of composited layers
/// only.
pub proof fn law_flush_restores_the_frame<K: Backend, C: FnOnce() -> K::State>(
    before: Renderer<K>,
    set_up: Renderer<K>,
    rendered: Renderer<K>,
    after: Renderer<K>,
    k: int,
    flush: Flush<K>,
    create_state: C,
)
    requires
        crate::recording::first_backed(before.texture_cache.pending@, before.texture_cache.entries@.dom(), k),
        began(before, set_up, k, flush, create_state),
        rendered.kept() == (crate::gpu::Kept {
            state: rendered.state,
            texture_cache_state: rendered.texture_cache_state,
            ..set_up.kept()
        }),
        finished(rendered, flush, after),
    ensures
        after.layers == before.layers,
        after.state == before.state,
        after.texture_cache.entries@ == before.texture_cache.entries@.insert(
            flush.id,
            Entry {
                state: Some(rendered.state),
                ..before.texture_cache.entries@[flush.id]
            },
        ),
        after.drawing() == (Drawing {
            waiting: before.drawing().waiting.skip(k + 1),
            ..before.drawing()
        }),
{
    assert(after.texture_cache.entries@ =~= before.texture_cache.entries@.insert(
        flush.id,
        Entry { state: Some(rendered.state), ..before.texture_cache.entries@[flush.id] },
    ));
    assert(after.drawing().stored =~= before.drawing().stored);
    assert(after.drawing().backed =~= before.drawing().backed);
    assert(after.drawing().waiting =~= before.drawing().waiting.skip(k + 1));
}

} // verus!
