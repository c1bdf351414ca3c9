//! The renderer for GPUs.
//!
//! The renderer records what it is asked to draw, keeps a texture behind every
//! cache, and decides how recordings and frames are rendered. A [`Backend`] does
//! the work on the device.
use vstd::prelude::*;

use crate::compose;
use crate::compose::Scene;
use crate::fx;
use crate::geometry::{Color, Rectangle, Scalar, Size, Transformation};
use crate::layer::{LayerId, LayerRegistry, SlotStates};
use crate::recording;
use crate::recording::Stack;
use crate::renderer::Renderer as _;
use crate::renderer::{
    Background, Command, Drawing, Font, Quad, RecordTarget, Settings, Suspended,
    TextureRecordMode,
};
use crate::texture_cache::{CacheFlags, TextureCache};

use capacity::MAX_EXTENT;
use texture_cache::{Entry, FrameState, Pipeline, Storage};

pub mod capacity;
pub mod flush;
pub mod frame;
pub mod growth;
pub mod laws;
pub mod screenshot;
pub mod summary;
pub mod texture_cache;

verus! {

/// The device that a renderer draws with: what it draws, and the objects it hands
/// out. The renderer moves these values around and never looks inside them.
pub trait Backend {
    /// What the device draws besides quads and cached textures.
    type Primitive;

    /// A texture that a cache is rendered into and sampled from.
    type Texture;

    /// The buffers that the layers of one target are prepared into.
    type State;

    /// A buffer of uniforms.
    type Buffer;

    /// What binds a buffer of uniforms to a render pass.
    type BindGroup;
}

/// A renderer for GPUs.
pub struct Renderer<K: Backend> {
    /// The settings it was created with.
    pub settings: Settings,
    /// What has been recorded for the current target.
    pub layers: Stack<K::Primitive>,
    /// The scale factor of the last hint.
    pub scale_factor: Option<Scalar>,
    /// The buffers that the layers of the current target are prepared into.
    pub state: K::State,
    /// The textures behind the caches.
    pub texture_cache: Storage<K>,
    /// What composites the cached textures of the frame.
    pub texture_cache_state: FrameState<K>,
    /// The children of every layer. Scratch memory that is kept from frame to
    /// frame.
    pub compose_index: Vec<(LayerId, usize)>,
    /// The alignment of offsets into uniform buffers that the device asks for.
    pub min_uniform_alignment: u32,
}

/// Everything that drawing into the current target leaves alone.
#[verifier::ext_equal]
pub ghost struct Kept<K: Backend> {
    pub settings: Settings,
    pub scale_factor: Option<Scalar>,
    pub state: K::State,
    pub entries: Map<u64, Entry<K>>,
    pub pending: Seq<(u64, Stack<K::Primitive>)>,
    pub recording_stack: Seq<(u64, Stack<K::Primitive>, bool)>,
    pub pipeline: Option<Pipeline>,
    pub texture_cache_state: FrameState<K>,
    pub min_uniform_alignment: u32,
}

/// Whether no recording draws a cached texture, be it the current one, one that is
/// suspended or one that waits.
pub open spec fn never_samples<K: Backend>(renderer: Renderer<K>) -> bool {
    &&& !recording::samples(renderer.layers.commands@)
    &&& forall|i: int|
        0 <= i < renderer.texture_cache.recording_stack@.len() ==> !recording::samples(
            (#[trigger] renderer.texture_cache.recording_stack@[i]).1.commands@,
        )
    &&& forall|i: int|
        0 <= i < renderer.texture_cache.pending@.len() ==> !recording::samples(
            (#[trigger] renderer.texture_cache.pending@[i]).1.commands@,
        )
}

/// The suspended targets.
pub open spec fn suspended<P>(recording_stack: Seq<(u64, Stack<P>, bool)>) -> Seq<Suspended<P>> {
    recording_stack.map_values(
        |e: (u64, Stack<P>, bool)| Suspended { id: e.0, keep: e.2, recorded: e.1@ },
    )
}

/// The ids of the caches that have been recorded.
pub open spec fn recorded_ids<K: Backend>(entries: Map<u64, Entry<K>>) -> Set<u64> {
    Set::new(|id: u64| entries.contains_key(id) && entries[id].recorded)
}

/// The entries once a recording of the given cache has been finished.
pub open spec fn marked<K: Backend>(entries: Map<u64, Entry<K>>, id: u64) -> Map<u64, Entry<K>> {
    if entries.contains_key(id) {
        entries.insert(id, Entry { recorded: true, ..entries[id] })
    } else {
        entries
    }
}

/// Whether the cache with the given id must be rendered (again) for `target`.
pub open spec fn is_stale<K: Backend>(
    entries: Map<u64, Entry<K>>,
    id: u64,
    invalidated: bool,
    target: RecordTarget,
) -> bool {
    ||| invalidated
    ||| !entries.contains_key(id)
    ||| entries[id].size != target.size
    ||| entries[id].physical_size != target.physical_size
    ||| target.scale_changed
}

/// Whether the cache with the given id has a texture that holds `contents`.
pub open spec fn fits<K: Backend>(
    entries: Map<u64, Entry<K>>,
    id: u64,
    contents: Size<u32>,
) -> bool {
    entries.contains_key(id) && capacity::holds(entries[id].texture_capacity_size, contents)
}

/// Whether `capacity` is what a new texture of the given cache is allocated with, for
/// `contents` that the existing one, if there is one, does not hold.
pub open spec fn is_capacity_for<K: Backend>(
    entries: Map<u64, Entry<K>>,
    id: u64,
    contents: Size<u32>,
    capacity: Size<u32>,
) -> bool {
    let current = if entries.contains_key(id) {
        entries[id].texture_capacity_size
    } else {
        Size { width: 0u32, height: 0u32 }
    };
    &&& capacity::is_grown(capacity.width as int, contents.width as int, current.width as int)
    &&& capacity::is_grown(capacity.height as int, contents.height as int, current.height as int)
}

/// Whether `after` is the entry of the given cache once it is ready to be rendered
/// for `target`. A texture that holds the contents is kept. Another is replaced by
/// one that `allocate` provides, with the buffers of the cache kept.
pub open spec fn is_entry_for<K: Backend, A: FnOnce(Size<u32>) -> K::Texture>(
    before: Map<u64, Entry<K>>,
    id: u64,
    target: RecordTarget,
    allocate: A,
    after: Entry<K>,
) -> bool {
    &&& after.size == target.size
    &&& after.physical_size == target.physical_size
    &&& after.scale_factor == target.scale_factor
    &&& after.recorded == (before.contains_key(id) && before[id].recorded)
    &&& after.state == if before.contains_key(id) {
        before[id].state
    } else {
        None
    }
    &&& if fits(before, id, target.physical_size) {
        &&& after.texture == before[id].texture
        &&& after.texture_capacity_size == before[id].texture_capacity_size
    } else {
        &&& is_capacity_for(before, id, target.physical_size, after.texture_capacity_size)
        &&& call_ensures(allocate, (after.texture_capacity_size,), after.texture)
    }
}

impl<K: Backend> Renderer<K> {
    /// Creates a renderer with empty bounds and no caches.
    ///
    /// `state` are the buffers that frames are prepared into.
    pub fn new(settings: Settings, state: K::State, min_uniform_alignment: u32) -> (r: Renderer<K>)
        ensures
            r.wf(),
            r.settings == settings,
            r.layers.commands@.len() == 0,
            r.layers.bounds == Rectangle::with_size_spec(Size::zero_spec()),
            r.scale_factor is None,
            r.state == state,
            r.texture_cache.entries@ == Map::<u64, Entry<K>>::empty(),
            r.texture_cache.pending@.len() == 0,
            r.texture_cache.recording_stack@.len() == 0,
            r.texture_cache.pipeline is None,
            r.texture_cache_state.layers@.len() == 0,
            r.texture_cache_state.prepare_layer == 0,
            r.texture_cache_state.render_layer == 0,
            r.compose_index@.len() == 0,
            r.min_uniform_alignment == min_uniform_alignment,
    {
        Renderer {
            settings,
            layers: Stack::new(),
            scale_factor: None,
            state,
            texture_cache: Storage::new(),
            texture_cache_state: FrameState::new(),
            compose_index: Vec::with_capacity(64),
            min_uniform_alignment,
        }
    }

    /// Draws a primitive of the device.
    pub fn draw_primitive(&mut self, primitive: K::Primitive)
        ensures
            final(self).drawing() == old(self).drawing().record(Command::Draw(primitive)),
            final(self).kept() == old(self).kept(),
            old(self).wf() ==> final(self).wf(),
    {
        self.layers.record(Command::Draw(primitive));
    }

    /// Gives the cache with the given id an entry for `target`.
    ///
    /// `allocate` provides a texture of the given dimensions where the existing one
    /// does not hold the contents.
    fn ensure_texture_cache_entry<A: FnOnce(Size<u32>) -> K::Texture>(
        &mut self,
        id: u64,
        target: RecordTarget,
        allocate: A,
    )
        requires
            old(self).texture_cache.wf(),
            target.physical_size.width <= MAX_EXTENT,
            target.physical_size.height <= MAX_EXTENT,
            !fits(old(self).texture_cache.entries@, id, target.physical_size) ==> forall|
                size: Size<u32>,
            |
                is_capacity_for(old(self).texture_cache.entries@, id, target.physical_size, size)
                    ==> #[trigger] call_requires(allocate, (size,)),
        ensures
            final(self).texture_cache.wf(),
            final(self).texture_cache.pipeline == (match old(self).texture_cache.pipeline {
                Some(pipeline) => Some(pipeline),
                None => Some(Pipeline::of(old(self).min_uniform_alignment)),
            }),
            final(self).texture_cache.entries@ == old(self).texture_cache.entries@.insert(
                id,
                final(self).texture_cache.entries@[id],
            ),
            is_entry_for(
                old(self).texture_cache.entries@,
                id,
                target,
                allocate,
                final(self).texture_cache.entries@[id],
            ),
            final(self).texture_cache.pending == old(self).texture_cache.pending,
            final(self).texture_cache.recording_stack == old(self).texture_cache.recording_stack,
            final(self).settings == old(self).settings,
            final(self).layers == old(self).layers,
            final(self).scale_factor == old(self).scale_factor,
            final(self).state == old(self).state,
            final(self).texture_cache_state == old(self).texture_cache_state,
            final(self).compose_index == old(self).compose_index,
            final(self).min_uniform_alignment == old(self).min_uniform_alignment,
    {
        if self.texture_cache.pipeline.is_none() {
            self.texture_cache.pipeline = Some(Pipeline::new(self.min_uniform_alignment));
        }
        let contents = target.physical_size;
        let existing = match fx::get(&self.texture_cache.entries, id) {
            Some(entry) => Some(entry.texture_capacity_size),
            None => None,
        };
        let current = match existing {
            Some(capacity) => capacity,
            None => Size { width: 0, height: 0 },
        };
        let found = existing.is_some();
        if found && current.width >= contents.width && current.height >= contents.height {
            if let Some(entry) = fx::get_mut(&mut self.texture_cache.entries, id) {
                entry.size = target.size;
                entry.physical_size = contents;
                entry.scale_factor = target.scale_factor;
            }
        } else {
            let target_capacity = capacity::grow(contents, current);
            proof {
                capacity::law_grown_is_a_power_of_two(
                    target_capacity.width as int,
                    contents.width as int,
                    current.width as int,
                );
                capacity::law_grown_is_a_power_of_two(
                    target_capacity.height as int,
                    contents.height as int,
                    current.height as int,
                );
                capacity::law_grown_holds_the_contents(
                    target_capacity.width as int,
                    contents.width as int,
                    current.width as int,
                );
                capacity::law_grown_holds_the_contents(
                    target_capacity.height as int,
                    contents.height as int,
                    current.height as int,
                );
            }
            let texture = allocate(target_capacity);
            if found {
                if let Some(entry) = fx::get_mut(&mut self.texture_cache.entries, id) {
                    entry.texture = texture;
                    entry.size = target.size;
                    entry.physical_size = contents;
                    entry.texture_capacity_size = target_capacity;
                    entry.scale_factor = target.scale_factor;
                }
            } else {
                let entry = Entry {
                    texture,
                    state: None,
                    size: target.size,
                    physical_size: contents,
                    texture_capacity_size: target_capacity,
                    scale_factor: target.scale_factor,
                    recorded: false,
                };
                let _ = fx::insert(&mut self.texture_cache.entries, id, entry);
            }
        }
        assert forall|k: u64| #[trigger] self.texture_cache.entries@.contains_key(k) implies (
        k == id || old(self).texture_cache.entries@.contains_key(k)) by {}
    }
}

impl<K: Backend> crate::renderer::Renderer for Renderer<K> {
    type Primitive = K::Primitive;

    type Backing = K::Texture;

    type Kept = Kept<K>;

    open spec fn drawing(&self) -> Drawing<K::Primitive> {
        Drawing {
            bounds: self.layers.bounds,
            commands: self.layers.commands@,
            suspended: suspended(self.texture_cache.recording_stack@),
            waiting: recording::contents(self.texture_cache.pending@),
            stored: self.texture_cache.entries@.dom(),
            backed: recorded_ids(self.texture_cache.entries@),
        }
    }

    open spec fn kept(&self) -> Kept<K> {
        Kept {
            settings: self.settings,
            scale_factor: self.scale_factor,
            state: self.state,
            entries: self.texture_cache.entries@,
            pending: self.texture_cache.pending@,
            recording_stack: self.texture_cache.recording_stack@,
            pipeline: self.texture_cache.pipeline,
            texture_cache_state: self.texture_cache_state,
            min_uniform_alignment: self.min_uniform_alignment,
        }
    }

    open spec fn hinted(&self) -> Option<Scalar> {
        self.scale_factor
    }

    open spec fn wf(&self) -> bool {
        &&& self.texture_cache.wf()
        &&& self.texture_cache_state.wf()
        &&& self.texture_cache.pipeline is None ==> never_samples(*self)
    }

    open spec fn can_record(&self, target: RecordTarget) -> bool {
        &&& self.wf()
        &&& target.physical_size.width <= MAX_EXTENT
        &&& target.physical_size.height <= MAX_EXTENT
    }

    open spec fn is_stale(&self, id: u64, invalidated: bool, target: RecordTarget) -> bool {
        is_stale(self.texture_cache.entries@, id, invalidated, target)
    }

    open spec fn stored_size(&self, id: u64) -> Option<(Size<u32>, Size<u32>)> {
        if self.texture_cache.entries@.contains_key(id) {
            let entry = self.texture_cache.entries@[id];
            Some((entry.size, entry.physical_size))
        } else {
            None
        }
    }

    proof fn law_a_fresh_cache_has_the_size_of_its_target(
        &self,
        id: u64,
        invalidated: bool,
        target: RecordTarget,
    ) {
    }

    proof fn law_drawing_keeps_caches_fresh(
        &self,
        drawn: &Self,
        id: u64,
        invalidated: bool,
        target: RecordTarget,
    ) {
    }

    proof fn law_targets_stay_recordable(&self, later: &Self, target: RecordTarget) {
    }

    fn start_layer(&mut self, bounds: Rectangle) {
        self.layers.record(Command::StartLayer(bounds));
    }

    fn end_layer(&mut self) {
        self.layers.record(Command::EndLayer);
    }

    fn start_transformation(&mut self, transformation: Transformation) {
        self.layers.record(Command::StartTransformation(transformation));
    }

    fn end_transformation(&mut self) {
        self.layers.record(Command::EndTransformation);
    }

    fn fill_quad(&mut self, quad: Quad, background: Background) {
        self.layers.record(Command::FillQuad(quad, background));
    }

    fn fill_layer_label(&mut self, id: LayerId, bounds: Rectangle, color: Color) {
        self.layers.record(Command::FillLayerLabel(id, bounds, color));
    }

    fn start_recording_texture<A: FnOnce(Size<u32>) -> K::Texture>(
        &mut self,
        flags: &mut CacheFlags,
        cache: &TextureCache,
        target: RecordTarget,
        allocate: A,
    ) -> (r: bool)
        ensures
            started(*old(self), *final(self), cache@, r, r, target, allocate),
    {
        let began = self.record_texture(TextureRecordMode::Flush, flags, cache, target, allocate);
        proof {
            if began {
                let entry = self.texture_cache.entries@[cache@];
                assert(self.texture_cache.entries@.contains_key(cache@));
                assert(entry.size == target.size && entry.physical_size == target.physical_size);
                assert(self.stored_size(cache@) == Some((entry.size, entry.physical_size)));
            }
        }
        began
    }

    fn end_recording_texture(&mut self)
        ensures
            ended(*old(self), *final(self)),
    {
        if self.texture_cache.recording_stack.len() == 0 {
            return;
        }
        let (id, saved, keep) = self.texture_cache.recording_stack.pop().unwrap();
        let mut captured = saved;
        std::mem::swap(&mut captured, &mut self.layers);
        assert(captured == old(self).layers);
        if keep {
            if let Some(entry) = fx::get_mut(&mut self.texture_cache.entries, id) {
                entry.recorded = true;
            }
            recording::enqueue(&mut self.texture_cache.pending, id, captured);
        }
        assert(self.texture_cache.entries@ =~= if keep {
            marked(old(self).texture_cache.entries@, id)
        } else {
            old(self).texture_cache.entries@
        });
        proof {
            if old(self).wf() && self.texture_cache.pipeline is None {
                let pending = old(self).texture_cache.pending@;
                assert(!recording::samples(
                    old(self).texture_cache.recording_stack@.last().1.commands@,
                ));
                assert forall|a: int| 0 <= a < self.texture_cache.pending@.len() implies
                    !recording::samples(
                    (#[trigger] self.texture_cache.pending@[a]).1.commands@,
                ) by {
                    if keep {
                        recording::lemma_enqueued_elements(pending, id, captured, a);
                    }
                    let waiting = self.texture_cache.pending@[a];
                    if pending.contains(waiting) {
                        let i = choose|i: int| 0 <= i < pending.len() && pending[i] == waiting;
                        assert(!recording::samples(pending[i].1.commands@));
                    }
                }
            }
        }
        proof {
            recording::lemma_contents_enqueued(old(self).texture_cache.pending@, id, captured);
        }
        assert(self.drawing().suspended =~= old(self).drawing().resume().suspended);
        assert(self.drawing().stored =~= old(self).drawing().stored);
        assert(self.drawing().backed =~= old(self).drawing().resume().backed);
    }

    fn draw_cached_texture(&mut self, cache: &TextureCache, bounds: Rectangle) {
        let id = cache.id().as_u64();
        let recorded = match fx::get(&self.texture_cache.entries, id) {
            Some(entry) => entry.recorded,
            None => false,
        };
        if recorded {
            self.layers.record(Command::DrawCachedTexture(id, bounds));
        }
    }

    fn hint(&mut self, scale_factor: Scalar)
        ensures
            *final(self) == (Renderer { scale_factor: Some(scale_factor), ..*old(self) }),
    {
        self.scale_factor = Some(scale_factor);
    }

    fn scale_factor(&self) -> (r: Option<Scalar>) {
        self.scale_factor
    }

    fn reset(&mut self, new_bounds: Rectangle) {
        self.layers.reset(new_bounds);
    }
}

/// Whether `after` is `before` once a recording into the given cache has been asked
/// for. Nothing changes unless a recording began. If the recording will be kept, the
/// cache has an entry for `target`.
pub open spec fn started<K: Backend, A: FnOnce(Size<u32>) -> K::Texture>(
    before: Renderer<K>,
    after: Renderer<K>,
    id: u64,
    began: bool,
    keep: bool,
    target: RecordTarget,
    allocate: A,
) -> bool {
    &&& !began ==> after == before
    &&& began ==> {
        &&& after.layers.commands@.len() == 0
        &&& after.layers.bounds == Rectangle::with_size_spec(target.extent)
        &&& after.texture_cache.recording_stack@ == before.texture_cache.recording_stack@.push(
            (id, before.layers, keep),
        )
        &&& after.texture_cache.pending == before.texture_cache.pending
        &&& after.settings == before.settings
        &&& after.scale_factor == before.scale_factor
        &&& after.state == before.state
        &&& after.texture_cache_state == before.texture_cache_state
        &&& after.compose_index == before.compose_index
        &&& after.min_uniform_alignment == before.min_uniform_alignment
    }
    &&& began && !keep ==> {
        &&& after.texture_cache.entries == before.texture_cache.entries
        &&& after.texture_cache.pipeline == before.texture_cache.pipeline
    }
    &&& began && keep ==> {
        &&& after.texture_cache.entries@ == before.texture_cache.entries@.insert(
            id,
            after.texture_cache.entries@[id],
        )
        &&& is_entry_for(
            before.texture_cache.entries@,
            id,
            target,
            allocate,
            after.texture_cache.entries@[id],
        )
        &&& after.texture_cache.pipeline == (match before.texture_cache.pipeline {
            Some(pipeline) => Some(pipeline),
            None => Some(Pipeline::of(before.min_uniform_alignment)),
        })
    }
}

/// Whether `after` is `before` once the recording that began last has ended: the
/// target that was suspended is current again, and if what was recorded is to be
/// kept, it waits to be rendered and the cache has been recorded. Nothing changes
/// outside a recording.
pub open spec fn ended<K: Backend>(before: Renderer<K>, after: Renderer<K>) -> bool {
    let stack = before.texture_cache.recording_stack@;
    if stack.len() == 0 {
        after == before
    } else {
        let (id, saved, keep) = stack.last();
        &&& after.layers == saved
        &&& after.texture_cache.recording_stack@ == stack.drop_last()
        &&& after.texture_cache.pending@ == if keep {
            recording::enqueued(before.texture_cache.pending@, id, before.layers)
        } else {
            before.texture_cache.pending@
        }
        &&& after.texture_cache.entries@ == if keep {
            marked(before.texture_cache.entries@, id)
        } else {
            before.texture_cache.entries@
        }
        &&& after.texture_cache.pipeline == before.texture_cache.pipeline
        &&& after.settings == before.settings
        &&& after.scale_factor == before.scale_factor
        &&& after.state == before.state
        &&& after.texture_cache_state == before.texture_cache_state
        &&& after.compose_index == before.compose_index
        &&& after.min_uniform_alignment == before.min_uniform_alignment
    }
}

impl<K: Backend> Renderer<K> {
    /// Begins recording into the given cache, in the given mode, and returns whether
    /// the renderer is now in recording mode.
    ///
    /// In [`TextureRecordMode::Flush`] mode it is if the cache is stale. In
    /// [`TextureRecordMode::TraverseOnly`] mode it always is, but what is recorded is
    /// kept only if the cache is stale.
    pub fn record_texture<A: FnOnce(Size<u32>) -> K::Texture>(
        &mut self,
        mode: TextureRecordMode,
        flags: &mut CacheFlags,
        cache: &TextureCache,
        target: RecordTarget,
        allocate: A,
    ) -> (r: bool)
        requires
            old(flags).wf(),
            old(flags).contains(*cache),
            old(self).can_record(target),
            is_stale(
                old(self).texture_cache.entries@,
                cache@,
                old(flags)@[cache@],
                target,
            ) && !fits(old(self).texture_cache.entries@, cache@, target.physical_size) ==> forall|
                size: Size<u32>,
            |
                is_capacity_for(
                    old(self).texture_cache.entries@,
                    cache@,
                    target.physical_size,
                    size,
                ) ==> #[trigger] call_requires(allocate, (size,)),
        ensures
            ({
                let stale = is_stale(
                    old(self).texture_cache.entries@,
                    cache@,
                    old(flags)@[cache@],
                    target,
                );
                &&& r == (stale || mode == TextureRecordMode::TraverseOnly)
                &&& started(*old(self), *final(self), cache@, r, stale, target, allocate)
            }),
            final(self).wf(),
            final(flags).wf(),
            final(flags)@ == old(flags)@.insert(cache@, false),
            final(flags).next_id() == old(flags).next_id(),
    {
        let id = cache.id().as_u64();
        let invalidated = cache.take_invalidated(flags);
        let needs_redraw = invalidated || match fx::get(&self.texture_cache.entries, id) {
            Some(entry) => {
                !entry.size.same(&target.size) || !entry.physical_size.same(&target.physical_size)
                    || target.scale_changed
            },
            None => true,
        };
        let keep = match mode {
            TextureRecordMode::Flush => {
                if !needs_redraw {
                    return false;
                }
                true
            },
            TextureRecordMode::TraverseOnly => needs_redraw,
        };
        if keep {
            self.ensure_texture_cache_entry(id, target, allocate);
        }
        let mut saved = Stack::new();
        saved.reset(Rectangle::with_size(target.extent));
        std::mem::swap(&mut saved, &mut self.layers);
        self.texture_cache.recording_stack.push((id, saved, keep));
        true
    }
}

/// A cache that has been recorded is fresh for the same size and scale factor, until
/// it is invalidated: from the start of its recording on, and when that has ended.
/// This holds of whatever happens in between, other recordings included, that leaves
/// the entry of the cache alone.
pub proof fn law_a_recorded_cache_is_fresh<K: Backend, A: FnOnce(Size<u32>) -> K::Texture>(
    before: Renderer<K>,
    begun: Renderer<K>,
    filled: Renderer<K>,
    after: Renderer<K>,
    id: u64,
    target: RecordTarget,
    allocate: A,
    again: RecordTarget,
)
    requires
        started(before, begun, id, true, true, target, allocate),
        filled.texture_cache.entries@.contains_key(id),
        filled.texture_cache.entries@[id] == begun.texture_cache.entries@[id],
        ended(filled, after),
        again.size == target.size,
        again.physical_size == target.physical_size,
        !again.scale_changed,
    ensures
        !is_stale(begun.texture_cache.entries@, id, false, again),
        !is_stale(after.texture_cache.entries@, id, false, again),
        is_stale(after.texture_cache.entries@, id, true, again),
{
    assert(begun.texture_cache.entries@.contains_key(id));
}

/// A kept recording ends with the target as it was before the recording, and what
/// was recorded is the last to wait for being rendered. This holds of whatever
/// happens in between, other recordings included, that ends the recordings it
/// begins.
pub proof fn law_a_recording_ends_where_it_began<K: Backend, A: FnOnce(Size<u32>) -> K::Texture>(
    before: Renderer<K>,
    begun: Renderer<K>,
    filled: Renderer<K>,
    after: Renderer<K>,
    id: u64,
    keep: bool,
    target: RecordTarget,
    allocate: A,
)
    requires
        started(before, begun, id, true, keep, target, allocate),
        filled.texture_cache.recording_stack@ == begun.texture_cache.recording_stack@,
        ended(filled, after),
    ensures
        after.layers == before.layers,
        after.texture_cache.recording_stack@ == before.texture_cache.recording_stack@,
        after.texture_cache.entries@ == if keep {
            marked(filled.texture_cache.entries@, id)
        } else {
            filled.texture_cache.entries@
        },
        keep ==> after.texture_cache.pending@.last() == (id, filled.layers),
        !keep ==> after.texture_cache.pending@ == filled.texture_cache.pending@,
{
    assert(after.texture_cache.recording_stack@ =~= before.texture_cache.recording_stack@);
}

/// Geometry to draw. `P` is what the device draws.
#[derive(Debug)]
pub enum Geometry<P> {
    /// Geometry that is drawn once.
    Live { meshes: P, images: Vec<P>, text: P },
    /// Geometry that is drawn from a cache.
    Cached(GeometryCache<P>),
}

/// Geometry that has been prepared before. What there was none of is missing.
#[derive(Debug)]
pub struct GeometryCache<P> {
    pub meshes: Option<P>,
    pub images: Option<Vec<P>>,
    pub text: Option<P>,
}

/// The operation that draws the given primitive, if there is one.
pub open spec fn drawn_if_some<P>(primitive: Option<P>) -> Seq<Command<P>> {
    match primitive {
        Some(primitive) => seq![Command::Draw(primitive)],
        None => Seq::empty(),
    }
}

/// The operations that draw the given primitives, in order.
pub open spec fn drawn_all<P>(primitives: Seq<P>) -> Seq<Command<P>> {
    primitives.map_values(|primitive: P| Command::Draw(primitive))
}

impl<P> Geometry<P> {
    /// The operations that draw the geometry: its meshes, its images, its text.
    pub open spec fn commands(self) -> Seq<Command<P>> {
        match self {
            Geometry::Live { meshes, images, text } => seq![Command::Draw(meshes)] + drawn_all(
                images@,
            ) + seq![Command::Draw(text)],
            Geometry::Cached(cache) => drawn_if_some(cache.meshes) + (match cache.images {
                Some(images) => drawn_all(images@),
                None => Seq::empty(),
            }) + drawn_if_some(cache.text),
        }
    }
}

impl<K: Backend> Renderer<K> {
    /// Draws the given primitives in order.
    fn draw_all(&mut self, primitives: Vec<K::Primitive>)
        ensures
            final(self).drawing() == old(self).drawing().extend(drawn_all(primitives@)),
            final(self).kept() == old(self).kept(),
            old(self).wf() ==> final(self).wf(),
    {
        let ghost all = primitives@;
        assert(self.drawing() =~= self.drawing().extend(drawn_all(all.take(0))));
        for primitive in it: primitives
            invariant
                it.seq() == all,
                self.drawing() == old(self).drawing().extend(
                    drawn_all(all.take(it.index() as int)),
                ),
                self.kept() == old(self).kept(),
                old(self).wf() ==> self.wf(),
        {
            let ghost k = it.index() as int;
            self.draw_primitive(primitive);
            assert(drawn_all(all.take(k + 1)) =~= drawn_all(all.take(k)).push(
                Command::Draw(primitive),
            ));
            assert(self.drawing() =~= old(self).drawing().extend(drawn_all(all.take(k + 1))));
        }
        assert(all.take(all.len() as int) =~= all);
    }

    /// Draws the given geometry.
    pub fn draw_geometry(&mut self, geometry: Geometry<K::Primitive>)
        ensures
            final(self).drawing() == old(self).drawing().extend(geometry.commands()),
            final(self).kept() == old(self).kept(),
            old(self).wf() ==> final(self).wf(),
    {
        match geometry {
            Geometry::Live { meshes, images, text } => {
                self.draw_primitive(meshes);
                self.draw_all(images);
                self.draw_primitive(text);
            },
            Geometry::Cached(cache) => {
                if let Some(meshes) = cache.meshes {
                    self.draw_primitive(meshes);
                }
                if let Some(images) = cache.images {
                    self.draw_all(images);
                }
                if let Some(text) = cache.text {
                    self.draw_primitive(text);
                }
            },
        }
        assert(self.drawing() =~= old(self).drawing().extend(geometry.commands()));
    }

    /// Composites every registered layer into the current target.
    pub fn compose_layers(
        &mut self,
        registry: &LayerRegistry,
        states: &SlotStates,
        debug_outline: bool,
    )
        requires
            Scene::new(registry.slots(), states@, old(self).drawing().backed).wf(),
        ensures
            final(self).drawing() == old(self).drawing().extend(
                Scene::new(
                    registry.slots(),
                    states@,
                    old(self).drawing().backed,
                ).frame(debug_outline, registry.slots().len() as int),
            ),
            final(self).kept() == old(self).kept(),
            old(self).wf() ==> final(self).wf(),
    {
        let mut index: Vec<(LayerId, usize)> = Vec::new();
        std::mem::swap(&mut index, &mut self.compose_index);
        compose::compose_layers(self, registry, states, &mut index, debug_outline);
        self.compose_index = index;
    }

    /// Returns the font that text is drawn with by default.
    pub fn default_font(&self) -> (r: Font)
        ensures
            r == self.settings.default_font,
    {
        self.settings.default_font
    }

    /// Returns the size that text is drawn with by default.
    pub fn default_size(&self) -> (r: Scalar)
        ensures
            r == self.settings.default_text_size,
    {
        self.settings.default_text_size
    }
}

/// Returns the name of the renderer.
pub fn name() -> (r: String)
    ensures
        r@ == "wgpu"@,
{
    "wgpu".to_owned()
}

/// Returns whether a renderer is wanted when the given backend is asked for: it is
/// if none is, or if its own name is.
pub fn accepts(backend: Option<&str>) -> (r: bool)
    ensures
        r == (backend matches Some(asked) ==> asked@ == "wgpu"@),
{
    match backend {
        Some(asked) => asked.to_owned() == name(),
        None => true,
    }
}

} // verus!
