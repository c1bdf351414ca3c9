//! The renderer for CPUs.
//!
//! The renderer records what it is asked to draw, keeps a pixmap behind every
//! cache, and decides how recordings and frames are rasterized.
use vstd::prelude::*;

use crate::compose;
use crate::compose::Scene;
use crate::fx;
use crate::geometry::{Color, Rectangle, Scalar, Size, Transformation};
use crate::layer::{LayerId, LayerRegistry, SlotStates};
use crate::recording;
use crate::recording::Stack;
use crate::renderer::Renderer as _;
use crate::renderer::{
    Background, Command, Drawing, Font, Quad, RecordTarget, Settings, Suspended,
    TextureRecordMode,
};
use crate::texture_cache::{CacheFlags, TextureCache};

use texture_cache::{Entry, Storage};

pub mod flush;
pub mod frame;
pub mod laws;
pub mod pixmap;
pub mod summary;
pub mod texture_cache;

verus! {

/// A renderer for CPUs. `P` is what it draws besides quads and cached pixmaps.
pub struct Renderer<P> {
    /// The settings it was created with.
    pub settings: Settings,
    /// What has been recorded for the current target.
    pub layers: Stack<P>,
    /// The scale factor of the last hint.
    pub scale_factor: Option<Scalar>,
    /// The pixmaps behind the caches.
    pub texture_cache: Storage<P>,
    /// The children of every layer. Scratch memory that is kept from frame to
    /// frame.
    pub compose_index: Vec<(LayerId, usize)>,
}

/// Everything that drawing into the current target leaves alone.
#[verifier::ext_equal]
pub ghost struct Kept<P> {
    pub settings: Settings,
    pub scale_factor: Option<Scalar>,
    pub entries: Map<u64, Entry>,
    pub pending: Seq<(u64, Stack<P>)>,
    pub recording_stack: Seq<(u64, Stack<P>, bool)>,
}

/// The suspended targets.
pub open spec fn suspended<P>(recording_stack: Seq<(u64, Stack<P>, bool)>) -> Seq<Suspended<P>> {
    recording_stack.map_values(
        |e: (u64, Stack<P>, bool)| Suspended { id: e.0, keep: e.2, recorded: e.1@ },
    )
}

/// The ids of the caches that have been recorded.
pub open spec fn recorded_ids(entries: Map<u64, Entry>) -> Set<u64> {
    Set::new(|id: u64| entries.contains_key(id) && entries[id].recorded)
}

/// The entries once a recording of the given cache has been finished.
pub open spec fn marked(entries: Map<u64, Entry>, id: u64) -> Map<u64, Entry> {
    if entries.contains_key(id) {
        entries.insert(id, Entry { recorded: true, ..entries[id] })
    } else {
        entries
    }
}

/// Whether the cache with the given id must be rendered (again) for `target`.
pub open spec fn is_stale(
    entries: Map<u64, Entry>,
    id: u64,
    invalidated: bool,
    target: RecordTarget,
) -> bool {
    ||| invalidated
    ||| !entries.contains_key(id)
    ||| entries[id].size != target.size
    ||| entries[id].physical_size != target.physical_size
    ||| target.scale_changed
}

/// Whether `after` is the entry of the given cache once it is ready to be rendered
/// for `target`. A pixmap of the right size is kept. Another is replaced by a
/// transparent one.
pub open spec fn is_entry_for(
    before: Map<u64, Entry>,
    id: u64,
    target: RecordTarget,
    after: Entry,
) -> bool {
    &&& after.wf()
    &&& after.size == target.size
    &&& after.physical_size == target.physical_size
    &&& after.scale_factor == target.scale_factor
    &&& after.recorded == (before.contains_key(id) && before[id].recorded)
    &&& if before.contains_key(id) && before[id].physical_size == target.physical_size {
        after.pixmap == before[id].pixmap
    } else {
        let width = texture_cache::at_least_one(target.physical_size.width);
        let height = texture_cache::at_least_one(target.physical_size.height);
        pixmap::pixmap_bytes(after.pixmap) == pixmap::zeros(width * height * 4)
    }
}

/// Whether `after` is `before` once a recording into the given cache has been asked
/// for. Nothing changes unless a recording began. If the recording will be kept, the
/// cache has an entry for `target`.
pub open spec fn started<P>(
    before: Renderer<P>,
    after: Renderer<P>,
    id: u64,
    began: bool,
    keep: bool,
    target: RecordTarget,
) -> bool {
    &&& !began ==> after == before
    &&& began ==> {
        &&& after.layers.commands@.len() == 0
        &&& after.layers.bounds == Rectangle::with_size_spec(target.extent)
        &&& after.texture_cache.recording_stack@ == before.texture_cache.recording_stack@.push(
            (id, before.layers, keep),
        )
        &&& after.texture_cache.pending == before.texture_cache.pending
        &&& after.settings == before.settings
        &&& after.scale_factor == before.scale_factor
        &&& after.compose_index == before.compose_index
    }
    &&& began && !keep ==> after.texture_cache.entries == before.texture_cache.entries
    &&& began && keep ==> {
        &&& after.texture_cache.entries@ == before.texture_cache.entries@.insert(
            id,
            after.texture_cache.entries@[id],
        )
        &&& is_entry_for(
            before.texture_cache.entries@,
            id,
            target,
            after.texture_cache.entries@[id],
        )
    }
}

/// Whether `after` is `before` once the recording that began last has ended: the
/// target that was suspended is current again, and if what was recorded is to be
/// kept, it waits to be rendered and the cache has been recorded. Nothing changes
/// outside a recording.
pub open spec fn ended<P>(before: Renderer<P>, after: Renderer<P>) -> bool {
    let stack = before.texture_cache.recording_stack@;
    if stack.len() == 0 {
        after == before
    } else {
        let (id, saved, keep) = stack.last();
        &&& after.layers == saved
        &&& after.texture_cache.recording_stack@ == stack.drop_last()
        &&& after.texture_cache.pending@ == if keep {
            recording::enqueued(before.texture_cache.pending@, id, before.layers)
        } else {
            before.texture_cache.pending@
        }
        &&& after.texture_cache.entries@ == if keep {
            marked(before.texture_cache.entries@, id)
        } else {
            before.texture_cache.entries@
        }
        &&& after.settings == before.settings
        &&& after.scale_factor == before.scale_factor
        &&& after.compose_index == before.compose_index
    }
}

impl<P> Renderer<P> {
    /// Creates a renderer with empty bounds and no caches.
    pub fn new(settings: Settings) -> (r: Renderer<P>)
        ensures
            r.wf(),
            r.settings == settings,
            r.layers.commands@.len() == 0,
            r.layers.bounds == Rectangle::with_size_spec(Size::zero_spec()),
            r.scale_factor is None,
            r.texture_cache.entries@ == Map::<u64, Entry>::empty(),
            r.texture_cache.pending@.len() == 0,
            r.texture_cache.recording_stack@.len() == 0,
            r.compose_index@.len() == 0,
    {
        Renderer {
            settings,
            layers: Stack::new(),
            scale_factor: None,
            texture_cache: Storage::new(),
            compose_index: Vec::new(),
        }
    }

    /// Returns what has been recorded for the current target.
    pub fn layers(&self) -> (r: &[Command<P>])
        ensures
            r@ == self.layers.commands@,
    {
        self.layers.commands.as_slice()
    }

    /// Draws a primitive.
    pub fn draw_primitive(&mut self, primitive: P)
        ensures
            final(self).drawing() == old(self).drawing().record(Command::Draw(primitive)),
            final(self).kept() == old(self).kept(),
            old(self).wf() ==> final(self).wf(),
    {
        self.layers.record(Command::Draw(primitive));
    }

    /// Gives the cache with the given id an entry for `target`.
    fn ensure_texture_cache_entry(&mut self, id: u64, target: RecordTarget)
        requires
            old(self).can_record(target),
        ensures
            final(self).wf(),
            final(self).texture_cache.entries@ == old(self).texture_cache.entries@.insert(
                id,
                final(self).texture_cache.entries@[id],
            ),
            is_entry_for(
                old(self).texture_cache.entries@,
                id,
                target,
                final(self).texture_cache.entries@[id],
            ),
            final(self).texture_cache.pending == old(self).texture_cache.pending,
            final(self).texture_cache.recording_stack == old(self).texture_cache.recording_stack,
            final(self).settings == old(self).settings,
            final(self).layers == old(self).layers,
            final(self).scale_factor == old(self).scale_factor,
            final(self).compose_index == old(self).compose_index,
    {
        let (needs_alloc, recorded) = match fx::get(&self.texture_cache.entries, id) {
            Some(entry) => (!entry.physical_size.same(&target.physical_size), entry.recorded),
            None => (true, false),
        };
        if needs_alloc {
            let width: u32 = if target.physical_size.width < 1 {
                1
            } else {
                target.physical_size.width
            };
            let height: u32 = if target.physical_size.height < 1 {
                1
            } else {
                target.physical_size.height
            };
            let pixmap = pixmap::new_pixmap(width, height).unwrap();
            let entry = Entry {
                pixmap,
                size: target.size,
                physical_size: target.physical_size,
                scale_factor: target.scale_factor,
                recorded,
            };
            let _ = fx::insert(&mut self.texture_cache.entries, id, entry);
        } else if let Some(entry) = fx::get_mut(&mut self.texture_cache.entries, id) {
            entry.size = target.size;
            entry.scale_factor = target.scale_factor;
        }
        assert forall|k: u64| #[trigger] self.texture_cache.entries@.contains_key(k) implies (
        k == id || old(self).texture_cache.entries@.contains_key(k)) by {}
    }

    /// Begins recording into the given cache, in the given mode, and returns whether
    /// the renderer is now in recording mode.
    ///
    /// In [`TextureRecordMode::Flush`] mode it is if the cache is stale. In
    /// [`TextureRecordMode::TraverseOnly`] mode it always is, but what is recorded is
    /// kept only if the cache is stale.
    pub fn record_texture(
        &mut self,
        mode: TextureRecordMode,
        flags: &mut CacheFlags,
        cache: &TextureCache,
        target: RecordTarget,
    ) -> (r: bool)
        requires
            old(flags).wf(),
            old(flags).contains(*cache),
            old(self).can_record(target),
        ensures
            ({
                let stale = is_stale(
                    old(self).texture_cache.entries@,
                    cache@,
                    old(flags)@[cache@],
                    target,
                );
                &&& r == (stale || mode == TextureRecordMode::TraverseOnly)
                &&& started(*old(self), *final(self), cache@, r, stale, target)
            }),
            final(self).wf(),
            final(flags).wf(),
            final(flags)@ == old(flags)@.insert(cache@, false),
            final(flags).next_id() == old(flags).next_id(),
    {
        let id = cache.id().as_u64();
        let invalidated = cache.take_invalidated(flags);
        let needs_redraw = invalidated || match fx::get(&self.texture_cache.entries, id) {
            Some(entry) => {
                !entry.size.same(&target.size) || !entry.physical_size.same(&target.physical_size)
                    || target.scale_changed
            },
            None => true,
        };
        let keep = match mode {
            TextureRecordMode::Flush => {
                if !needs_redraw {
                    return false;
                }
                true
            },
            TextureRecordMode::TraverseOnly => needs_redraw,
        };
        if keep {
            self.ensure_texture_cache_entry(id, target);
        }
        let mut saved = Stack::new();
        saved.reset(Rectangle::with_size(target.extent));
        std::mem::swap(&mut saved, &mut self.layers);
        self.texture_cache.recording_stack.push((id, saved, keep));
        true
    }

    /// Composites every registered layer into the current target.
    pub fn compose_layers(
        &mut self,
        registry: &LayerRegistry,
        states: &SlotStates,
        debug_outline: bool,
    )
        requires
            Scene::new(registry.slots(), states@, old(self).drawing().backed).wf(),
        ensures
            final(self).drawing() == old(self).drawing().extend(
                Scene::new(
                    registry.slots(),
                    states@,
                    old(self).drawing().backed,
                ).frame(debug_outline, registry.slots().len() as int),
            ),
            final(self).kept() == old(self).kept(),
            old(self).wf() ==> final(self).wf(),
    {
        let mut index: Vec<(LayerId, usize)> = Vec::new();
        std::mem::swap(&mut index, &mut self.compose_index);
        compose::compose_layers(self, registry, states, &mut index, debug_outline);
        self.compose_index = index;
    }

    /// Returns the font that text is drawn with by default.
    pub fn default_font(&self) -> (r: Font)
        ensures
            r == self.settings.default_font,
    {
        self.settings.default_font
    }

    /// Returns the size that text is drawn with by default.
    pub fn default_size(&self) -> (r: Scalar)
        ensures
            r == self.settings.default_text_size,
    {
        self.settings.default_text_size
    }
}

impl<P> crate::renderer::Renderer for Renderer<P> {
    type Primitive = P;

    /// The renderer allocates pixmaps by itself.
    type Backing = ();

    type Kept = Kept<P>;

    open spec fn drawing(&self) -> Drawing<P> {
        Drawing {
            bounds: self.layers.bounds,
            commands: self.layers.commands@,
            suspended: suspended(self.texture_cache.recording_stack@),
            waiting: recording::contents(self.texture_cache.pending@),
            stored: self.texture_cache.entries@.dom(),
            backed: recorded_ids(self.texture_cache.entries@),
        }
    }

    open spec fn kept(&self) -> Kept<P> {
        Kept {
            settings: self.settings,
            scale_factor: self.scale_factor,
            entries: self.texture_cache.entries@,
            pending: self.texture_cache.pending@,
            recording_stack: self.texture_cache.recording_stack@,
        }
    }

    open spec fn hinted(&self) -> Option<Scalar> {
        self.scale_factor
    }

    open spec fn wf(&self) -> bool {
        self.texture_cache.wf()
    }

    open spec fn can_record(&self, target: RecordTarget) -> bool {
        &&& self.wf()
        &&& pixmap::can_allocate(
            texture_cache::at_least_one(target.physical_size.width),
            texture_cache::at_least_one(target.physical_size.height),
        )
    }

    open spec fn is_stale(&self, id: u64, invalidated: bool, target: RecordTarget) -> bool {
        is_stale(self.texture_cache.entries@, id, invalidated, target)
    }

    open spec fn stored_size(&self, id: u64) -> Option<(Size<u32>, Size<u32>)> {
        if self.texture_cache.entries@.contains_key(id) {
            let entry = self.texture_cache.entries@[id];
            Some((entry.size, entry.physical_size))
        } else {
            None
        }
    }

    proof fn law_a_fresh_cache_has_the_size_of_its_target(
        &self,
        id: u64,
        invalidated: bool,
        target: RecordTarget,
    ) {
    }

    proof fn law_drawing_keeps_caches_fresh(
        &self,
        drawn: &Self,
        id: u64,
        invalidated: bool,
        target: RecordTarget,
    ) {
    }

    proof fn law_targets_stay_recordable(&self, later: &Self, target: RecordTarget) {
    }

    fn start_layer(&mut self, bounds: Rectangle) {
        self.layers.record(Command::StartLayer(bounds));
    }

    fn end_layer(&mut self) {
        self.layers.record(Command::EndLayer);
    }

    fn start_transformation(&mut self, transformation: Transformation) {
        self.layers.record(Command::StartTransformation(transformation));
    }

    fn end_transformation(&mut self) {
        self.layers.record(Command::EndTransformation);
    }

    fn fill_quad(&mut self, quad: Quad, background: Background) {
        self.layers.record(Command::FillQuad(quad, background));
    }

    fn fill_layer_label(&mut self, id: LayerId, bounds: Rectangle, color: Color) {
        self.layers.record(Command::FillLayerLabel(id, bounds, color));
    }

    fn start_recording_texture<A: FnOnce(Size<u32>)>(
        &mut self,
        flags: &mut CacheFlags,
        cache: &TextureCache,
        target: RecordTarget,
        allocate: A,
    ) -> (r: bool)
        ensures
            started(*old(self), *final(self), cache@, r, r, target),
    {
        let began = self.record_texture(TextureRecordMode::Flush, flags, cache, target);
        proof {
            if began {
                let entry = self.texture_cache.entries@[cache@];
                assert(self.texture_cache.entries@.contains_key(cache@));
                assert(entry.size == target.size && entry.physical_size == target.physical_size);
                assert(self.stored_size(cache@) == Some((entry.size, entry.physical_size)));
            }
        }
        began
    }

    fn end_recording_texture(&mut self)
        ensures
            ended(*old(self), *final(self)),
    {
        if self.texture_cache.recording_stack.len() == 0 {
            return;
        }
        let (id, saved, keep) = self.texture_cache.recording_stack.pop().unwrap();
        let mut captured = saved;
        std::mem::swap(&mut captured, &mut self.layers);
        if keep {
            if let Some(entry) = fx::get_mut(&mut self.texture_cache.entries, id) {
                entry.recorded = true;
            }
            recording::enqueue(&mut self.texture_cache.pending, id, captured);
        }
        assert(self.texture_cache.entries@ =~= if keep {
            marked(old(self).texture_cache.entries@, id)
        } else {
            old(self).texture_cache.entries@
        });
        proof {
            recording::lemma_contents_enqueued(old(self).texture_cache.pending@, id, captured);
        }
        assert(self.drawing().suspended =~= old(self).drawing().resume().suspended);
        assert(self.drawing().stored =~= old(self).drawing().stored);
        assert(self.drawing().backed =~= old(self).drawing().resume().backed);
    }

    fn draw_cached_texture(&mut self, cache: &TextureCache, bounds: Rectangle) {
        let id = cache.id().as_u64();
        let recorded = match fx::get(&self.texture_cache.entries, id) {
            Some(entry) => entry.recorded,
            None => false,
        };
        if recorded {
            self.layers.record(Command::DrawCachedTexture(id, bounds));
        }
    }

    fn hint(&mut self, scale_factor: Scalar)
        ensures
            *final(self) == (Renderer { scale_factor: Some(scale_factor), ..*old(self) }),
    {
        self.scale_factor = Some(scale_factor);
    }

    fn scale_factor(&self) -> (r: Option<Scalar>) {
        self.scale_factor
    }

    fn reset(&mut self, new_bounds: Rectangle) {
        self.layers.reset(new_bounds);
    }
}

/// A cache that has been recorded is fresh for the same size and scale factor, until
/// it is invalidated: from the start of its recording on, and when that has ended.
/// This holds of whatever happens in between, other recordings included, that leaves
/// the entry of the cache alone.
pub proof fn law_a_recorded_cache_is_fresh<P>(
    before: Renderer<P>,
    begun: Renderer<P>,
    filled: Renderer<P>,
    after: Renderer<P>,
    id: u64,
    target: RecordTarget,
    again: RecordTarget,
)
    requires
        started(before, begun, id, true, true, target),
        filled.texture_cache.entries@.contains_key(id),
        filled.texture_cache.entries@[id] == begun.texture_cache.entries@[id],
        ended(filled, after),
        again.size == target.size,
        again.physical_size == target.physical_size,
        !again.scale_changed,
    ensures
        !is_stale(begun.texture_cache.entries@, id, false, again),
        !is_stale(after.texture_cache.entries@, id, false, again),
        is_stale(after.texture_cache.entries@, id, true, again),
{
    assert(begun.texture_cache.entries@.contains_key(id));
}

/// A kept recording ends with the target as it was before the recording, and what
/// was recorded is the last to wait for being rendered. This holds of whatever
/// happens in between, other recordings included, that ends the recordings it
/// begins.
pub proof fn law_a_recording_ends_where_it_began<P>(
    before: Renderer<P>,
    begun: Renderer<P>,
    filled: Renderer<P>,
    after: Renderer<P>,
    id: u64,
    keep: bool,
    target: RecordTarget,
)
    requires
        started(before, begun, id, true, keep, target),
        filled.texture_cache.recording_stack@ == begun.texture_cache.recording_stack@,
        ended(filled, after),
    ensures
        after.layers == before.layers,
        after.texture_cache.recording_stack@ == before.texture_cache.recording_stack@,
        after.texture_cache.entries@ == if keep {
            marked(filled.texture_cache.entries@, id)
        } else {
            filled.texture_cache.entries@
        },
        keep ==> after.texture_cache.pending@.last() == (id, filled.layers),
        !keep ==> after.texture_cache.pending@ == filled.texture_cache.pending@,
{
    assert(after.texture_cache.recording_stack@ =~= before.texture_cache.recording_stack@);
}

/// Geometry to draw.
#[derive(Debug)]
pub struct Geometry<P> {
    pub primitives: P,
    pub images: Vec<P>,
    pub text: P,
}

impl<P> Geometry<P> {
    /// The operations that draw the geometry: its primitives, its images, its text.
    pub open spec fn commands(self) -> Seq<Command<P>> {
        seq![Command::Draw(self.primitives)] + self.images@.map_values(
            |image: P| Command::Draw(image),
        ) + seq![Command::Draw(self.text)]
    }
}

impl<P> Renderer<P> {
    /// Draws the given geometry.
    pub fn draw_geometry(&mut self, geometry: Geometry<P>)
        ensures
            final(self).drawing() == old(self).drawing().extend(geometry.commands()),
            final(self).kept() == old(self).kept(),
            old(self).wf() ==> final(self).wf(),
    {
        self.draw_primitive(geometry.primitives);
        let ghost before = self.drawing();
        let ghost all = geometry.images@;
        let ghost drawn = all.map_values(|image: P| Command::Draw(image));
        assert(before =~= before.extend(drawn.take(0)));
        for image in it: geometry.images
            invariant
                it.seq() == all,
                drawn == all.map_values(|image: P| Command::Draw(image)),
                self.drawing() == before.extend(drawn.take(it.index() as int)),
                self.kept() == old(self).kept(),
                old(self).wf() ==> self.wf(),
        {
            let ghost k = it.index() as int;
            self.draw_primitive(image);
            assert(drawn.take(k + 1) =~= drawn.take(k).push(Command::Draw(image)));
            assert(self.drawing() =~= before.extend(drawn.take(k + 1)));
        }
        assert(drawn.take(drawn.len() as int) =~= drawn);
        self.draw_primitive(geometry.text);
        assert(self.drawing() =~= old(self).drawing().extend(geometry.commands()));
    }
}

/// Returns the name of the renderer.
pub fn name() -> (r: String)
    ensures
        r@ == "tiny-skia"@,
{
    "tiny-skia".to_owned()
}

/// Returns whether a renderer is wanted when the given backend is asked for: it is
/// if none is, or if one of its own names is.
pub fn accepts(backend: Option<&str>) -> (r: bool)
    ensures
        r == (backend matches Some(asked) ==> (asked@ == "tiny-skia"@ || asked@ == "tiny_skia"@
            || asked@ == "software"@)),
{
    match backend {
        Some(asked) => {
            let asked = asked.to_owned();
            asked == "tiny-skia".to_owned() || asked == "tiny_skia".to_owned() || asked
                == "software".to_owned()
        },
        None => true,
    }
}

} // verus!
