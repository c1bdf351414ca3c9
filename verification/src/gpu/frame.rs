//! Preparing and rendering the layers of a frame.
//!
//! The functions here decide what is done with each layer, in which order, and with
//! which of the states that were prepared for it. The device does the work.
use vstd::prelude::*;

use crate::fx;
use crate::geometry::{Color, Rectangle};
use crate::gpu::texture_cache::{
    Batch, Composite, Entry, FrameState, Instance, LayerState, Pipeline, Storage,
};
use crate::gpu::Backend;

verus! {

/// What there is to draw in one layer.
#[derive(Debug)]
pub struct LayerSummary {
    /// The part of the target that the layer covers, in physical pixels: `None` if
    /// it covers nothing.
    pub scissor_rect: Option<Rectangle<u32>>,
    /// The number of quads.
    pub quads: usize,
    /// The number of meshes.
    pub triangles: usize,
    /// The part of the target that each shader primitive covers, in physical
    /// pixels: `None` for one that covers nothing.
    pub primitives: Vec<Option<Rectangle<u32>>>,
    /// The number of images.
    pub images: usize,
    /// The number of texts.
    pub text: usize,
    /// The cached textures.
    pub cached_textures: Batch,
}

impl LayerSummary {
    /// Whether the layer composites cached textures.
    pub open spec fn composites(self) -> bool {
        self.scissor_rect is Some && self.cached_textures@.len() > 0
    }

    /// Whether there is nothing to draw in the layer.
    pub open spec fn empty(self) -> bool {
        &&& self.quads == 0
        &&& self.triangles == 0
        &&& self.primitives@.len() == 0
        &&& self.images == 0
        &&& self.text == 0
        &&& self.cached_textures@.len() == 0
    }

    /// Returns whether there is nothing to draw in the layer.
    pub fn is_empty(&self) -> (r: bool)
        ensures
            r == self.empty(),
    {
        self.quads == 0 && self.triangles == 0 && self.primitives.len() == 0 && self.images == 0
            && self.text == 0 && self.cached_textures.len() == 0
    }
}

/// The number of layers among the first `n` that composite cached textures.
pub open spec fn composites(layers: Seq<LayerSummary>, n: int) -> int
    decreases n,
{
    if n <= 0 {
        0
    } else {
        composites(layers, n - 1) + if layers[n - 1].composites() {
            1int
        } else {
            0
        }
    }
}

/// The number of layers among the first `n` that draw anything.
pub open spec fn drawn_layers(layers: Seq<LayerSummary>, n: int) -> int
    decreases n,
{
    if n <= 0 {
        0
    } else {
        drawn_layers(layers, n - 1) + if layers[n - 1].scissor_rect is Some && !layers[n
            - 1].empty() {
            1int
        } else {
            0
        }
    }
}

/// Returns the number of layers that draw anything.
pub fn layers_rendered(layers: &[LayerSummary]) -> (r: usize)
    ensures
        r == drawn_layers(layers@, layers@.len() as int),
{
    let mut count: usize = 0;
    let mut i: usize = 0;
    while i < layers.len()
        invariant
            i <= layers@.len(),
            count <= i,
            count == drawn_layers(layers@, i as int),
        decreases layers@.len() - i,
    {
        if layers[i].scissor_rect.is_some() && !layers[i].is_empty() {
            count = count + 1;
        }
        i = i + 1;
    }
    count
}

/// A quotient of two extents.
#[derive(Debug, Clone, Copy, PartialEq, Eq, Structural)]
pub struct Fraction {
    pub numerator: u32,
    pub denominator: u32,
}

/// The part of a texture that holds contents.
#[derive(Debug, Clone, Copy, PartialEq, Eq, Structural)]
pub struct UvMax {
    pub width: Fraction,
    pub height: Fraction,
}

/// The part of the texture of the given cache that holds contents: all of it if the
/// cache has none.
pub open spec fn uv_max<K: Backend>(entries: Map<u64, Entry<K>>, id: u64) -> UvMax {
    if entries.contains_key(id) {
        let contents = entries[id].physical_size;
        let capacity = entries[id].texture_capacity_size;
        UvMax {
            width: Fraction {
                numerator: contents.width,
                denominator: if capacity.width < 1 {
                    1
                } else {
                    capacity.width
                },
            },
            height: Fraction {
                numerator: contents.height,
                denominator: if capacity.height < 1 {
                    1
                } else {
                    capacity.height
                },
            },
        }
    } else {
        let one = Fraction { numerator: 1, denominator: 1 };
        UvMax { width: one, height: one }
    }
}

/// No texture is sampled beyond its edges.
pub proof fn law_uv_max_is_at_most_one<K: Backend>(storage: Storage<K>, id: u64)
    requires
        storage.wf(),
    ensures
        uv_max(storage.entries@, id).width.numerator <= uv_max(
            storage.entries@,
            id,
        ).width.denominator,
        uv_max(storage.entries@, id).height.numerator <= uv_max(
            storage.entries@,
            id,
        ).height.denominator,
        uv_max(storage.entries@, id).width.denominator > 0,
        uv_max(storage.entries@, id).height.denominator > 0,
{
}

/// One thing to prepare before the render pass.
#[derive(Debug, Clone, Copy, PartialEq)]
pub enum PrepareStep {
    /// The quads of a layer.
    Quads(usize),
    /// The meshes of a layer.
    Triangles(usize),
    /// A shader primitive of a layer.
    Primitive(usize, usize),
    /// The images of a layer.
    Images(usize),
    /// The texts of a layer.
    Text(usize),
    /// A cached texture of a layer: its uniforms are to be written into the given
    /// layer state.
    CachedTexture { layer: usize, index: u32, state: usize, uv_max: UvMax },
}

/// `step` if `wanted`, else nothing.
pub open spec fn when<T>(wanted: bool, step: T) -> Seq<T> {
    if wanted {
        seq![step]
    } else {
        Seq::empty()
    }
}

/// What is prepared for layer `i` before its cached textures.
pub open spec fn plain_steps(layer: LayerSummary, i: int) -> Seq<PrepareStep> {
    when(layer.quads > 0, PrepareStep::Quads(i as usize)) + when(
        layer.triangles > 0,
        PrepareStep::Triangles(i as usize),
    ) + Seq::new(
        layer.primitives@.len(),
        |j: int| PrepareStep::Primitive(i as usize, j as usize),
    ) + when(layer.images > 0, PrepareStep::Images(i as usize)) + when(
        layer.text > 0,
        PrepareStep::Text(i as usize),
    )
}

/// What is prepared for the first `n` cached textures of layer `i`.
pub open spec fn cached_steps<K: Backend>(
    entries: Map<u64, Entry<K>>,
    batch: Seq<Instance>,
    i: int,
    state: int,
    n: nat,
) -> Seq<PrepareStep> {
    Seq::new(
        n,
        |j: int|
            PrepareStep::CachedTexture {
                layer: i as usize,
                index: j as u32,
                state: state as usize,
                uv_max: uv_max(entries, batch[j].cache_id),
            },
    )
}

/// What is prepared for layer `i`: nothing if it covers nothing, else its quads,
/// meshes, shader primitives, images, texts and cached textures, in this order.
pub open spec fn layer_steps<K: Backend>(
    entries: Map<u64, Entry<K>>,
    layer: LayerSummary,
    i: int,
    state: int,
) -> Seq<PrepareStep> {
    if layer.scissor_rect is None {
        Seq::empty()
    } else {
        plain_steps(layer, i) + cached_steps(
            entries,
            layer.cached_textures@,
            i,
            state,
            layer.cached_textures@.len(),
        )
    }
}

/// What is prepared for the first `n` layers. The layers that composite cached
/// textures use the layer states from `start` on, one each.
pub open spec fn prepare_steps<K: Backend>(
    entries: Map<u64, Entry<K>>,
    layers: Seq<LayerSummary>,
    start: int,
    n: int,
) -> Seq<PrepareStep>
    decreases n,
{
    if n <= 0 {
        Seq::empty()
    } else {
        prepare_steps(entries, layers, start, n - 1) + layer_steps(
            entries,
            layers[n - 1],
            n - 1,
            start + composites(layers, n - 1),
        )
    }
}

fn uv_of<K: Backend>(storage: &Storage<K>, id: u64) -> (r: UvMax)
    ensures
        r == uv_max(storage.entries@, id),
{
    match fx::get(&storage.entries, id) {
        Some(entry) => {
            let capacity = entry.texture_capacity_size;
            UvMax {
                width: Fraction {
                    numerator: entry.physical_size.width,
                    denominator: if capacity.width < 1 {
                        1
                    } else {
                        capacity.width
                    },
                },
                height: Fraction {
                    numerator: entry.physical_size.height,
                    denominator: if capacity.height < 1 {
                        1
                    } else {
                        capacity.height
                    },
                },
            }
        },
        None => {
            let one = Fraction { numerator: 1, denominator: 1 };
            UvMax { width: one, height: one }
        },
    }
}

fn push_plain_steps(layer: &LayerSummary, i: usize, steps: &mut Vec<PrepareStep>)
    ensures
        final(steps)@ == old(steps)@ + plain_steps(*layer, i as int),
{
    if layer.quads > 0 {
        steps.push(PrepareStep::Quads(i));
    }
    if layer.triangles > 0 {
        steps.push(PrepareStep::Triangles(i));
    }
    let ghost before = steps@;
    let mut j: usize = 0;
    while j < layer.primitives.len()
        invariant
            j <= layer.primitives@.len(),
            steps@ == before + Seq::new(
                j as nat,
                |j: int| PrepareStep::Primitive(i as usize, j as usize),
            ),
        decreases layer.primitives@.len() - j,
    {
        steps.push(PrepareStep::Primitive(i, j));
        j = j + 1;
        assert(steps@ =~= before + Seq::new(
            j as nat,
            |j: int| PrepareStep::Primitive(i as usize, j as usize),
        ));
    }
    if layer.images > 0 {
        steps.push(PrepareStep::Images(i));
    }
    if layer.text > 0 {
        steps.push(PrepareStep::Text(i));
    }
    assert(steps@ =~= old(steps)@ + plain_steps(*layer, i as int));
}

fn push_cached_steps<K: Backend>(
    storage: &Storage<K>,
    layer: &LayerSummary,
    i: usize,
    state: usize,
    steps: &mut Vec<PrepareStep>,
)
    requires
        layer.cached_textures@.len() <= u32::MAX,
    ensures
        final(steps)@ == old(steps)@ + cached_steps(
            storage.entries@,
            layer.cached_textures@,
            i as int,
            state as int,
            layer.cached_textures@.len(),
        ),
{
    let ghost batch = layer.cached_textures@;
    let mut j: usize = 0;
    assert(steps@ =~= steps@ + cached_steps(storage.entries@, batch, i as int, state as int, 0));
    while j < layer.cached_textures.len()
        invariant
            batch == layer.cached_textures@,
            batch.len() <= u32::MAX,
            j <= batch.len(),
            steps@ == old(steps)@ + cached_steps(
                storage.entries@,
                batch,
                i as int,
                state as int,
                j as nat,
            ),
        decreases batch.len() - j,
    {
        let uv_max = uv_of(storage, layer.cached_textures[j].cache_id);
        steps.push(PrepareStep::CachedTexture { layer: i, index: j as u32, state, uv_max });
        j = j + 1;
        assert(steps@ =~= old(steps)@ + cached_steps(
            storage.entries@,
            batch,
            i as int,
            state as int,
            j as nat,
        ));
    }
}

/// The state at position `i`: an empty one beyond the end.
pub open spec fn state_at<K: Backend>(states: Seq<LayerState<K>>, i: int) -> LayerState<K> {
    if i < states.len() {
        states[i]
    } else {
        LayerState::empty()
    }
}

/// Makes room in the next layer state for the uniforms of `count` cached textures
/// and returns its position.
fn prepare_state<K: Backend, F: Fn(u64) -> (K::Buffer, K::BindGroup)>(
    frame: &mut FrameState<K>,
    pipeline: &Pipeline,
    count: u32,
    create: &F,
) -> (r: usize)
    requires
        old(frame).wf(),
        pipeline.wf(),
        call_requires(*create, ((pipeline.uniform_alignment * count) as u64,)),
    ensures
        final(frame).wf(),
        r == old(frame).prepare_layer,
        r < final(frame).layers@.len(),
        final(frame).prepare_layer == r + 1,
        final(frame).render_layer == old(frame).render_layer,
        final(frame).layers@.len() == if r < old(frame).layers@.len() {
            old(frame).layers@.len()
        } else {
            old(frame).layers@.len() + 1
        },
        final(frame).layers@[r as int].has_room(count as int),
        ensured_at(old(frame).layers@, final(frame).layers@, r as int, *pipeline, count as int, *create),
        forall|j: int|
            0 <= j < old(frame).layers@.len() && j != r ==> final(frame).layers@[j] == old(
                frame,
            ).layers@[j],
{
    let state: usize = frame.prepare_layer;
    if frame.layers.len() <= state {
        frame.layers.push(LayerState::new());
    }
    frame.layers[state].ensure_capacity(pipeline, count, create);
    let len: usize = frame.layers.len();
    assert(state < len);
    frame.prepare_layer = state + 1;
    state
}

/// Whether the state at position `i` has been given room for `count` instances.
pub open spec fn ensured_at<K: Backend, F: Fn(u64) -> (K::Buffer, K::BindGroup)>(
    before: Seq<LayerState<K>>,
    after: Seq<LayerState<K>>,
    i: int,
    pipeline: Pipeline,
    count: int,
    create: F,
) -> bool {
    crate::gpu::texture_cache::ensured(state_at(before, i), after[i], pipeline, count, create)
}

/// Whether `create` can be asked for the buffers of all layers that composite cached
/// textures.
pub open spec fn can_create<B, F: Fn(u64) -> B>(
    layers: Seq<LayerSummary>,
    pipeline: Option<Pipeline>,
    create: F,
) -> bool {
    forall|i: int|
        0 <= i < layers.len() && (#[trigger] layers[i]).composites() ==> call_requires(
            create,
            ((pipeline->0.uniform_alignment * layers[i].cached_textures@.len()) as u64,),
        )
}

/// Prepares the layers for a render pass: decides what the device has to prepare,
/// and makes room for the uniforms of the cached textures.
///
/// `create` creates a buffer of the given number of bytes, and what binds it.
pub fn prepare<K: Backend, F: Fn(u64) -> (K::Buffer, K::BindGroup)>(
    layers: &[LayerSummary],
    storage: &Storage<K>,
    frame: &mut FrameState<K>,
    create: &F,
) -> (r: Vec<PrepareStep>)
    requires
        storage.wf(),
        old(frame).wf(),
        composites(layers@, layers@.len() as int) > 0 ==> storage.pipeline is Some,
        forall|i: int|
            0 <= i < layers@.len() ==> (#[trigger] layers@[i]).cached_textures@.len() <= u32::MAX,
        can_create(layers@, storage.pipeline, *create),
    ensures
        final(frame).wf(),
        r@ == prepare_steps(
            storage.entries@,
            layers@,
            old(frame).prepare_layer as int,
            layers@.len() as int,
        ),
        final(frame).prepare_layer == old(frame).prepare_layer + composites(
            layers@,
            layers@.len() as int,
        ),
        final(frame).render_layer == old(frame).render_layer,
        prepared(
            layers@,
            layers@.len() as int,
            storage.pipeline,
            *old(frame),
            final(frame).layers@,
            *create,
        ),
{
    let mut steps: Vec<PrepareStep> = Vec::new();
    let ghost start = frame.prepare_layer as int;
    let mut i: usize = 0;
    while i < layers.len()
        invariant
            i <= layers@.len(),
            storage.wf(),
            frame.wf(),
            old(frame).wf(),
            composites(layers@, layers@.len() as int) > 0 ==> storage.pipeline is Some,
            forall|i: int|
                0 <= i < layers@.len() ==> (#[trigger] layers@[i]).cached_textures@.len()
                    <= u32::MAX,
            can_create(layers@, storage.pipeline, *create),
            start == old(frame).prepare_layer,
            steps@ == prepare_steps(storage.entries@, layers@, start, i as int),
            frame.prepare_layer == start + composites(layers@, i as int),
            frame.render_layer == old(frame).render_layer,
            prepared(
                layers@,
                i as int,
                storage.pipeline,
                *old(frame),
                frame.layers@,
                *create,
            ),
        decreases layers@.len() - i,
    {
        let layer = &layers[i];
        if layer.scissor_rect.is_some() {
            push_plain_steps(layer, i, &mut steps);
            if layer.cached_textures.len() > 0 {
                proof {
                    lemma_composites_grow(layers@, i + 1, layers@.len() as int);
                    lemma_composites_grow(layers@, 0, i as int);
                }
                let ghost before = frame.layers@;
                let pipeline = storage.pipeline.as_ref().unwrap();
                let state = prepare_state(
                    frame,
                    pipeline,
                    layer.cached_textures.len() as u32,
                    create,
                );
                push_cached_steps(storage, layer, i, state, &mut steps);
                proof {
                    assert forall|j: int| 0 <= j < i + 1 && (#[trigger] layers@[j]).composites()
                        implies ensured_at(
                        old(frame).layers@,
                        frame.layers@,
                        start + composites(layers@, j),
                        storage.pipeline->0,
                        layers@[j].cached_textures@.len() as int,
                        *create,
                    ) && frame.layers@[start + composites(layers@, j)].has_room(
                        layers@[j].cached_textures@.len() as int,
                    ) by {
                        if j < i {
                            lemma_composites_grow(layers@, j + 1, i as int);
                            lemma_composites_grow(layers@, 0, j);
                            assert(start + composites(layers@, j) < state);
                        }
                    }
                }
            }
        }
        assert(steps@ =~= prepare_steps(storage.entries@, layers@, start, i + 1));
        i = i + 1;
    }
    steps
}

/// Whether `after` are the layer states once the first `n` layers are prepared:
/// those of the layers that composite cached textures have room for them, and no
/// other state has changed.
pub open spec fn prepared<K: Backend, F: Fn(u64) -> (K::Buffer, K::BindGroup)>(
    layers: Seq<LayerSummary>,
    n: int,
    pipeline: Option<Pipeline>,
    before: FrameState<K>,
    after: Seq<LayerState<K>>,
    create: F,
) -> bool {
    let start = before.prepare_layer as int;
    let end = start + composites(layers, n);
    &&& after.len() == if end < before.layers@.len() {
        before.layers@.len() as int
    } else {
        end
    }
    &&& forall|j: int|
        0 <= j < n && (#[trigger] layers[j]).composites() ==> {
            let state = start + composites(layers, j);
            let count = layers[j].cached_textures@.len() as int;
            &&& ensured_at(before.layers@, after, state, pipeline->0, count, create)
            &&& after[state].has_room(count)
        }
    &&& forall|k: int|
        0 <= k < before.layers@.len() && !(start <= k < end) ==> #[trigger] after[k]
            == before.layers@[k]
}

proof fn lemma_composites_grow(layers: Seq<LayerSummary>, a: int, b: int)
    requires
        0 <= a <= b,
    ensures
        0 <= composites(layers, a) <= composites(layers, b),
        composites(layers, b) <= composites(layers, a) + (b - a),
    decreases b,
{
    if a < b {
        lemma_composites_grow(layers, a, b - 1);
    } else if a > 0 {
        lemma_composites_grow(layers, a - 1, a - 1);
    }
}

/// The states that the layers of a target use up while it is rendered.
#[verifier::ext_equal]
pub ghost struct Cursor {
    pub quad: int,
    pub mesh: int,
    pub text: int,
    pub image: int,
    pub cached_texture: int,
}

impl Cursor {
    /// Whether the states can be counted.
    pub open spec fn fits(self) -> bool {
        &&& self.quad <= usize::MAX
        &&& self.mesh <= usize::MAX
        &&& self.text <= usize::MAX
        &&& self.image <= usize::MAX
        &&& self.cached_texture <= usize::MAX
    }

    /// After a layer, for which the device reported how many mesh and text states
    /// it used up.
    pub open spec fn advanced(self, layer: LayerSummary, meshes: int, texts: int) -> Cursor {
        if layer.scissor_rect is None {
            self
        } else {
            Cursor {
                quad: self.quad + if layer.quads > 0 {
                    1int
                } else {
                    0
                },
                mesh: self.mesh + if layer.triangles > 0 {
                    meshes
                } else {
                    0
                },
                text: self.text + if layer.text > 0 {
                    texts
                } else {
                    0
                },
                image: self.image + if layer.images > 0 {
                    1int
                } else {
                    0
                },
                cached_texture: self.cached_texture + if layer.cached_textures@.len() > 0 {
                    1int
                } else {
                    0
                },
            }
        }
    }

    /// After the first `n` layers.
    pub open spec fn after(
        self,
        layers: Seq<LayerSummary>,
        meshes: Seq<int>,
        texts: Seq<int>,
        n: int,
    ) -> Cursor
        decreases n,
    {
        if n <= 0 {
            self
        } else {
            self.after(layers, meshes, texts, n - 1).advanced(
                layers[n - 1],
                meshes[n - 1],
                texts[n - 1],
            )
        }
    }
}

/// Rendering a layer composites its cached textures with the layer state that they
/// were prepared into, whatever the device reports about meshes and texts. This
/// holds if as many states have been rendered as prepared when the target begins,
/// and it holds again when the target is done.
pub proof fn law_render_uses_the_states_that_were_prepared<K: Backend>(
    layers: Seq<LayerSummary>,
    frame: FrameState<K>,
    start: Cursor,
    meshes: Seq<int>,
    texts: Seq<int>,
    n: int,
)
    requires
        0 <= n <= layers.len(),
        frame.prepare_layer == frame.render_layer,
        start.cached_texture == frame.render_layer,
    ensures
        start.after(layers, meshes, texts, n).cached_texture == frame.prepare_layer + composites(
            layers,
            n,
        ),
    decreases n,
{
    if n > 0 {
        law_render_uses_the_states_that_were_prepared(
            layers,
            frame,
            start,
            meshes,
            texts,
            n - 1,
        );
    }
}

/// The states to use for the next layer of a target that is being rendered.
#[derive(Debug, Clone, Copy, PartialEq)]
pub struct RenderCursor {
    pub quad_layer: usize,
    pub mesh_layer: usize,
    pub text_layer: usize,
    pub image_layer: usize,
    pub cached_texture_layer: usize,
}

impl View for RenderCursor {
    type V = Cursor;

    open spec fn view(&self) -> Cursor {
        Cursor {
            quad: self.quad_layer as int,
            mesh: self.mesh_layer as int,
            text: self.text_layer as int,
            image: self.image_layer as int,
            cached_texture: self.cached_texture_layer as int,
        }
    }
}

/// What a render pass finds in its target.
#[derive(Debug, Clone, Copy, PartialEq)]
pub enum Load {
    /// The given color everywhere.
    Clear(Color),
    /// What has been drawn before.
    Keep,
}

/// Decides what a render pass finds in its target. Only the first pass of a target
/// clears it, and only if there is a color to clear it with.
pub fn load_of(first: bool, clear_color: Option<Color>) -> (r: Load)
    ensures
        r == (if first && clear_color is Some {
            Load::Clear(clear_color->0)
        } else {
            Load::Keep
        }),
{
    match clear_color {
        Some(color) => {
            if first {
                Load::Clear(color)
            } else {
                Load::Keep
            }
        },
        None => Load::Keep,
    }
}

/// One thing to do in the render pass.
#[derive(Debug, Clone, Copy, PartialEq)]
pub enum RenderStep {
    /// Draw the quads with the given state.
    Quads { state: usize, scissor_rect: Rectangle<u32> },
    /// End the render pass.
    EndPass,
    /// Draw the meshes in passes of their own, from the given state on.
    Triangles { state: usize },
    /// Begin a render pass that keeps what has been drawn.
    BeginPass,
    /// Draw the shader primitives.
    Primitives,
    /// Render the given shader primitive in passes of its own.
    Primitive { index: usize, clip_bounds: Rectangle<u32> },
    /// Draw the images with the given state.
    Images { state: usize, scissor_rect: Rectangle<u32> },
    /// Draw the texts, from the given state on.
    Text { state: usize, scissor_rect: Rectangle<u32> },
    /// Composite the cached textures with the given layer state.
    CachedTextures { state: usize, scissor_rect: Rectangle<u32> },
}

/// The indices of those of the first `n` instances whose cache has a texture.
pub open spec fn bound<K: Backend>(
    entries: Map<u64, Entry<K>>,
    batch: Seq<Instance>,
    n: int,
) -> Seq<int>
    decreases n,
{
    if n <= 0 {
        Seq::empty()
    } else if entries.contains_key(batch[n - 1].cache_id) {
        bound(entries, batch, n - 1).push(n - 1)
    } else {
        bound(entries, batch, n - 1)
    }
}

/// What is rendered for a layer: nothing if it covers nothing, else its quads,
/// meshes, shader primitives, images, texts and cached textures, in this order.
/// Meshes interrupt the render pass. Cached textures are composited only if one of
/// them has a texture.
pub open spec fn render_steps<K: Backend>(
    entries: Map<u64, Entry<K>>,
    cursor: RenderCursor,
    layer: LayerSummary,
) -> Seq<RenderStep> {
    match layer.scissor_rect {
        None => Seq::empty(),
        Some(scissor_rect) => {
            when(
                layer.quads > 0,
                RenderStep::Quads { state: cursor.quad_layer, scissor_rect },
            ) + (if layer.triangles > 0 {
                seq![
                    RenderStep::EndPass,
                    RenderStep::Triangles { state: cursor.mesh_layer },
                    RenderStep::BeginPass,
                ]
            } else {
                Seq::empty()
            }) + when(layer.primitives@.len() > 0, RenderStep::Primitives) + when(
                layer.images > 0,
                RenderStep::Images { state: cursor.image_layer, scissor_rect },
            ) + when(
                layer.text > 0,
                RenderStep::Text { state: cursor.text_layer, scissor_rect },
            ) + when(
                bound(
                    entries,
                    layer.cached_textures@,
                    layer.cached_textures@.len() as int,
                ).len() > 0,
                RenderStep::CachedTextures { state: cursor.cached_texture_layer, scissor_rect },
            )
        },
    }
}

/// Returns the indices of the instances whose cache has a texture.
fn bindings<K: Backend>(storage: &Storage<K>, batch: &[Instance]) -> (r: Vec<usize>)
    ensures
        r@.map_values(|i: usize| i as int) == bound(
            storage.entries@,
            batch@,
            batch@.len() as int,
        ),
        forall|k: int|
            0 <= k < r@.len() ==> #[trigger] r@[k] < batch@.len()
                && storage.entries@.contains_key(batch@[r@[k] as int].cache_id),
{
    let mut r: Vec<usize> = Vec::new();
    let mut i: usize = 0;
    assert(r@.map_values(|i: usize| i as int) =~= Seq::empty());
    while i < batch.len()
        invariant
            i <= batch@.len(),
            r@.map_values(|i: usize| i as int) == bound(storage.entries@, batch@, i as int),
            forall|k: int|
                0 <= k < r@.len() ==> #[trigger] r@[k] < batch@.len()
                    && storage.entries@.contains_key(batch@[r@[k] as int].cache_id),
        decreases batch@.len() - i,
    {
        if fx::get(&storage.entries, batch[i].cache_id).is_some() {
            r.push(i);
        }
        i = i + 1;
        assert(r@.map_values(|i: usize| i as int) =~= bound(storage.entries@, batch@, i as int));
    }
    r
}

impl RenderCursor {
    /// Begins rendering a target. The states of cached textures are shared by all
    /// targets of a frame, the others belong to the target.
    pub fn new<K: Backend>(frame: &FrameState<K>) -> (r: RenderCursor)
        ensures
            r@ == (Cursor {
                quad: 0,
                mesh: 0,
                text: 0,
                image: 0,
                cached_texture: frame.render_layer as int,
            }),
    {
        RenderCursor {
            quad_layer: 0,
            mesh_layer: 0,
            text_layer: 0,
            image_layer: 0,
            cached_texture_layer: frame.render_layer,
        }
    }

    /// Decides what to render for the next layer.
    pub fn steps<K: Backend>(&self, layer: &LayerSummary, storage: &Storage<K>) -> (r: Vec<
        RenderStep,
    >)
        ensures
            r@ == render_steps(storage.entries@, *self, *layer),
    {
        let mut steps: Vec<RenderStep> = Vec::new();
        if let Some(scissor_rect) = layer.scissor_rect {
            if layer.quads > 0 {
                steps.push(RenderStep::Quads { state: self.quad_layer, scissor_rect });
            }
            if layer.triangles > 0 {
                steps.push(RenderStep::EndPass);
                steps.push(RenderStep::Triangles { state: self.mesh_layer });
                steps.push(RenderStep::BeginPass);
            }
            if layer.primitives.len() > 0 {
                steps.push(RenderStep::Primitives);
            }
            if layer.images > 0 {
                steps.push(RenderStep::Images { state: self.image_layer, scissor_rect });
            }
            if layer.text > 0 {
                steps.push(RenderStep::Text { state: self.text_layer, scissor_rect });
            }
            let found = bindings(storage, layer.cached_textures.as_slice());
            assert(found@.len() == found@.map_values(|i: usize| i as int).len());
            if found.len() > 0 {
                steps.push(
                    RenderStep::CachedTextures {
                        state: self.cached_texture_layer,
                        scissor_rect,
                    },
                );
            }
        }
        assert(steps@ =~= render_steps(storage.entries@, *self, *layer));
        steps
    }

    /// Moves on to the next layer. `meshes` and `texts` are the numbers of states
    /// that the device reports to have used up for the meshes and the texts.
    pub fn advance(&mut self, layer: &LayerSummary, meshes: usize, texts: usize)
        requires
            old(self)@.advanced(*layer, meshes as int, texts as int).fits(),
        ensures
            final(self)@ == old(self)@.advanced(*layer, meshes as int, texts as int),
    {
        if layer.scissor_rect.is_none() {
            return;
        }
        if layer.quads > 0 {
            self.quad_layer = self.quad_layer + 1;
        }
        if layer.triangles > 0 {
            self.mesh_layer = self.mesh_layer + meshes;
        }
        if layer.images > 0 {
            self.image_layer = self.image_layer + 1;
        }
        if layer.text > 0 {
            self.text_layer = self.text_layer + texts;
        }
        if layer.cached_textures.len() > 0 {
            self.cached_texture_layer = self.cached_texture_layer + 1;
        }
    }

    /// Ends rendering the target. The next target of the frame continues with the
    /// states of cached textures that this one left.
    pub fn finish<K: Backend>(self, frame: &mut FrameState<K>)
        requires
            old(frame).wf(),
            self.cached_texture_layer <= old(frame).prepare_layer,
        ensures
            final(frame).wf(),
            final(frame).render_layer == self.cached_texture_layer,
            final(frame).prepare_layer == old(frame).prepare_layer,
            final(frame).layers@ == old(frame).layers@,
    {
        frame.render_layer = self.cached_texture_layer;
    }
}

/// Returns how to composite the cached textures of a layer that have one: `None`
/// if there is none, or no buffer to read uniforms from.
pub fn composite<'a, K: Backend>(
    storage: &'a Storage<K>,
    frame: &'a FrameState<K>,
    state: usize,
    batch: &[Instance],
    scissor_rect: Rectangle<u32>,
) -> (r: Option<Composite<'a, K>>)
    requires
        storage.wf(),
        state < frame.layers@.len(),
        ({
            let indices = bound(storage.entries@, batch@, batch@.len() as int);
            frame.layers@[state as int].constant_bind_group is Some ==> forall|k: int|
                0 <= k < indices.len() ==> storage.pipeline->0.uniform_alignment
                    * #[trigger] indices[k] <= u32::MAX
        }),
    ensures
        ({
            let indices = bound(storage.entries@, batch@, batch@.len() as int);
            &&& r is Some <==> indices.len() > 0 && frame.layers@[state as int].constant_bind_group
                is Some
            &&& r matches Some(composite) ==> {
                &&& *composite.constant_bind_group
                    == frame.layers@[state as int].constant_bind_group->0
                &&& composite.scissor_rect == scissor_rect
                &&& composite.draws@.len() == indices.len()
                &&& forall|k: int|
                    0 <= k < indices.len() ==> {
                        &&& (#[trigger] composite.draws@[k]).dynamic_offset
                            == storage.pipeline->0.uniform_alignment * indices[k]
                        &&& *composite.draws@[k].texture
                            == storage.entries@[batch@[indices[k]].cache_id].texture
                    }
            }
        }),
{
    let indices = bindings(storage, batch);
    let ghost expected = bound(storage.entries@, batch@, batch@.len() as int);
    assert(indices@.len() == expected.len());
    if indices.len() == 0 || frame.layers[state].constant_bind_group.is_none() {
        return None;
    }
    assert(storage.entries@.contains_key(batch@[indices@[0] as int].cache_id));
    let pipeline = storage.pipeline.as_ref().unwrap();
    let ghost alignment = pipeline.uniform_alignment as int;
    let mut pairs: Vec<(u32, &'a K::Texture)> = Vec::new();
    let mut k: usize = 0;
    assert forall|j: int| 0 <= j < expected.len() implies #[trigger] expected[j]
        == indices@[j] as int by {
        assert(indices@.map_values(|i: usize| i as int)[j] == indices@[j] as int);
    }
    assert forall|j: int| 0 <= j < indices@.len() implies #[trigger] indices@[j] <= u32::MAX by {
        let i = indices@[j] as int;
        assert(expected[j] == i);
        assert(i <= u32::MAX) by (nonlinear_arith)
            requires
                alignment * i <= u32::MAX,
                1 <= alignment,
        ;
    }
    while k < indices.len()
        invariant
            k <= indices@.len(),
            pairs@.len() == k,
            forall|j: int| 0 <= j < indices@.len() ==> #[trigger] indices@[j] <= u32::MAX,
            forall|k: int|
                0 <= k < indices@.len() ==> #[trigger] indices@[k] < batch@.len()
                    && storage.entries@.contains_key(batch@[indices@[k] as int].cache_id),
            forall|j: int|
                0 <= j < k ==> {
                    &&& (#[trigger] pairs@[j]).0 == indices@[j]
                    &&& *pairs@[j].1
                        == storage.entries@[batch@[indices@[j] as int].cache_id].texture
                },
        decreases indices@.len() - k,
    {
        let i: usize = indices[k];
        let entry = fx::get(&storage.entries, batch[i].cache_id).unwrap();
        pairs.push((i as u32, &entry.texture));
        k = k + 1;
    }
    assert forall|j: int| 0 <= j < pairs@.len() implies pipeline.uniform_alignment * (
    #[trigger] pairs@[j]).0 <= u32::MAX by {
        assert(expected[j] == pairs@[j].0);
    }
    frame.layers[state].render(pipeline, pairs.as_slice(), scissor_rect)
}

/// The shader primitives that can be seen, with the part of the target that each
/// covers, among the first `n`.
pub open spec fn visible(
    primitives: Seq<Option<Rectangle<u32>>>,
    n: int,
) -> Seq<(usize, Rectangle<u32>)>
    decreases n,
{
    if n <= 0 {
        Seq::empty()
    } else {
        match primitives[n - 1] {
            Some(clip_bounds) => visible(primitives, n - 1).push(((n - 1) as usize, clip_bounds)),
            None => visible(primitives, n - 1),
        }
    }
}

/// Returns the shader primitives of a layer that can be seen, each with the part
/// of the target it covers. The device tries to draw these in the render pass.
pub fn visible_primitives(layer: &LayerSummary) -> (r: Vec<(usize, Rectangle<u32>)>)
    ensures
        r@ == visible(layer.primitives@, layer.primitives@.len() as int),
{
    let mut r: Vec<(usize, Rectangle<u32>)> = Vec::new();
    let mut i: usize = 0;
    while i < layer.primitives.len()
        invariant
            i <= layer.primitives@.len(),
            r@ == visible(layer.primitives@, i as int),
        decreases layer.primitives@.len() - i,
    {
        if let Some(clip_bounds) = layer.primitives[i] {
            r.push((i, clip_bounds));
        }
        i = i + 1;
    }
    r
}

/// Those of the first `n` primitives that were not drawn.
pub open spec fn undrawn(
    tried: Seq<(usize, Rectangle<u32>)>,
    drawn: Seq<bool>,
    n: int,
) -> Seq<(usize, Rectangle<u32>)>
    decreases n,
{
    if n <= 0 {
        Seq::empty()
    } else if drawn[n - 1] {
        undrawn(tried, drawn, n - 1)
    } else {
        undrawn(tried, drawn, n - 1).push(tried[n - 1])
    }
}

/// Returns the primitives that the device could not draw in the render pass.
pub fn need_render(tried: &[(usize, Rectangle<u32>)], drawn: &[bool]) -> (r: Vec<
    (usize, Rectangle<u32>),
>)
    requires
        drawn@.len() == tried@.len(),
    ensures
        r@ == undrawn(tried@, drawn@, tried@.len() as int),
{
    let mut r: Vec<(usize, Rectangle<u32>)> = Vec::new();
    let mut i: usize = 0;
    while i < tried.len()
        invariant
            i <= tried@.len(),
            drawn@.len() == tried@.len(),
            r@ == undrawn(tried@, drawn@, i as int),
        decreases tried@.len() - i,
    {
        if !drawn[i] {
            r.push(tried[i]);
        }
        i = i + 1;
    }
    r
}

/// What is rendered for the primitives that were not drawn: nothing if there are
/// none, else they interrupt the render pass.
pub open spec fn interruption(left: Seq<(usize, Rectangle<u32>)>) -> Seq<RenderStep> {
    if left.len() == 0 {
        Seq::empty()
    } else {
        seq![RenderStep::EndPass] + left.map_values(
            |primitive: (usize, Rectangle<u32>)|
                RenderStep::Primitive { index: primitive.0, clip_bounds: primitive.1 },
        ) + seq![RenderStep::BeginPass]
    }
}

/// Decides what to render for the primitives that the device could not draw in the
/// render pass, given those that it tried and which of these it drew.
pub fn undrawn_steps(tried: &[(usize, Rectangle<u32>)], drawn: &[bool]) -> (r: Vec<RenderStep>)
    requires
        drawn@.len() == tried@.len(),
    ensures
        r@ == interruption(undrawn(tried@, drawn@, tried@.len() as int)),
{
    let left = need_render(tried, drawn);
    let mut steps: Vec<RenderStep> = Vec::new();
    if left.len() == 0 {
        return steps;
    }
    let ghost rendered = left@.map_values(
        |primitive: (usize, Rectangle<u32>)|
            RenderStep::Primitive { index: primitive.0, clip_bounds: primitive.1 },
    );
    steps.push(RenderStep::EndPass);
    let mut i: usize = 0;
    assert(steps@ =~= seq![RenderStep::EndPass] + rendered.take(0));
    while i < left.len()
        invariant
            i <= left@.len(),
            rendered == left@.map_values(
                |primitive: (usize, Rectangle<u32>)|
                    RenderStep::Primitive { index: primitive.0, clip_bounds: primitive.1 },
            ),
            steps@ == seq![RenderStep::EndPass] + rendered.take(i as int),
        decreases left@.len() - i,
    {
        let (index, clip_bounds) = left[i];
        steps.push(RenderStep::Primitive { index, clip_bounds });
        assert(rendered.take(i + 1) =~= rendered.take(i as int).push(rendered[i as int]));
        i = i + 1;
        assert(steps@ =~= seq![RenderStep::EndPass] + rendered.take(i as int));
    }
    steps.push(RenderStep::BeginPass);
    assert(steps@ =~= interruption(left@)) by {
        assert(rendered.take(rendered.len() as int) =~= rendered);
    }
    steps
}

} // verus!
