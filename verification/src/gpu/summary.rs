//! What there is to draw in the layers of a recording.
//!
//! Where a layer or an operation ends up on the target is floating-point arithmetic.
//! The device does it and hands the results in; the rest is counted here.
use vstd::prelude::*;

use crate::batching::{Batch, Item};
use crate::geometry::Rectangle;
use crate::gpu::frame::{LayerSummary, PrepareStep};
use crate::gpu::texture_cache::Instance;
use crate::gpu::{frame, Backend, Renderer};
use crate::renderer::Command;
use crate::renderer::Renderer as _;

verus! {

/// How the device draws a primitive.
#[derive(Debug, Clone, Copy, PartialEq)]
pub enum Kind {
    /// As a mesh.
    Mesh,
    /// With a shader of its own, in the given part of the target: `None` if it
    /// covers nothing of it.
    Shader(Option<Rectangle<u32>>),
    /// As an image.
    Image,
    /// As text.
    Text,
}

/// The number of quads among the first `n` items.
pub open spec fn quads_in<P>(commands: Seq<Command<P>>, items: Seq<Item>, n: int) -> int
    decreases n,
{
    if n <= 0 {
        0
    } else {
        quads_in(commands, items, n - 1) + if commands[items[n - 1].command as int] is FillQuad {
            1int
        } else {
            0
        }
    }
}

/// Whether the item is a primitive that is drawn in the given way.
pub open spec fn is_kind<P>(
    commands: Seq<Command<P>>,
    kinds: Seq<Kind>,
    item: Item,
    kind: Kind,
) -> bool {
    commands[item.command as int] is Draw && kinds[item.command as int] == kind
}

/// The number of primitives of the given kind among the first `n` items.
pub open spec fn kind_in<P>(
    commands: Seq<Command<P>>,
    kinds: Seq<Kind>,
    items: Seq<Item>,
    kind: Kind,
    n: int,
) -> int
    decreases n,
{
    if n <= 0 {
        0
    } else {
        kind_in(commands, kinds, items, kind, n - 1) + if is_kind(
            commands,
            kinds,
            items[n - 1],
            kind,
        ) {
            1int
        } else {
            0
        }
    }
}

/// The number of layer names among the first `n` items.
pub open spec fn labels_in<P>(commands: Seq<Command<P>>, items: Seq<Item>, n: int) -> int
    decreases n,
{
    if n <= 0 {
        0
    } else {
        labels_in(commands, items, n - 1) + if commands[items[n
            - 1].command as int] is FillLayerLabel {
            1int
        } else {
            0
        }
    }
}

/// Where the shader primitives among the first `n` items are on the target.
pub open spec fn shaders_in<P>(
    commands: Seq<Command<P>>,
    kinds: Seq<Kind>,
    items: Seq<Item>,
    n: int,
) -> Seq<Option<Rectangle<u32>>>
    decreases n,
{
    if n <= 0 {
        Seq::empty()
    } else {
        let before = shaders_in(commands, kinds, items, n - 1);
        match (commands[items[n - 1].command as int], kinds[items[n - 1].command as int]) {
            (Command::Draw(_), Kind::Shader(clip_bounds)) => before.push(clip_bounds),
            _ => before,
        }
    }
}

/// The cached textures among the first `n` items.
pub open spec fn instances_in<P>(
    commands: Seq<Command<P>>,
    bounds: Seq<Rectangle>,
    items: Seq<Item>,
    n: int,
) -> Seq<Instance>
    decreases n,
{
    if n <= 0 {
        Seq::empty()
    } else {
        let before = instances_in(commands, bounds, items, n - 1);
        match commands[items[n - 1].command as int] {
            Command::DrawCachedTexture(cache_id, _) => before.push(
                Instance { cache_id, bounds: bounds[items[n - 1].command as int] },
            ),
            _ => before,
        }
    }
}

/// Whether `summary` says what there is to draw in the given batch.
pub open spec fn summarizes<P>(
    commands: Seq<Command<P>>,
    kinds: Seq<Kind>,
    bounds: Seq<Rectangle>,
    items: Seq<Item>,
    scissor_rect: Option<Rectangle<u32>>,
    summary: LayerSummary,
) -> bool {
    let n = items.len() as int;
    &&& summary.scissor_rect == scissor_rect
    &&& summary.quads == quads_in(commands, items, n)
    &&& summary.triangles == kind_in(commands, kinds, items, Kind::Mesh, n)
    &&& summary.primitives@ == shaders_in(commands, kinds, items, n)
    &&& summary.images == kind_in(commands, kinds, items, Kind::Image, n)
    &&& summary.text == kind_in(commands, kinds, items, Kind::Text, n) + labels_in(
        commands,
        items,
        n,
    )
    &&& summary.cached_textures@ == instances_in(commands, bounds, items, n)
}

/// Sums up what there is to draw in a batch.
///
/// `kinds` says how the primitive at each position of the recording is drawn, and
/// `bounds` where the cached texture at each position goes. Positions of other
/// operations are not looked at.
fn summarize<P>(
    commands: &[Command<P>],
    kinds: &[Kind],
    bounds: &[Rectangle],
    items: &[Item],
    scissor_rect: Option<Rectangle<u32>>,
) -> (r: LayerSummary)
    requires
        kinds@.len() == commands@.len(),
        bounds@.len() == commands@.len(),
        forall|k: int|
            0 <= k < items@.len() ==> (#[trigger] items@[k]).command < commands@.len(),
    ensures
        summarizes(commands@, kinds@, bounds@, items@, scissor_rect, r),
        r.cached_textures@.len() <= items@.len(),
        r.cached_textures@.len() > 0 ==> crate::recording::samples(commands@),
{
    let mut quads: usize = 0;
    let mut triangles: usize = 0;
    let mut primitives: Vec<Option<Rectangle<u32>>> = Vec::new();
    let mut images: usize = 0;
    let mut text: usize = 0;
    let mut cached_textures: Vec<Instance> = Vec::new();
    let mut k: usize = 0;
    while k < items.len()
        invariant
            k <= items@.len(),
            kinds@.len() == commands@.len(),
            bounds@.len() == commands@.len(),
            forall|k: int|
                0 <= k < items@.len() ==> (#[trigger] items@[k]).command < commands@.len(),
            quads <= k,
            triangles <= k,
            images <= k,
            text <= k,
            cached_textures@.len() <= k,
            quads == quads_in(commands@, items@, k as int),
            triangles == kind_in(commands@, kinds@, items@, Kind::Mesh, k as int),
            primitives@ == shaders_in(commands@, kinds@, items@, k as int),
            images == kind_in(commands@, kinds@, items@, Kind::Image, k as int),
            text == kind_in(commands@, kinds@, items@, Kind::Text, k as int) + labels_in(
                commands@,
                items@,
                k as int,
            ),
            cached_textures@ == instances_in(commands@, bounds@, items@, k as int),
            cached_textures@.len() > 0 ==> crate::recording::samples(commands@),
        decreases items@.len() - k,
    {
        let position: usize = items[k].command;
        match &commands[position] {
            Command::FillQuad(_, _) => {
                quads = quads + 1;
            },
            Command::FillLayerLabel(_, _, _) => {
                text = text + 1;
            },
            Command::DrawCachedTexture(cache_id, _) => {
                cached_textures.push(Instance { cache_id: *cache_id, bounds: bounds[position] });
                assert(commands@[position as int] is DrawCachedTexture);
            },
            Command::Draw(_) => {
                match kinds[position] {
                    Kind::Mesh => {
                        triangles = triangles + 1;
                    },
                    Kind::Shader(clip_bounds) => {
                        primitives.push(clip_bounds);
                    },
                    Kind::Image => {
                        images = images + 1;
                    },
                    Kind::Text => {
                        text = text + 1;
                    },
                }
            },
            _ => {},
        }
        k = k + 1;
    }
    LayerSummary {
        scissor_rect,
        quads,
        triangles,
        primitives,
        images,
        text,
        cached_textures,
    }
}

/// Whether `summaries` say what there is to draw in each of the given batches.
pub open spec fn summarizes_all<P>(
    commands: Seq<Command<P>>,
    kinds: Seq<Kind>,
    bounds: Seq<Rectangle>,
    batches: Seq<Batch>,
    scissor_rects: Seq<Option<Rectangle<u32>>>,
    summaries: Seq<LayerSummary>,
) -> bool {
    &&& summaries.len() == batches.len()
    &&& forall|k: int|
        0 <= k < batches.len() ==> summarizes(
            commands,
            kinds,
            bounds,
            batches[k].items@,
            scissor_rects[k],
            #[trigger] summaries[k],
        )
}

/// Whether cached textures are composited only if the recording draws some, and in
/// numbers that the device can count.
pub open spec fn drawn_from<P>(commands: Seq<Command<P>>, summaries: Seq<LayerSummary>) -> bool {
    forall|k: int|
        0 <= k < summaries.len() ==> {
            let cached = (#[trigger] summaries[k]).cached_textures@;
            &&& cached.len() <= u32::MAX
            &&& cached.len() > 0 ==> crate::recording::samples(commands)
        }
}

/// Sums up what there is to draw in each batch of a recording.
///
/// `scissor_rects` says which part of the target each batch covers, `kinds` how the
/// primitive at each position of the recording is drawn, and `bounds` where the
/// cached texture at each position goes.
pub fn summaries<P>(
    commands: &[Command<P>],
    kinds: &[Kind],
    bounds: &[Rectangle],
    batches: &[Batch],
    scissor_rects: &[Option<Rectangle<u32>>],
) -> (r: Vec<LayerSummary>)
    requires
        commands@.len() <= u32::MAX,
        kinds@.len() == commands@.len(),
        bounds@.len() == commands@.len(),
        scissor_rects@.len() == batches@.len(),
        crate::batching::sorted_into(commands@, batches@, commands@.len() as int),
    ensures
        summarizes_all(commands@, kinds@, bounds@, batches@, scissor_rects@, r@),
        drawn_from(commands@, r@),
{
    let mut summaries: Vec<LayerSummary> = Vec::new();
    let mut k: usize = 0;
    while k < batches.len()
        invariant
            k <= batches@.len(),
            commands@.len() <= u32::MAX,
            kinds@.len() == commands@.len(),
            bounds@.len() == commands@.len(),
            scissor_rects@.len() == batches@.len(),
            crate::batching::sorted_into(commands@, batches@, commands@.len() as int),
            summaries@.len() == k,
            forall|j: int|
                0 <= j < k ==> summarizes(
                    commands@,
                    kinds@,
                    bounds@,
                    batches@[j].items@,
                    scissor_rects@[j],
                    #[trigger] summaries@[j],
                ),
            drawn_from(commands@, summaries@),
        decreases batches@.len() - k,
    {
        proof {
            crate::batching::lemma_batch_items(commands@, batches@, k as int);
        }
        let summary = summarize(
            commands,
            kinds,
            bounds,
            batches[k].items.as_slice(),
            scissor_rects[k],
        );
        summaries.push(summary);
        k = k + 1;
    }
    summaries
}

/// A recording that draws a cached texture is rendered with the pipeline that
/// samples it, be it the current one, one that is suspended or one that waits.
pub proof fn law_what_samples_has_a_pipeline<K: Backend>(renderer: Renderer<K>, i: int)
    requires
        renderer.wf(),
    ensures
        crate::recording::samples(renderer.layers.commands@)
            ==> renderer.texture_cache.pipeline is Some,
        0 <= i < renderer.texture_cache.pending@.len() && crate::recording::samples(
            renderer.texture_cache.pending@[i].1.commands@,
        ) ==> renderer.texture_cache.pipeline is Some,
        0 <= i < renderer.texture_cache.recording_stack@.len() && crate::recording::samples(
            renderer.texture_cache.recording_stack@[i].1.commands@,
        ) ==> renderer.texture_cache.pipeline is Some,
{
}

proof fn lemma_composites<P>(commands: Seq<Command<P>>, layers: Seq<LayerSummary>, n: int)
    requires
        0 <= n <= layers.len(),
        drawn_from(commands, layers),
        !crate::recording::samples(commands),
    ensures
        frame::composites(layers, n) == 0,
    decreases n,
{
    if n > 0 {
        lemma_composites(commands, layers, n - 1);
        assert(layers[n - 1].cached_textures@.len() == 0);
    }
}

impl<K: Backend> Renderer<K> {
    /// Prepares the layers of the current target for a render pass.
    ///
    /// `layers` sums up what is recorded for the target, and `create` creates a
    /// buffer of the given number of bytes, and what binds it.
    pub fn prepare<F: Fn(u64) -> (K::Buffer, K::BindGroup)>(
        &mut self,
        layers: &[LayerSummary],
        create: &F,
    ) -> (r: Vec<PrepareStep>)
        requires
            old(self).wf(),
            drawn_from(old(self).layers.commands@, layers@),
            frame::can_create(layers@, old(self).texture_cache.pipeline, *create),
        ensures
            final(self).wf(),
            r@ == frame::prepare_steps(
                old(self).texture_cache.entries@,
                layers@,
                old(self).texture_cache_state.prepare_layer as int,
                layers@.len() as int,
            ),
            frame::prepared(
                layers@,
                layers@.len() as int,
                old(self).texture_cache.pipeline,
                old(self).texture_cache_state,
                final(self).texture_cache_state.layers@,
                *create,
            ),
            final(self).texture_cache_state.prepare_layer
                == old(self).texture_cache_state.prepare_layer + frame::composites(
                layers@,
                layers@.len() as int,
            ),
            final(self).texture_cache_state.render_layer
                == old(self).texture_cache_state.render_layer,
            *final(self) == (Renderer {
                texture_cache_state: final(self).texture_cache_state,
                ..*old(self)
            }),
    {
        proof {
            if !crate::recording::samples(self.layers.commands@) {
                lemma_composites(self.layers.commands@, layers@, layers@.len() as int);
            }
        }
        frame::prepare(layers, &self.texture_cache, &mut self.texture_cache_state, create)
    }
}

} // verus!
