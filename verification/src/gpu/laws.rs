//! What holds of every frame that a GPU renders.
use vstd::prelude::*;

use crate::batching::{Batch, Item};
use crate::geometry::{Rectangle, Scalar, Size, Transformation};
use crate::gpu::flush::{began, finished, Flush};
use crate::gpu::frame;
use crate::gpu::frame::{
    bound, composites, drawn_layers, interruption, prepare_steps, prepared, render_steps, undrawn,
    uv_max, visible, Cursor, LayerSummary, PrepareStep, RenderCursor, RenderStep,
};
use crate::gpu::summary::{
    instances_in, kind_in, labels_in, quads_in, shaders_in, summarizes, summarizes_all, Kind,
};
use crate::gpu::texture_cache::{
    byte_of, in_memory, uniforms_of, Entry, FrameState, Instance, LayerState, Pipeline,
    UNIFORMS_SIZE,
};
use crate::gpu::{ended, is_stale, recorded_ids, started, Backend, Geometry, Renderer};
use crate::recording::first_backed;
use crate::renderer::{Command, RecordTarget, Renderer as _};
use crate::sequences::{lemma_filter_none, lemma_filter_one_more, lemma_in_both};

verus! {

/// All of the contents of a cache are sampled, and nothing beside them: the sampled
/// part of each extent of the texture is the extent of the contents. Of a cache that
/// has no entry everything is.
pub proof fn law_just_the_contents_are_sampled<K: Backend>(
    entries: Map<u64, Entry<K>>,
    id: u64,
)
    requires
        entries.contains_key(id) ==> entries[id].wf(),
    ensures
        entries.contains_key(id) ==> uv_max(entries, id).width.numerator
            * entries[id].texture_capacity_size.width == entries[id].physical_size.width
            * uv_max(entries, id).width.denominator,
        entries.contains_key(id) ==> uv_max(entries, id).height.numerator
            * entries[id].texture_capacity_size.height == entries[id].physical_size.height
            * uv_max(entries, id).height.denominator,
        uv_max(entries, id).width.denominator > 0,
        uv_max(entries, id).height.denominator > 0,
        !entries.contains_key(id) ==> uv_max(entries, id).width.numerator == uv_max(
            entries,
            id,
        ).width.denominator && uv_max(entries, id).height.numerator == uv_max(
            entries,
            id,
        ).height.denominator,
{
}

/// The cached textures that are composited are just those whose cache has a texture,
/// each once and in order.
pub proof fn law_all_textures_that_exist_are_composited<K: Backend>(
    entries: Map<u64, Entry<K>>,
    batch: Seq<Instance>,
    n: int,
)
    requires
        0 <= n <= batch.len(),
    ensures
        forall|k: int|
            #![trigger bound(entries, batch, n).contains(k)]
            bound(entries, batch, n).contains(k) <==> (0 <= k < n && entries.contains_key(
                batch[k].cache_id,
            )),
        forall|i: int, j: int|
            0 <= i < j < bound(entries, batch, n).len() ==> #[trigger] bound(entries, batch, n)[i]
                < #[trigger] bound(entries, batch, n)[j],
        forall|i: int|
            0 <= i < bound(entries, batch, n).len() ==> 0 <= #[trigger] bound(
                entries,
                batch,
                n,
            )[i] < n,
    decreases n,
{
    if n > 0 {
        law_all_textures_that_exist_are_composited(entries, batch, n - 1);
        let before = bound(entries, batch, n - 1);
        let after = bound(entries, batch, n);
        if entries.contains_key(batch[n - 1].cache_id) {
            assert(after == before.push(n - 1));
            assert forall|k: int| #[trigger] after.contains(k) <==> (0 <= k < n
                && entries.contains_key(batch[k].cache_id)) by {
                if after.contains(k) {
                    let i = choose|i: int| 0 <= i < after.len() && after[i] == k;
                    if i < before.len() {
                        assert(before[i] == k);
                        assert(before.contains(k));
                    }
                }
                if 0 <= k < n - 1 && entries.contains_key(batch[k].cache_id) {
                    assert(before.contains(k));
                    let i = choose|i: int| 0 <= i < before.len() && before[i] == k;
                    assert(after[i] == k);
                }
                if k == n - 1 {
                    assert(after[before.len() as int] == k);
                }
            }
        }
    }
}

/// Where a step belongs in the rendering of a layer.
pub open spec fn render_rank(step: RenderStep) -> int {
    match step {
        RenderStep::Quads { .. } => 0,
        RenderStep::EndPass => 1,
        RenderStep::Triangles { .. } => 2,
        RenderStep::BeginPass => 3,
        RenderStep::Primitives => 4,
        RenderStep::Primitive { .. } => 5,
        RenderStep::Images { .. } => 6,
        RenderStep::Text { .. } => 7,
        RenderStep::CachedTextures { .. } => 8,
    }
}

/// Whether the given step is needed to render a layer that covers something, with the
/// states that the cursor points to.
pub open spec fn is_rendered<K: Backend>(
    entries: Map<u64, Entry<K>>,
    cursor: RenderCursor,
    layer: LayerSummary,
    step: RenderStep,
) -> bool {
    let covered = layer.scissor_rect;
    covered is Some && match step {
        RenderStep::Quads { state, scissor_rect } => layer.quads > 0 && state == cursor.quad_layer
            && Some(scissor_rect) == covered,
        RenderStep::EndPass => layer.triangles > 0,
        RenderStep::Triangles { state } => layer.triangles > 0 && state == cursor.mesh_layer,
        RenderStep::BeginPass => layer.triangles > 0,
        RenderStep::Primitives => layer.primitives@.len() > 0,
        RenderStep::Primitive { .. } => false,
        RenderStep::Images { state, scissor_rect } => layer.images > 0 && state
            == cursor.image_layer && Some(scissor_rect) == covered,
        RenderStep::Text { state, scissor_rect } => layer.text > 0 && state == cursor.text_layer
            && Some(scissor_rect) == covered,
        RenderStep::CachedTextures { state, scissor_rect } => (exists|k: int|
            0 <= k < layer.cached_textures@.len() && entries.contains_key(
                (#[trigger] layer.cached_textures@[k]).cache_id,
            )) && state == cursor.cached_texture_layer && Some(scissor_rect) == covered,
    }
}

proof fn lemma_when<T>(wanted: bool, step: T, x: T)
    ensures
        frame::when(wanted, step).contains(x) <==> (wanted && x == step),
{
    if wanted {
        assert(frame::when(wanted, step)[0] == step);
    }
}

/// Whether the steps are in order, with ranks from `low` to `high`.
pub open spec fn ranked(steps: Seq<RenderStep>, low: int, high: int) -> bool {
    &&& forall|i: int, j: int|
        0 <= i < j < steps.len() ==> render_rank(#[trigger] steps[i]) < render_rank(
            #[trigger] steps[j],
        )
    &&& forall|i: int| 0 <= i < steps.len() ==> low <= render_rank(#[trigger] steps[i]) <= high
}

proof fn lemma_ranked_both(
    a: Seq<RenderStep>,
    b: Seq<RenderStep>,
    low: int,
    middle: int,
    high: int,
)
    requires
        ranked(a, low, middle),
        ranked(b, middle + 1, high),
        low <= middle <= high,
    ensures
        ranked(a + b, low, high),
{
    let s = a + b;
    assert forall|i: int, j: int| 0 <= i < j < s.len() implies render_rank(#[trigger] s[i])
        < render_rank(#[trigger] s[j]) by {
        if j < a.len() {
            assert(s[i] == a[i] && s[j] == a[j]);
        } else if i >= a.len() {
            assert(s[i] == b[i - a.len()] && s[j] == b[j - a.len()]);
        } else {
            assert(s[i] == a[i] && s[j] == b[j - a.len()]);
        }
    }
    assert forall|i: int| 0 <= i < s.len() implies low <= render_rank(#[trigger] s[i]) <= high by {
        if i < a.len() {
            assert(s[i] == a[i]);
        } else {
            assert(s[i] == b[i - a.len()]);
        }
    }
}

proof fn lemma_in_six<T>(
    a: Seq<T>,
    b: Seq<T>,
    c: Seq<T>,
    d: Seq<T>,
    e: Seq<T>,
    f: Seq<T>,
    x: T,
)
    ensures
        (a + b + c + d + e + f).contains(x) <==> (a.contains(x) || b.contains(x) || c.contains(x)
            || d.contains(x) || e.contains(x) || f.contains(x)),
{
    lemma_in_both(a + b + c + d + e, f, x);
    lemma_in_both(a + b + c + d, e, x);
    lemma_in_both(a + b + c, d, x);
    lemma_in_both(a + b, c, x);
    lemma_in_both(a, b, x);
}

/// The runs of steps that rendering a layer is made of.
spec fn render_runs<K: Backend>(
    entries: Map<u64, Entry<K>>,
    cursor: RenderCursor,
    layer: LayerSummary,
    scissor_rect: Rectangle<u32>,
) -> (
    Seq<RenderStep>,
    Seq<RenderStep>,
    Seq<RenderStep>,
    Seq<RenderStep>,
    Seq<RenderStep>,
    Seq<RenderStep>,
) {
    (
        frame::when(layer.quads > 0, RenderStep::Quads { state: cursor.quad_layer, scissor_rect }),
        if layer.triangles > 0 {
            seq![
                RenderStep::EndPass,
                RenderStep::Triangles { state: cursor.mesh_layer },
                RenderStep::BeginPass,
            ]
        } else {
            Seq::empty()
        },
        frame::when(layer.primitives@.len() > 0, RenderStep::Primitives),
        frame::when(
            layer.images > 0,
            RenderStep::Images { state: cursor.image_layer, scissor_rect },
        ),
        frame::when(layer.text > 0, RenderStep::Text { state: cursor.text_layer, scissor_rect }),
        frame::when(
            bound(
                entries,
                layer.cached_textures@,
                layer.cached_textures@.len() as int,
            ).len() > 0,
            RenderStep::CachedTextures { state: cursor.cached_texture_layer, scissor_rect },
        ),
    )
}

proof fn lemma_render_order<K: Backend>(
    entries: Map<u64, Entry<K>>,
    cursor: RenderCursor,
    layer: LayerSummary,
)
    ensures
        ranked(render_steps(entries, cursor, layer), 0, 8),
{
    if let Some(scissor_rect) = layer.scissor_rect {
        let (a, b, c, d, e, f) = render_runs(entries, cursor, layer, scissor_rect);
        assert(render_steps(entries, cursor, layer) == a + b + c + d + e + f);
        assert(ranked(a, 0, 0));
        assert(ranked(b, 1, 3));
        assert(ranked(c, 4, 5));
        assert(ranked(d, 6, 6));
        assert(ranked(e, 7, 7));
        assert(ranked(f, 8, 8));
        lemma_ranked_both(a, b, 0, 0, 3);
        lemma_ranked_both(a + b, c, 0, 3, 5);
        lemma_ranked_both(a + b + c, d, 0, 5, 6);
        lemma_ranked_both(a + b + c + d, e, 0, 6, 7);
        lemma_ranked_both(a + b + c + d + e, f, 0, 7, 8);
    }
}

proof fn lemma_some_texture<K: Backend>(entries: Map<u64, Entry<K>>, batch: Seq<Instance>)
    ensures
        bound(entries, batch, batch.len() as int).len() > 0 <==> exists|k: int|
            0 <= k < batch.len() && entries.contains_key((#[trigger] batch[k]).cache_id),
{
    let n = batch.len() as int;
    let found = bound(entries, batch, n);
    law_all_textures_that_exist_are_composited(entries, batch, n);
    if found.len() > 0 {
        assert(found.contains(found[0]));
        assert(entries.contains_key(batch[found[0]].cache_id));
    }
    if exists|k: int| 0 <= k < n && entries.contains_key((#[trigger] batch[k]).cache_id) {
        let k = choose|k: int| 0 <= k < n && entries.contains_key((#[trigger] batch[k]).cache_id);
        assert(found.contains(k));
    }
}

/// A layer that covers something is rendered in full, and nothing else is: what there
/// is of each kind, whatever else is in the layer, each kind once and in the fixed
/// order. Just around the meshes the pass of the target is closed.
pub proof fn law_a_layer_is_rendered_in_full_once_and_in_order<K: Backend>(
    entries: Map<u64, Entry<K>>,
    cursor: RenderCursor,
    layer: LayerSummary,
    step: RenderStep,
)
    ensures
        render_steps(entries, cursor, layer).contains(step) <==> is_rendered(
            entries,
            cursor,
            layer,
            step,
        ),
        forall|i: int, j: int|
            0 <= i < j < render_steps(entries, cursor, layer).len() ==> render_rank(
                #[trigger] render_steps(entries, cursor, layer)[i],
            ) < render_rank(#[trigger] render_steps(entries, cursor, layer)[j]),
{
    lemma_render_order(entries, cursor, layer);
    if let Some(scissor_rect) = layer.scissor_rect {
        lemma_some_texture(entries, layer.cached_textures@);
        let (a, b, c, d, e, f) = render_runs(entries, cursor, layer, scissor_rect);
        assert(render_steps(entries, cursor, layer) == a + b + c + d + e + f);
        lemma_in_six(a, b, c, d, e, f, step);
        lemma_when(
            layer.quads > 0,
            RenderStep::Quads { state: cursor.quad_layer, scissor_rect },
            step,
        );
        lemma_when(layer.primitives@.len() > 0, RenderStep::Primitives, step);
        lemma_when(
            layer.images > 0,
            RenderStep::Images { state: cursor.image_layer, scissor_rect },
            step,
        );
        lemma_when(
            layer.text > 0,
            RenderStep::Text { state: cursor.text_layer, scissor_rect },
            step,
        );
        lemma_when(
            bound(
                entries,
                layer.cached_textures@,
                layer.cached_textures@.len() as int,
            ).len() > 0,
            RenderStep::CachedTextures { state: cursor.cached_texture_layer, scissor_rect },
            step,
        );
        if layer.triangles > 0 {
            assert(b[0] == RenderStep::EndPass);
            assert(b[1] == RenderStep::Triangles { state: cursor.mesh_layer });
            assert(b[2] == RenderStep::BeginPass);
        }
    }
}

/// Layer states are counted by the layers that need one: those that cover something
/// and composite cached textures.
pub proof fn law_states_are_counted_by_layers(layers: Seq<LayerSummary>, n: int)
    requires
        0 <= n <= layers.len(),
    ensures
        composites(layers, n) == layers.take(n).filter(
            |layer: LayerSummary|
                layer.scissor_rect is Some && layer.cached_textures@.len() > 0,
        ).len(),
        drawn_layers(layers, n) == layers.take(n).filter(
            |layer: LayerSummary|
                layer.scissor_rect is Some && (layer.quads > 0 || layer.triangles > 0
                    || layer.primitives@.len() > 0 || layer.images > 0 || layer.text > 0
                    || layer.cached_textures@.len() > 0),
        ).len(),
    decreases n,
{
    let cached = |layer: LayerSummary|
        layer.scissor_rect is Some && layer.cached_textures@.len() > 0;
    let drawn = |layer: LayerSummary|
        layer.scissor_rect is Some && (layer.quads > 0 || layer.triangles > 0
            || layer.primitives@.len() > 0 || layer.images > 0 || layer.text > 0
            || layer.cached_textures@.len() > 0);
    if n > 0 {
        law_states_are_counted_by_layers(layers, n - 1);
        lemma_filter_one_more(layers, n, cached);
        lemma_filter_one_more(layers, n, drawn);
    } else {
        lemma_filter_none(layers, cached);
        lemma_filter_none(layers, drawn);
    }
}

/// Where a step belongs in the preparation of a target: by layer, then by what it
/// prepares, then by position.
pub open spec fn prepare_place(step: PrepareStep) -> (int, int, int) {
    match step {
        PrepareStep::Quads(i) => (i as int, 0, 0),
        PrepareStep::Triangles(i) => (i as int, 1, 0),
        PrepareStep::Primitive(i, j) => (i as int, 2, j as int),
        PrepareStep::Images(i) => (i as int, 3, 0),
        PrepareStep::Text(i) => (i as int, 4, 0),
        PrepareStep::CachedTexture { layer, index, .. } => (layer as int, 5, index as int),
    }
}

/// Whether a step with the first place belongs before one with the second.
pub open spec fn precedes(a: (int, int, int), b: (int, int, int)) -> bool {
    a.0 < b.0 || (a.0 == b.0 && (a.1 < b.1 || (a.1 == b.1 && a.2 < b.2)))
}

/// Whether all steps are in their places, none of them twice.
pub open spec fn in_order(steps: Seq<PrepareStep>) -> bool {
    forall|i: int, j: int|
        0 <= i < j < steps.len() ==> precedes(
            prepare_place(#[trigger] steps[i]),
            prepare_place(#[trigger] steps[j]),
        )
}

/// Whether the given step is needed to prepare one of the first `n` layers. A cached
/// texture is prepared into the state of its layer, which is `start` and one more for
/// each layer before that needs one.
pub open spec fn is_prepared<K: Backend>(
    entries: Map<u64, Entry<K>>,
    layers: Seq<LayerSummary>,
    start: int,
    n: int,
    step: PrepareStep,
) -> bool {
    let i = prepare_place(step).0;
    let layer = layers[i];
    0 <= i < n && layer.scissor_rect is Some && match step {
        PrepareStep::Quads(_) => layer.quads > 0,
        PrepareStep::Triangles(_) => layer.triangles > 0,
        PrepareStep::Primitive(_, j) => j < layer.primitives@.len(),
        PrepareStep::Images(_) => layer.images > 0,
        PrepareStep::Text(_) => layer.text > 0,
        PrepareStep::CachedTexture { index, state, uv_max: uv, .. } => {
            &&& index < layer.cached_textures@.len()
            &&& state == start + layers.take(i).filter(
                |layer: LayerSummary|
                    layer.scissor_rect is Some && layer.cached_textures@.len() > 0,
            ).len()
            &&& uv == uv_max(entries, layer.cached_textures@[index as int].cache_id)
        },
    }
}

proof fn lemma_behind(a: Seq<PrepareStep>, b: Seq<PrepareStep>)
    requires
        in_order(a),
        in_order(b),
        forall|i: int, j: int|
            0 <= i < a.len() && 0 <= j < b.len() ==> precedes(
                prepare_place(#[trigger] a[i]),
                prepare_place(#[trigger] b[j]),
            ),
    ensures
        in_order(a + b),
{
    let s = a + b;
    assert forall|i: int, j: int| 0 <= i < j < s.len() implies precedes(
        prepare_place(#[trigger] s[i]),
        prepare_place(#[trigger] s[j]),
    ) by {
        if j < a.len() {
            assert(s[i] == a[i] && s[j] == a[j]);
        } else if i >= a.len() {
            assert(s[i] == b[i - a.len()] && s[j] == b[j - a.len()]);
        } else {
            assert(s[i] == a[i] && s[j] == b[j - a.len()]);
        }
    }
}

/// Whether the steps are in order, all of layer `i`, and prepare what comes from `low`
/// to `high` in the order of kinds.
pub open spec fn of_kinds(steps: Seq<PrepareStep>, i: int, low: int, high: int) -> bool {
    &&& in_order(steps)
    &&& forall|k: int|
        0 <= k < steps.len() ==> prepare_place(#[trigger] steps[k]).0 == i && low
            <= prepare_place(steps[k]).1 <= high
}

proof fn lemma_of_kinds_both(
    a: Seq<PrepareStep>,
    b: Seq<PrepareStep>,
    i: int,
    low: int,
    middle: int,
    high: int,
)
    requires
        of_kinds(a, i, low, middle),
        of_kinds(b, i, middle + 1, high),
        low <= middle <= high,
    ensures
        of_kinds(a + b, i, low, high),
{
    lemma_behind(a, b);
    let s = a + b;
    assert forall|k: int| 0 <= k < s.len() implies prepare_place(#[trigger] s[k]).0 == i && low
        <= prepare_place(s[k]).1 <= high by {
        if k < a.len() {
            assert(s[k] == a[k]);
        } else {
            assert(s[k] == b[k - a.len()]);
        }
    }
}

proof fn lemma_plain(layer: LayerSummary, i: int, step: PrepareStep)
    requires
        0 <= i <= usize::MAX,
    ensures
        of_kinds(frame::plain_steps(layer, i), i, 0, 4),
        frame::plain_steps(layer, i).contains(step) <==> (prepare_place(step).0 == i
            && match step {
            PrepareStep::Quads(_) => layer.quads > 0,
            PrepareStep::Triangles(_) => layer.triangles > 0,
            PrepareStep::Primitive(_, j) => j < layer.primitives@.len(),
            PrepareStep::Images(_) => layer.images > 0,
            PrepareStep::Text(_) => layer.text > 0,
            PrepareStep::CachedTexture { .. } => false,
        }),
{
    let u = i as usize;
    assert(layer.primitives.len() == layer.primitives@.len());
    let a = frame::when(layer.quads > 0, PrepareStep::Quads(u));
    let b = frame::when(layer.triangles > 0, PrepareStep::Triangles(u));
    let c = Seq::new(
        layer.primitives@.len(),
        |j: int| PrepareStep::Primitive(i as usize, j as usize),
    );
    let d = frame::when(layer.images > 0, PrepareStep::Images(u));
    let e = frame::when(layer.text > 0, PrepareStep::Text(u));
    let none = Seq::<PrepareStep>::empty();
    assert(frame::plain_steps(layer, i) == a + b + c + d + e);
    assert(a + b + c + d + e + none =~= a + b + c + d + e);
    assert forall|k: int| 0 <= k < c.len() implies #[trigger] c[k] == PrepareStep::Primitive(
        u,
        k as usize,
    ) && (k as usize) as int == k by {}
    lemma_of_kinds_both(a, b, i, 0, 0, 1);
    lemma_of_kinds_both(a + b, c, i, 0, 1, 2);
    lemma_of_kinds_both(a + b + c, d, i, 0, 2, 3);
    lemma_of_kinds_both(a + b + c + d, e, i, 0, 3, 4);
    lemma_in_six(a, b, c, d, e, none, step);
    lemma_when(layer.quads > 0, PrepareStep::Quads(u), step);
    lemma_when(layer.triangles > 0, PrepareStep::Triangles(u), step);
    lemma_when(layer.images > 0, PrepareStep::Images(u), step);
    lemma_when(layer.text > 0, PrepareStep::Text(u), step);
    if let PrepareStep::Primitive(h, j) = step {
        if h == u && j < layer.primitives@.len() {
            assert(c[j as int] == step);
        }
    }
    if c.contains(step) {
        let k = choose|k: int| 0 <= k < c.len() && c[k] == step;
    }
}

/// What is prepared for the first layers of a target is just what is in those that
/// cover something, whatever else is in them. Everything is prepared once, layer by
/// layer and within a layer in the fixed order. The cached textures of a layer go into
/// a state that no other layer uses.
pub proof fn law_layers_are_prepared_in_full_once_and_in_order<K: Backend>(
    entries: Map<u64, Entry<K>>,
    layers: Seq<LayerSummary>,
    start: int,
    n: int,
    step: PrepareStep,
)
    requires
        0 <= n <= layers.len() <= usize::MAX,
        0 <= start,
        start + layers.len() <= usize::MAX,
        forall|i: int|
            0 <= i < layers.len() ==> (#[trigger] layers[i]).cached_textures@.len() <= u32::MAX,
    ensures
        prepare_steps(entries, layers, start, n).contains(step) <==> is_prepared(
            entries,
            layers,
            start,
            n,
            step,
        ),
        in_order(prepare_steps(entries, layers, start, n)),
        forall|k: int|
            0 <= k < prepare_steps(entries, layers, start, n).len() ==> 0 <= prepare_place(
                #[trigger] prepare_steps(entries, layers, start, n)[k],
            ).0 < n,
    decreases n,
{
    if n > 0 {
        law_layers_are_prepared_in_full_once_and_in_order(entries, layers, start, n - 1, step);
        let before = prepare_steps(entries, layers, start, n - 1);
        let all = prepare_steps(entries, layers, start, n);
        let layer = layers[n - 1];
        let i = n - 1;
        let state = start + composites(layers, n - 1);
        law_states_are_counted_by_layers(layers, n - 1);
        lemma_counted(layers, n - 1);
        let one = frame::layer_steps(entries, layer, i, state);
        assert(all == before + one);
        lemma_in_both(before, one, step);
        if layer.scissor_rect is Some {
            let plain = frame::plain_steps(layer, i);
            let batch = layer.cached_textures@;
            let cached = frame::cached_steps(entries, batch, i, state, batch.len());
            assert(one == plain + cached);
            lemma_plain(layer, i, step);
            lemma_in_both(plain, cached, step);
            assert forall|k: int| 0 <= k < cached.len() implies #[trigger] cached[k]
                == (PrepareStep::CachedTexture {
                layer: i as usize,
                index: k as u32,
                state: state as usize,
                uv_max: uv_max(entries, batch[k].cache_id),
            }) && (k as u32) as int == k by {}
            lemma_behind(plain, cached);
            if cached.contains(step) {
                let k = choose|k: int| 0 <= k < cached.len() && cached[k] == step;
            }
            if let PrepareStep::CachedTexture { layer: h, index, state: s, uv_max: uv } = step {
                if is_prepared(entries, layers, start, n, step) && h == i {
                    assert(cached[index as int] == step);
                }
            }
            lemma_behind(before, one);
        } else {
            assert(all =~= before);
        }
    }
}

proof fn lemma_counted(layers: Seq<LayerSummary>, n: int)
    requires
        0 <= n <= layers.len(),
    ensures
        0 <= composites(layers, n) <= n,
    decreases n,
{
    if n > 0 {
        lemma_counted(layers, n - 1);
    }
}

/// Of two layers that composite cached textures, the later one has a later state: so
/// no two layers share one.
pub proof fn law_every_layer_has_a_state_of_its_own(layers: Seq<LayerSummary>, i: int, j: int)
    requires
        0 <= i < j <= layers.len(),
        layers[i].scissor_rect is Some,
        layers[i].cached_textures@.len() > 0,
    ensures
        composites(layers, i) < composites(layers, j),
    decreases j,
{
    if i < j - 1 {
        law_every_layer_has_a_state_of_its_own(layers, i, j - 1);
    }
}

/// Once layers are prepared, the state of each that composites cached textures has a
/// buffer, something that binds it, and room for all of them. A state that had room is
/// as it was. Another has a new buffer of just the bytes that they take. There are no
/// more states than are used or were there, and none of the others has changed.
pub proof fn law_prepared_states_have_room<K: Backend, F: Fn(u64) -> (K::Buffer, K::BindGroup)>(
    layers: Seq<LayerSummary>,
    pipeline: Option<Pipeline>,
    before: FrameState<K>,
    after: Seq<LayerState<K>>,
    create: F,
    i: int,
    k: int,
)
    requires
        prepared(layers, layers.len() as int, pipeline, before, after, create),
        before.wf(),
        0 <= i < layers.len(),
        layers[i].scissor_rect is Some,
        layers[i].cached_textures@.len() > 0,
    ensures
        ({
            let state = before.prepare_layer + layers.take(i).filter(
                |layer: LayerSummary|
                    layer.scissor_rect is Some && layer.cached_textures@.len() > 0,
            ).len();
            &&& 0 <= state < after.len()
            &&& after[state].uniform_buffer is Some
            &&& after[state].constant_bind_group is Some
            &&& after[state].capacity >= layers[i].cached_textures@.len()
            &&& if state < before.layers@.len() && before.layers@[state].capacity
                >= layers[i].cached_textures@.len() {
                after[state] == before.layers@[state]
            } else {
                &&& after[state].capacity == layers[i].cached_textures@.len()
                &&& call_ensures(
                    create,
                    ((pipeline->0.uniform_alignment * layers[i].cached_textures@.len()) as u64,),
                    (after[state].uniform_buffer->0, after[state].constant_bind_group->0),
                )
            }
        }),
        ({
            let end = before.prepare_layer + layers.filter(
                |layer: LayerSummary|
                    layer.scissor_rect is Some && layer.cached_textures@.len() > 0,
            ).len();
            &&& after.len() >= before.layers@.len()
            &&& after.len() >= end
            &&& after.len() == before.layers@.len() || after.len() == end
            &&& 0 <= k < before.layers@.len() && (k < before.prepare_layer || k >= end)
                ==> after[k] == before.layers@[k]
        }),
{
    law_states_are_counted_by_layers(layers, i);
    law_every_layer_has_a_state_of_its_own(layers, i, layers.len() as int);
    lemma_counted(layers, i);
    assert(layers[i].composites());
    let state = before.prepare_layer + composites(layers, i);
    if state < before.layers@.len() {
        assert(before.layers@[state].wf());
    }
    law_states_are_counted_by_layers(layers, layers.len() as int);
    assert(layers.take(layers.len() as int) =~= layers);
    if 0 <= k < before.layers@.len() && (k < before.prepare_layer || k >= before.prepare_layer
        + composites(layers, layers.len() as int)) {
        assert(after[k] == before.layers@[k]);
    }
}

/// Rendering a target uses up one state of quads, of images and of cached textures for
/// each layer that covers something and has such things, and for no other, and as many
/// states of meshes and texts as the device reports for the layers that have any.
pub proof fn law_states_are_used_up_by_layers(
    start: Cursor,
    layers: Seq<LayerSummary>,
    meshes: Seq<int>,
    texts: Seq<int>,
    n: int,
)
    requires
        0 <= n <= layers.len(),
    ensures
        start.after(layers, meshes, texts, n).quad == start.quad + layers.take(n).filter(
            |layer: LayerSummary| layer.scissor_rect is Some && layer.quads > 0,
        ).len(),
        start.after(layers, meshes, texts, n).image == start.image + layers.take(n).filter(
            |layer: LayerSummary| layer.scissor_rect is Some && layer.images > 0,
        ).len(),
        start.after(layers, meshes, texts, n).cached_texture == start.cached_texture
            + layers.take(n).filter(
            |layer: LayerSummary|
                layer.scissor_rect is Some && layer.cached_textures@.len() > 0,
        ).len(),
        n > 0 ==> start.after(layers, meshes, texts, n).mesh == start.after(
            layers,
            meshes,
            texts,
            n - 1,
        ).mesh + (if layers[n - 1].scissor_rect is Some && layers[n - 1].triangles > 0 {
            meshes[n - 1]
        } else {
            0
        }),
        n > 0 ==> start.after(layers, meshes, texts, n).text == start.after(
            layers,
            meshes,
            texts,
            n - 1,
        ).text + (if layers[n - 1].scissor_rect is Some && layers[n - 1].text > 0 {
            texts[n - 1]
        } else {
            0
        }),
        n == 0 ==> start.after(layers, meshes, texts, n) == start,
    decreases n,
{
    let quads = |layer: LayerSummary| layer.scissor_rect is Some && layer.quads > 0;
    let images = |layer: LayerSummary| layer.scissor_rect is Some && layer.images > 0;
    let cached = |layer: LayerSummary|
        layer.scissor_rect is Some && layer.cached_textures@.len() > 0;
    if n > 0 {
        law_states_are_used_up_by_layers(start, layers, meshes, texts, n - 1);
        lemma_filter_one_more(layers, n, quads);
        lemma_filter_one_more(layers, n, images);
        lemma_filter_one_more(layers, n, cached);
    } else {
        lemma_filter_none(layers, quads);
        lemma_filter_none(layers, images);
        lemma_filter_none(layers, cached);
    }
}

/// The shader primitives that the device tries to draw are just those that cover
/// something, each with what it covers, once and in order.
pub proof fn law_all_primitives_that_cover_something_are_tried(
    primitives: Seq<Option<Rectangle<u32>>>,
    n: int,
)
    requires
        0 <= n <= primitives.len() <= usize::MAX,
    ensures
        forall|k: usize, clip: Rectangle<u32>|
            #![trigger visible(primitives, n).contains((k, clip))]
            visible(primitives, n).contains((k, clip)) <==> (k < n && primitives[k as int] == Some(
                clip,
            )),
        forall|i: int, j: int|
            0 <= i < j < visible(primitives, n).len() ==> (#[trigger] visible(primitives, n)[i]).0
                < (#[trigger] visible(primitives, n)[j]).0,
        forall|i: int|
            0 <= i < visible(primitives, n).len() ==> (#[trigger] visible(primitives, n)[i]).0 < n,
    decreases n,
{
    if n > 0 {
        law_all_primitives_that_cover_something_are_tried(primitives, n - 1);
        let before = visible(primitives, n - 1);
        let after = visible(primitives, n);
        if let Some(found) = primitives[n - 1] {
            let one = ((n - 1) as usize, found);
            assert(after == before.push(one));
            assert forall|k: usize, clip: Rectangle<u32>|
                #![trigger after.contains((k, clip))]
                after.contains((k, clip)) <==> (k < n && primitives[k as int] == Some(clip)) by {
                if after.contains((k, clip)) {
                    let i = choose|i: int| 0 <= i < after.len() && after[i] == (k, clip);
                    if i < before.len() {
                        assert(before[i] == (k, clip));
                        assert(before.contains((k, clip)));
                    }
                }
                if k < n - 1 && primitives[k as int] == Some(clip) {
                    assert(before.contains((k, clip)));
                    let i = choose|i: int| 0 <= i < before.len() && before[i] == (k, clip);
                    assert(after[i] == (k, clip));
                }
                if k == n - 1 && primitives[k as int] == Some(clip) {
                    assert(after[before.len() as int] == (k, clip));
                }
            }
        }
    }
}

/// What is left to render are just the primitives that were tried and not drawn, in
/// order. If there are any, the pass of the target ends before they are rendered and
/// another begins after all of them, and in between they are rendered and nothing else
/// is done. If there are none, nothing is done.
pub proof fn law_what_was_not_drawn_is_rendered_between_passes(
    tried: Seq<(usize, Rectangle<u32>)>,
    drawn: Seq<bool>,
)
    requires
        drawn.len() == tried.len(),
    ensures
        undrawn(tried, drawn, tried.len() as int) == Seq::new(
            tried.len(),
            |k: int| (tried[k], drawn[k]),
        ).filter(|one: ((usize, Rectangle<u32>), bool)| !one.1).map_values(
            |one: ((usize, Rectangle<u32>), bool)| one.0,
        ),
        ({
            let left = undrawn(tried, drawn, tried.len() as int);
            let steps = interruption(left);
            if left.len() == 0 {
                steps.len() == 0
            } else {
                &&& steps.len() == left.len() + 2
                &&& steps[0] == RenderStep::EndPass
                &&& steps[steps.len() - 1] == RenderStep::BeginPass
                &&& forall|k: int|
                    0 <= k < left.len() ==> #[trigger] steps[k + 1] == (RenderStep::Primitive {
                        index: left[k].0,
                        clip_bounds: left[k].1,
                    })
            }
        }),
{
    let pairs = Seq::new(tried.len(), |k: int| (tried[k], drawn[k]));
    lemma_undrawn(tried, drawn, tried.len() as int);
    assert(pairs.take(tried.len() as int) =~= pairs);
}

proof fn lemma_undrawn(tried: Seq<(usize, Rectangle<u32>)>, drawn: Seq<bool>, n: int)
    requires
        0 <= n <= tried.len(),
        drawn.len() == tried.len(),
    ensures
        undrawn(tried, drawn, n) == Seq::new(
            tried.len(),
            |k: int| (tried[k], drawn[k]),
        ).take(n).filter(|one: ((usize, Rectangle<u32>), bool)| !one.1).map_values(
            |one: ((usize, Rectangle<u32>), bool)| one.0,
        ),
    decreases n,
{
    let pairs = Seq::new(tried.len(), |k: int| (tried[k], drawn[k]));
    let left = |one: ((usize, Rectangle<u32>), bool)| !one.1;
    if n > 0 {
        lemma_undrawn(tried, drawn, n - 1);
        lemma_filter_one_more(pairs, n, left);
    } else {
        lemma_filter_none(pairs, left);
    }
    assert(undrawn(tried, drawn, n) =~= pairs.take(n).filter(left).map_values(
        |one: ((usize, Rectangle<u32>), bool)| one.0,
    ));
}

proof fn lemma_summed_up<P>(
    commands: Seq<Command<P>>,
    kinds: Seq<Kind>,
    bounds: Seq<Rectangle>,
    items: Seq<Item>,
    n: int,
)
    requires
        0 <= n <= items.len(),
    ensures
        quads_in(commands, items, n) == items.take(n).filter(
            |item: Item| commands[item.command as int] is FillQuad,
        ).len(),
        kind_in(commands, kinds, items, Kind::Mesh, n) == items.take(n).filter(
            |item: Item|
                commands[item.command as int] is Draw && kinds[item.command as int] is Mesh,
        ).len(),
        kind_in(commands, kinds, items, Kind::Image, n) == items.take(n).filter(
            |item: Item|
                commands[item.command as int] is Draw && kinds[item.command as int] is Image,
        ).len(),
        kind_in(commands, kinds, items, Kind::Text, n) + labels_in(commands, items, n)
            == items.take(n).filter(
            |item: Item|
                commands[item.command as int] is FillLayerLabel || (
                commands[item.command as int] is Draw && kinds[item.command as int] is Text),
        ).len(),
        shaders_in(commands, kinds, items, n) == items.take(n).filter(
            |item: Item|
                commands[item.command as int] is Draw && kinds[item.command as int] is Shader,
        ).map_values(|item: Item| kinds[item.command as int]->Shader_0),
        instances_in(commands, bounds, items, n) == items.take(n).filter(
            |item: Item| commands[item.command as int] is DrawCachedTexture,
        ).map_values(
            |item: Item|
                Instance {
                    cache_id: commands[item.command as int]->DrawCachedTexture_0,
                    bounds: bounds[item.command as int],
                },
        ),
    decreases n,
{
    let quad = |item: Item| commands[item.command as int] is FillQuad;
    let mesh = |item: Item|
        commands[item.command as int] is Draw && kinds[item.command as int] is Mesh;
    let image = |item: Item|
        commands[item.command as int] is Draw && kinds[item.command as int] is Image;
    let text = |item: Item|
        commands[item.command as int] is FillLayerLabel || (commands[item.command as int] is Draw
            && kinds[item.command as int] is Text);
    let shader = |item: Item|
        commands[item.command as int] is Draw && kinds[item.command as int] is Shader;
    let cache = |item: Item| commands[item.command as int] is DrawCachedTexture;
    let of_shader = |item: Item| kinds[item.command as int]->Shader_0;
    let of_cache = |item: Item|
        Instance {
            cache_id: commands[item.command as int]->DrawCachedTexture_0,
            bounds: bounds[item.command as int],
        };
    if n == 0 {
        lemma_filter_none(items, quad);
        lemma_filter_none(items, mesh);
        lemma_filter_none(items, image);
        lemma_filter_none(items, text);
        lemma_filter_none(items, shader);
        lemma_filter_none(items, cache);
    } else {
        lemma_summed_up(commands, kinds, bounds, items, n - 1);
        lemma_filter_one_more(items, n, quad);
        lemma_filter_one_more(items, n, mesh);
        lemma_filter_one_more(items, n, image);
        lemma_filter_one_more(items, n, text);
        lemma_filter_one_more(items, n, shader);
        lemma_filter_one_more(items, n, cache);
    }
    assert(shaders_in(commands, kinds, items, n) =~= items.take(n).filter(shader).map_values(
        of_shader,
    ));
    assert(instances_in(commands, bounds, items, n) =~= items.take(n).filter(cache).map_values(
        of_cache,
    ));
}

/// What is summed up of a batch are just its operations, each by its own kind and in
/// the order they were recorded. The name of a layer is a text.
pub proof fn law_a_summary_is_made_of_the_operations<P>(
    commands: Seq<Command<P>>,
    kinds: Seq<Kind>,
    bounds: Seq<Rectangle>,
    items: Seq<Item>,
    scissor_rect: Option<Rectangle<u32>>,
    summary: LayerSummary,
)
    requires
        summarizes(commands, kinds, bounds, items, scissor_rect, summary),
    ensures
        summary.scissor_rect == scissor_rect,
        summary.quads == items.filter(
            |item: Item| commands[item.command as int] is FillQuad,
        ).len(),
        summary.triangles == items.filter(
            |item: Item|
                commands[item.command as int] is Draw && kinds[item.command as int] is Mesh,
        ).len(),
        summary.images == items.filter(
            |item: Item|
                commands[item.command as int] is Draw && kinds[item.command as int] is Image,
        ).len(),
        summary.text == items.filter(
            |item: Item|
                commands[item.command as int] is FillLayerLabel || (
                commands[item.command as int] is Draw && kinds[item.command as int] is Text),
        ).len(),
        summary.primitives@ == items.filter(
            |item: Item|
                commands[item.command as int] is Draw && kinds[item.command as int] is Shader,
        ).map_values(|item: Item| kinds[item.command as int]->Shader_0),
        summary.cached_textures@ == items.filter(
            |item: Item| commands[item.command as int] is DrawCachedTexture,
        ).map_values(
            |item: Item|
                Instance {
                    cache_id: commands[item.command as int]->DrawCachedTexture_0,
                    bounds: bounds[item.command as int],
                },
        ),
{
    lemma_summed_up(commands, kinds, bounds, items, items.len() as int);
    assert(items.take(items.len() as int) =~= items);
}

/// A cache is fresh exactly if it has not been invalidated and has an entry for
/// contents of the same width and the same height, in logical and in physical pixels,
/// at the same scale factor.
pub proof fn law_a_cache_is_fresh_for_its_own_target_alone<K: Backend>(
    entries: Map<u64, Entry<K>>,
    id: u64,
    invalidated: bool,
    target: RecordTarget,
)
    ensures
        !is_stale(entries, id, invalidated, target) <==> {
            &&& !invalidated
            &&& entries.contains_key(id)
            &&& entries[id].size.width == target.size.width
            &&& entries[id].size.height == target.size.height
            &&& entries[id].physical_size.width == target.physical_size.width
            &&& entries[id].physical_size.height == target.physical_size.height
            &&& !target.scale_changed
        },
{
}

/// A recording begins with nothing recorded, in bounds of the size of its target, and
/// remembers the target that it interrupts. If it is kept, the cache has an entry for
/// the target, with the buffers and the mark it had. Its texture is the one it had if
/// that is large enough; else it is the one that was allocated for just the size that
/// the entry says it has. All other entries, and all recordings that wait, are left
/// alone.
pub proof fn law_a_recording_begins_from_scratch<
    K: Backend,
    A: FnOnce(Size<u32>) -> K::Texture,
>(
    before: Renderer<K>,
    after: Renderer<K>,
    id: u64,
    keep: bool,
    target: RecordTarget,
    allocate: A,
    other: u64,
)
    requires
        started(before, after, id, true, keep, target, allocate),
    ensures
        after.layers.commands@.len() == 0,
        after.layers.bounds.x.bits == 0 && after.layers.bounds.y.bits == 0,
        after.layers.bounds.width == target.extent.width,
        after.layers.bounds.height == target.extent.height,
        after.texture_cache.recording_stack@.len() == before.texture_cache.recording_stack@.len()
            + 1,
        after.texture_cache.recording_stack@.last() == (id, before.layers, keep),
        after.texture_cache.recording_stack@.drop_last() == before.texture_cache.recording_stack@,
        after.texture_cache.pending@ == before.texture_cache.pending@,
        other != id || !keep ==> after.texture_cache.entries@.contains_key(other)
            == before.texture_cache.entries@.contains_key(other)
            && after.texture_cache.entries@[other] == before.texture_cache.entries@[other],
        keep ==> after.texture_cache.entries@.contains_key(id),
        keep ==> {
            let entry = after.texture_cache.entries@[id];
            let had = before.texture_cache.entries@.contains_key(id);
            let held = before.texture_cache.entries@[id];
            &&& entry.size == target.size
            &&& entry.physical_size == target.physical_size
            &&& entry.scale_factor == target.scale_factor
            &&& entry.recorded == (had && held.recorded)
            &&& had ==> entry.state == held.state
            &&& !had ==> entry.state is None
            &&& if had && held.texture_capacity_size.width >= target.physical_size.width
                && held.texture_capacity_size.height >= target.physical_size.height {
                entry.texture == held.texture && entry.texture_capacity_size
                    == held.texture_capacity_size
            } else {
                call_ensures(allocate, (entry.texture_capacity_size,), entry.texture)
            }
        },
        keep ==> after.texture_cache.pipeline is Some,
        !keep ==> after.texture_cache.pipeline == before.texture_cache.pipeline,
{
    assert(after.texture_cache.recording_stack@.drop_last()
        =~= before.texture_cache.recording_stack@);
    if keep {
        assert(after.texture_cache.entries@.contains_key(id));
    }
}

/// The end of a kept recording marks its cache as recorded, and changes nothing else
/// about any entry. What is recorded can be drawn, and nothing else can.
pub proof fn law_the_end_of_a_recording_marks_its_cache<K: Backend>(
    before: Renderer<K>,
    after: Renderer<K>,
    other: u64,
)
    requires
        ended(before, after),
        before.texture_cache.recording_stack@.len() > 0,
    ensures
        ({
            let (id, saved, keep) = before.texture_cache.recording_stack@.last();
            let was = before.texture_cache.entries@;
            let is = after.texture_cache.entries@;
            &&& after.layers == saved
            &&& is.contains_key(other) == was.contains_key(other)
            &&& other != id || !keep ==> is[other] == was[other]
            &&& keep && was.contains_key(id) ==> {
                &&& is[id].recorded
                &&& is[id].texture == was[id].texture
                &&& is[id].texture_capacity_size == was[id].texture_capacity_size
                &&& is[id].state == was[id].state
                &&& is[id].size == was[id].size
                &&& is[id].physical_size == was[id].physical_size
                &&& is[id].scale_factor == was[id].scale_factor
            }
            &&& keep ==> after.texture_cache.pending@.last() == (id, before.layers)
        }),
        recorded_ids(after.texture_cache.entries@).contains(other) <==> (
        after.texture_cache.entries@.contains_key(other)
            && after.texture_cache.entries@[other].recorded),
{
}

/// What is rendered next is the recording that was finished first, of those whose
/// cache has a texture, with the buffers of that cache, or new ones if it has none
/// yet. What comes after it still waits, in the same order, and no other entry is
/// touched. What is recorded for the frame and its buffers are put aside.
pub proof fn law_the_next_flush_is_the_first_that_can_be_done<
    K: Backend,
    C: FnOnce() -> K::State,
>(
    before: Renderer<K>,
    after: Renderer<K>,
    k: int,
    flush: Flush<K>,
    create_state: C,
    other: u64,
)
    requires
        first_backed(before.texture_cache.pending@, before.texture_cache.entries@.dom(), k),
        began(before, after, k, flush, create_state),
    ensures
        ({
            let pending = before.texture_cache.pending@;
            let entry = before.texture_cache.entries@[flush.id];
            &&& 0 <= k < pending.len()
            &&& before.texture_cache.entries@.contains_key(flush.id)
            &&& (flush.id, after.layers) == pending[k]
            &&& forall|j: int|
                0 <= j < k ==> !before.texture_cache.entries@.contains_key(
                    (#[trigger] pending[j]).0,
                )
            &&& after.texture_cache.pending@.len() == pending.len() - k - 1
            &&& forall|j: int|
                0 <= j < after.texture_cache.pending@.len() ==> #[trigger]
                after.texture_cache.pending@[j] == pending[k + 1 + j]
            &&& !after.texture_cache.entries@.contains_key(flush.id)
            &&& other != flush.id ==> after.texture_cache.entries@.contains_key(other)
                == before.texture_cache.entries@.contains_key(other)
                && after.texture_cache.entries@[other] == before.texture_cache.entries@[other]
            &&& flush.entry.texture == entry.texture
            &&& flush.entry.texture_capacity_size == entry.texture_capacity_size
            &&& flush.entry.size == entry.size
            &&& flush.entry.physical_size == entry.physical_size
            &&& flush.entry.scale_factor == entry.scale_factor
            &&& flush.entry.recorded == entry.recorded
            &&& flush.entry.state == Some(before.state)
            &&& entry.state is Some ==> Some(after.state) == entry.state
            &&& entry.state is None ==> call_ensures(create_state, (), after.state)
        }),
        flush.saved_layers == before.layers,
        after.texture_cache.recording_stack@ == before.texture_cache.recording_stack@,
{
    let pending = before.texture_cache.pending@;
    assert(before.texture_cache.entries@.dom().contains(pending[k].0));
    assert forall|j: int| 0 <= j < k implies !before.texture_cache.entries@.contains_key(
        (#[trigger] pending[j]).0,
    ) by {
        assert(!before.texture_cache.entries@.dom().contains(pending[j].0));
    }
}

/// The end of a flush puts back what was put aside, and the entry of the cache with
/// the buffers that its recording was rendered with.
pub proof fn law_the_end_of_a_flush_puts_things_back<K: Backend>(
    before: Renderer<K>,
    flush: Flush<K>,
    after: Renderer<K>,
    other: u64,
)
    requires
        finished(before, flush, after),
    ensures
        after.layers == flush.saved_layers,
        flush.entry.state == Some(after.state),
        ({
            let entry = after.texture_cache.entries@[flush.id];
            &&& after.texture_cache.entries@.contains_key(flush.id)
            &&& entry.state == Some(before.state)
            &&& entry.texture == flush.entry.texture
            &&& entry.texture_capacity_size == flush.entry.texture_capacity_size
            &&& entry.size == flush.entry.size
            &&& entry.physical_size == flush.entry.physical_size
            &&& entry.scale_factor == flush.entry.scale_factor
            &&& entry.recorded == flush.entry.recorded
        }),
        other != flush.id ==> after.texture_cache.entries@.contains_key(other)
            == before.texture_cache.entries@.contains_key(other)
            && after.texture_cache.entries@[other] == before.texture_cache.entries@[other],
        after.texture_cache.pending@ == before.texture_cache.pending@,
{
}

/// The uniforms of two instances are as far apart as the device asks for and as they
/// are long, and no further.
pub proof fn law_the_alignment_is_the_larger_of_two(alignment: u32)
    ensures
        Pipeline::of(alignment).uniform_alignment >= alignment,
        Pipeline::of(alignment).uniform_alignment >= 96,
        Pipeline::of(alignment).uniform_alignment == alignment || Pipeline::of(
            alignment,
        ).uniform_alignment == 96,
        UNIFORMS_SIZE == 96,
{
}

/// The uniforms of an instance, word by word: the projection, where the instance goes,
/// the scale, a gap, and the part of the texture that is sampled.
pub proof fn law_uniforms_are_laid_out_word_by_word(
    instance: Instance,
    projection: Transformation,
    scale: Scalar,
    uv_max: [Scalar; 2],
    k: int,
)
    ensures
        ({
            let words = uniforms_of(instance, projection, scale, uv_max).words_spec();
            &&& words.len() == 24
            &&& 0 <= k < 16 ==> words[k] == projection.matrix@[k].bits
            &&& words[16] == instance.bounds.x.bits
            &&& words[17] == instance.bounds.y.bits
            &&& words[18] == instance.bounds.width.bits
            &&& words[19] == instance.bounds.height.bits
            &&& words[20] == scale.bits
            &&& words[21] == 0
            &&& words[22] == uv_max@[0].bits
            &&& words[23] == uv_max@[1].bits
        }),
{
    let uniforms = uniforms_of(instance, projection, scale, uv_max);
    assert(uniforms.bounds@ =~= seq![
        instance.bounds.x,
        instance.bounds.y,
        instance.bounds.width,
        instance.bounds.height,
    ]);
}

/// The four bytes of a word make up the word.
#[verifier::spinoff_prover]
pub proof fn law_bytes_make_up_their_word(word: u32)
    ensures
        byte_of(word, 0) + 0x100 * byte_of(word, 1) + 0x1_0000 * byte_of(word, 2) + 0x100_0000
            * byte_of(word, 3) == word,
{
    let w = word as int;
    assert(w / 0x1_0000 == w / 0x100 / 0x100);
    assert(w / 0x100_0000 == w / 0x1_0000 / 0x100);
    assert(0 <= w / 0x100_0000 < 0x100);
    assert(byte_of(word, 0) == w % 0x100);
    assert(byte_of(word, 1) == w / 0x100 % 0x100);
    assert(byte_of(word, 2) == w / 0x1_0000 % 0x100);
    assert(byte_of(word, 3) == w / 0x100_0000);
}

/// What a renderer has been asked to draw is what it has recorded: for the current
/// target, for those that are suspended, and for caches, each with its bounds and in
/// order. The caches that can be drawn are those that have been recorded.
pub proof fn law_drawings_are_what_is_recorded<K: Backend>(renderer: Renderer<K>, i: int, id: u64)
    ensures
        renderer.drawing().commands == renderer.layers.commands@,
        renderer.drawing().bounds == renderer.layers.bounds,
        renderer.drawing().suspended.len() == renderer.texture_cache.recording_stack@.len(),
        0 <= i < renderer.drawing().suspended.len() ==> {
            let (cache, target, keep) = renderer.texture_cache.recording_stack@[i];
            &&& renderer.drawing().suspended[i].id == cache
            &&& renderer.drawing().suspended[i].keep == keep
            &&& renderer.drawing().suspended[i].recorded.commands == target.commands@
            &&& renderer.drawing().suspended[i].recorded.bounds == target.bounds
        },
        renderer.drawing().waiting.len() == renderer.texture_cache.pending@.len(),
        0 <= i < renderer.drawing().waiting.len() ==> {
            let (cache, waiting) = renderer.texture_cache.pending@[i];
            &&& renderer.drawing().waiting[i].0 == cache
            &&& renderer.drawing().waiting[i].1.commands == waiting.commands@
            &&& renderer.drawing().waiting[i].1.bounds == waiting.bounds
        },
        renderer.drawing().stored.contains(id) <==> renderer.texture_cache.entries@.contains_key(
            id,
        ),
        renderer.drawing().backed.contains(id) <==> (
        renderer.texture_cache.entries@.contains_key(id)
            && renderer.texture_cache.entries@[id].recorded),
        renderer.hinted() == renderer.scale_factor,
{
}

/// Geometry is drawn as a whole: its meshes, then its images in order, then its text,
/// as far as there are any.
pub proof fn law_geometry_is_drawn_as_a_whole<P>(geometry: Geometry<P>, i: int)
    ensures
        match geometry {
            Geometry::Live { meshes, images, text } => {
                let drawn = geometry.commands();
                &&& drawn.len() == images@.len() + 2
                &&& drawn[0] == Command::Draw(meshes)
                &&& 0 <= i < images@.len() ==> drawn[1 + i] == Command::Draw(images@[i])
                &&& drawn.last() == Command::Draw(text)
            },
            Geometry::Cached(cache) => {
                let drawn = geometry.commands();
                let first = if cache.meshes is Some {
                    1int
                } else {
                    0
                };
                let count = if cache.images is Some {
                    cache.images->0@.len() as int
                } else {
                    0
                };
                let last = if cache.text is Some {
                    1int
                } else {
                    0
                };
                &&& drawn.len() == first + count + last
                &&& cache.meshes is Some ==> drawn[0] == Command::Draw(cache.meshes->0)
                &&& cache.images is Some && 0 <= i < count ==> drawn[first + i] == Command::Draw(
                    cache.images->0@[i],
                )
                &&& cache.text is Some ==> drawn.last() == Command::Draw(cache.text->0)
            },
        },
{
}

/// What drawing leaves alone is everything but the recording of the current target, and
/// scratch memory.
pub proof fn law_everything_else_is_left_alone<K: Backend>(before: Renderer<K>, after: Renderer<K>)
    requires
        before.kept() == after.kept(),
    ensures
        after.settings == before.settings,
        after.scale_factor == before.scale_factor,
        after.state == before.state,
        after.texture_cache.entries@ == before.texture_cache.entries@,
        after.texture_cache.pending@ == before.texture_cache.pending@,
        after.texture_cache.recording_stack@ == before.texture_cache.recording_stack@,
        after.texture_cache.pipeline == before.texture_cache.pipeline,
        after.texture_cache_state == before.texture_cache_state,
        after.min_uniform_alignment == before.min_uniform_alignment,
{
}

/// Asking for a recording that does not begin, or ending one where none is, does
/// nothing. Neither the start nor the end of a recording changes the settings, the
/// hint, or any buffer.
pub proof fn law_recordings_leave_the_rest_alone<
    K: Backend,
    A: FnOnce(Size<u32>) -> K::Texture,
>(
    before: Renderer<K>,
    begun: Renderer<K>,
    after: Renderer<K>,
    id: u64,
    began: bool,
    keep: bool,
    target: RecordTarget,
    allocate: A,
)
    requires
        started(before, begun, id, began, keep, target, allocate),
        ended(begun, after),
    ensures
        !began ==> begun == before,
        begun.texture_cache.recording_stack@.len() == 0 ==> after == begun,
        begun.settings == before.settings && after.settings == before.settings,
        begun.scale_factor == before.scale_factor && after.scale_factor == before.scale_factor,
        begun.state == before.state && after.state == before.state,
        begun.texture_cache_state == before.texture_cache_state && after.texture_cache_state
            == before.texture_cache_state,
        begun.min_uniform_alignment == before.min_uniform_alignment
            && after.min_uniform_alignment == before.min_uniform_alignment,
        after.texture_cache.pipeline == begun.texture_cache.pipeline,
{
}

/// Neither the start nor the end of a flush changes the settings, the hint, what is
/// suspended, or the states of composited layers.
pub proof fn law_flushes_leave_the_rest_alone<K: Backend, C: FnOnce() -> K::State>(
    before: Renderer<K>,
    set_up: Renderer<K>,
    k: int,
    flush: Flush<K>,
    create_state: C,
    rendered: Renderer<K>,
    after: Renderer<K>,
)
    requires
        began(before, set_up, k, flush, create_state),
        finished(rendered, flush, after),
    ensures
        set_up.settings == before.settings && after.settings == rendered.settings,
        set_up.scale_factor == before.scale_factor && after.scale_factor == rendered.scale_factor,
        set_up.texture_cache.recording_stack@ == before.texture_cache.recording_stack@
            && after.texture_cache.recording_stack@ == rendered.texture_cache.recording_stack@,
        set_up.texture_cache.pipeline == before.texture_cache.pipeline
            && after.texture_cache.pipeline == rendered.texture_cache.pipeline,
        set_up.texture_cache_state == before.texture_cache_state && after.texture_cache_state
            == rendered.texture_cache_state,
        set_up.min_uniform_alignment == before.min_uniform_alignment
            && after.min_uniform_alignment == rendered.min_uniform_alignment,
{
}

/// Every batch is summed up, each with the part of the target that it covers.
pub proof fn law_every_batch_is_summed_up<P>(
    commands: Seq<Command<P>>,
    kinds: Seq<Kind>,
    bounds: Seq<Rectangle>,
    batches: Seq<Batch>,
    scissor_rects: Seq<Option<Rectangle<u32>>>,
    summaries: Seq<LayerSummary>,
    k: int,
)
    requires
        summarizes_all(commands, kinds, bounds, batches, scissor_rects, summaries),
    ensures
        summaries.len() == batches.len(),
        0 <= k < batches.len() ==> summaries[k].scissor_rect == scissor_rects[k],
        0 <= k < batches.len() ==> summarizes(
            commands,
            kinds,
            bounds,
            batches[k].items@,
            scissor_rects[k],
            summaries[k],
        ),
{
    if 0 <= k < batches.len() {
        assert(summarizes(
            commands,
            kinds,
            bounds,
            batches[k].items@,
            scissor_rects[k],
            summaries[k],
        ));
    }
}

/// A cursor counts what its fields say.
pub proof fn law_a_cursor_is_made_of_its_fields(cursor: RenderCursor)
    ensures
        cursor@.quad == cursor.quad_layer,
        cursor@.mesh == cursor.mesh_layer,
        cursor@.text == cursor.text_layer,
        cursor@.image == cursor.image_layer,
        cursor@.cached_texture == cursor.cached_texture_layer,
{
}

/// Words are in memory one after the other, each with its bytes in one of the two
/// orders.
pub proof fn law_words_are_in_memory_in_order(words: Seq<u32>, least_first: bool, w: int, k: int)
    requires
        0 <= w < words.len(),
        0 <= k < 4,
    ensures
        in_memory(words, least_first).len() == 4 * words.len(),
        in_memory(words, least_first)[4 * w + k] == byte_of(
            words[w],
            if least_first {
                k
            } else {
                3 - k
            },
        ),
{
    assert((4 * w + k) / 4 == w && (4 * w + k) % 4 == k);
}

/// Every target can be recorded for whose extents have a power of two above them.
pub proof fn law_targets_of_every_common_size_can_be_recorded<K: Backend>(
    renderer: Renderer<K>,
    target: RecordTarget,
)
    requires
        renderer.wf(),
    ensures
        renderer.can_record(target) <==> (target.physical_size.width <= 0x8000_0000
            && target.physical_size.height <= 0x8000_0000),
{
}

} // verus!
