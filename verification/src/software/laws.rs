//! What holds of every layer that is rasterized.
use vstd::prelude::*;

use crate::batching::Item;
use crate::recording::first_backed;
use crate::renderer::{Command, RecordTarget, Renderer as _};
use crate::sequences::{lemma_filter_none, lemma_filter_one_more, lemma_in_both};
use crate::software::flush::{began, Flush};
use crate::software::frame::{
    cached_steps, group_steps, layer_steps, text_steps, GroupSummary, LayerSummary, RenderStep,
};
use crate::software::pixmap;
use crate::software::summary::{
    caches_in, groups_in, images_in, quads_in, summarizes, texts_in, Kind,
};
use crate::software::texture_cache::Entry;
use crate::software::{ended, is_stale, recorded_ids, started, Geometry, Renderer};

verus! {

/// Where a step belongs among the others: by what it draws, then by position.
pub open spec fn place(step: RenderStep) -> (int, int, int) {
    match step {
        RenderStep::ClipToLayer => (0, 0, 0),
        RenderStep::Quad(i) => (1, i as int, 0),
        RenderStep::ClipToGroup(g) => (2, g as int, -1),
        RenderStep::Primitive(g, i) => (2, g as int, i as int),
        RenderStep::Image(i) => (3, i as int, 0),
        RenderStep::Text(g, i) => (4, g as int, i as int),
        RenderStep::CachedTexture { index, .. } => (5, index as int, 0),
    }
}

/// Whether a step with the first place belongs before one with the second.
pub open spec fn precedes(a: (int, int, int), b: (int, int, int)) -> bool {
    a.0 < b.0 || (a.0 == b.0 && (a.1 < b.1 || (a.1 == b.1 && a.2 < b.2)))
}

/// Whether all steps but those that clip to the layer are in their places, none of
/// them twice.
pub open spec fn in_order(steps: Seq<RenderStep>) -> bool {
    forall|i: int, j: int|
        0 <= i < j < steps.len() && !(steps[i] is ClipToLayer) && !(steps[j] is ClipToLayer)
            ==> precedes(place(#[trigger] steps[i]), place(#[trigger] steps[j]))
}

/// What is clipped to when step `i` is done, if it was `clip` at first.
pub open spec fn clip_at(clip: RenderStep, steps: Seq<RenderStep>, i: int) -> RenderStep
    decreases i,
{
    if i <= 0 {
        clip
    } else if steps[i - 1] is ClipToLayer || steps[i - 1] is ClipToGroup {
        steps[i - 1]
    } else {
        clip_at(clip, steps, i - 1)
    }
}

/// What a step has to be clipped to, if it draws something: a primitive to its group,
/// all else to the layer.
pub open spec fn wanted_clip(step: RenderStep) -> RenderStep {
    match step {
        RenderStep::Primitive(g, _) => RenderStep::ClipToGroup(g),
        _ => RenderStep::ClipToLayer,
    }
}

/// Whether every step that draws something is clipped to what it has to be.
pub open spec fn well_clipped(clip: RenderStep, steps: Seq<RenderStep>) -> bool {
    forall|i: int|
        0 <= i < steps.len() && !(steps[i] is ClipToLayer) && !(steps[i] is ClipToGroup)
            ==> clip_at(clip, steps, i) == wanted_clip(#[trigger] steps[i])
}

proof fn lemma_clip_in_both(clip: RenderStep, a: Seq<RenderStep>, b: Seq<RenderStep>, i: int)
    requires
        0 <= i <= a.len() + b.len(),
    ensures
        i <= a.len() ==> clip_at(clip, a + b, i) == clip_at(clip, a, i),
        i >= a.len() ==> clip_at(clip, a + b, i) == clip_at(
            clip_at(clip, a, a.len() as int),
            b,
            i - a.len(),
        ),
    decreases i,
{
    if i > 0 {
        lemma_clip_in_both(clip, a, b, i - 1);
        if i <= a.len() {
            assert((a + b)[i - 1] == a[i - 1]);
        } else {
            assert((a + b)[i - 1] == b[i - 1 - a.len()]);
        }
    }
}

/// Two runs of steps, the second of which belongs behind the first.
proof fn lemma_behind(clip: RenderStep, a: Seq<RenderStep>, b: Seq<RenderStep>)
    requires
        in_order(a),
        in_order(b),
        forall|i: int, j: int|
            0 <= i < a.len() && 0 <= j < b.len() && !(a[i] is ClipToLayer) && !(
            b[j] is ClipToLayer) ==> precedes(place(#[trigger] a[i]), place(#[trigger] b[j])),
        well_clipped(clip, a),
        well_clipped(clip_at(clip, a, a.len() as int), b),
    ensures
        in_order(a + b),
        well_clipped(clip, a + b),
        clip_at(clip, a + b, (a + b).len() as int) == clip_at(
            clip_at(clip, a, a.len() as int),
            b,
            b.len() as int,
        ),
{
    let s = a + b;
    assert forall|i: int, j: int|
        0 <= i < j < s.len() && !(s[i] is ClipToLayer) && !(s[j] is ClipToLayer) implies precedes(
        place(#[trigger] s[i]),
        place(#[trigger] s[j]),
    ) by {
        if j < a.len() {
            assert(s[i] == a[i] && s[j] == a[j]);
        } else if i >= a.len() {
            assert(s[i] == b[i - a.len()] && s[j] == b[j - a.len()]);
        } else {
            assert(s[i] == a[i] && s[j] == b[j - a.len()]);
        }
    }
    assert forall|i: int|
        0 <= i < s.len() && !(s[i] is ClipToLayer) && !(s[i] is ClipToGroup) implies clip_at(
        clip,
        s,
        i,
    ) == wanted_clip(#[trigger] s[i]) by {
        lemma_clip_in_both(clip, a, b, i);
        if i < a.len() {
            assert(s[i] == a[i]);
        } else {
            assert(s[i] == b[i - a.len()]);
        }
    }
    lemma_clip_in_both(clip, a, b, s.len() as int);
}

/// Steps that do not clip leave the clip as it is.
proof fn lemma_no_clip(clip: RenderStep, steps: Seq<RenderStep>, i: int)
    requires
        0 <= i <= steps.len(),
        forall|k: int|
            0 <= k < steps.len() ==> !((#[trigger] steps[k]) is ClipToLayer) && !(
            steps[k] is ClipToGroup),
    ensures
        clip_at(clip, steps, i) == clip,
    decreases i,
{
    if i > 0 {
        lemma_no_clip(clip, steps, i - 1);
        assert(!(steps[i - 1] is ClipToLayer));
    }
}

proof fn lemma_drawn_in(clip: RenderStep, steps: Seq<RenderStep>)
    requires
        forall|k: int|
            0 <= k < steps.len() ==> !((#[trigger] steps[k]) is ClipToLayer) && !(
            steps[k] is ClipToGroup) && wanted_clip(steps[k]) == clip,
    ensures
        well_clipped(clip, steps),
        clip_at(clip, steps, steps.len() as int) == clip,
{
    assert forall|i: int| 0 <= i < steps.len() implies clip_at(clip, steps, i) == wanted_clip(
        #[trigger] steps[i],
    ) by {
        lemma_no_clip(clip, steps, i);
    }
    lemma_no_clip(clip, steps, steps.len() as int);
}

/// The steps of one visible group.
proof fn lemma_group(g: usize, primitives: usize)
    ensures
        ({
            let inner = Seq::new(primitives as nat, |j: int| RenderStep::Primitive(g, j as usize));
            let steps = seq![RenderStep::ClipToGroup(g)] + inner + seq![RenderStep::ClipToLayer];
            &&& in_order(steps)
            &&& well_clipped(RenderStep::ClipToLayer, steps)
            &&& clip_at(RenderStep::ClipToLayer, steps, steps.len() as int)
                == RenderStep::ClipToLayer
            &&& steps.contains(RenderStep::ClipToGroup(g))
            &&& forall|i: usize|
                i < primitives ==> #[trigger] steps.contains(RenderStep::Primitive(g, i))
            &&& forall|k: int|
                0 <= k < steps.len() ==> match #[trigger] steps[k] {
                    RenderStep::ClipToLayer => true,
                    RenderStep::ClipToGroup(h) => h == g,
                    RenderStep::Primitive(h, i) => h == g && i < primitives,
                    _ => false,
                }
        }),
{
    let inner = Seq::new(primitives as nat, |j: int| RenderStep::Primitive(g, j as usize));
    let clip = seq![RenderStep::ClipToGroup(g)];
    let back = seq![RenderStep::ClipToLayer];
    let steps = clip + inner + back;
    assert forall|k: int| 0 <= k < inner.len() implies #[trigger] inner[k]
        == RenderStep::Primitive(g, k as usize) && (k as usize) as int == k by {}
    lemma_drawn_in(RenderStep::ClipToGroup(g), inner);
    reveal_with_fuel(clip_at, 2);
    assert(clip_at(RenderStep::ClipToLayer, clip, 1) == RenderStep::ClipToGroup(g));
    lemma_behind(RenderStep::ClipToLayer, clip, inner);
    assert(clip_at(RenderStep::ClipToGroup(g), back, 1) == RenderStep::ClipToLayer);
    lemma_behind(RenderStep::ClipToLayer, clip + inner, back);
    assert(steps[0] == RenderStep::ClipToGroup(g));
    assert forall|i: usize| i < primitives implies #[trigger] steps.contains(
        RenderStep::Primitive(g, i),
    ) by {
        assert(steps[1 + i as int] == inner[i as int]);
    }
}

proof fn lemma_groups(groups: Seq<GroupSummary>, n: int)
    requires
        0 <= n <= groups.len() <= usize::MAX,
    ensures
        in_order(group_steps(groups, n)),
        well_clipped(RenderStep::ClipToLayer, group_steps(groups, n)),
        clip_at(
            RenderStep::ClipToLayer,
            group_steps(groups, n),
            group_steps(groups, n).len() as int,
        ) == RenderStep::ClipToLayer,
        forall|g: usize|
            g < n && groups[g as int].visible ==> #[trigger] group_steps(groups, n).contains(
                RenderStep::ClipToGroup(g),
            ),
        forall|g: usize, i: usize|
            g < n && groups[g as int].visible && i < groups[g as int].primitives
                ==> #[trigger] group_steps(groups, n).contains(RenderStep::Primitive(g, i)),
        forall|k: int|
            0 <= k < group_steps(groups, n).len() ==> match #[trigger] group_steps(groups, n)[k] {
                RenderStep::ClipToLayer => true,
                RenderStep::ClipToGroup(g) => g < n && groups[g as int].visible,
                RenderStep::Primitive(g, i) => g < n && groups[g as int].visible && i
                    < groups[g as int].primitives,
                _ => false,
            },
    decreases n,
{
    if n > 0 {
        lemma_groups(groups, n - 1);
        let before = group_steps(groups, n - 1);
        let last = (n - 1) as usize;
        if groups[n - 1].visible {
            let count = groups[n - 1].primitives;
            let inner = Seq::new(
                count as nat,
                |j: int| RenderStep::Primitive((n - 1) as usize, j as usize),
            );
            let one = seq![RenderStep::ClipToGroup(last)] + inner + seq![RenderStep::ClipToLayer];
            assert(inner =~= Seq::new(
                count as nat,
                |j: int| RenderStep::Primitive(last, j as usize),
            ));
            lemma_group(last, count);
            lemma_behind(RenderStep::ClipToLayer, before, one);
            let all = group_steps(groups, n);
            assert(all == before + one);
            assert forall|g: usize| g < n && groups[g as int].visible implies #[trigger] (
            all.contains(RenderStep::ClipToGroup(g))) by {
                lemma_in_both(before, one, RenderStep::ClipToGroup(g));
                assert(g < n - 1 ==> before.contains(RenderStep::ClipToGroup(g)));
            }
            assert forall|g: usize, i: usize|
                g < n && groups[g as int].visible && i < groups[g as int].primitives
                    implies #[trigger] all.contains(RenderStep::Primitive(g, i)) by {
                lemma_in_both(before, one, RenderStep::Primitive(g, i));
                assert(g < n - 1 ==> before.contains(RenderStep::Primitive(g, i)));
            }
        } else {
            assert(group_steps(groups, n) =~= before);
        }
    }
}

proof fn lemma_texts(groups: Seq<usize>, n: int)
    requires
        0 <= n <= groups.len() <= usize::MAX,
    ensures
        in_order(text_steps(groups, n)),
        forall|g: usize, i: usize|
            g < n && i < groups[g as int] ==> #[trigger] text_steps(groups, n).contains(
                RenderStep::Text(g, i),
            ),
        forall|k: int|
            0 <= k < text_steps(groups, n).len() ==> match #[trigger] text_steps(groups, n)[k] {
                RenderStep::Text(g, i) => g < n && i < groups[g as int],
                _ => false,
            },
    decreases n,
{
    if n > 0 {
        lemma_texts(groups, n - 1);
        let before = text_steps(groups, n - 1);
        let count = groups[n - 1];
        let one = Seq::new(count as nat, |j: int| RenderStep::Text((n - 1) as usize, j as usize));
        let all = text_steps(groups, n);
        assert(all == before + one);
        assert forall|k: int| 0 <= k < one.len() implies #[trigger] one[k] == RenderStep::Text(
            (n - 1) as usize,
            k as usize,
        ) && (k as usize) as int == k by {}
        assert forall|i: int, j: int| 0 <= i < j < all.len() implies precedes(
            place(#[trigger] all[i]),
            place(#[trigger] all[j]),
        ) by {
            if j < before.len() {
                assert(all[i] == before[i] && all[j] == before[j]);
            } else if i >= before.len() {
                assert(all[i] == one[i - before.len()] && all[j] == one[j - before.len()]);
            } else {
                assert(all[i] == before[i] && all[j] == one[j - before.len()]);
            }
        }
        assert forall|g: usize, i: usize| g < n && i < groups[g as int] implies #[trigger] (
        all.contains(RenderStep::Text(g, i))) by {
            lemma_in_both(before, one, RenderStep::Text(g, i));
            if g == n - 1 {
                assert(one[i as int] == RenderStep::Text(g, i));
            } else {
                assert(before.contains(RenderStep::Text(g, i)));
            }
        }
    }
}

proof fn lemma_caches(entries: Map<u64, Entry>, ids: Seq<u64>, n: int)
    requires
        0 <= n <= ids.len() <= usize::MAX,
        forall|id: u64| #[trigger] entries.contains_key(id) ==> entries[id].wf(),
    ensures
        in_order(cached_steps(entries, ids, n)),
        forall|k: int|
            0 <= k < cached_steps(entries, ids, n).len() ==> match #[trigger] cached_steps(
                entries,
                ids,
                n,
            )[k] {
                RenderStep::CachedTexture { index, source } => index < n && entries.contains_key(
                    ids[index as int],
                ) && (source.width, source.height) == pixmap::pixmap_dimensions(
                    entries[ids[index as int]].pixmap,
                ),
                _ => false,
            },
        forall|index: int|
            0 <= index < n && entries.contains_key(#[trigger] ids[index]) ==> exists|k: int|
                0 <= k < cached_steps(entries, ids, n).len() && match #[trigger] cached_steps(
                    entries,
                    ids,
                    n,
                )[k] {
                    RenderStep::CachedTexture { index: at, .. } => at == index,
                    _ => false,
                },
    decreases n,
{
    if n > 0 {
        lemma_caches(entries, ids, n - 1);
        let before = cached_steps(entries, ids, n - 1);
        let all = cached_steps(entries, ids, n);
        if entries.contains_key(ids[n - 1]) {
            assert(entries[ids[n - 1]].wf());
            assert(all[before.len() as int] == all.last());
        }
        assert forall|index: int|
            0 <= index < n && entries.contains_key(#[trigger] ids[index]) implies exists|k: int|
            0 <= k < all.len() && match #[trigger] all[k] {
                RenderStep::CachedTexture { index: at, .. } => at == index,
                _ => false,
            } by {
            if index < n - 1 {
                let k = choose|k: int|
                    0 <= k < before.len() && match #[trigger] before[k] {
                        RenderStep::CachedTexture { index: at, .. } => at == index,
                        _ => false,
                    };
                assert(all[k] == before[k]);
            } else {
                assert(all[before.len() as int] == all.last());
            }
        }
    }
}

/// Whether a layer has what the given step draws, and it can be seen. A cached pixmap
/// is drawn from the pixmap of its cache.
pub open spec fn is_in_layer(
    entries: Map<u64, Entry>,
    layer: LayerSummary,
    step: RenderStep,
) -> bool {
    match step {
        RenderStep::ClipToLayer => true,
        RenderStep::Quad(i) => i < layer.quads,
        RenderStep::ClipToGroup(g) => g < layer.primitives@.len()
            && layer.primitives@[g as int].visible,
        RenderStep::Primitive(g, i) => g < layer.primitives@.len()
            && layer.primitives@[g as int].visible && i < layer.primitives@[g as int].primitives,
        RenderStep::Image(i) => i < layer.images,
        RenderStep::Text(g, i) => g < layer.text@.len() && i < layer.text@[g as int],
        RenderStep::CachedTexture { index, source } => index < layer.cached_textures@.len()
            && entries.contains_key(layer.cached_textures@[index as int]) && (
        source.width,
        source.height,
    ) == pixmap::pixmap_dimensions(entries[layer.cached_textures@[index as int]].pixmap),
    }
}

/// A layer that cannot be seen takes no step. Of one that can be seen everything is
/// drawn that is in it, and nothing else: each quad, each primitive of a group that
/// can be seen, each image, each text, and each cache that has a pixmap, whatever else
/// is in the layer. Each is drawn once, in the order of the kinds and then of the
/// positions, and under the clip that it has to be under.
pub proof fn law_a_layer_is_drawn_in_full_once_and_in_order(
    entries: Map<u64, Entry>,
    layer: LayerSummary,
    step: RenderStep,
    clip: RenderStep,
)
    requires
        forall|id: u64| #[trigger] entries.contains_key(id) ==> entries[id].wf(),
    ensures
        !layer.visible ==> layer_steps(entries, layer).len() == 0,
        layer.visible ==> (layer_steps(entries, layer).contains(step) <==> is_in_layer(
            entries,
            layer,
            step,
        )),
        layer.visible ==> layer_steps(entries, layer).first() == RenderStep::ClipToLayer,
        in_order(layer_steps(entries, layer)),
        well_clipped(clip, layer_steps(entries, layer)),
{
    if layer.visible {
        let groups = layer.primitives@;
        let texts = layer.text@;
        let ids = layer.cached_textures@;
        assert(layer.primitives.len() == groups.len());
        assert(layer.text.len() == texts.len());
        assert(layer.cached_textures.len() == ids.len());
        let top = RenderStep::ClipToLayer;
        let a = seq![top];
        let b = Seq::new(layer.quads as nat, |j: int| RenderStep::Quad(j as usize));
        let c = group_steps(groups, groups.len() as int);
        let d = Seq::new(layer.images as nat, |j: int| RenderStep::Image(j as usize));
        let e = text_steps(texts, texts.len() as int);
        let f = cached_steps(entries, ids, ids.len() as int);
        let all = layer_steps(entries, layer);
        assert(all == a + b + c + d + e + f);
        assert forall|k: int| 0 <= k < b.len() implies #[trigger] b[k] == RenderStep::Quad(
            k as usize,
        ) && (k as usize) as int == k by {}
        assert forall|k: int| 0 <= k < d.len() implies #[trigger] d[k] == RenderStep::Image(
            k as usize,
        ) && (k as usize) as int == k by {}
        lemma_groups(groups, groups.len() as int);
        lemma_texts(texts, texts.len() as int);
        lemma_caches(entries, ids, ids.len() as int);
        reveal_with_fuel(clip_at, 2);
        assert(clip_at(clip, a, 1) == top);
        lemma_drawn_in(top, b);
        lemma_drawn_in(top, d);
        lemma_drawn_in(top, e);
        lemma_drawn_in(top, f);
        lemma_behind(clip, a, b);
        lemma_behind(clip, a + b, c);
        lemma_behind(clip, a + b + c, d);
        lemma_behind(clip, a + b + c + d, e);
        lemma_behind(clip, a + b + c + d + e, f);
        assert(all[0] == top);

        lemma_in_both(a + b + c + d + e, f, step);
        lemma_in_both(a + b + c + d, e, step);
        lemma_in_both(a + b + c, d, step);
        lemma_in_both(a + b, c, step);
        lemma_in_both(a, b, step);
        if all.contains(step) {
            if a.contains(step) {
                assert(step == top);
            } else if b.contains(step) {
                let k = choose|k: int| 0 <= k < b.len() && b[k] == step;
            } else if c.contains(step) {
                let k = choose|k: int| 0 <= k < c.len() && c[k] == step;
            } else if d.contains(step) {
                let k = choose|k: int| 0 <= k < d.len() && d[k] == step;
            } else if e.contains(step) {
                let k = choose|k: int| 0 <= k < e.len() && e[k] == step;
            } else {
                let k = choose|k: int| 0 <= k < f.len() && f[k] == step;
            }
        }
        if is_in_layer(entries, layer, step) {
            match step {
                RenderStep::ClipToLayer => {
                    assert(a[0] == step);
                },
                RenderStep::Quad(i) => {
                    assert(b[i as int] == step);
                },
                RenderStep::ClipToGroup(g) => {
                    assert(c.contains(RenderStep::ClipToGroup(g)));
                },
                RenderStep::Primitive(g, i) => {
                    assert(c.contains(RenderStep::Primitive(g, i)));
                },
                RenderStep::Image(i) => {
                    assert(d[i as int] == step);
                },
                RenderStep::Text(g, i) => {
                    assert(e.contains(RenderStep::Text(g, i)));
                },
                RenderStep::CachedTexture { index, source } => {
                    let at = index as int;
                    assert(entries.contains_key(ids[at]));
                    let k = choose|k: int|
                        0 <= k < f.len() && match #[trigger] f[k] {
                            RenderStep::CachedTexture { index: found, .. } => found == at,
                            _ => false,
                        };
                    assert(f[k] == step);
                },
            }
        }
    }
}

proof fn lemma_summed_up<P>(
    commands: Seq<Command<P>>,
    kinds: Seq<Kind>,
    items: Seq<Item>,
    n: int,
)
    requires
        0 <= n <= items.len(),
    ensures
        quads_in(commands, items, n) == items.take(n).filter(
            |item: Item| commands[item.command as int] is FillQuad,
        ).len(),
        groups_in(commands, kinds, items, n) == items.take(n).filter(
            |item: Item|
                commands[item.command as int] is Draw && kinds[item.command as int] is Group,
        ).map_values(|item: Item| kinds[item.command as int]->Group_0),
        images_in(commands, kinds, items, n) == items.take(n).filter(
            |item: Item|
                commands[item.command as int] is Draw && kinds[item.command as int] is Image,
        ).len(),
        texts_in(commands, kinds, items, n) == items.take(n).filter(
            |item: Item|
                commands[item.command as int] is FillLayerLabel || (
                commands[item.command as int] is Draw && kinds[item.command as int] is Text),
        ).map_values(
            |item: Item|
                if commands[item.command as int] is FillLayerLabel {
                    1usize
                } else {
                    kinds[item.command as int]->Text_0
                },
        ),
        caches_in(commands, items, n) == items.take(n).filter(
            |item: Item| commands[item.command as int] is DrawCachedTexture,
        ).map_values(|item: Item| commands[item.command as int]->DrawCachedTexture_0),
    decreases n,
{
    let quad = |item: Item| commands[item.command as int] is FillQuad;
    let group = |item: Item|
        commands[item.command as int] is Draw && kinds[item.command as int] is Group;
    let image = |item: Item|
        commands[item.command as int] is Draw && kinds[item.command as int] is Image;
    let text = |item: Item|
        commands[item.command as int] is FillLayerLabel || (commands[item.command as int] is Draw
            && kinds[item.command as int] is Text);
    let cache = |item: Item| commands[item.command as int] is DrawCachedTexture;
    let of_group = |item: Item| kinds[item.command as int]->Group_0;
    let of_text = |item: Item|
        if commands[item.command as int] is FillLayerLabel {
            1usize
        } else {
            kinds[item.command as int]->Text_0
        };
    let of_cache = |item: Item| commands[item.command as int]->DrawCachedTexture_0;
    if n == 0 {
        lemma_filter_none(items, quad);
        lemma_filter_none(items, group);
        lemma_filter_none(items, image);
        lemma_filter_none(items, text);
        lemma_filter_none(items, cache);
    } else {
        lemma_summed_up(commands, kinds, items, n - 1);
        lemma_filter_one_more(items, n, quad);
        lemma_filter_one_more(items, n, group);
        lemma_filter_one_more(items, n, image);
        lemma_filter_one_more(items, n, text);
        lemma_filter_one_more(items, n, cache);
    }
    assert(groups_in(commands, kinds, items, n) =~= items.take(n).filter(group).map_values(
        of_group,
    ));
    assert(texts_in(commands, kinds, items, n) =~= items.take(n).filter(text).map_values(of_text));
    assert(caches_in(commands, items, n) =~= items.take(n).filter(cache).map_values(of_cache));
}

/// What is summed up of a batch are just its operations, each by its own kind and in
/// the order they were recorded. The name of a layer is a group of one text.
pub proof fn law_a_summary_is_made_of_the_operations<P>(
    commands: Seq<Command<P>>,
    kinds: Seq<Kind>,
    items: Seq<Item>,
    visible: bool,
    summary: LayerSummary,
)
    requires
        summarizes(commands, kinds, items, visible, summary),
    ensures
        summary.visible == visible,
        summary.quads == items.filter(
            |item: Item| commands[item.command as int] is FillQuad,
        ).len(),
        summary.primitives@ == items.filter(
            |item: Item|
                commands[item.command as int] is Draw && kinds[item.command as int] is Group,
        ).map_values(|item: Item| kinds[item.command as int]->Group_0),
        summary.images == items.filter(
            |item: Item|
                commands[item.command as int] is Draw && kinds[item.command as int] is Image,
        ).len(),
        summary.text@ == items.filter(
            |item: Item|
                commands[item.command as int] is FillLayerLabel || (
                commands[item.command as int] is Draw && kinds[item.command as int] is Text),
        ).map_values(
            |item: Item|
                if commands[item.command as int] is FillLayerLabel {
                    1usize
                } else {
                    kinds[item.command as int]->Text_0
                },
        ),
        summary.cached_textures@ == items.filter(
            |item: Item| commands[item.command as int] is DrawCachedTexture,
        ).map_values(|item: Item| commands[item.command as int]->DrawCachedTexture_0),
{
    lemma_summed_up(commands, kinds, items, items.len() as int);
    assert(items.take(items.len() as int) =~= items);
}

/// A cache is fresh exactly if it has not been invalidated and has an entry for
/// contents of the same width and the same height, in logical and in physical pixels,
/// at the same scale factor.
pub proof fn law_a_cache_is_fresh_for_its_own_target_alone(
    entries: Map<u64, Entry>,
    id: u64,
    invalidated: bool,
    target: RecordTarget,
)
    ensures
        !is_stale(entries, id, invalidated, target) <==> {
            &&& !invalidated
            &&& entries.contains_key(id)
            &&& entries[id].size.width == target.size.width
            &&& entries[id].size.height == target.size.height
            &&& entries[id].physical_size.width == target.physical_size.width
            &&& entries[id].physical_size.height == target.physical_size.height
            &&& !target.scale_changed
        },
{
}

/// A recording begins with nothing recorded, in bounds of the size of its target, and
/// remembers the target that it interrupts. If it is kept, the cache has an entry for
/// the target: with the pixmap it had if that has the physical size, else with a
/// transparent one that has, and with the mark it had. All other entries, and all
/// recordings that wait, are left alone.
pub proof fn law_a_recording_begins_from_scratch<P>(
    before: Renderer<P>,
    after: Renderer<P>,
    id: u64,
    keep: bool,
    target: RecordTarget,
    other: u64,
)
    requires
        started(before, after, id, true, keep, target),
        before.wf(),
    ensures
        after.layers.commands@.len() == 0,
        after.layers.bounds.x.bits == 0 && after.layers.bounds.y.bits == 0,
        after.layers.bounds.width == target.extent.width,
        after.layers.bounds.height == target.extent.height,
        after.texture_cache.recording_stack@.len() == before.texture_cache.recording_stack@.len()
            + 1,
        after.texture_cache.recording_stack@.last() == (id, before.layers, keep),
        after.texture_cache.recording_stack@.drop_last() == before.texture_cache.recording_stack@,
        after.texture_cache.pending@ == before.texture_cache.pending@,
        other != id || !keep ==> after.texture_cache.entries@.contains_key(other)
            == before.texture_cache.entries@.contains_key(other)
            && after.texture_cache.entries@[other] == before.texture_cache.entries@[other],
        keep ==> after.texture_cache.entries@.contains_key(id),
        keep ==> {
            let entry = after.texture_cache.entries@[id];
            let had = before.texture_cache.entries@.contains_key(id);
            let held = before.texture_cache.entries@[id];
            let (width, height) = pixmap::pixmap_dimensions(entry.pixmap);
            &&& entry.size == target.size
            &&& entry.physical_size == target.physical_size
            &&& entry.scale_factor == target.scale_factor
            &&& entry.recorded == (had && held.recorded)
            &&& width == target.physical_size.width || (width == 1 && target.physical_size.width
                == 0)
            &&& height == target.physical_size.height || (height == 1
                && target.physical_size.height == 0)
            &&& if had && held.physical_size.width == target.physical_size.width
                && held.physical_size.height == target.physical_size.height {
                entry.pixmap == held.pixmap
            } else {
                &&& pixmap::pixmap_bytes(entry.pixmap).len() == width * height * 4
                &&& forall|i: int|
                    0 <= i < width * height * 4 ==> #[trigger] pixmap::pixmap_bytes(
                        entry.pixmap,
                    )[i] == 0
            }
        },
{
    assert(after.texture_cache.recording_stack@.drop_last()
        =~= before.texture_cache.recording_stack@);
    if keep {
        assert(after.texture_cache.entries@.contains_key(id));
    }
}

/// The end of a kept recording marks its cache as recorded, and changes nothing else
/// about any entry. What is recorded can be drawn, and nothing else can.
pub proof fn law_the_end_of_a_recording_marks_its_cache<P>(
    before: Renderer<P>,
    after: Renderer<P>,
    other: u64,
)
    requires
        ended(before, after),
        before.texture_cache.recording_stack@.len() > 0,
    ensures
        ({
            let (id, saved, keep) = before.texture_cache.recording_stack@.last();
            let was = before.texture_cache.entries@;
            let is = after.texture_cache.entries@;
            &&& after.layers == saved
            &&& is.contains_key(other) == was.contains_key(other)
            &&& other != id || !keep ==> is[other] == was[other]
            &&& keep && was.contains_key(id) ==> {
                &&& is[id].recorded
                &&& is[id].pixmap == was[id].pixmap
                &&& is[id].size == was[id].size
                &&& is[id].physical_size == was[id].physical_size
                &&& is[id].scale_factor == was[id].scale_factor
            }
            &&& keep ==> after.texture_cache.pending@.last() == (id, before.layers)
        }),
        recorded_ids(after.texture_cache.entries@).contains(other) <==> (
        after.texture_cache.entries@.contains_key(other)
            && after.texture_cache.entries@[other].recorded),
{
}

/// What is rasterized next is the recording that was finished first, of those whose
/// cache has an entry, into the transparent pixmap of that entry and under a mask of
/// the same size that lets nothing through yet. What comes after it still waits, in
/// the same order, and no other entry is touched.
pub proof fn law_the_next_flush_is_the_first_that_can_be_done<P>(
    before: Renderer<P>,
    after: Renderer<P>,
    k: int,
    flush: Flush<P>,
    other: u64,
)
    requires
        before.wf(),
        first_backed(before.texture_cache.pending@, before.texture_cache.entries@.dom(), k),
        began(before, after, k, flush),
    ensures
        ({
            let pending = before.texture_cache.pending@;
            let entry = before.texture_cache.entries@[flush.id];
            let (width, height) = pixmap::pixmap_dimensions(entry.pixmap);
            &&& 0 <= k < pending.len()
            &&& before.texture_cache.entries@.contains_key(flush.id)
            &&& (flush.id, flush.layers) == pending[k]
            &&& forall|j: int|
                0 <= j < k ==> !before.texture_cache.entries@.contains_key(
                    (#[trigger] pending[j]).0,
                )
            &&& after.texture_cache.pending@.len() == pending.len() - k - 1
            &&& forall|j: int|
                0 <= j < after.texture_cache.pending@.len() ==> #[trigger]
                after.texture_cache.pending@[j] == pending[k + 1 + j]
            &&& !after.texture_cache.entries@.contains_key(flush.id)
            &&& other != flush.id ==> after.texture_cache.entries@.contains_key(other)
                == before.texture_cache.entries@.contains_key(other)
                && after.texture_cache.entries@[other] == before.texture_cache.entries@[other]
            &&& flush.entry.size == entry.size
            &&& flush.entry.physical_size == entry.physical_size
            &&& flush.entry.scale_factor == entry.scale_factor
            &&& flush.entry.recorded == entry.recorded
            &&& pixmap::pixmap_dimensions(flush.entry.pixmap) == (width, height)
            &&& pixmap::pixmap_bytes(flush.entry.pixmap).len() == width * height * 4
            &&& forall|i: int|
                0 <= i < width * height * 4 ==> #[trigger] pixmap::pixmap_bytes(
                    flush.entry.pixmap,
                )[i] == 0
            &&& pixmap::mask_dimensions(flush.clip_mask) == (width, height)
            &&& pixmap::mask_bytes(flush.clip_mask).len() == width * height
            &&& forall|i: int|
                0 <= i < width * height ==> #[trigger] pixmap::mask_bytes(flush.clip_mask)[i] == 0
        }),
        after.layers == before.layers,
        after.texture_cache.recording_stack@ == before.texture_cache.recording_stack@,
{
    let pending = before.texture_cache.pending@;
    assert(before.texture_cache.entries@.dom().contains(pending[k].0));
    assert forall|j: int| 0 <= j < k implies !before.texture_cache.entries@.contains_key(
        (#[trigger] pending[j]).0,
    ) by {
        assert(!before.texture_cache.entries@.dom().contains(pending[j].0));
    }
    let entry = before.texture_cache.entries@[flush.id];
    assert(before.texture_cache.entries@.contains_key(flush.id));
    assert(entry.wf());
    let (width, height) = pixmap::pixmap_dimensions(entry.pixmap);
    assert(0 <= width * height * 4 && 0 <= width * height) by (nonlinear_arith);
}

/// What a renderer has been asked to draw is what it has recorded: for the current
/// target, for those that are suspended, and for caches, each with its bounds and in
/// order. The caches that can be drawn are those that have been recorded.
pub proof fn law_drawings_are_what_is_recorded<P>(renderer: Renderer<P>, i: int, id: u64)
    ensures
        renderer.drawing().commands == renderer.layers.commands@,
        renderer.drawing().bounds == renderer.layers.bounds,
        renderer.drawing().suspended.len() == renderer.texture_cache.recording_stack@.len(),
        0 <= i < renderer.drawing().suspended.len() ==> {
            let (cache, target, keep) = renderer.texture_cache.recording_stack@[i];
            &&& renderer.drawing().suspended[i].id == cache
            &&& renderer.drawing().suspended[i].keep == keep
            &&& renderer.drawing().suspended[i].recorded.commands == target.commands@
            &&& renderer.drawing().suspended[i].recorded.bounds == target.bounds
        },
        renderer.drawing().waiting.len() == renderer.texture_cache.pending@.len(),
        0 <= i < renderer.drawing().waiting.len() ==> {
            let (cache, waiting) = renderer.texture_cache.pending@[i];
            &&& renderer.drawing().waiting[i].0 == cache
            &&& renderer.drawing().waiting[i].1.commands == waiting.commands@
            &&& renderer.drawing().waiting[i].1.bounds == waiting.bounds
        },
        renderer.drawing().stored.contains(id) <==> renderer.texture_cache.entries@.contains_key(
            id,
        ),
        renderer.drawing().backed.contains(id) <==> (
        renderer.texture_cache.entries@.contains_key(id)
            && renderer.texture_cache.entries@[id].recorded),
        renderer.hinted() == renderer.scale_factor,
{
}

/// Geometry is drawn as a whole: its primitives, then its images in order, then its
/// text.
pub proof fn law_geometry_is_drawn_as_a_whole<P>(geometry: Geometry<P>, i: int)
    ensures
        geometry.commands().len() == geometry.images@.len() + 2,
        geometry.commands()[0] == Command::Draw(geometry.primitives),
        0 <= i < geometry.images@.len() ==> geometry.commands()[1 + i] == Command::Draw(
            geometry.images@[i],
        ),
        geometry.commands().last() == Command::Draw(geometry.text),
{
}

/// What drawing leaves alone is everything but the recording of the current target, and
/// scratch memory.
pub proof fn law_everything_else_is_left_alone<P>(before: Renderer<P>, after: Renderer<P>)
    requires
        before.kept() == after.kept(),
    ensures
        after.settings == before.settings,
        after.scale_factor == before.scale_factor,
        after.texture_cache.entries@ == before.texture_cache.entries@,
        after.texture_cache.pending@ == before.texture_cache.pending@,
        after.texture_cache.recording_stack@ == before.texture_cache.recording_stack@,
{
}

/// Asking for a recording that does not begin, or ending one where none is, does
/// nothing. Neither the start nor the end of a recording, nor that of a flush, changes
/// the settings or the hint.
pub proof fn law_recordings_leave_the_rest_alone<P>(
    before: Renderer<P>,
    begun: Renderer<P>,
    after: Renderer<P>,
    flushed: Renderer<P>,
    id: u64,
    began_recording: bool,
    keep: bool,
    target: RecordTarget,
    k: int,
    flush: Flush<P>,
)
    requires
        started(before, begun, id, began_recording, keep, target),
        ended(begun, after),
        began(after, flushed, k, flush),
    ensures
        !began_recording ==> begun == before,
        begun.texture_cache.recording_stack@.len() == 0 ==> after == begun,
        begun.settings == before.settings && after.settings == before.settings,
        begun.scale_factor == before.scale_factor && after.scale_factor == before.scale_factor,
        flushed.settings == before.settings,
        flushed.scale_factor == before.scale_factor,
        flushed.layers == after.layers,
{
}

/// Every target can be recorded for whose pixels can be allocated. An empty one takes
/// up a pixel.
pub proof fn law_targets_that_can_be_allocated_can_be_recorded<P>(
    renderer: Renderer<P>,
    target: RecordTarget,
)
    requires
        renderer.wf(),
    ensures
        ({
            let width = if target.physical_size.width == 0 {
                1
            } else {
                target.physical_size.width as int
            };
            let height = if target.physical_size.height == 0 {
                1
            } else {
                target.physical_size.height as int
            };
            renderer.can_record(target) <==> (width * 4 <= i32::MAX && width * height * 4
                <= isize::MAX)
        }),
{
}

} // verus!
