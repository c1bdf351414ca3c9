//! In which order layers are composited.
use std::sync::Arc;
use vstd::prelude::*;

use crate::child_index::lemma_children_below;
use crate::compose::laws::{
    lemma_child, lemma_depth_of, lemma_root_has_no_parent, lemma_too_deep, lemma_visited_all_below,
    lemma_visited_below, lemma_visited_roots, Scope,
};
use crate::compose::{Scene, MAX_LAYER_DEPTH};
use crate::layer::{distinct_ids, has_id, LayerSlot, SlotState};

verus! {

/// Whether the two slots are in the same layer, or both in none that is registered.
pub open spec fn siblings(scene: Scene, p: int, q: int) -> bool {
    &&& 0 <= p < scene.slots.len()
    &&& 0 <= q < scene.slots.len()
    &&& scene.is_root(p) == scene.is_root(q)
    &&& !scene.is_root(p) ==> scene.data(p).parent_id == scene.data(q).parent_id
}

/// Whether slot `a` is an ancestor of slot `b`.
pub open spec fn is_ancestor(scene: Scene, a: int, b: int) -> bool {
    exists|k: int| 0 < k <= scene.depth_of(b) && #[trigger] scene.up(b, k) == a
}

/// Whether slot `a` is, or lies below, a sibling that was registered before the one
/// that slot `b` is or lies below.
pub open spec fn is_in_earlier_sibling(scene: Scene, a: int, b: int) -> bool {
    exists|k: int, l: int|
        0 <= k <= scene.depth_of(a) && 0 <= l <= scene.depth_of(b) && siblings(
            scene,
            #[trigger] scene.up(a, k),
            #[trigger] scene.up(b, l),
        ) && scene.up(a, k) < scene.up(b, l)
}

/// Whether the slots are in painting order: what is in front comes later.
pub open spec fn in_painting_order(scene: Scene, list: Seq<int>) -> bool {
    forall|m: int, n: int|
        0 <= m < n < list.len() ==> is_ancestor(scene, #[trigger] list[m], #[trigger] list[n])
            || is_in_earlier_sibling(scene, list[m], list[n])
}

proof fn lemma_both(scene: Scene, a: Seq<int>, b: Seq<int>)
    requires
        in_painting_order(scene, a),
        in_painting_order(scene, b),
        forall|x: int, y: int|
            #![trigger a.contains(x), b.contains(y)]
            a.contains(x) && b.contains(y) ==> is_ancestor(scene, x, y) || is_in_earlier_sibling(
                scene,
                x,
                y,
            ),
    ensures
        in_painting_order(scene, a + b),
{
    let s = a + b;
    assert forall|m: int, n: int| 0 <= m < n < s.len() implies is_ancestor(
        scene,
        #[trigger] s[m],
        #[trigger] s[n],
    ) || is_in_earlier_sibling(scene, s[m], s[n]) by {
        if n < a.len() {
            assert(s[m] == a[m] && s[n] == a[n]);
        } else if m >= a.len() {
            assert(s[m] == b[m - a.len()] && s[n] == b[n - a.len()]);
        } else {
            assert(s[m] == a[m] && s[n] == b[n - a.len()]);
            assert(a.contains(a[m]));
            assert(b.contains(b[n - a.len()]));
        }
    }
}

/// What lies below one sibling comes before what lies below a later one.
proof fn lemma_below_siblings(scene: Scene, p: int, q: int, depth: int, a: int, b: int)
    requires
        distinct_ids(scene.slots),
        siblings(scene, p, q),
        p < q,
        scene.at_depth(p, depth),
        scene.at_depth(q, depth),
        scene.visited(p, depth).contains(a),
        scene.visited(q, depth).contains(b),
        0 <= depth,
    ensures
        is_in_earlier_sibling(scene, a, b),
{
    lemma_visited_below(scene, p, depth, a);
    lemma_visited_below(scene, q, depth, b);
    let k = choose|k: int|
        0 <= k && depth + k < MAX_LAYER_DEPTH && #[trigger] scene.at_depth(a, depth + k)
            && scene.up(a, k) == p;
    let l = choose|k: int|
        0 <= k && depth + k < MAX_LAYER_DEPTH && #[trigger] scene.at_depth(b, depth + k)
            && scene.up(b, k) == q;
    lemma_depth_of(scene, a, depth + k);
    lemma_depth_of(scene, b, depth + l);
    assert(siblings(scene, scene.up(a, k), scene.up(b, l)) && scene.up(a, k) < scene.up(b, l));
}

proof fn lemma_visited_order(scene: Scene, i: int, depth: int)
    requires
        distinct_ids(scene.slots),
        0 <= i < scene.slots.len(),
        0 <= depth,
        scene.at_depth(i, depth),
    ensures
        in_painting_order(scene, scene.visited(i, depth)),
    decreases MAX_LAYER_DEPTH - depth, 0int,
{
    if depth < MAX_LAYER_DEPTH {
        let list = scene.children(scene.id(i));
        let rest = scene.visited_all(list, depth + 1);
        lemma_children_below(scene, scene.id(i), scene.slots.len() as int);
        lemma_visited_all_order(scene, i, list, depth);
        assert forall|x: int, y: int|
            #![trigger seq![i].contains(x), rest.contains(y)]
            seq![i].contains(x) && rest.contains(y) implies is_ancestor(scene, x, y)
            || is_in_earlier_sibling(scene, x, y) by {
            assert(x == i);
            let c = lemma_visited_all_below(scene, i, list, depth, y);
            lemma_child(scene, i, depth, c);
            let k = choose|k: int|
                0 <= k && depth + 1 + k < MAX_LAYER_DEPTH && #[trigger] scene.at_depth(
                    y,
                    depth + 1 + k,
                ) && scene.up(y, k) == c;
            lemma_depth_of(scene, y, depth + 1 + k);
            assert(scene.up(y, k + 1) == scene.parent(c));
        }
        lemma_both(scene, seq![i], rest);
    }
}

proof fn lemma_visited_all_order(scene: Scene, i: int, list: Seq<int>, depth: int)
    requires
        distinct_ids(scene.slots),
        0 <= i < scene.slots.len(),
        0 <= depth,
        scene.at_depth(i, depth),
        forall|c: int| #[trigger] list.contains(c) ==> scene.children(scene.id(i)).contains(c),
        forall|a: int, b: int|
            0 <= a < b < list.len() ==> #[trigger] list[a] < #[trigger] list[b],
    ensures
        in_painting_order(scene, scene.visited_all(list, depth + 1)),
    decreases MAX_LAYER_DEPTH - depth - 1, list.len() + 1,
{
    if list.len() > 0 && depth + 1 < MAX_LAYER_DEPTH {
        let front = list.drop_last();
        let last = list.last();
        assert(list.contains(last));
        assert forall|c: int| #[trigger] front.contains(c) implies scene.children(
            scene.id(i),
        ).contains(c) by {
            let k = choose|k: int| 0 <= k < front.len() && front[k] == c;
            assert(list[k] == c);
            assert(list.contains(c));
        }
        lemma_visited_all_order(scene, i, front, depth);
        lemma_child(scene, i, depth, last);
        lemma_visited_order(scene, last, depth + 1);
        lemma_children_below(scene, scene.id(i), scene.slots.len() as int);
        let a = scene.visited_all(front, depth + 1);
        let b = scene.visited(last, depth + 1);
        assert forall|x: int, y: int|
            #![trigger a.contains(x), b.contains(y)]
            a.contains(x) && b.contains(y) implies is_ancestor(scene, x, y)
            || is_in_earlier_sibling(scene, x, y) by {
            let c = lemma_visited_all_below(scene, i, front, depth, x);
            lemma_child(scene, i, depth, c);
            let k = choose|k: int| 0 <= k < front.len() && front[k] == c;
            assert(list[k] < list[list.len() - 1]);
            assert(scene.encloses(i, c));
            assert(scene.encloses(i, last));
            if scene.is_root(c) {
                lemma_root_has_no_parent(scene, i, c);
            }
            if scene.is_root(last) {
                lemma_root_has_no_parent(scene, i, last);
            }
            lemma_below_siblings(scene, c, last, depth + 1, x, y);
        }
        lemma_both(scene, a, b);
    } else if list.len() > 0 {
        lemma_too_deep(scene, list, depth + 1);
    }
}

proof fn lemma_roots_order(scene: Scene, n: int)
    requires
        distinct_ids(scene.slots),
        n <= scene.slots.len(),
    ensures
        in_painting_order(scene, scene.visited_roots(n)),
    decreases n,
{
    if n > 0 {
        lemma_roots_order(scene, n - 1);
        if scene.is_root(n - 1) {
            let a = scene.visited_roots(n - 1);
            let b = scene.visited(n - 1, 0);
            assert(scene.at_depth(n - 1, 0));
            lemma_visited_order(scene, n - 1, 0);
            assert forall|x: int, y: int|
                #![trigger a.contains(x), b.contains(y)]
                a.contains(x) && b.contains(y) implies is_ancestor(scene, x, y)
                || is_in_earlier_sibling(scene, x, y) by {
                let root = lemma_visited_roots(scene, n - 1, x);
                assert(scene.at_depth(root, 0));
                lemma_below_siblings(scene, root, n - 1, 0, x, y);
            }
            lemma_both(scene, a, b);
        }
    }
}

/// A frame composites layers in painting order: a layer before those in it, and all
/// that is in one layer, or in none, one after the other in the order of registration,
/// each together with what lies below it.
pub proof fn law_layers_are_composited_in_painting_order(scene: Scene)
    requires
        distinct_ids(scene.slots),
    ensures
        in_painting_order(scene, scene.visits()),
{
    lemma_roots_order(scene, scene.slots.len() as int);
}

/// The scopes of a slot are those of the layer it is in, if that is registered, then
/// its clip, if it has one, and then its transformation: so the clip is not
/// transformed by the slot itself.
pub proof fn law_scopes_are_those_of_the_layer_and_then_its_own(scene: Scene, i: int, depth: int)
    requires
        0 <= i < scene.slots.len(),
        scene.at_depth(i, depth),
    ensures
        ({
            let data = scene.states[scene.slots[i].id()@].data;
            let scopes = scene.scopes(i, depth);
            let own = if data.clip_bounds is Some {
                2int
            } else {
                1
            };
            let p = scene.parent(i);
            &&& scopes.len() >= own
            &&& scopes[scopes.len() - 1] == Scope::Transformation(data.transform)
            &&& data.clip_bounds is Some ==> scopes[scopes.len() - 2] == Scope::Layer(
                data.clip_bounds->0,
            )
            &&& depth == 0 ==> scopes.len() == own
            &&& depth > 0 ==> {
                &&& 0 <= p < scene.slots.len()
                &&& data.parent_id == Some(scene.slots[p].id())
                &&& scene.at_depth(p, depth - 1)
                &&& scopes.take(scopes.len() - own) == scene.scopes(p, depth - 1)
            }
        }),
{
    let scopes = scene.scopes(i, depth);
    if depth > 0 {
        let p = scene.parent(i);
        assert(scene.encloses(p, i));
        let above = scene.scopes(p, depth - 1);
        assert(scopes == above + scene.own_scopes(i));
        assert(scopes.take(above.len() as int) =~= above);
    }
}

/// A frame is made of the registered slots, what was last written to them, and the
/// caches that can be drawn. A slot whose cache can be drawn shows it once, in the
/// bounds that were written to the slot, inside the scopes the frame starts in and
/// then those of the slot. Any other slot shows nothing.
pub proof fn law_a_slot_shows_its_own_cache_in_its_own_bounds(
    slots: Seq<Arc<LayerSlot>>,
    states: Map<u64, SlotState>,
    backed: Set<u64>,
    open: Seq<Scope>,
    i: int,
    depth: int,
)
    requires
        0 <= i < slots.len(),
        Scene::new(slots, states, backed).at_depth(i, depth),
    ensures
        ({
            let scene = Scene::new(slots, states, backed);
            let shown = scene.placement(open, i);
            let data = states[slots[i].id()@].data;
            let id = slots[i].spec_cache()@;
            &&& scene.slots == slots
            &&& scene.data(i) == data
            &&& scene.id(i) == slots[i].id()
            &&& !backed.contains(id) ==> shown.len() == 0
            &&& backed.contains(id) ==> {
                &&& shown.len() == 1
                &&& shown[0].id == id
                &&& shown[0].bounds == data.bounds
                &&& shown[0].scopes == open + scene.scopes(i, depth)
            }
        }),
        MAX_LAYER_DEPTH == 64,
{
    lemma_depth_of(Scene::new(slots, states, backed), i, depth);
}

/// A slot is a top-level layer exactly if no layer was written to it, or one that no
/// registered slot is.
pub proof fn law_top_level_layers_are_in_no_registered_layer(scene: Scene, i: int)
    requires
        0 <= i < scene.slots.len(),
    ensures
        scene.is_root(i) <==> {
            let parent = scene.states[scene.slots[i].id()@].data.parent_id;
            parent is None || forall|p: int|
                0 <= p < scene.slots.len() ==> (#[trigger] scene.slots[p]).id() != parent->0
        },
{
    if let Some(parent) = scene.data(i).parent_id {
        if has_id(scene.slots, parent) {
            let p = choose|p: int|
                0 <= p < scene.slots.len() && (#[trigger] scene.slots[p]).id() == parent;
            assert(scene.slots[p].id() == parent);
        }
        if exists|p: int|
            0 <= p < scene.slots.len() && (#[trigger] scene.slots[p]).id() == parent {
            assert(has_id(scene.slots, parent));
        }
    }
}

} // verus!
