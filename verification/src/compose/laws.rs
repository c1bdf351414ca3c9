//! What holds of every composited frame.
//!
//! A frame leaves the open layers and transformations as it found them. It visits
//! every layer that hangs below a top-level layer exactly once, and draws the cache
//! of a visited layer inside the clips and transformations of its ancestors, the
//! outermost first, and then its own.
use vstd::prelude::*;

use crate::child_index::lemma_children_below;
use crate::compose::{Scene, MAX_LAYER_DEPTH};
use crate::geometry::{Rectangle, Transformation};
use crate::layer::{distinct_ids, has_id, LayerId};
use crate::renderer::Command;

pub mod marks;
pub mod order;

verus! {

/// Something that a recorded operation opens and another closes.
pub ghost enum Scope {
    /// A layer that clips to the bounds.
    Layer(Rectangle),
    /// A transformation of what is drawn.
    Transformation(Transformation),
}

/// A cached texture that is drawn, and the scopes it is drawn in, outermost first.
pub ghost struct Placed {
    pub scopes: Seq<Scope>,
    pub id: u64,
    pub bounds: Rectangle,
}

/// The scopes that are open after one operation: `None` if it closes a scope that
/// is not the innermost one.
pub open spec fn after_one<P>(open: Seq<Scope>, command: Command<P>) -> Option<Seq<Scope>> {
    match command {
        Command::StartLayer(bounds) => Some(open.push(Scope::Layer(bounds))),
        Command::StartTransformation(t) => Some(open.push(Scope::Transformation(t))),
        Command::EndLayer => if open.len() > 0 && open.last() is Layer {
            Some(open.drop_last())
        } else {
            None
        },
        Command::EndTransformation => if open.len() > 0 && open.last() is Transformation {
            Some(open.drop_last())
        } else {
            None
        },
        _ => Some(open),
    }
}

/// The scopes that are open after the given operations: `None` if one of them
/// closes a scope that is not the innermost one.
pub open spec fn after<P>(open: Seq<Scope>, commands: Seq<Command<P>>) -> Option<Seq<Scope>>
    decreases commands.len(),
{
    if commands.len() == 0 {
        Some(open)
    } else {
        match after(open, commands.drop_last()) {
            Some(inner) => after_one(inner, commands.last()),
            None => None,
        }
    }
}

/// The cached textures that the given operations draw, in order.
pub open spec fn placed<P>(open: Seq<Scope>, commands: Seq<Command<P>>) -> Seq<Placed>
    decreases commands.len(),
{
    if commands.len() == 0 {
        Seq::empty()
    } else {
        let before = placed(open, commands.drop_last());
        match (after(open, commands.drop_last()), commands.last()) {
            (Some(scopes), Command::DrawCachedTexture(id, bounds)) => before.push(
                Placed { scopes, id, bounds },
            ),
            _ => before,
        }
    }
}

impl Scene {
    /// Whether slot `p` is the layer that slot `i` was registered inside.
    pub open spec fn encloses(self, p: int, i: int) -> bool {
        0 <= p < self.slots.len() && self.is_child(i, self.id(p))
    }

    /// The layer that slot `i` was registered inside.
    pub open spec fn parent(self, i: int) -> int {
        choose|p: int| self.encloses(p, i)
    }

    /// Whether slot `i` is a top-level layer for `depth` zero, and otherwise
    /// whether following `depth` parents from it leads to a top-level layer.
    pub open spec fn at_depth(self, i: int, depth: int) -> bool
        decreases depth,
    {
        if depth <= 0 {
            depth == 0 && self.is_root(i)
        } else {
            self.encloses(self.parent(i), i) && self.at_depth(self.parent(i), depth - 1)
        }
    }

    /// The depth of slot `i` below its top-level layer.
    pub open spec fn depth_of(self, i: int) -> int {
        choose|depth: int| self.at_depth(i, depth)
    }

    /// The slot reached by following `k` parents from slot `i`.
    pub open spec fn up(self, i: int, k: int) -> int
        decreases k,
    {
        if k <= 0 {
            i
        } else {
            self.parent(self.up(i, k - 1))
        }
    }

    /// Whether [`MAX_LAYER_DEPTH`] steps from a slot to its registered parent can be
    /// made from slot `i`.
    pub open spec fn too_deep(self, i: int) -> bool {
        forall|j: int|
            0 <= j < MAX_LAYER_DEPTH ==> self.encloses(
                self.up(i, j + 1),
                #[trigger] self.up(i, j),
            )
    }

    /// The scopes of slot `i` itself: its clip if it has one, then its
    /// transformation.
    pub open spec fn own_scopes(self, i: int) -> Seq<Scope> {
        let transformation = Scope::Transformation(self.data(i).transform);
        match self.data(i).clip_bounds {
            Some(clip) => seq![Scope::Layer(clip), transformation],
            None => seq![transformation],
        }
    }

    /// The scopes of slot `i` and its first `depth` ancestors, outermost first.
    pub open spec fn scopes(self, i: int, depth: int) -> Seq<Scope>
        decreases depth,
    {
        if depth <= 0 {
            self.own_scopes(i)
        } else {
            self.scopes(self.parent(i), depth - 1) + self.own_scopes(i)
        }
    }

    /// Slot `i` and its descendants, in the order they are composited.
    pub open spec fn visited(self, i: int, depth: int) -> Seq<int>
        decreases MAX_LAYER_DEPTH - depth, 0int,
    {
        if depth >= MAX_LAYER_DEPTH {
            Seq::empty()
        } else {
            seq![i] + self.visited_all(self.children(self.id(i)), depth + 1)
        }
    }

    /// The given slots, each followed by its descendants.
    pub open spec fn visited_all(self, list: Seq<int>, depth: int) -> Seq<int>
        decreases MAX_LAYER_DEPTH - depth, list.len() + 1,
    {
        if list.len() == 0 {
            Seq::empty()
        } else {
            self.visited_all(list.drop_last(), depth) + self.visited(list.last(), depth)
        }
    }

    /// What is composited for the top-level layers among the first `n` slots.
    pub open spec fn visited_roots(self, n: int) -> Seq<int>
        decreases n,
    {
        if n <= 0 {
            Seq::empty()
        } else if self.is_root(n - 1) {
            self.visited_roots(n - 1) + self.visited(n - 1, 0)
        } else {
            self.visited_roots(n - 1)
        }
    }

    /// The slots that a frame composites, in order.
    pub open spec fn visits(self) -> Seq<int> {
        self.visited_roots(self.slots.len() as int)
    }

    /// How the cache of slot `i` is drawn into a frame that starts in the given
    /// scopes: not at all if it is unrecorded.
    pub open spec fn placement(self, open: Seq<Scope>, i: int) -> Seq<Placed> {
        let id = self.slots[i].spec_cache()@;
        if self.backed.contains(id) {
            seq![
                Placed {
                    scopes: open + self.scopes(i, self.depth_of(i)),
                    id,
                    bounds: self.data(i).bounds,
                },
            ]
        } else {
            Seq::empty()
        }
    }

    /// How the caches of the given slots are drawn, in order.
    pub open spec fn placements(self, open: Seq<Scope>, list: Seq<int>) -> Seq<Placed>
        decreases list.len(),
    {
        if list.len() == 0 {
            Seq::empty()
        } else {
            self.placements(open, list.drop_last()) + self.placement(open, list.last())
        }
    }
}

proof fn lemma_append<P>(open: Seq<Scope>, a: Seq<Command<P>>, b: Seq<Command<P>>)
    requires
        after(open, a) is Some,
    ensures
        after(open, a + b) == after(after(open, a)->0, b),
        placed(open, a + b) == placed(open, a) + placed(after(open, a)->0, b),
    decreases b.len(),
{
    if b.len() == 0 {
        assert(a + b =~= a);
        assert(placed(open, a) + placed(after(open, a)->0, b) =~= placed(open, a));
    } else {
        lemma_append(open, a, b.drop_last());
        assert((a + b).drop_last() =~= a + b.drop_last());
        assert(placed(open, a + b) =~= placed(open, a) + placed(after(open, a)->0, b));
    }
}

proof fn lemma_one<P>(open: Seq<Scope>, command: Command<P>)
    ensures
        after(open, seq![command]) == after_one(open, command),
        placed(open, seq![command]) == (match command {
            Command::DrawCachedTexture(id, bounds) => seq![Placed { scopes: open, id, bounds }],
            _ => Seq::empty(),
        }),
{
    let one = seq![command];
    assert(one.drop_last() =~= Seq::empty());
    assert(after(open, one.drop_last()) == Some(open));
    assert(placed(open, one.drop_last()) =~= Seq::empty());
    assert(placed(open, one) =~= (match command {
        Command::DrawCachedTexture(id, bounds) => seq![Placed { scopes: open, id, bounds }],
        _ => Seq::empty(),
    }));
}

proof fn lemma_bracketed<P>(
    open: Seq<Scope>,
    start: Command<P>,
    inner: Seq<Command<P>>,
    end: Command<P>,
    scope: Scope,
)
    requires
        after_one(open, start) == Some(open.push(scope)),
        after_one(open.push(scope), end) == Some(open),
        after(open.push(scope), inner) == Some(open.push(scope)),
        !(start is DrawCachedTexture),
        !(end is DrawCachedTexture),
    ensures
        after(open, seq![start] + inner + seq![end]) == Some(open),
        placed(open, seq![start] + inner + seq![end]) == placed(open.push(scope), inner),
{
    lemma_one(open, start);
    lemma_one(open.push(scope), end);
    lemma_append(open, seq![start], inner);
    lemma_append(open, seq![start] + inner, seq![end]);
    assert(Seq::<Placed>::empty() + placed(open.push(scope), inner) + Seq::<Placed>::empty()
        =~= placed(open.push(scope), inner));
}

proof fn lemma_wrapped<P>(scene: Scene, open: Seq<Scope>, i: int, inner: Seq<Command<P>>)
    requires
        after(open + scene.own_scopes(i), inner) == Some(open + scene.own_scopes(i)),
    ensures
        after(open, scene.wrapped(i, inner)) == Some(open),
        placed(open, scene.wrapped(i, inner)) == placed(open + scene.own_scopes(i), inner),
{
    let t = scene.data(i).transform;
    let start = Command::<P>::StartTransformation(t);
    let end = Command::<P>::EndTransformation;
    match scene.data(i).clip_bounds {
        Some(clip) => {
            let outer = open.push(Scope::Layer(clip));
            assert(outer.push(Scope::Transformation(t)) =~= open + scene.own_scopes(i));
            assert(outer.push(Scope::Transformation(t)).drop_last() =~= outer);
            assert(outer.drop_last() =~= open);
            lemma_bracketed(outer, start, inner, end, Scope::Transformation(t));
            lemma_bracketed(
                open,
                Command::StartLayer(clip),
                seq![start] + inner + seq![end],
                Command::EndLayer,
                Scope::Layer(clip),
            );
        },
        None => {
            assert(open.push(Scope::Transformation(t)) =~= open + scene.own_scopes(i));
            assert(open.push(Scope::Transformation(t)).drop_last() =~= open);
            lemma_bracketed(open, start, inner, end, Scope::Transformation(t));
        },
    }
}

proof fn lemma_cached<P>(scene: Scene, open: Seq<Scope>, i: int)
    ensures
        after(open, scene.cached::<P>(i)) == Some(open),
        placed(open, scene.cached::<P>(i)) == (if scene.backed.contains(
            scene.slots[i].spec_cache()@,
        ) {
            seq![
                Placed {
                    scopes: open,
                    id: scene.slots[i].spec_cache()@,
                    bounds: scene.data(i).bounds,
                },
            ]
        } else {
            Seq::empty()
        }),
{
    lemma_one(
        open,
        Command::<P>::DrawCachedTexture(scene.slots[i].spec_cache()@, scene.data(i).bounds),
    );
}

proof fn lemma_composed_balanced<P>(scene: Scene, open: Seq<Scope>, i: int, depth: int)
    ensures
        after(open, scene.composed::<P>(i, depth)) == Some(open),
    decreases MAX_LAYER_DEPTH - depth, 0int,
{
    if depth < MAX_LAYER_DEPTH {
        let inside = open + scene.own_scopes(i);
        let list = scene.children(scene.id(i));
        lemma_cached::<P>(scene, inside, i);
        lemma_composed_all_balanced::<P>(scene, inside, list, depth + 1);
        lemma_append(inside, scene.cached::<P>(i), scene.composed_all(list, depth + 1));
        lemma_wrapped(
            scene,
            open,
            i,
            scene.cached::<P>(i) + scene.composed_all(list, depth + 1),
        );
    }
}

proof fn lemma_composed_all_balanced<P>(
    scene: Scene,
    open: Seq<Scope>,
    list: Seq<int>,
    depth: int,
)
    ensures
        after(open, scene.composed_all::<P>(list, depth)) == Some(open),
    decreases MAX_LAYER_DEPTH - depth, list.len() + 1,
{
    if list.len() > 0 {
        lemma_composed_all_balanced::<P>(scene, open, list.drop_last(), depth);
        lemma_composed_balanced::<P>(scene, open, list.last(), depth);
        lemma_append(
            open,
            scene.composed_all::<P>(list.drop_last(), depth),
            scene.composed(list.last(), depth),
        );
    }
}

proof fn lemma_outlined<P>(scene: Scene, open: Seq<Scope>, i: int, depth: int)
    ensures
        after(open, scene.outlined::<P>(i, depth)) == Some(open),
        placed(open, scene.outlined::<P>(i, depth)) == Seq::<Placed>::empty(),
    decreases MAX_LAYER_DEPTH - depth, 0int,
{
    if depth < MAX_LAYER_DEPTH {
        let clip = Rectangle::<crate::geometry::Scalar>::infinite_spec();
        let t = scene.data(i).transform;
        let outer = open.push(Scope::Layer(clip));
        let inside = outer.push(Scope::Transformation(t));
        let marked = scene.marked::<P>(i, depth);
        let list = scene.children(scene.id(i));
        let inner = marked + scene.outlined_all(list, depth + 1);
        lemma_one(inside, marked[0]);
        lemma_one(inside, marked[1]);
        lemma_append(inside, seq![marked[0]], seq![marked[1]]);
        assert(seq![marked[0]] + seq![marked[1]] =~= marked);
        lemma_outlined_all::<P>(scene, inside, list, depth + 1);
        lemma_append(inside, marked, scene.outlined_all(list, depth + 1));
        assert(placed(inside, inner) =~= Seq::empty());
        assert(inside.drop_last() =~= outer);
        assert(outer.drop_last() =~= open);
        let start = Command::<P>::StartTransformation(t);
        let end = Command::<P>::EndTransformation;
        lemma_bracketed(outer, start, inner, end, Scope::Transformation(t));
        lemma_bracketed(
            open,
            Command::StartLayer(clip),
            seq![start] + inner + seq![end],
            Command::EndLayer,
            Scope::Layer(clip),
        );
        assert(scene.outlined::<P>(i, depth) =~= seq![Command::<P>::StartLayer(clip)] + (
        seq![start] + inner + seq![end]) + seq![Command::<P>::EndLayer]);
    }
}

proof fn lemma_outlined_all<P>(scene: Scene, open: Seq<Scope>, list: Seq<int>, depth: int)
    ensures
        after(open, scene.outlined_all::<P>(list, depth)) == Some(open),
        placed(open, scene.outlined_all::<P>(list, depth)) == Seq::<Placed>::empty(),
    decreases MAX_LAYER_DEPTH - depth, list.len() + 1,
{
    if list.len() > 0 {
        lemma_outlined_all::<P>(scene, open, list.drop_last(), depth);
        lemma_outlined::<P>(scene, open, list.last(), depth);
        lemma_append(
            open,
            scene.outlined_all::<P>(list.drop_last(), depth),
            scene.outlined(list.last(), depth),
        );
        assert(placed(open, scene.outlined_all::<P>(list, depth)) =~= Seq::empty());
    }
}

/// A frame closes every layer and transformation that it opens, in the order
/// opposite to the one they were opened in, and closes nothing else. This holds
/// after any number of slots, with or without outlines.
pub proof fn law_frame_is_balanced<P>(scene: Scene, open: Seq<Scope>, outline: bool, n: int)
    ensures
        after(open, scene.frame::<P>(outline, n)) == Some(open),
    decreases n,
{
    if n > 0 {
        law_frame_is_balanced::<P>(scene, open, outline, n - 1);
        if scene.is_root(n - 1) {
            let before = scene.frame::<P>(outline, n - 1);
            let one = scene.composed::<P>(n - 1, 0);
            lemma_composed_balanced::<P>(scene, open, n - 1, 0);
            lemma_append(open, before, one);
            lemma_outlined::<P>(scene, open, n - 1, 0);
            lemma_append(
                open,
                before + one,
                if outline {
                    scene.outlined(n - 1, 0)
                } else {
                    Seq::empty()
                },
            );
        }
    }
}

proof fn lemma_parent_unique(scene: Scene, p: int, i: int)
    requires
        distinct_ids(scene.slots),
        scene.encloses(p, i),
    ensures
        scene.parent(i) == p,
{
    let q = scene.parent(i);
    assert(scene.encloses(q, i));
    assert(scene.slots[p].id() == scene.slots[q].id());
}

proof fn lemma_depth_unique(scene: Scene, i: int, a: int, b: int)
    requires
        scene.at_depth(i, a),
        scene.at_depth(i, b),
    ensures
        a == b,
    decreases a,
{
    if a > 0 && b > 0 {
        lemma_depth_unique(scene, scene.parent(i), a - 1, b - 1);
    } else if a > 0 || b > 0 {
        lemma_root_has_no_parent(scene, scene.parent(i), i);
    }
}

/// No registered slot encloses a top-level layer.
proof fn lemma_root_has_no_parent(scene: Scene, p: int, i: int)
    requires
        scene.is_root(i),
    ensures
        !scene.encloses(p, i),
{
    if scene.encloses(p, i) {
        assert(scene.slots[p].id() == scene.id(p));
        assert(has_id(scene.slots, scene.id(p)));
    }
}

/// A slot that no registered slot encloses is a top-level layer.
proof fn lemma_no_parent_is_root(scene: Scene, i: int)
    requires
        0 <= i < scene.slots.len(),
        !scene.encloses(scene.parent(i), i),
    ensures
        scene.is_root(i),
{
    if let Some(parent) = scene.data(i).parent_id {
        if has_id(scene.slots, parent) {
            let p = choose|p: int|
                0 <= p < scene.slots.len() && (#[trigger] scene.slots[p]).id() == parent;
            assert(scene.encloses(p, i));
        }
    }
}

/// Following at most `k` parents from a slot leads to a top-level layer, or every one
/// of these steps leads to another registered slot.
proof fn lemma_depth_or_chain(scene: Scene, x: int, k: int)
    requires
        0 <= x < scene.slots.len(),
        0 <= k,
    ensures
        (exists|depth: int| 0 <= depth < k && #[trigger] scene.at_depth(x, depth)) || forall|j: int|
            0 <= j < k ==> scene.encloses(scene.up(x, j + 1), #[trigger] scene.up(x, j)),
    decreases k,
{
    if k > 0 {
        lemma_depth_or_chain(scene, x, k - 1);
        if forall|j: int|
            0 <= j < k - 1 ==> scene.encloses(scene.up(x, j + 1), #[trigger] scene.up(x, j)) {
            let last = scene.up(x, k - 1);
            assert(scene.up(x, k) == scene.parent(last));
            if k > 1 {
                assert(scene.encloses(scene.up(x, k - 2 + 1), scene.up(x, k - 2)));
            }
            if !scene.encloses(scene.parent(last), last) {
                lemma_no_parent_is_root(scene, last);
                lemma_chain_to_root(scene, x, k - 1, k - 1);
                assert(scene.up(x, 0) == x);
            }
        }
    }
}

/// A chain of parents that ends at a top-level layer is as deep as it is long.
proof fn lemma_chain_to_root(scene: Scene, x: int, n: int, k: int)
    requires
        0 <= k <= n,
        scene.is_root(scene.up(x, n)),
        forall|j: int|
            0 <= j < n ==> scene.encloses(scene.up(x, j + 1), #[trigger] scene.up(x, j)),
    ensures
        scene.at_depth(scene.up(x, n - k), k),
    decreases k,
{
    if k > 0 {
        lemma_chain_to_root(scene, x, n, k - 1);
        let j = n - k;
        assert(scene.encloses(scene.up(x, j + 1), scene.up(x, j)));
        assert(scene.up(x, j + 1) == scene.parent(scene.up(x, j)));
    }
}

proof fn lemma_depth_of(scene: Scene, i: int, depth: int)
    requires
        scene.at_depth(i, depth),
    ensures
        scene.depth_of(i) == depth,
{
    lemma_depth_unique(scene, i, depth, scene.depth_of(i));
}

/// The children of a layer at some depth are one level deeper.
proof fn lemma_child(scene: Scene, i: int, depth: int, c: int)
    requires
        distinct_ids(scene.slots),
        0 <= i < scene.slots.len(),
        scene.at_depth(i, depth),
        scene.children(scene.id(i)).contains(c),
    ensures
        scene.parent(c) == i,
        scene.at_depth(c, depth + 1),
        0 <= c < scene.slots.len(),
{
    lemma_children_below(scene, scene.id(i), scene.slots.len() as int);
    assert(scene.encloses(i, c));
    lemma_parent_unique(scene, i, c);
    assert(0 <= depth);
}

proof fn lemma_in_concat(a: Seq<int>, b: Seq<int>, x: int)
    ensures
        (a + b).contains(x) <==> a.contains(x) || b.contains(x),
{
    vstd::seq_lib::lemma_seq_concat_contains_all_elements(a, b, x);
}

/// What is visited below slot `i` lies below it.
proof fn lemma_visited_below(scene: Scene, i: int, depth: int, x: int)
    requires
        distinct_ids(scene.slots),
        0 <= i < scene.slots.len(),
        scene.at_depth(i, depth),
        scene.visited(i, depth).contains(x),
    ensures
        0 <= x < scene.slots.len(),
        exists|k: int|
            0 <= k && depth + k < MAX_LAYER_DEPTH && #[trigger] scene.at_depth(x, depth + k)
                && scene.up(x, k) == i,
    decreases MAX_LAYER_DEPTH - depth, 0int,
{
    let list = scene.children(scene.id(i));
    lemma_in_concat(seq![i], scene.visited_all(list, depth + 1), x);
    if seq![i].contains(x) {
        assert(scene.at_depth(x, depth + 0) && scene.up(x, 0) == i);
    } else {
        let c = lemma_visited_all_below(scene, i, list, depth, x);
        lemma_child(scene, i, depth, c);
        let k = choose|k: int|
            0 <= k && depth + 1 + k < MAX_LAYER_DEPTH && #[trigger] scene.at_depth(
                x,
                depth + 1 + k,
            ) && scene.up(x, k) == c;
        assert(scene.at_depth(x, depth + (k + 1)) && scene.up(x, k + 1) == i);
    }
}

/// What is visited below some children of slot `i` lies below one of them.
proof fn lemma_visited_all_below(
    scene: Scene,
    i: int,
    list: Seq<int>,
    depth: int,
    x: int,
) -> (c: int)
    requires
        distinct_ids(scene.slots),
        0 <= i < scene.slots.len(),
        scene.at_depth(i, depth),
        forall|c: int| #[trigger] list.contains(c) ==> scene.children(scene.id(i)).contains(c),
        scene.visited_all(list, depth + 1).contains(x),
    ensures
        list.contains(c),
        0 <= x < scene.slots.len(),
        scene.visited(c, depth + 1).contains(x),
        exists|k: int|
            0 <= k && depth + 1 + k < MAX_LAYER_DEPTH && #[trigger] scene.at_depth(
                x,
                depth + 1 + k,
            ) && scene.up(x, k) == c,
    decreases MAX_LAYER_DEPTH - depth - 1, list.len() + 1,
{
    let front = list.drop_last();
    let last = list.last();
    assert(list.contains(last));
    lemma_in_concat(scene.visited_all(front, depth + 1), scene.visited(last, depth + 1), x);
    if scene.visited(last, depth + 1).contains(x) {
        lemma_child(scene, i, depth, last);
        lemma_visited_below(scene, last, depth + 1, x);
        last
    } else {
        assert forall|c: int| #[trigger] front.contains(c) implies scene.children(
            scene.id(i),
        ).contains(c) by {
            let k = choose|k: int| 0 <= k < front.len() && front[k] == c;
            assert(list[k] == c);
            assert(list.contains(c));
        }
        let c = lemma_visited_all_below(scene, i, front, depth, x);
        let k = choose|k: int| 0 <= k < front.len() && front[k] == c;
        assert(list[k] == c);
        c
    }
}

/// A slot lies below at most one of the slots at a given depth.
proof fn lemma_same_ancestor(scene: Scene, depth: int, a: int, b: int, x: int)
    requires
        distinct_ids(scene.slots),
        0 <= a < scene.slots.len(),
        0 <= b < scene.slots.len(),
        scene.at_depth(a, depth),
        scene.at_depth(b, depth),
        scene.visited(a, depth).contains(x),
        scene.visited(b, depth).contains(x),
    ensures
        a == b,
{
    lemma_visited_below(scene, a, depth, x);
    lemma_visited_below(scene, b, depth, x);
    let k = choose|k: int|
        0 <= k && depth + k < MAX_LAYER_DEPTH && #[trigger] scene.at_depth(x, depth + k)
            && scene.up(x, k) == a;
    let j = choose|k: int|
        0 <= k && depth + k < MAX_LAYER_DEPTH && #[trigger] scene.at_depth(x, depth + k)
            && scene.up(x, k) == b;
    lemma_depth_unique(scene, x, depth + k, depth + j);
}

proof fn lemma_no_dup_concat(a: Seq<int>, b: Seq<int>)
    requires
        a.no_duplicates(),
        b.no_duplicates(),
        forall|x: int| !(#[trigger] a.contains(x) && b.contains(x)),
    ensures
        (a + b).no_duplicates(),
{
    let s = a + b;
    assert forall|i: int, j: int| 0 <= i < s.len() && 0 <= j < s.len() && i != j implies s[i]
        != s[j] by {
        if i < a.len() && j >= a.len() {
            assert(a.contains(a[i]));
            assert(b.contains(b[j - a.len()]));
        }
        if j < a.len() && i >= a.len() {
            assert(a.contains(a[j]));
            assert(b.contains(b[i - a.len()]));
        }
    }
}

proof fn lemma_visited_once(scene: Scene, i: int, depth: int)
    requires
        distinct_ids(scene.slots),
        0 <= i < scene.slots.len(),
        scene.at_depth(i, depth),
    ensures
        scene.visited(i, depth).no_duplicates(),
    decreases MAX_LAYER_DEPTH - depth, 0int,
{
    if depth < MAX_LAYER_DEPTH {
        let list = scene.children(scene.id(i));
        let below = scene.visited_all(list, depth + 1);
        lemma_children_below(scene, scene.id(i), scene.slots.len() as int);
        lemma_visited_all_once(scene, i, list, depth);
        assert forall|x: int| !(#[trigger] seq![i].contains(x) && below.contains(x)) by {
            if seq![i].contains(x) && below.contains(x) {
                let c = lemma_visited_all_below(scene, i, list, depth, x);
                let k = choose|k: int|
                    0 <= k && depth + 1 + k < MAX_LAYER_DEPTH && #[trigger] scene.at_depth(
                        x,
                        depth + 1 + k,
                    ) && scene.up(x, k) == c;
                lemma_depth_unique(scene, x, depth, depth + 1 + k);
            }
        }
        lemma_no_dup_concat(seq![i], below);
    }
}

proof fn lemma_visited_all_once(scene: Scene, i: int, list: Seq<int>, depth: int)
    requires
        distinct_ids(scene.slots),
        0 <= i < scene.slots.len(),
        scene.at_depth(i, depth),
        forall|c: int| #[trigger] list.contains(c) ==> scene.children(scene.id(i)).contains(c),
        forall|a: int, b: int|
            0 <= a < b < list.len() ==> #[trigger] list[a] < #[trigger] list[b],
    ensures
        scene.visited_all(list, depth + 1).no_duplicates(),
    decreases MAX_LAYER_DEPTH - depth - 1, list.len() + 1,
{
    if list.len() > 0 && depth + 1 < MAX_LAYER_DEPTH {
        let front = list.drop_last();
        let last = list.last();
        assert(list.contains(last));
        assert forall|c: int| #[trigger] front.contains(c) implies scene.children(
            scene.id(i),
        ).contains(c) by {
            let k = choose|k: int| 0 <= k < front.len() && front[k] == c;
            assert(list[k] == c);
            assert(list.contains(c));
        }
        lemma_visited_all_once(scene, i, front, depth);
        lemma_child(scene, i, depth, last);
        lemma_visited_once(scene, last, depth + 1);
        let a = scene.visited_all(front, depth + 1);
        let b = scene.visited(last, depth + 1);
        assert forall|x: int| !(#[trigger] a.contains(x) && b.contains(x)) by {
            if a.contains(x) && b.contains(x) {
                let c = lemma_visited_all_below(scene, i, front, depth, x);
                lemma_child(scene, i, depth, c);
                lemma_same_ancestor(scene, depth + 1, c, last, x);
                let k = choose|k: int| 0 <= k < front.len() && front[k] == c;
                assert(list[k] < list[list.len() - 1]);
            }
        }
        lemma_no_dup_concat(a, b);
    } else if list.len() > 0 {
        lemma_too_deep(scene, list, depth + 1);
    }
}

proof fn lemma_too_deep(scene: Scene, list: Seq<int>, depth: int)
    requires
        depth >= MAX_LAYER_DEPTH,
    ensures
        scene.visited_all(list, depth) == Seq::<int>::empty(),
    decreases list.len(),
{
    if list.len() > 0 {
        lemma_too_deep(scene, list.drop_last(), depth);
        assert(scene.visited(list.last(), depth) == Seq::<int>::empty());
        assert(scene.visited_all(list, depth) =~= Seq::empty());
    }
}

/// A root among the first `n` slots under which `x` is visited.
proof fn lemma_visited_roots(scene: Scene, n: int, x: int) -> (root: int)
    requires
        n <= scene.slots.len(),
        scene.visited_roots(n).contains(x),
    ensures
        0 <= root < n,
        scene.is_root(root),
        scene.visited(root, 0).contains(x),
    decreases n,
{
    if n <= 0 {
        assert(false);
        0
    } else if scene.is_root(n - 1) {
        lemma_in_concat(scene.visited_roots(n - 1), scene.visited(n - 1, 0), x);
        if scene.visited(n - 1, 0).contains(x) {
            n - 1
        } else {
            lemma_visited_roots(scene, n - 1, x)
        }
    } else {
        lemma_visited_roots(scene, n - 1, x)
    }
}

proof fn lemma_visited_roots_contain(scene: Scene, n: int, root: int, x: int)
    requires
        0 <= root < n <= scene.slots.len(),
        scene.is_root(root),
        scene.visited(root, 0).contains(x),
    ensures
        scene.visited_roots(n).contains(x),
    decreases n,
{
    if scene.is_root(n - 1) {
        lemma_in_concat(scene.visited_roots(n - 1), scene.visited(n - 1, 0), x);
    }
    if root < n - 1 {
        lemma_visited_roots_contain(scene, n - 1, root, x);
    }
}

proof fn lemma_visited_roots_once(scene: Scene, n: int)
    requires
        distinct_ids(scene.slots),
        n <= scene.slots.len(),
    ensures
        scene.visited_roots(n).no_duplicates(),
    decreases n,
{
    if n > 0 {
        lemma_visited_roots_once(scene, n - 1);
        if scene.is_root(n - 1) {
            let a = scene.visited_roots(n - 1);
            let b = scene.visited(n - 1, 0);
            assert(scene.at_depth(n - 1, 0));
            lemma_visited_once(scene, n - 1, 0);
            assert forall|x: int| !(#[trigger] a.contains(x) && b.contains(x)) by {
                if a.contains(x) && b.contains(x) {
                    let root = lemma_visited_roots(scene, n - 1, x);
                    assert(scene.at_depth(root, 0));
                    lemma_same_ancestor(scene, 0, root, n - 1, x);
                }
            }
            lemma_no_dup_concat(a, b);
        }
    }
}

proof fn lemma_visited_all_contains(scene: Scene, list: Seq<int>, depth: int, c: int, x: int)
    requires
        list.contains(c),
        scene.visited(c, depth).contains(x),
    ensures
        scene.visited_all(list, depth).contains(x),
    decreases list.len(),
{
    let front = list.drop_last();
    lemma_in_concat(scene.visited_all(front, depth), scene.visited(list.last(), depth), x);
    if c != list.last() {
        let k = choose|k: int| 0 <= k < list.len() && list[k] == c;
        assert(front[k] == c);
        lemma_visited_all_contains(scene, front, depth, c, x);
    }
}

/// A slot is visited below its ancestor, `k` levels up.
proof fn lemma_visited_from(scene: Scene, x: int, depth: int, k: int)
    requires
        0 <= k <= depth < MAX_LAYER_DEPTH,
        scene.at_depth(x, depth),
        0 <= x < scene.slots.len(),
    ensures
        scene.at_depth(scene.up(x, k), depth - k),
        0 <= scene.up(x, k) < scene.slots.len(),
        scene.visited(scene.up(x, k), depth - k).contains(x),
    decreases k,
{
    if k == 0 {
        assert((seq![x] + scene.visited_all(scene.children(scene.id(x)), depth + 1))[0] == x);
    } else {
        lemma_visited_from(scene, x, depth, k - 1);
        let c = scene.up(x, k - 1);
        let i = scene.up(x, k);
        assert(scene.encloses(i, c));
        lemma_children_below(scene, scene.id(i), scene.slots.len() as int);
        let list = scene.children(scene.id(i));
        assert(list.contains(c));
        lemma_visited_all_contains(scene, list, depth - k + 1, c, x);
        lemma_in_concat(seq![i], scene.visited_all(list, depth - k + 1), x);
    }
}

/// A frame composites every registered slot exactly once. The only exceptions are
/// slots from which [`MAX_LAYER_DEPTH`] steps from a slot to its registered parent
/// can be made, as on a cycle of parents: these are not composited.
pub proof fn law_each_layer_is_composited_once(scene: Scene)
    requires
        distinct_ids(scene.slots),
    ensures
        scene.visits().no_duplicates(),
        forall|x: int| #[trigger]
            scene.visits().contains(x) <==> 0 <= x < scene.slots.len() && exists|depth: int|
                0 <= depth < MAX_LAYER_DEPTH && #[trigger] scene.at_depth(x, depth),
        forall|x: int|
            0 <= x < scene.slots.len() ==> #[trigger] scene.visits().contains(x)
                != scene.too_deep(x),
{
    let n = scene.slots.len() as int;
    lemma_visited_roots_once(scene, n);
    assert forall|x: int| #[trigger]
        scene.visits().contains(x) <==> 0 <= x < scene.slots.len() && exists|depth: int|
            0 <= depth < MAX_LAYER_DEPTH && #[trigger] scene.at_depth(x, depth) by {
        if scene.visits().contains(x) {
            let root = lemma_visited_roots(scene, n, x);
            assert(scene.at_depth(root, 0));
            lemma_visited_below(scene, root, 0, x);
        }
        if 0 <= x < n && exists|depth: int|
            0 <= depth < MAX_LAYER_DEPTH && #[trigger] scene.at_depth(x, depth) {
            let depth = choose|depth: int|
                0 <= depth < MAX_LAYER_DEPTH && #[trigger] scene.at_depth(x, depth);
            lemma_visited_from(scene, x, depth, depth);
            lemma_visited_roots_contain(scene, n, scene.up(x, depth), x);
        }
    }
    assert forall|x: int| 0 <= x < scene.slots.len() implies #[trigger] scene.visits().contains(x)
        != scene.too_deep(x) by {
        lemma_depth_or_chain(scene, x, MAX_LAYER_DEPTH as int);
        if scene.visits().contains(x) {
            let depth = choose|depth: int|
                0 <= depth < MAX_LAYER_DEPTH && #[trigger] scene.at_depth(x, depth);
            lemma_visited_from(scene, x, depth, depth);
            lemma_root_has_no_parent(scene, scene.up(x, depth + 1), scene.up(x, depth));
        }
    }
}

proof fn lemma_placements_append(scene: Scene, open: Seq<Scope>, a: Seq<int>, b: Seq<int>)
    ensures
        scene.placements(open, a + b) == scene.placements(open, a) + scene.placements(open, b),
    decreases b.len(),
{
    if b.len() == 0 {
        assert(a + b =~= a);
    } else {
        lemma_placements_append(scene, open, a, b.drop_last());
        assert((a + b).drop_last() =~= a + b.drop_last());
    }
    assert(scene.placements(open, a + b) =~= scene.placements(open, a) + scene.placements(open, b));
}

/// The scopes that slot `i` is composited in.
spec fn outside(scene: Scene, open: Seq<Scope>, i: int, depth: int) -> Seq<Scope> {
    if depth <= 0 {
        open
    } else {
        open + scene.scopes(scene.parent(i), depth - 1)
    }
}

proof fn lemma_composed_placed<P>(scene: Scene, open: Seq<Scope>, i: int, depth: int)
    requires
        distinct_ids(scene.slots),
        0 <= i < scene.slots.len(),
        scene.at_depth(i, depth),
    ensures
        placed(outside(scene, open, i, depth), scene.composed::<P>(i, depth)) == scene.placements(
            open,
            scene.visited(i, depth),
        ),
    decreases MAX_LAYER_DEPTH - depth, 0int,
{
    if depth < MAX_LAYER_DEPTH {
        let around = outside(scene, open, i, depth);
        let inside = open + scene.scopes(i, depth);
        assert(around + scene.own_scopes(i) =~= inside);
        let list = scene.children(scene.id(i));
        let rest = scene.composed_all::<P>(list, depth + 1);
        lemma_cached::<P>(scene, inside, i);
        lemma_composed_all_balanced::<P>(scene, inside, list, depth + 1);
        lemma_composed_all_placed::<P>(scene, open, i, list, depth);
        lemma_append(inside, scene.cached::<P>(i), rest);
        lemma_wrapped(scene, around, i, scene.cached::<P>(i) + rest);
        lemma_depth_of(scene, i, depth);
        lemma_placements_append(scene, open, seq![i], scene.visited_all(list, depth + 1));
        assert(seq![i].drop_last() =~= Seq::empty());
        assert(scene.placements(open, seq![i].drop_last()) =~= Seq::empty());
        assert(scene.placements(open, seq![i]) =~= placed(inside, scene.cached::<P>(i)));
    } else {
        assert(scene.visited(i, depth) =~= Seq::empty());
    }
}

proof fn lemma_composed_all_placed<P>(
    scene: Scene,
    open: Seq<Scope>,
    i: int,
    list: Seq<int>,
    depth: int,
)
    requires
        distinct_ids(scene.slots),
        0 <= i < scene.slots.len(),
        scene.at_depth(i, depth),
        forall|c: int| #[trigger] list.contains(c) ==> scene.children(scene.id(i)).contains(c),
    ensures
        placed(open + scene.scopes(i, depth), scene.composed_all::<P>(list, depth + 1))
            == scene.placements(open, scene.visited_all(list, depth + 1)),
    decreases MAX_LAYER_DEPTH - depth - 1, list.len() + 1,
{
    if list.len() > 0 {
        let inside = open + scene.scopes(i, depth);
        let front = list.drop_last();
        let last = list.last();
        assert(list.contains(last));
        assert forall|c: int| #[trigger] front.contains(c) implies scene.children(
            scene.id(i),
        ).contains(c) by {
            let k = choose|k: int| 0 <= k < front.len() && front[k] == c;
            assert(list[k] == c);
            assert(list.contains(c));
        }
        lemma_child(scene, i, depth, last);
        lemma_composed_all_placed::<P>(scene, open, i, front, depth);
        lemma_composed_placed::<P>(scene, open, last, depth + 1);
        lemma_composed_all_balanced::<P>(scene, inside, front, depth + 1);
        lemma_append(
            inside,
            scene.composed_all::<P>(front, depth + 1),
            scene.composed(last, depth + 1),
        );
        lemma_placements_append(
            scene,
            open,
            scene.visited_all(front, depth + 1),
            scene.visited(last, depth + 1),
        );
    }
}

proof fn lemma_frame_placed<P>(scene: Scene, open: Seq<Scope>, outline: bool, n: int)
    requires
        distinct_ids(scene.slots),
        n <= scene.slots.len(),
    ensures
        placed(open, scene.frame::<P>(outline, n)) == scene.placements(
            open,
            scene.visited_roots(n),
        ),
    decreases n,
{
    if n > 0 {
        lemma_frame_placed::<P>(scene, open, outline, n - 1);
        if scene.is_root(n - 1) {
            let before = scene.frame::<P>(outline, n - 1);
            let one = scene.composed::<P>(n - 1, 0);
            let marks = if outline {
                scene.outlined::<P>(n - 1, 0)
            } else {
                Seq::empty()
            };
            law_frame_is_balanced::<P>(scene, open, outline, n - 1);
            lemma_composed_balanced::<P>(scene, open, n - 1, 0);
            assert(scene.at_depth(n - 1, 0));
            lemma_composed_placed::<P>(scene, open, n - 1, 0);
            lemma_append(open, before, one);
            lemma_outlined::<P>(scene, open, n - 1, 0);
            lemma_append(open, before + one, marks);
            lemma_placements_append(
                scene,
                open,
                scene.visited_roots(n - 1),
                scene.visited(n - 1, 0),
            );
            assert(placed(open, before + one) + Seq::<Placed>::empty() =~= placed(
                open,
                before + one,
            ));
        }
    }
}

/// A frame draws the recorded caches of the slots it composites, in the order it
/// composites them, each in the bounds of its slot and inside the scopes of the
/// slot's ancestors and of the slot itself. Outlines draw no cache.
pub proof fn law_caches_are_drawn_in_the_scopes_of_their_ancestors<P>(
    scene: Scene,
    open: Seq<Scope>,
    outline: bool,
)
    requires
        distinct_ids(scene.slots),
    ensures
        placed(open, scene.frame::<P>(outline, scene.slots.len() as int)) == scene.placements(
            open,
            scene.visits(),
        ),
{
    lemma_frame_placed::<P>(scene, open, outline, scene.slots.len() as int);
}

/// Whether `moved` is `scene` with other parameters written to slot `m`, but inside
/// the same layer.
pub open spec fn is_moved(scene: Scene, moved: Scene, m: int) -> bool {
    &&& moved.slots == scene.slots
    &&& moved.backed == scene.backed
    &&& moved.data(m).parent_id == scene.data(m).parent_id
    &&& forall|i: int|
        0 <= i < scene.slots.len() && i != m ==> #[trigger] moved.data(i) == scene.data(i)
}

/// Whether slot `x`, which is `depth` levels below a top-level layer, is slot `m` or
/// lies below it.
pub open spec fn lies_below(scene: Scene, x: int, depth: int, m: int) -> bool {
    exists|k: int| 0 <= k <= depth && #[trigger] scene.up(x, k) == m
}

proof fn lemma_moved_parents(scene: Scene, moved: Scene, m: int)
    requires
        is_moved(scene, moved, m),
    ensures
        forall|i: int, parent: LayerId| #[trigger]
            moved.is_child(i, parent) == scene.is_child(i, parent),
        forall|i: int| #[trigger] moved.is_root(i) == scene.is_root(i),
        forall|p: int, i: int| #[trigger] moved.encloses(p, i) == scene.encloses(p, i),
{
    assert forall|i: int| 0 <= i < scene.slots.len() implies #[trigger] moved.data(i).parent_id
        == scene.data(i).parent_id by {
        if i != m {
            assert(moved.data(i) == scene.data(i));
        }
    }
}

proof fn lemma_moved_children(scene: Scene, moved: Scene, m: int, parent: LayerId, n: int)
    requires
        is_moved(scene, moved, m),
    ensures
        moved.children_below(parent, n) == scene.children_below(parent, n),
    decreases n,
{
    if n > 0 {
        lemma_moved_parents(scene, moved, m);
        lemma_moved_children(scene, moved, m, parent, n - 1);
    }
}

proof fn lemma_moved_visited(scene: Scene, moved: Scene, m: int, i: int, depth: int)
    requires
        is_moved(scene, moved, m),
    ensures
        moved.visited(i, depth) == scene.visited(i, depth),
    decreases MAX_LAYER_DEPTH - depth, 0int,
{
    if depth < MAX_LAYER_DEPTH {
        lemma_moved_children(scene, moved, m, scene.id(i), scene.slots.len() as int);
        lemma_moved_visited_all(scene, moved, m, scene.children(scene.id(i)), depth + 1);
    }
}

proof fn lemma_moved_visited_all(scene: Scene, moved: Scene, m: int, list: Seq<int>, depth: int)
    requires
        is_moved(scene, moved, m),
    ensures
        moved.visited_all(list, depth) == scene.visited_all(list, depth),
    decreases MAX_LAYER_DEPTH - depth, list.len() + 1,
{
    if list.len() > 0 {
        lemma_moved_visited_all(scene, moved, m, list.drop_last(), depth);
        lemma_moved_visited(scene, moved, m, list.last(), depth);
    }
}

proof fn lemma_moved_roots(scene: Scene, moved: Scene, m: int, n: int)
    requires
        is_moved(scene, moved, m),
    ensures
        moved.visited_roots(n) == scene.visited_roots(n),
    decreases n,
{
    if n > 0 {
        lemma_moved_parents(scene, moved, m);
        lemma_moved_roots(scene, moved, m, n - 1);
        lemma_moved_visited(scene, moved, m, n - 1, 0);
    }
}

proof fn lemma_moved_depth(scene: Scene, moved: Scene, m: int, x: int, depth: int)
    requires
        is_moved(scene, moved, m),
        distinct_ids(scene.slots),
        scene.at_depth(x, depth),
    ensures
        moved.at_depth(x, depth),
        depth > 0 ==> moved.parent(x) == scene.parent(x),
    decreases depth,
{
    lemma_moved_parents(scene, moved, m);
    if depth > 0 {
        let p = scene.parent(x);
        assert(moved.encloses(p, x));
        lemma_parent_unique(moved, p, x);
        lemma_moved_depth(scene, moved, m, p, depth - 1);
    }
}

proof fn lemma_moved_scopes(scene: Scene, moved: Scene, m: int, x: int, depth: int)
    requires
        is_moved(scene, moved, m),
        distinct_ids(scene.slots),
        0 <= x < scene.slots.len(),
        scene.at_depth(x, depth),
        !lies_below(scene, x, depth, m),
    ensures
        moved.scopes(x, depth) == scene.scopes(x, depth),
    decreases depth,
{
    lemma_moved_depth(scene, moved, m, x, depth);
    assert(scene.up(x, 0) == x);
    assert(x != m);
    assert(moved.data(x) == scene.data(x));
    if depth > 0 {
        let p = scene.parent(x);
        assert(scene.encloses(p, x));
        assert forall|k: int| 0 <= k <= depth - 1 implies #[trigger] scene.up(p, k) != m by {
            lemma_up_from_parent(scene, x, k);
            assert(scene.up(x, k + 1) != m);
        }
        lemma_moved_scopes(scene, moved, m, p, depth - 1);
    }
}

proof fn lemma_up_from_parent(scene: Scene, x: int, k: int)
    requires
        0 <= k,
    ensures
        scene.up(scene.parent(x), k) == scene.up(x, k + 1),
    decreases k,
{
    if k == 0 {
        assert(scene.up(x, 0) == x);
        assert(scene.up(x, 1) == scene.parent(scene.up(x, 0)));
    } else {
        lemma_up_from_parent(scene, x, k - 1);
    }
}

/// Moving a layer, whatever else is written to it, moves what is below it and
/// nothing else: the same layers are composited in the same order, and every layer
/// that is not below the moved one is drawn as before.
pub proof fn law_moving_a_layer_moves_nothing_else(
    scene: Scene,
    moved: Scene,
    m: int,
    open: Seq<Scope>,
    x: int,
    depth: int,
)
    requires
        is_moved(scene, moved, m),
        distinct_ids(scene.slots),
        0 <= x < scene.slots.len(),
        scene.at_depth(x, depth),
    ensures
        moved.visits() == scene.visits(),
        !lies_below(scene, x, depth, m) ==> moved.placement(open, x) == scene.placement(open, x),
{
    lemma_moved_roots(scene, moved, m, scene.slots.len() as int);
    if !lies_below(scene, x, depth, m) {
        lemma_moved_depth(scene, moved, m, x, depth);
        lemma_depth_of(scene, x, depth);
        lemma_depth_of(moved, x, depth);
        lemma_moved_scopes(scene, moved, m, x, depth);
        assert(scene.up(x, 0) == x);
        assert(moved.data(x) == scene.data(x));
    }
}

} // verus!
