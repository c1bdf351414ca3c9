//! What a frame draws besides caches.
use vstd::prelude::*;

use crate::compose::laws::{
    after, after_one, law_frame_is_balanced, lemma_append, lemma_child, lemma_composed_all_balanced,
    lemma_composed_balanced, lemma_depth_of, lemma_one, lemma_outlined, lemma_outlined_all,
    placed, Scope,
};
use crate::compose::{decimal, digit, layer_color, outline_quad, Scene, MAX_LAYER_DEPTH};
use crate::geometry::{Color, Rectangle, Scalar};
use crate::layer::distinct_ids;
use crate::renderer::{Background, Command};

verus! {

/// Something that is drawn and is no cached texture, and the scopes it is drawn in,
/// outermost first.
pub ghost struct Mark<P> {
    pub scopes: Seq<Scope>,
    pub command: Command<P>,
}

/// Whether the operation draws something that is no cached texture.
pub open spec fn is_mark<P>(command: Command<P>) -> bool {
    match command {
        Command::StartLayer(_) => false,
        Command::EndLayer => false,
        Command::StartTransformation(_) => false,
        Command::EndTransformation => false,
        Command::DrawCachedTexture(_, _) => false,
        _ => true,
    }
}

/// What the given operations draw besides cached textures, in order.
pub open spec fn marks<P>(open: Seq<Scope>, commands: Seq<Command<P>>) -> Seq<Mark<P>>
    decreases commands.len(),
{
    if commands.len() == 0 {
        Seq::empty()
    } else {
        let before = marks(open, commands.drop_last());
        match after(open, commands.drop_last()) {
            Some(scopes) => if is_mark(commands.last()) {
                before.push(Mark { scopes, command: commands.last() })
            } else {
                before
            },
            None => before,
        }
    }
}

impl Scene {
    /// The scopes of the outline of slot `i` and of its first `depth` ancestors,
    /// outermost first: each is transformed like the slot, and clipped to nothing.
    pub open spec fn mark_scopes(self, i: int, depth: int) -> Seq<Scope>
        decreases depth,
    {
        let own = seq![
            Scope::Layer(
                Rectangle {
                    x: Scalar { bits: 0xff80_0000 },
                    y: Scalar { bits: 0xff80_0000 },
                    width: Scalar { bits: 0x7f80_0000 },
                    height: Scalar { bits: 0x7f80_0000 },
                },
            ),
            Scope::Transformation(self.data(i).transform),
        ];
        if depth <= 0 {
            own
        } else {
            self.mark_scopes(self.parent(i), depth - 1) + own
        }
    }

    /// How slot `i` is outlined in a frame that starts in the given scopes: by the
    /// frame of its bounds, in the color of its depth, and its name.
    pub open spec fn marks_of<P>(self, open: Seq<Scope>, i: int) -> Seq<Mark<P>> {
        let depth = self.depth_of(i);
        let scopes = open + self.mark_scopes(i, depth);
        let bounds = self.data(i).bounds;
        let color = layer_color(depth);
        seq![
            Mark {
                scopes,
                command: Command::FillQuad(
                    outline_quad(bounds, color),
                    Background::Color(Color::transparent_spec()),
                ),
            },
            Mark { scopes, command: Command::FillLayerLabel(self.slots[i].id(), bounds, color) },
        ]
    }

    /// How the given slots are outlined, in order.
    pub open spec fn all_marks<P>(self, open: Seq<Scope>, list: Seq<int>) -> Seq<Mark<P>>
        decreases list.len(),
    {
        if list.len() == 0 {
            Seq::empty()
        } else {
            self.all_marks(open, list.drop_last()) + self.marks_of(open, list.last())
        }
    }
}

proof fn lemma_marks_append<P>(open: Seq<Scope>, a: Seq<Command<P>>, b: Seq<Command<P>>)
    requires
        after(open, a) is Some,
    ensures
        marks(open, a + b) == marks(open, a) + marks(after(open, a)->0, b),
    decreases b.len(),
{
    if b.len() == 0 {
        assert(a + b =~= a);
        assert(marks(open, a) + marks(after(open, a)->0, b) =~= marks(open, a));
    } else {
        lemma_marks_append(open, a, b.drop_last());
        lemma_append(open, a, b.drop_last());
        assert((a + b).drop_last() =~= a + b.drop_last());
        assert(marks(open, a + b) =~= marks(open, a) + marks(after(open, a)->0, b));
    }
}

proof fn lemma_mark_one<P>(open: Seq<Scope>, command: Command<P>)
    ensures
        marks(open, seq![command]) == (if is_mark(command) {
            seq![Mark { scopes: open, command }]
        } else {
            Seq::empty()
        }),
{
    let one = seq![command];
    assert(one.drop_last() =~= Seq::empty());
    assert(after(open, one.drop_last()) == Some(open));
    assert(marks(open, one.drop_last()) =~= Seq::empty());
    assert(marks(open, one) =~= (if is_mark(command) {
        seq![Mark { scopes: open, command }]
    } else {
        Seq::empty()
    }));
}

proof fn lemma_marks_bracketed<P>(
    open: Seq<Scope>,
    start: Command<P>,
    inner: Seq<Command<P>>,
    end: Command<P>,
    scope: Scope,
)
    requires
        after_one(open, start) == Some(open.push(scope)),
        after_one(open.push(scope), end) == Some(open),
        after(open.push(scope), inner) == Some(open.push(scope)),
        !is_mark(start),
        !is_mark(end),
    ensures
        marks(open, seq![start] + inner + seq![end]) == marks(open.push(scope), inner),
{
    lemma_one(open, start);
    lemma_mark_one(open, start);
    lemma_mark_one(open.push(scope), end);
    lemma_append(open, seq![start], inner);
    lemma_marks_append(open, seq![start], inner);
    lemma_marks_append(open, seq![start] + inner, seq![end]);
    assert(Seq::<Mark<P>>::empty() + marks(open.push(scope), inner) + Seq::<Mark<P>>::empty()
        =~= marks(open.push(scope), inner));
}

/// Compositing draws nothing but caches.
proof fn lemma_composed_unmarked<P>(scene: Scene, open: Seq<Scope>, i: int, depth: int)
    ensures
        marks(open, scene.composed::<P>(i, depth)) == Seq::<Mark<P>>::empty(),
    decreases MAX_LAYER_DEPTH - depth, 0int,
{
    if depth < MAX_LAYER_DEPTH {
        let inside = open + scene.own_scopes(i);
        let list = scene.children(scene.id(i));
        let rest = scene.composed_all::<P>(list, depth + 1);
        let cached = scene.cached::<P>(i);
        if cached.len() > 0 {
            lemma_one(inside, cached[0]);
            lemma_mark_one(inside, cached[0]);
            assert(cached =~= seq![cached[0]]);
        }
        assert(after(inside, cached) == Some(inside));
        assert(marks(inside, cached) =~= Seq::empty());
        lemma_composed_all_unmarked::<P>(scene, inside, list, depth + 1);
        lemma_composed_all_balanced::<P>(scene, inside, list, depth + 1);
        lemma_append(inside, cached, rest);
        lemma_marks_append(inside, cached, rest);
        let inner = cached + rest;
        assert(marks(inside, inner) =~= Seq::empty());
        let t = scene.data(i).transform;
        let start = Command::<P>::StartTransformation(t);
        let end = Command::<P>::EndTransformation;
        match scene.data(i).clip_bounds {
            Some(clip) => {
                let outer = open.push(Scope::Layer(clip));
                assert(outer.push(Scope::Transformation(t)) =~= inside);
                assert(inside.drop_last() =~= outer);
                assert(outer.drop_last() =~= open);
                lemma_marks_bracketed(outer, start, inner, end, Scope::Transformation(t));
                crate::compose::laws::lemma_bracketed(
                    outer,
                    start,
                    inner,
                    end,
                    Scope::Transformation(t),
                );
                lemma_marks_bracketed(
                    open,
                    Command::StartLayer(clip),
                    seq![start] + inner + seq![end],
                    Command::EndLayer,
                    Scope::Layer(clip),
                );
            },
            None => {
                assert(open.push(Scope::Transformation(t)) =~= inside);
                assert(inside.drop_last() =~= open);
                lemma_marks_bracketed(open, start, inner, end, Scope::Transformation(t));
            },
        }
    }
}

proof fn lemma_composed_all_unmarked<P>(
    scene: Scene,
    open: Seq<Scope>,
    list: Seq<int>,
    depth: int,
)
    ensures
        marks(open, scene.composed_all::<P>(list, depth)) == Seq::<Mark<P>>::empty(),
    decreases MAX_LAYER_DEPTH - depth, list.len() + 1,
{
    if list.len() > 0 {
        lemma_composed_all_unmarked::<P>(scene, open, list.drop_last(), depth);
        lemma_composed_unmarked::<P>(scene, open, list.last(), depth);
        lemma_composed_all_balanced::<P>(scene, open, list.drop_last(), depth);
        lemma_marks_append(
            open,
            scene.composed_all::<P>(list.drop_last(), depth),
            scene.composed(list.last(), depth),
        );
        assert(marks(open, scene.composed_all::<P>(list, depth)) =~= Seq::empty());
    }
}

proof fn lemma_all_marks_append<P>(scene: Scene, open: Seq<Scope>, a: Seq<int>, b: Seq<int>)
    ensures
        scene.all_marks::<P>(open, a + b) == scene.all_marks::<P>(open, a) + scene.all_marks(
            open,
            b,
        ),
    decreases b.len(),
{
    if b.len() == 0 {
        assert(a + b =~= a);
    } else {
        lemma_all_marks_append::<P>(scene, open, a, b.drop_last());
        assert((a + b).drop_last() =~= a + b.drop_last());
    }
    assert(scene.all_marks::<P>(open, a + b) =~= scene.all_marks::<P>(open, a) + scene.all_marks(
        open,
        b,
    ));
}

/// The scopes that slot `i` is outlined in.
spec fn around_mark(scene: Scene, open: Seq<Scope>, i: int, depth: int) -> Seq<Scope> {
    if depth <= 0 {
        open
    } else {
        open + scene.mark_scopes(scene.parent(i), depth - 1)
    }
}

proof fn lemma_outlined_marks<P>(scene: Scene, open: Seq<Scope>, i: int, depth: int)
    requires
        distinct_ids(scene.slots),
        0 <= i < scene.slots.len(),
        scene.at_depth(i, depth),
    ensures
        marks(around_mark(scene, open, i, depth), scene.outlined::<P>(i, depth))
            == scene.all_marks::<P>(open, scene.visited(i, depth)),
    decreases MAX_LAYER_DEPTH - depth, 0int,
{
    if depth < MAX_LAYER_DEPTH {
        let around = around_mark(scene, open, i, depth);
        let clip = Rectangle::<Scalar>::infinite_spec();
        let t = scene.data(i).transform;
        let outer = around.push(Scope::Layer(clip));
        let inside = outer.push(Scope::Transformation(t));
        assert(inside =~= open + scene.mark_scopes(i, depth));
        let marked = scene.marked::<P>(i, depth);
        let list = scene.children(scene.id(i));
        let rest = scene.outlined_all::<P>(list, depth + 1);
        let inner = marked + rest;
        lemma_one(inside, marked[0]);
        lemma_one(inside, marked[1]);
        lemma_mark_one(inside, marked[0]);
        lemma_mark_one(inside, marked[1]);
        lemma_append(inside, seq![marked[0]], seq![marked[1]]);
        lemma_marks_append(inside, seq![marked[0]], seq![marked[1]]);
        assert(seq![marked[0]] + seq![marked[1]] =~= marked);
        lemma_depth_of(scene, i, depth);
        assert(marks(inside, marked) =~= scene.marks_of::<P>(open, i));
        lemma_outlined_all::<P>(scene, inside, list, depth + 1);
        lemma_outlined_all_marks::<P>(scene, open, i, list, depth);
        lemma_append(inside, marked, rest);
        lemma_marks_append(inside, marked, rest);
        assert(inside.drop_last() =~= outer);
        assert(outer.drop_last() =~= around);
        let start = Command::<P>::StartTransformation(t);
        let end = Command::<P>::EndTransformation;
        lemma_marks_bracketed(outer, start, inner, end, Scope::Transformation(t));
        crate::compose::laws::lemma_bracketed(outer, start, inner, end, Scope::Transformation(t));
        lemma_marks_bracketed(
            around,
            Command::StartLayer(clip),
            seq![start] + inner + seq![end],
            Command::EndLayer,
            Scope::Layer(clip),
        );
        assert(scene.outlined::<P>(i, depth) =~= seq![Command::<P>::StartLayer(clip)] + (
        seq![start] + inner + seq![end]) + seq![Command::<P>::EndLayer]);
        lemma_all_marks_append::<P>(scene, open, seq![i], scene.visited_all(list, depth + 1));
        assert(seq![i].drop_last() =~= Seq::empty());
        assert(scene.all_marks::<P>(open, seq![i].drop_last()) =~= Seq::empty());
        assert(scene.all_marks::<P>(open, seq![i]) =~= scene.marks_of(open, i));
    } else {
        assert(scene.visited(i, depth) =~= Seq::empty());
    }
}

proof fn lemma_outlined_all_marks<P>(
    scene: Scene,
    open: Seq<Scope>,
    i: int,
    list: Seq<int>,
    depth: int,
)
    requires
        distinct_ids(scene.slots),
        0 <= i < scene.slots.len(),
        scene.at_depth(i, depth),
        forall|c: int| #[trigger] list.contains(c) ==> scene.children(scene.id(i)).contains(c),
    ensures
        marks(open + scene.mark_scopes(i, depth), scene.outlined_all::<P>(list, depth + 1))
            == scene.all_marks::<P>(open, scene.visited_all(list, depth + 1)),
    decreases MAX_LAYER_DEPTH - depth - 1, list.len() + 1,
{
    if list.len() > 0 {
        let inside = open + scene.mark_scopes(i, depth);
        let front = list.drop_last();
        let last = list.last();
        assert(list.contains(last));
        assert forall|c: int| #[trigger] front.contains(c) implies scene.children(
            scene.id(i),
        ).contains(c) by {
            let k = choose|k: int| 0 <= k < front.len() && front[k] == c;
            assert(list[k] == c);
            assert(list.contains(c));
        }
        lemma_child(scene, i, depth, last);
        lemma_outlined_all_marks::<P>(scene, open, i, front, depth);
        lemma_outlined_marks::<P>(scene, open, last, depth + 1);
        lemma_outlined_all::<P>(scene, inside, front, depth + 1);
        lemma_marks_append(
            inside,
            scene.outlined_all::<P>(front, depth + 1),
            scene.outlined(last, depth + 1),
        );
        lemma_all_marks_append::<P>(
            scene,
            open,
            scene.visited_all(front, depth + 1),
            scene.visited(last, depth + 1),
        );
    }
}

proof fn lemma_frame_marks<P>(scene: Scene, open: Seq<Scope>, outline: bool, n: int)
    requires
        distinct_ids(scene.slots),
        n <= scene.slots.len(),
    ensures
        marks(open, scene.frame::<P>(outline, n)) == (if outline {
            scene.all_marks::<P>(open, scene.visited_roots(n))
        } else {
            Seq::empty()
        }),
    decreases n,
{
    if n > 0 {
        lemma_frame_marks::<P>(scene, open, outline, n - 1);
        if scene.is_root(n - 1) {
            let before = scene.frame::<P>(outline, n - 1);
            let one = scene.composed::<P>(n - 1, 0);
            let drawn = if outline {
                scene.outlined::<P>(n - 1, 0)
            } else {
                Seq::empty()
            };
            law_frame_is_balanced::<P>(scene, open, outline, n - 1);
            lemma_composed_balanced::<P>(scene, open, n - 1, 0);
            lemma_composed_unmarked::<P>(scene, open, n - 1, 0);
            assert(scene.at_depth(n - 1, 0));
            lemma_append(open, before, one);
            lemma_marks_append(open, before, one);
            lemma_outlined::<P>(scene, open, n - 1, 0);
            lemma_outlined_marks::<P>(scene, open, n - 1, 0);
            lemma_marks_append(open, before + one, drawn);
            lemma_all_marks_append::<P>(
                scene,
                open,
                scene.visited_roots(n - 1),
                scene.visited(n - 1, 0),
            );
            assert(marks(open, before + one) =~= marks(open, before));
            assert(marks(open, scene.frame::<P>(outline, n)) =~= (if outline {
                scene.all_marks::<P>(open, scene.visited_roots(n))
            } else {
                Seq::empty()
            }));
        }
    } else {
        assert(scene.visited_roots(n) =~= Seq::empty());
    }
}

/// Without outlines a frame draws nothing but caches. With outlines it also draws, for
/// each layer it composites and in the same order, the frame of the bounds of the layer
/// and its name, transformed like the layer and clipped to nothing.
pub proof fn law_a_frame_draws_caches_and_outlines_alone<P>(
    scene: Scene,
    open: Seq<Scope>,
    outline: bool,
)
    requires
        distinct_ids(scene.slots),
    ensures
        marks(open, scene.frame::<P>(outline, scene.slots.len() as int)) == (if outline {
            scene.all_marks::<P>(open, scene.visits())
        } else {
            Seq::empty()
        }),
{
    lemma_frame_marks::<P>(scene, open, outline, scene.slots.len() as int);
}

proof fn lemma_no_marks<P>(open: Seq<Scope>, commands: Seq<Command<P>>, k: int)
    requires
        after(open, commands) is Some,
        marks(open, commands).len() == 0,
        0 <= k < commands.len(),
    ensures
        !is_mark(commands[k]),
    decreases commands.len(),
{
    if k < commands.len() - 1 {
        lemma_no_marks(open, commands.drop_last(), k);
        assert(commands.drop_last()[k] == commands[k]);
    }
}

/// Every operation of a frame without outlines starts or ends a layer or a
/// transformation, or draws a cached texture.
pub proof fn law_a_frame_without_outlines_paints_nothing_over<P>(scene: Scene, n: int, k: int)
    requires
        distinct_ids(scene.slots),
        n <= scene.slots.len(),
        0 <= k < scene.frame::<P>(false, n).len(),
    ensures
        match scene.frame::<P>(false, n)[k] {
            Command::StartLayer(_) => true,
            Command::EndLayer => true,
            Command::StartTransformation(_) => true,
            Command::EndTransformation => true,
            Command::DrawCachedTexture(_, _) => true,
            Command::FillQuad(_, _) => false,
            Command::FillLayerLabel(_, _, _) => false,
            Command::Draw(_) => false,
        },
{
    let open = Seq::<Scope>::empty();
    lemma_frame_marks::<P>(scene, open, false, n);
    law_frame_is_balanced::<P>(scene, open, false, n);
    lemma_no_marks(open, scene.frame::<P>(false, n), k);
}

proof fn lemma_nothing_placed<P>(open: Seq<Scope>, commands: Seq<Command<P>>, k: int)
    requires
        after(open, commands) is Some,
        placed(open, commands).len() == 0,
        0 <= k < commands.len(),
    ensures
        !(commands[k] is DrawCachedTexture),
    decreases commands.len(),
{
    if k < commands.len() - 1 {
        lemma_nothing_placed(open, commands.drop_last(), k);
        assert(commands.drop_last()[k] == commands[k]);
    }
}

/// Outlines are drawn over what they outline: what the frame with outlines does for one
/// more slot begins with what the frame without them does for it, and draws no cached
/// texture after that.
pub proof fn law_outlines_come_after_their_layers<P>(scene: Scene, n: int, k: int)
    requires
        0 < n <= scene.slots.len(),
    ensures
        ({
            let plain = scene.frame::<P>(false, n - 1);
            let outlined = scene.frame::<P>(true, n - 1);
            let added = scene.frame::<P>(false, n).skip(plain.len() as int);
            let all = scene.frame::<P>(true, n);
            &&& plain.is_prefix_of(scene.frame::<P>(false, n))
            &&& (outlined + added).is_prefix_of(all)
            &&& outlined.len() + added.len() <= k < all.len() ==> !(all[k] is DrawCachedTexture)
        }),
{
    let plain = scene.frame::<P>(false, n - 1);
    let outlined = scene.frame::<P>(true, n - 1);
    let added = scene.frame::<P>(false, n).skip(plain.len() as int);
    let all = scene.frame::<P>(true, n);
    if scene.is_root(n - 1) {
        let one = scene.composed::<P>(n - 1, 0);
        let over = scene.outlined::<P>(n - 1, 0);
        assert(scene.frame::<P>(false, n) =~= plain + one);
        assert(added =~= one);
        assert(all =~= outlined + added + over);
        let open = Seq::<Scope>::empty();
        lemma_outlined::<P>(scene, open, n - 1, 0);
        if outlined.len() + added.len() <= k < all.len() {
            lemma_nothing_placed(open, over, k - outlined.len() - added.len());
        }
    } else {
        assert(added =~= Seq::empty());
        assert(all =~= outlined + added);
    }
}

/// An outline is a line around the bounds, one logical pixel wide and with sharp
/// corners. It has no shadow, and nothing is painted inside.
pub proof fn law_an_outline_is_a_line_around_the_bounds(bounds: Rectangle, color: Color)
    ensures
        outline_quad(bounds, color).bounds == bounds,
        outline_quad(bounds, color).border.color == color,
        outline_quad(bounds, color).border.width.bits == 0x3f80_0000,
        outline_quad(bounds, color).border.radius.top_left.bits == 0,
        outline_quad(bounds, color).border.radius.top_right.bits == 0,
        outline_quad(bounds, color).border.radius.bottom_left.bits == 0,
        outline_quad(bounds, color).border.radius.bottom_right.bits == 0,
        outline_quad(bounds, color).shadow.color.a.bits == 0,
        outline_quad(bounds, color).snap,
        Color::transparent_spec().a.bits == 0,
{
}

/// The colors of outlines are opaque. Those of six levels in a row differ, and the
/// seventh has the color of the first: red, green, blue, yellow, magenta and cyan.
pub proof fn law_neighbouring_depths_have_different_colors(a: int, b: int)
    requires
        0 <= a,
        0 <= b,
    ensures
        layer_color(a).a.bits == 0x3f80_0000,
        layer_color(a) == layer_color(b) <==> a % 6 == b % 6,
        layer_color(a).r.bits == if a % 6 == 0 || a % 6 == 3 || a % 6 == 4 {
            0x3f80_0000u32
        } else {
            0u32
        },
        layer_color(a).g.bits == if a % 6 == 1 || a % 6 == 3 || a % 6 == 5 {
            0x3f80_0000u32
        } else {
            0u32
        },
        layer_color(a).b.bits == if a % 6 == 2 || a % 6 == 4 || a % 6 == 5 {
            0x3f80_0000u32
        } else {
            0u32
        },
{
}

/// The number that decimal digits stand for.
pub open spec fn value_of(digits: Seq<char>) -> int
    decreases digits.len(),
{
    if digits.len() == 0 {
        0
    } else {
        10 * value_of(digits.drop_last()) + (digits.last() as int - '0' as int)
    }
}

/// The name of a layer ends in its id: in decimal digits that stand for the number,
/// without leading zeros.
pub proof fn law_decimal_digits_stand_for_the_number(n: int, k: int)
    requires
        0 <= n,
    ensures
        value_of(decimal(n)) == n,
        decimal(n).len() > 0,
        0 <= k < decimal(n).len() ==> '0' <= decimal(n)[k] <= '9',
        n > 0 ==> decimal(n)[0] != '0',
    decreases n,
{
    if n < 10 {
        assert(decimal(n).drop_last() =~= Seq::empty());
        assert(value_of(decimal(n).drop_last()) == 0);
    } else {
        law_decimal_digits_stand_for_the_number(n / 10, k);
        assert(decimal(n).drop_last() =~= decimal(n / 10));
        assert(decimal(n).last() == digit(n % 10));
    }
}

} // verus!
