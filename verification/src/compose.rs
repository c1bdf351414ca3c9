//! Compositing the registered layers.
//!
//! Every slot without a registered parent is composited in registration order.
//! Compositing a slot draws its cache inside its transformation, then composites its
//! children inside the same transformation; a clip wraps all of it.
use std::sync::Arc;
use vstd::prelude::*;

use crate::child_index;
use crate::child_index::is_index;
use crate::geometry::{Color, Rectangle, Scalar};
use crate::layer::{has_id, LayerId, LayerRegistry, LayerSlot, LayerSlotData, SlotState, SlotStates};
use crate::renderer::{Background, Border, Command, Quad, Radius, Renderer, Shadow};

pub mod laws;

verus! {

/// The depth at which compositing stops. It guards against pathological nesting.
pub const MAX_LAYER_DEPTH: u32 = 64;

/// What compositing reads: the registered slots, what was written to them, and
/// which caches can be drawn.
pub ghost struct Scene {
    pub slots: Seq<Arc<LayerSlot>>,
    pub states: Map<u64, SlotState>,
    pub backed: Set<u64>,
}

impl Scene {
    /// The scene of the given slots.
    pub open spec fn new(
        slots: Seq<Arc<LayerSlot>>,
        states: Map<u64, SlotState>,
        backed: Set<u64>,
    ) -> Scene {
        Scene { slots, states, backed }
    }

    /// Every slot has a state.
    pub open spec fn wf(self) -> bool {
        forall|i: int|
            0 <= i < self.slots.len() ==> self.states.contains_key(
                (#[trigger] self.slots[i]).id()@,
            )
    }

    /// The id of slot `i`.
    pub open spec fn id(self, i: int) -> LayerId {
        self.slots[i].id()
    }

    /// What was written to slot `i`.
    pub open spec fn data(self, i: int) -> LayerSlotData {
        self.states[self.slots[i].id()@].data
    }

    /// Whether slot `i` is a top-level layer: it was registered inside no layer, or
    /// inside one that is not registered.
    pub open spec fn is_root(self, i: int) -> bool {
        &&& 0 <= i < self.slots.len()
        &&& match self.data(i).parent_id {
            Some(parent) => !has_id(self.slots, parent),
            None => true,
        }
    }

    /// Whether slot `i` was registered inside the layer with the given id.
    pub open spec fn is_child(self, i: int, parent: LayerId) -> bool {
        0 <= i < self.slots.len() && self.data(i).parent_id == Some(parent)
    }

    /// Those of the first `n` slots that were registered inside the given layer,
    /// in registration order.
    pub open spec fn children_below(self, parent: LayerId, n: int) -> Seq<int>
        decreases n,
    {
        if n <= 0 {
            Seq::empty()
        } else if self.is_child(n - 1, parent) {
            self.children_below(parent, n - 1).push(n - 1)
        } else {
            self.children_below(parent, n - 1)
        }
    }

    /// The slots registered inside the given layer, in registration order.
    pub open spec fn children(self, parent: LayerId) -> Seq<int> {
        self.children_below(parent, self.slots.len() as int)
    }

    /// The operations that draw the cache of slot `i`: none if it is unrecorded.
    pub open spec fn cached<P>(self, i: int) -> Seq<Command<P>> {
        let id = self.slots[i].spec_cache()@;
        if self.backed.contains(id) {
            seq![Command::DrawCachedTexture(id, self.data(i).bounds)]
        } else {
            Seq::empty()
        }
    }

    /// `inner` inside the transformation of slot `i`, and inside its clip if it
    /// has one.
    pub open spec fn wrapped<P>(self, i: int, inner: Seq<Command<P>>) -> Seq<Command<P>> {
        let transformed = seq![Command::StartTransformation(self.data(i).transform)] + inner + seq![
            Command::EndTransformation,
        ];
        match self.data(i).clip_bounds {
            Some(clip) => seq![Command::StartLayer(clip)] + transformed + seq![Command::EndLayer],
            None => transformed,
        }
    }

    /// The operations that composite slot `i` at the given depth.
    pub open spec fn composed<P>(self, i: int, depth: int) -> Seq<Command<P>>
        decreases MAX_LAYER_DEPTH - depth, 0int,
    {
        if depth >= MAX_LAYER_DEPTH {
            Seq::empty()
        } else {
            self.wrapped(
                i,
                self.cached(i) + self.composed_all(self.children(self.id(i)), depth + 1),
            )
        }
    }

    /// The operations that composite the given slots one after the other.
    pub open spec fn composed_all<P>(self, list: Seq<int>, depth: int) -> Seq<Command<P>>
        decreases MAX_LAYER_DEPTH - depth, list.len() + 1,
    {
        if list.len() == 0 {
            Seq::empty()
        } else {
            self.composed_all(list.drop_last(), depth) + self.composed(list.last(), depth)
        }
    }

    /// The operations that draw the outline of slot `i` and write its name.
    pub open spec fn marked<P>(self, i: int, depth: int) -> Seq<Command<P>> {
        let color = layer_color(depth);
        seq![
            Command::FillQuad(
                outline_quad(self.data(i).bounds, color),
                Background::Color(Color::transparent_spec()),
            ),
            Command::FillLayerLabel(self.id(i), self.data(i).bounds, color),
        ]
    }

    /// The operations that outline slot `i` and its descendants. Outlines are
    /// transformed like the slots, but not clipped.
    pub open spec fn outlined<P>(self, i: int, depth: int) -> Seq<Command<P>>
        decreases MAX_LAYER_DEPTH - depth, 0int,
    {
        if depth >= MAX_LAYER_DEPTH {
            Seq::empty()
        } else {
            seq![
                Command::StartLayer(Rectangle::<Scalar>::infinite_spec()),
                Command::StartTransformation(self.data(i).transform),
            ] + (self.marked(i, depth) + self.outlined_all(
                self.children(self.id(i)),
                depth + 1,
            )) + seq![Command::EndTransformation, Command::EndLayer]
        }
    }

    /// The operations that outline the given slots one after the other.
    pub open spec fn outlined_all<P>(self, list: Seq<int>, depth: int) -> Seq<Command<P>>
        decreases MAX_LAYER_DEPTH - depth, list.len() + 1,
    {
        if list.len() == 0 {
            Seq::empty()
        } else {
            self.outlined_all(list.drop_last(), depth) + self.outlined(list.last(), depth)
        }
    }

    /// The operations that composite the top-level layers among the first `n`
    /// slots, each followed by its outlines if they are asked for.
    pub open spec fn frame<P>(self, outline: bool, n: int) -> Seq<Command<P>>
        decreases n,
    {
        if n <= 0 {
            Seq::empty()
        } else {
            let before = self.frame(outline, n - 1);
            if self.is_root(n - 1) {
                before + self.composed(n - 1, 0) + (if outline {
                    self.outlined(n - 1, 0)
                } else {
                    Seq::empty()
                })
            } else {
                before
            }
        }
    }
}

/// The color that outlines at the given depth are drawn with. Colors repeat after
/// six levels.
pub open spec fn layer_color(depth: int) -> Color {
    let on = Scalar::one_spec();
    let off = Scalar::zero_spec();
    if depth % 6 == 0 {
        Color { r: on, g: off, b: off, a: on }
    } else if depth % 6 == 1 {
        Color { r: off, g: on, b: off, a: on }
    } else if depth % 6 == 2 {
        Color { r: off, g: off, b: on, a: on }
    } else if depth % 6 == 3 {
        Color { r: on, g: on, b: off, a: on }
    } else if depth % 6 == 4 {
        Color { r: on, g: off, b: on, a: on }
    } else {
        Color { r: off, g: on, b: on, a: on }
    }
}

/// The quad that outlines the given bounds.
pub open spec fn outline_quad(bounds: Rectangle, color: Color) -> Quad {
    Quad {
        bounds,
        border: Border { color, width: Scalar::one_spec(), radius: Radius::zero_spec() },
        shadow: Shadow::default_spec(),
        snap: true,
    }
}

/// Returns the color that outlines at the given depth are drawn with.
pub fn debug_layer_color(depth: u32) -> (r: Color)
    ensures
        r == layer_color(depth as int),
{
    let on = Scalar::one();
    let off = Scalar::zero();
    match depth % 6 {
        0 => Color { r: on, g: off, b: off, a: on },
        1 => Color { r: off, g: on, b: off, a: on },
        2 => Color { r: off, g: off, b: on, a: on },
        3 => Color { r: on, g: on, b: off, a: on },
        4 => Color { r: on, g: off, b: on, a: on },
        _ => Color { r: off, g: on, b: on, a: on },
    }
}

/// The character of a decimal digit.
pub open spec fn digit(d: int) -> char {
    (('0' as int) + d) as char
}

/// The decimal digits of a number, the most significant one first.
pub open spec fn decimal(n: int) -> Seq<char>
    decreases n,
{
    if n < 10 {
        seq![digit(n)]
    } else {
        decimal(n / 10).push(digit(n % 10))
    }
}

fn push_digit(text: &mut String, d: u64)
    requires
        d < 10,
    ensures
        final(text)@ == old(text)@.push(digit(d as int)),
{
    proof {
        reveal_strlit("0");
        reveal_strlit("1");
        reveal_strlit("2");
        reveal_strlit("3");
        reveal_strlit("4");
        reveal_strlit("5");
        reveal_strlit("6");
        reveal_strlit("7");
        reveal_strlit("8");
        reveal_strlit("9");
    }
    let one = match d {
        0 => "0",
        1 => "1",
        2 => "2",
        3 => "3",
        4 => "4",
        5 => "5",
        6 => "6",
        7 => "7",
        8 => "8",
        _ => "9",
    };
    text.append(one);
    assert(text@ =~= old(text)@.push(digit(d as int)));
}

fn push_decimal(text: &mut String, n: u64)
    ensures
        final(text)@ == old(text)@ + decimal(n as int),
    decreases n,
{
    if n >= 10 {
        push_decimal(text, n / 10);
    }
    push_digit(text, n % 10);
    assert(text@ =~= old(text)@ + decimal(n as int));
}

/// Returns the name of a layer, which is written next to its outline.
pub fn layer_label(id: LayerId) -> (r: String)
    ensures
        r@ == "Layer #"@ + decimal(id@ as int),
{
    let mut text = "Layer #".to_owned();
    push_decimal(&mut text, id.as_u64());
    text
}

/// Composites slot `i` and its descendants.
fn compose_one<R: Renderer>(
    renderer: &mut R,
    slots: &[Arc<LayerSlot>],
    states: &SlotStates,
    index: &Vec<(LayerId, usize)>,
    i: usize,
    depth: u32,
    Ghost(scene): Ghost<Scene>,
)
    requires
        i < slots@.len(),
        scene == Scene::new(slots@, states@, old(renderer).drawing().backed),
        scene.wf(),
        is_index(scene, index@, slots@.len() as int),
    ensures
        final(renderer).drawing() == old(renderer).drawing().extend(
            scene.composed(i as int, depth as int),
        ),
        final(renderer).kept() == old(renderer).kept(),
        old(renderer).wf() ==> final(renderer).wf(),
    decreases MAX_LAYER_DEPTH - depth,
{
    if depth >= MAX_LAYER_DEPTH {
        assert(renderer.drawing().extend(Seq::empty()) =~= renderer.drawing());
        return;
    }
    let ghost start = renderer.drawing();
    let slot = slots[i].clone();
    assert(scene.states.contains_key(scene.slots[i as int].id()@));
    let data = slot.read(states);
    let id = slot.id();

    if let Some(clip) = data.clip_bounds {
        renderer.start_layer(clip);
    }
    renderer.start_transformation(data.transform);
    renderer.draw_cached_texture(slot.cache(), data.bounds);

    let ghost inside = renderer.drawing();
    let children = child_index::children(index, id, Ghost(scene));
    let ghost list = scene.children(scene.id(i as int));
    proof {
        child_index::lemma_children_below(scene, id, scene.slots.len() as int);
        assert(scene.composed_all::<R::Primitive>(list.take(0), depth + 1) =~= Seq::empty());
        assert(inside.extend(Seq::empty()) =~= inside);
    }
    let mut k: usize = 0;
    while k < children.len()
        invariant
            k <= children@.len(),
            depth < MAX_LAYER_DEPTH,
            children@.map_values(|i: usize| i as int) == list,
            forall|x: int| #[trigger] list.contains(x) ==> 0 <= x < slots@.len(),
            scene == Scene::new(slots@, states@, inside.backed),
            scene.wf(),
            is_index(scene, index@, slots@.len() as int),
            renderer.drawing() == inside.extend(
                scene.composed_all(list.take(k as int), depth + 1),
            ),
            renderer.kept() == old(renderer).kept(),
            old(renderer).wf() ==> renderer.wf(),
        decreases children@.len() - k,
    {
        proof {
            assert(list[k as int] == children@[k as int] as int);
            assert(list.contains(list[k as int]));
            assert(list.take(k + 1).drop_last() =~= list.take(k as int));
        }
        compose_one(renderer, slots, states, index, children[k], depth + 1, Ghost(scene));
        assert(renderer.drawing() =~= inside.extend(
            scene.composed_all(list.take(k + 1), depth + 1),
        ));
        k = k + 1;
    }
    assert(list.take(list.len() as int) =~= list);

    renderer.end_transformation();
    if data.clip_bounds.is_some() {
        renderer.end_layer();
    }
    assert(renderer.drawing() =~= start.extend(scene.composed(i as int, depth as int)));
}

/// Outlines slot `i` and its descendants.
fn compose_outline_one<R: Renderer>(
    renderer: &mut R,
    slots: &[Arc<LayerSlot>],
    states: &SlotStates,
    index: &Vec<(LayerId, usize)>,
    i: usize,
    depth: u32,
    Ghost(scene): Ghost<Scene>,
)
    requires
        i < slots@.len(),
        scene == Scene::new(slots@, states@, old(renderer).drawing().backed),
        scene.wf(),
        is_index(scene, index@, slots@.len() as int),
    ensures
        final(renderer).drawing() == old(renderer).drawing().extend(
            scene.outlined(i as int, depth as int),
        ),
        final(renderer).kept() == old(renderer).kept(),
        old(renderer).wf() ==> final(renderer).wf(),
    decreases MAX_LAYER_DEPTH - depth,
{
    if depth >= MAX_LAYER_DEPTH {
        assert(renderer.drawing().extend(Seq::empty()) =~= renderer.drawing());
        return;
    }
    let ghost start = renderer.drawing();
    let slot = slots[i].clone();
    assert(scene.states.contains_key(scene.slots[i as int].id()@));
    let data = slot.read(states);
    let id = slot.id();
    let color = debug_layer_color(depth);

    renderer.start_layer(Rectangle::infinite());
    renderer.start_transformation(data.transform);
    renderer.fill_quad(
        Quad {
            bounds: data.bounds,
            border: Border { color, width: Scalar::one(), radius: Radius::zero() },
            shadow: Shadow::default(),
            snap: true,
        },
        Background::Color(Color::transparent()),
    );
    renderer.fill_layer_label(id, data.bounds, color);

    let ghost inside = renderer.drawing();
    let children = child_index::children(index, id, Ghost(scene));
    let ghost list = scene.children(scene.id(i as int));
    proof {
        child_index::lemma_children_below(scene, id, scene.slots.len() as int);
        assert(scene.outlined_all::<R::Primitive>(list.take(0), depth + 1) =~= Seq::empty());
        assert(inside.extend(Seq::empty()) =~= inside);
    }
    let mut k: usize = 0;
    while k < children.len()
        invariant
            k <= children@.len(),
            depth < MAX_LAYER_DEPTH,
            children@.map_values(|i: usize| i as int) == list,
            forall|x: int| #[trigger] list.contains(x) ==> 0 <= x < slots@.len(),
            scene == Scene::new(slots@, states@, inside.backed),
            scene.wf(),
            is_index(scene, index@, slots@.len() as int),
            renderer.drawing() == inside.extend(
                scene.outlined_all(list.take(k as int), depth + 1),
            ),
            renderer.kept() == old(renderer).kept(),
            old(renderer).wf() ==> renderer.wf(),
        decreases children@.len() - k,
    {
        proof {
            assert(list[k as int] == children@[k as int] as int);
            assert(list.contains(list[k as int]));
            assert(list.take(k + 1).drop_last() =~= list.take(k as int));
        }
        compose_outline_one(renderer, slots, states, index, children[k], depth + 1, Ghost(scene));
        assert(renderer.drawing() =~= inside.extend(
            scene.outlined_all(list.take(k + 1), depth + 1),
        ));
        k = k + 1;
    }
    assert(list.take(list.len() as int) =~= list);

    renderer.end_transformation();
    renderer.end_layer();
    assert(renderer.drawing() =~= start.extend(scene.outlined(i as int, depth as int)));
}

/// Returns whether one of the slots has the given id.
fn is_registered(slots: &[Arc<LayerSlot>], id: LayerId) -> (r: bool)
    ensures
        r == has_id(slots@, id),
{
    let mut i: usize = 0;
    while i < slots.len()
        invariant
            i <= slots@.len(),
            forall|j: int| 0 <= j < i ==> (#[trigger] slots@[j]).id() != id,
        decreases slots@.len() - i,
    {
        if slots[i].id() == id {
            return true;
        }
        i = i + 1;
    }
    false
}

/// Composites every registered slot into the current target of `renderer`.
///
/// `index` is scratch memory that is kept from frame to frame.
pub fn compose_layers<R: Renderer>(
    renderer: &mut R,
    registry: &LayerRegistry,
    states: &SlotStates,
    index: &mut Vec<(LayerId, usize)>,
    debug_outline: bool,
)
    requires
        Scene::new(registry.slots(), states@, old(renderer).drawing().backed).wf(),
    ensures
        final(renderer).drawing() == old(renderer).drawing().extend(
            Scene::new(registry.slots(), states@, old(renderer).drawing().backed).frame(
                debug_outline,
                registry.slots().len() as int,
            ),
        ),
        final(renderer).kept() == old(renderer).kept(),
        old(renderer).wf() ==> final(renderer).wf(),
{
    let slots = registry.registered();
    let ghost start = renderer.drawing();
    let ghost scene = Scene::new(slots@, states@, start.backed);
    assert(start.extend(Seq::empty()) =~= start);
    if slots.len() == 0 {
        return;
    }
    assert(Scene::new(slots@, states@, Set::empty()).wf()) by {
        assert forall|i: int| 0 <= i < slots@.len() implies states@.contains_key(
            (#[trigger] slots@[i]).id()@,
        ) by {
            assert(scene.states.contains_key(scene.slots[i].id()@));
        }
    }
    child_index::build(slots, states, index);
    let mut i: usize = 0;
    while i < slots.len()
        invariant
            i <= slots@.len(),
            scene == Scene::new(slots@, states@, start.backed),
            scene.wf(),
            is_index(scene, index@, slots@.len() as int),
            renderer.drawing() == start.extend(scene.frame(debug_outline, i as int)),
            renderer.kept() == old(renderer).kept(),
            old(renderer).wf() ==> renderer.wf(),
        decreases slots@.len() - i,
    {
        assert(scene.states.contains_key(scene.slots[i as int].id()@));
        let ghost before = renderer.drawing();
        let top_level = match slots[i].read(states).parent_id {
            Some(parent) => !is_registered(slots, parent),
            None => true,
        };
        if top_level {
            compose_one(renderer, slots, states, index, i, 0, Ghost(scene));
            if debug_outline {
                compose_outline_one(renderer, slots, states, index, i, 0, Ghost(scene));
            }
        }
        assert(renderer.drawing() =~= start.extend(scene.frame(debug_outline, i + 1)));
        i = i + 1;
    }
}

} // verus!
