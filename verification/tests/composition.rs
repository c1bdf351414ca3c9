use std::sync::Arc;

use layer_compositor::compose::{debug_layer_color, layer_label, MAX_LAYER_DEPTH};
use layer_compositor::geometry::{Color, Rectangle, Scalar, Size, Transformation};
use layer_compositor::layer::{LayerId, LayerRegistry, LayerSlot, SlotStates};
use layer_compositor::renderer::{
    Background, Border, Command, Quad, Radius, RecordTarget, Renderer as _, Settings, Shadow,
    TextureRecordMode,
};
use layer_compositor::shell::Shell;
use layer_compositor::software::Renderer;
use layer_compositor::texture_cache::{CacheFlags, TextureCache};

type Cmd = Command<u8>;

fn scalar(x: f32) -> Scalar {
    Scalar { bits: x.to_bits() }
}

fn square(size: f32) -> Rectangle {
    Rectangle::with_size(Size { width: scalar(size), height: scalar(size) })
}

fn shift(x: f32) -> Transformation {
    Transformation::translate(scalar(x), scalar(0.0))
}

fn target() -> RecordTarget {
    RecordTarget {
        size: Size { width: 8, height: 8 },
        extent: Size { width: scalar(8.0), height: scalar(8.0) },
        physical_size: Size { width: 8, height: 8 },
        scale_factor: scalar(1.0),
        scale_changed: false,
    }
}

struct World {
    flags: CacheFlags,
    states: SlotStates,
    registry: LayerRegistry,
    renderer: Renderer<u8>,
}

impl World {
    fn new() -> World {
        World {
            flags: CacheFlags::new(),
            states: SlotStates::new(),
            registry: LayerRegistry::new(),
            renderer: Renderer::new(Settings::default()),
        }
    }

    /// A slot whose cache has been recorded.
    fn slot(&mut self, parent: Option<LayerId>, x: f32) -> Arc<LayerSlot> {
        let cache = TextureCache::new(&mut self.flags);
        assert!(self.renderer.record_texture(
            TextureRecordMode::Flush,
            &mut self.flags,
            &cache,
            target()
        ));
        self.renderer.end_recording_texture();
        let slot = LayerSlot::new(cache, &mut self.states);
        slot.write(&mut self.states, |data| {
            data.parent_id = parent;
            data.transform = shift(x);
            data.bounds = square(x);
        });
        self.register(&slot);
        slot
    }

    /// A slot whose cache is never recorded.
    fn group(&mut self, parent: Option<LayerId>, x: f32) -> Arc<LayerSlot> {
        let cache = TextureCache::new(&mut self.flags);
        let slot = LayerSlot::new(cache, &mut self.states);
        slot.write(&mut self.states, |data| {
            data.parent_id = parent;
            data.transform = shift(x);
        });
        self.register(&slot);
        slot
    }

    fn register(&mut self, slot: &Arc<LayerSlot>) {
        let mut messages: Vec<u8> = Vec::new();
        Shell::with_layers(&mut messages, true).register_layer(&mut self.registry, slot.clone());
    }

    fn compose(&mut self, outline: bool) -> &[Cmd] {
        self.renderer.reset(square(100.0));
        self.renderer.compose_layers(&self.registry, &self.states, outline);
        self.renderer.layers()
    }
}

fn drawn(commands: &[Cmd]) -> Vec<u64> {
    commands
        .iter()
        .filter_map(|command| match command {
            Command::DrawCachedTexture(id, _) => Some(*id),
            _ => None,
        })
        .collect()
}

#[test]
fn no_layers_draw_nothing() {
    let mut world = World::new();
    assert!(world.compose(true).is_empty());
}

#[test]
fn a_layer_is_drawn_inside_its_transformation() {
    let mut world = World::new();
    let slot = world.slot(None, 3.0);
    let id = slot.cache().id().as_u64();
    let expected = vec![
        Cmd::StartTransformation(shift(3.0)),
        Cmd::DrawCachedTexture(id, square(3.0)),
        Cmd::EndTransformation,
    ];
    assert_eq!(world.compose(false), &expected[..]);
}

#[test]
fn a_clip_is_outside_the_transformation() {
    let mut world = World::new();
    let slot = world.slot(None, 3.0);
    slot.write(&mut world.states, |data| data.clip_bounds = Some(square(50.0)));
    let id = slot.cache().id().as_u64();
    let expected = vec![
        Cmd::StartLayer(square(50.0)),
        Cmd::StartTransformation(shift(3.0)),
        Cmd::DrawCachedTexture(id, square(3.0)),
        Cmd::EndTransformation,
        Cmd::EndLayer,
    ];
    assert_eq!(world.compose(false), &expected[..]);
}

#[test]
fn children_are_drawn_inside_their_parent_in_registration_order() {
    let mut world = World::new();
    let parent = world.slot(None, 1.0);
    let other = world.slot(None, 2.0);
    let late = world.slot(Some(other.id()), 3.0);
    let first = world.slot(Some(parent.id()), 4.0);
    let second = world.slot(Some(parent.id()), 5.0);
    let inner = world.slot(Some(first.id()), 6.0);
    let id = |slot: &Arc<LayerSlot>| slot.cache().id().as_u64();
    let expected = vec![
        Cmd::StartTransformation(shift(1.0)),
        Cmd::DrawCachedTexture(id(&parent), square(1.0)),
        Cmd::StartTransformation(shift(4.0)),
        Cmd::DrawCachedTexture(id(&first), square(4.0)),
        Cmd::StartTransformation(shift(6.0)),
        Cmd::DrawCachedTexture(id(&inner), square(6.0)),
        Cmd::EndTransformation,
        Cmd::EndTransformation,
        Cmd::StartTransformation(shift(5.0)),
        Cmd::DrawCachedTexture(id(&second), square(5.0)),
        Cmd::EndTransformation,
        Cmd::EndTransformation,
        Cmd::StartTransformation(shift(2.0)),
        Cmd::DrawCachedTexture(id(&other), square(2.0)),
        Cmd::StartTransformation(shift(3.0)),
        Cmd::DrawCachedTexture(id(&late), square(3.0)),
        Cmd::EndTransformation,
        Cmd::EndTransformation,
    ];
    assert_eq!(world.compose(false), &expected[..]);
}

#[test]
fn a_group_without_a_cache_still_shows_its_children() {
    let mut world = World::new();
    let group = world.group(None, 1.0);
    let child = world.slot(Some(group.id()), 2.0);
    let expected = vec![
        Cmd::StartTransformation(shift(1.0)),
        Cmd::StartTransformation(shift(2.0)),
        Cmd::DrawCachedTexture(child.cache().id().as_u64(), square(2.0)),
        Cmd::EndTransformation,
        Cmd::EndTransformation,
    ];
    assert_eq!(world.compose(false), &expected[..]);
}

#[test]
fn every_layer_outside_a_cycle_is_drawn_once() {
    let mut world = World::new();
    let root = world.slot(None, 1.0);
    let child = world.slot(Some(root.id()), 2.0);
    let orphan = world.slot(None, 3.0);
    let a = world.slot(None, 4.0);
    let b = world.slot(None, 5.0);
    let stranger = world.group(None, 6.0);
    let mut other = LayerRegistry::new();
    std::mem::swap(&mut other, &mut world.registry);
    for slot in [&root, &child, &orphan, &a, &b] {
        world.register(slot);
    }
    orphan.write(&mut world.states, |data| data.parent_id = Some(stranger.id()));
    a.write(&mut world.states, |data| data.parent_id = Some(b.id()));
    b.write(&mut world.states, |data| data.parent_id = Some(a.id()));
    let expected = vec![
        root.cache().id().as_u64(),
        child.cache().id().as_u64(),
        orphan.cache().id().as_u64(),
    ];
    assert_eq!(drawn(world.compose(false)), expected);
}

#[test]
fn a_layer_whose_parent_is_not_registered_keeps_its_children() {
    let mut world = World::new();
    let stranger = world.group(None, 6.0);
    world.registry.clear();
    let orphan = world.slot(Some(stranger.id()), 1.0);
    let child = world.slot(Some(orphan.id()), 2.0);
    let expected = vec![
        Cmd::StartTransformation(shift(1.0)),
        Cmd::DrawCachedTexture(orphan.cache().id().as_u64(), square(1.0)),
        Cmd::StartTransformation(shift(2.0)),
        Cmd::DrawCachedTexture(child.cache().id().as_u64(), square(2.0)),
        Cmd::EndTransformation,
        Cmd::EndTransformation,
    ];
    assert_eq!(world.compose(false), &expected[..]);
}

#[test]
fn nesting_stops_at_the_maximal_depth() {
    let mut world = World::new();
    let mut parent = None;
    for _ in 0..MAX_LAYER_DEPTH + 3 {
        parent = Some(world.slot(parent, 1.0).id());
    }
    assert_eq!(MAX_LAYER_DEPTH, 64);
    let expected: Vec<u64> = (1..=64).collect();
    assert_eq!(drawn(world.compose(false)), expected);
}

#[test]
fn a_frame_closes_what_it_opens() {
    let mut world = World::new();
    let a = world.slot(None, 1.0);
    a.write(&mut world.states, |data| data.clip_bounds = Some(square(9.0)));
    let b = world.slot(Some(a.id()), 2.0);
    b.write(&mut world.states, |data| data.clip_bounds = Some(square(8.0)));
    let _ = world.slot(None, 3.0);
    let mut open = Vec::new();
    for command in world.compose(true) {
        match command {
            Command::StartLayer(_) => open.push('l'),
            Command::StartTransformation(_) => open.push('t'),
            Command::EndLayer => assert_eq!(open.pop(), Some('l')),
            Command::EndTransformation => assert_eq!(open.pop(), Some('t')),
            _ => {}
        }
    }
    assert!(open.is_empty());
}

#[test]
fn outlines_follow_each_top_level_layer() {
    let mut world = World::new();
    let slot = world.slot(None, 3.0);
    slot.write(&mut world.states, |data| data.clip_bounds = Some(square(50.0)));
    let red = Color { r: scalar(1.0), g: scalar(0.0), b: scalar(0.0), a: scalar(1.0) };
    let quad = Quad {
        bounds: square(3.0),
        border: Border { color: red, width: scalar(1.0), radius: Radius::zero() },
        shadow: Shadow::default(),
        snap: true,
    };
    let everything = Rectangle {
        x: scalar(f32::NEG_INFINITY),
        y: scalar(f32::NEG_INFINITY),
        width: scalar(f32::INFINITY),
        height: scalar(f32::INFINITY),
    };
    let expected = vec![
        Cmd::StartLayer(everything),
        Cmd::StartTransformation(shift(3.0)),
        Cmd::FillQuad(quad, Background::Color(Color::transparent())),
        Cmd::FillLayerLabel(slot.id(), square(3.0), red),
        Cmd::EndTransformation,
        Cmd::EndLayer,
    ];
    assert_eq!(&world.compose(true)[5..], &expected[..]);
}

#[test]
fn outline_colors_repeat_after_six_levels() {
    let rgb = |depth: u32| {
        let color = debug_layer_color(depth);
        assert_eq!(color.a, scalar(1.0));
        let f = |s: Scalar| f32::from_bits(s.bits);
        (f(color.r), f(color.g), f(color.b))
    };
    let expected = [
        (1.0, 0.0, 0.0),
        (0.0, 1.0, 0.0),
        (0.0, 0.0, 1.0),
        (1.0, 1.0, 0.0),
        (1.0, 0.0, 1.0),
        (0.0, 1.0, 1.0),
    ];
    for depth in 0..64 {
        assert_eq!(rgb(depth), expected[depth as usize % 6]);
    }
}

#[test]
fn layers_are_named_by_their_ids() {
    let mut flags = CacheFlags::new();
    let mut states = SlotStates::new();
    for n in 1..=1234u64 {
        let slot = LayerSlot::new(TextureCache::new(&mut flags), &mut states);
        assert_eq!(layer_label(slot.id()), format!("Layer #{}", n));
    }
}

#[test]
fn moving_a_layer_moves_nothing_else() {
    let mut world = World::new();
    let a = world.slot(None, 1.0);
    let b = world.slot(Some(a.id()), 2.0);
    let c = world.slot(None, 3.0);
    let before: Vec<String> = world.compose(false).iter().map(|c| format!("{:?}", c)).collect();
    b.write(&mut world.states, |data| data.transform = shift(9.0));
    let after: Vec<String> = world.compose(false).iter().map(|c| format!("{:?}", c)).collect();
    assert_eq!(before.len(), after.len());
    let changed: Vec<usize> = (0..before.len()).filter(|i| before[*i] != after[*i]).collect();
    assert_eq!(changed, vec![2]);
    assert_eq!(after[2], format!("{:?}", Cmd::StartTransformation(shift(9.0))));
    let ids = drawn(world.compose(false));
    let expected: Vec<u64> = [&a, &b, &c].iter().map(|s| s.cache().id().as_u64()).collect();
    assert_eq!(ids, expected);
}
