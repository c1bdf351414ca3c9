use std::cell::RefCell;

use layer_compositor::geometry::{Rectangle, Scalar, Size, Transformation, Vector};
use layer_compositor::gpu::texture_cache::{FrameState, LayerState, Pipeline, Storage, UNIFORMS_SIZE};
use layer_compositor::gpu::{accepts, name, Backend, Geometry, GeometryCache, Renderer};
use layer_compositor::renderer::{
    Background, Command, Family, Quad, RecordTarget, Renderer as _, Settings, Style,
    TextureRecordMode, Weight,
};
use layer_compositor::geometry::Color;
use layer_compositor::texture_cache::{CacheFlags, TextureCache};

struct Device;

impl Backend for Device {
    type Primitive = &'static str;
    type Texture = (u32, u32);
    type State = String;
    type Buffer = u64;
    type BindGroup = u64;
}

type Cmd = Command<&'static str>;

fn scalar(x: f32) -> Scalar {
    Scalar { bits: x.to_bits() }
}

fn target(width: u32, height: u32) -> RecordTarget {
    RecordTarget {
        size: Size { width, height },
        extent: Size { width: scalar(width as f32), height: scalar(height as f32) },
        physical_size: Size { width: 2 * width, height: 2 * height },
        scale_factor: scalar(2.0),
        scale_changed: false,
    }
}

fn renderer() -> Renderer<Device> {
    Renderer::new(Settings::default(), "main".to_string(), 256)
}

fn allocate(size: Size<u32>) -> (u32, u32) {
    (size.width, size.height)
}

fn bounds() -> Rectangle {
    Rectangle::with_size(Size { width: scalar(5.0), height: scalar(6.0) })
}

#[test]
fn drawing_operations_are_recorded_in_order() {
    let mut renderer = renderer();
    let translation = Vector { x: scalar(1.0), y: scalar(2.0) };
    renderer.reset(bounds());
    assert_eq!(renderer.layers.bounds, bounds());
    renderer.with_layer(bounds(), |r: &mut Renderer<Device>| {
        r.with_translation(translation, |r: &mut Renderer<Device>| {
            r.fill_quad(Quad::default(), Background::Color(Color::black()));
            r.draw_primitive("text");
        });
    });
    let expected = vec![
        Cmd::StartLayer(bounds()),
        Cmd::StartTransformation(Transformation::translate(scalar(1.0), scalar(2.0))),
        Cmd::FillQuad(Quad::default(), Background::Color(Color::black())),
        Cmd::Draw("text"),
        Cmd::EndTransformation,
        Cmd::EndLayer,
    ];
    assert_eq!(renderer.layers.commands, expected);
    renderer.reset(bounds());
    assert!(renderer.layers.commands.is_empty());
}

#[test]
fn defaults_have_the_documented_values() {
    let settings = Settings::default();
    assert_eq!(f32::from_bits(settings.default_text_size.bits), 16.0);
    assert_eq!(settings.default_font.family, Family::SansSerif);
    assert_eq!(settings.default_font.weight, Weight::Normal);
    assert_eq!(Style::default().text_color, Color::black());
    let quad = Quad::default();
    assert_eq!(quad.bounds, Rectangle::with_size(Size::zero()));
    assert!(!quad.snap);
    let renderer = renderer();
    assert_eq!(renderer.default_font(), settings.default_font);
    assert_eq!(renderer.default_size(), settings.default_text_size);
}

#[test]
fn a_hint_is_remembered() {
    let mut renderer = renderer();
    assert!(renderer.scale_factor().is_none());
    renderer.hint(scalar(1.5));
    renderer.hint(scalar(2.5));
    assert_eq!(renderer.scale_factor(), Some(scalar(2.5)));
}

#[test]
fn unrecorded_caches_draw_nothing() {
    let mut flags = CacheFlags::new();
    let cache = TextureCache::new(&mut flags);
    let mut renderer = renderer();
    renderer.draw_cached_texture(&cache, bounds());
    assert!(renderer.layers.commands.is_empty());
}

#[test]
fn a_cache_is_not_drawn_during_its_first_recording() {
    let mut flags = CacheFlags::new();
    let cache = TextureCache::new(&mut flags);
    let id = cache.id().as_u64();
    let mut renderer = renderer();
    assert!(renderer.start_recording_texture(&mut flags, &cache, target(3, 4), allocate));
    renderer.draw_cached_texture(&cache, bounds());
    assert!(renderer.layers.commands.is_empty());
    renderer.end_recording_texture();
    assert!(renderer.texture_cache.pending[0].1.commands.is_empty());
    renderer.draw_cached_texture(&cache, bounds());
    assert_eq!(renderer.layers.commands, vec![Cmd::DrawCachedTexture(id, bounds())]);

    cache.invalidate(&mut flags);
    assert!(renderer.start_recording_texture(&mut flags, &cache, target(300, 4), allocate));
    renderer.draw_cached_texture(&cache, bounds());
    assert_eq!(renderer.layers.commands, vec![Cmd::DrawCachedTexture(id, bounds())]);
    renderer.end_recording_texture();
}

#[test]
fn a_recording_is_kept_apart_and_then_drawn_from_its_cache() {
    let mut flags = CacheFlags::new();
    let cache = TextureCache::new(&mut flags);
    let mut renderer = renderer();
    renderer.draw_primitive("before");
    renderer.draw_to_texture(&mut flags, &cache, target(100, 200), allocate, |r: &mut Renderer<Device>| {
        r.draw_primitive("inside");
    });
    renderer.draw_cached_texture(&cache, bounds());
    let id = cache.id().as_u64();
    assert_eq!(renderer.layers.commands, vec![Cmd::Draw("before"), Cmd::DrawCachedTexture(id, bounds())]);
    assert_eq!(renderer.texture_cache.pending.len(), 1);
    let (pending, recording) = &renderer.texture_cache.pending[0];
    assert_eq!(*pending, id);
    assert_eq!(recording.commands, vec![Cmd::Draw("inside")]);
    assert_eq!(
        recording.bounds,
        Rectangle::with_size(Size { width: scalar(100.0), height: scalar(200.0) })
    );
    let entry = &renderer.texture_cache.entries[&id];
    assert_eq!(entry.texture, (256, 512));
    assert_eq!(entry.texture_capacity_size, Size { width: 256, height: 512 });
    assert_eq!(entry.physical_size, Size { width: 200, height: 400 });
    assert_eq!(renderer.texture_cache.pipeline, Some(Pipeline { uniform_alignment: 256 }));
}

#[test]
fn a_fresh_cache_is_not_recorded_again() {
    let mut flags = CacheFlags::new();
    let cache = TextureCache::new(&mut flags);
    let mut renderer = renderer();
    let calls = RefCell::new(0);
    let record = |renderer: &mut Renderer<Device>, flags: &mut CacheFlags, target: RecordTarget| {
        let before = *calls.borrow();
        renderer.draw_to_texture(flags, &cache, target, allocate, |_: &mut Renderer<Device>| {
            *calls.borrow_mut() += 1;
        });
        *calls.borrow() > before
    };
    assert!(record(&mut renderer, &mut flags, target(10, 10)));
    assert!(!record(&mut renderer, &mut flags, target(10, 10)));
    assert!(!cache.is_invalidated(&flags));
    cache.invalidate(&mut flags);
    assert!(record(&mut renderer, &mut flags, target(10, 10)));
    assert!(record(&mut renderer, &mut flags, target(11, 10)));
    assert!(record(&mut renderer, &mut flags, target(11, 12)));
    let rounded = RecordTarget { physical_size: Size { width: 22, height: 23 }, ..target(11, 12) };
    assert!(record(&mut renderer, &mut flags, rounded));
    assert!(!record(&mut renderer, &mut flags, rounded));
    assert!(record(&mut renderer, &mut flags, RecordTarget { scale_changed: true, ..rounded }));
}

#[test]
fn textures_are_kept_while_they_hold_the_contents() {
    let mut flags = CacheFlags::new();
    let cache = TextureCache::new(&mut flags);
    let id = cache.id().as_u64();
    let mut renderer = renderer();
    let allocations = RefCell::new(Vec::new());
    let record = |renderer: &mut Renderer<Device>, flags: &mut CacheFlags, target: RecordTarget| {
        let began = renderer.start_recording_texture(flags, &cache, target, |size: Size<u32>| {
            allocations.borrow_mut().push((size.width, size.height));
            (size.width, size.height)
        });
        assert!(began);
        renderer.end_recording_texture();
    };
    record(&mut renderer, &mut flags, target(60, 10));
    record(&mut renderer, &mut flags, target(64, 20));
    record(&mut renderer, &mut flags, target(3, 3));
    assert_eq!(*allocations.borrow(), vec![(128, 128)]);
    renderer.texture_cache.entries.get_mut(&id).unwrap().state = Some("warm".to_string());
    record(&mut renderer, &mut flags, target(65, 20));
    record(&mut renderer, &mut flags, target(1, 300));
    assert_eq!(*allocations.borrow(), vec![(128, 128), (256, 128), (256, 1024)]);
    let entry = &renderer.texture_cache.entries[&id];
    assert_eq!(entry.state, Some("warm".to_string()));
    assert_eq!(entry.size, Size { width: 1, height: 300 });
    assert_eq!(entry.texture, (256, 1024));
    assert_eq!(renderer.texture_cache.pending.len(), 1);
}

#[test]
fn traversing_a_fresh_cache_records_nothing_to_keep() {
    let mut flags = CacheFlags::new();
    let cache = TextureCache::new(&mut flags);
    let mut renderer = renderer();
    let traverse = TextureRecordMode::TraverseOnly;
    renderer.draw_primitive("outside");
    assert!(renderer.record_texture(traverse, &mut flags, &cache, target(4, 4), allocate));
    renderer.draw_primitive("first");
    renderer.end_recording_texture();
    assert_eq!(renderer.texture_cache.pending.len(), 1);
    assert!(renderer.record_texture(traverse, &mut flags, &cache, target(4, 4), allocate));
    assert!(renderer.layers.commands.is_empty());
    renderer.draw_primitive("second");
    renderer.end_recording_texture();
    assert_eq!(renderer.texture_cache.pending.len(), 1);
    assert_eq!(renderer.texture_cache.pending[0].1.commands, vec![Cmd::Draw("first")]);
    assert_eq!(renderer.layers.commands, vec![Cmd::Draw("outside")]);
    let flush = TextureRecordMode::Flush;
    assert!(!renderer.record_texture(flush, &mut flags, &cache, target(4, 4), allocate));
}

#[test]
fn recordings_can_be_nested() {
    let mut flags = CacheFlags::new();
    let outer = TextureCache::new(&mut flags);
    let inner = TextureCache::new(&mut flags);
    let mut renderer = renderer();
    renderer.draw_primitive("frame");
    assert!(renderer.start_recording_texture(&mut flags, &outer, target(9, 9), allocate));
    renderer.draw_primitive("outer");
    assert!(renderer.start_recording_texture(&mut flags, &inner, target(3, 3), allocate));
    renderer.draw_primitive("inner");
    renderer.end_recording_texture();
    renderer.draw_cached_texture(&inner, bounds());
    renderer.end_recording_texture();
    assert_eq!(renderer.layers.commands, vec![Cmd::Draw("frame")]);
    let order: Vec<u64> = renderer.texture_cache.pending.iter().map(|(id, _)| *id).collect();
    assert_eq!(order, vec![2, 1]);
    assert_eq!(
        renderer.texture_cache.pending[1].1.commands,
        vec![Cmd::Draw("outer"), Cmd::DrawCachedTexture(2, bounds())]
    );
    assert!(renderer.texture_cache.recording_stack.is_empty());
}

#[test]
fn ending_a_recording_outside_one_does_nothing() {
    let mut renderer = renderer();
    renderer.draw_primitive("frame");
    renderer.end_recording_texture();
    assert_eq!(renderer.layers.commands, vec![Cmd::Draw("frame")]);
    assert!(renderer.texture_cache.pending.is_empty());
}

#[test]
fn a_later_recording_replaces_an_earlier_one_and_moves_behind() {
    let mut flags = CacheFlags::new();
    let a = TextureCache::new(&mut flags);
    let b = TextureCache::new(&mut flags);
    let mut renderer = renderer();
    for (cache, primitive) in [(&a, "one"), (&b, "two"), (&a, "three")] {
        cache.invalidate(&mut flags);
        assert!(renderer.start_recording_texture(&mut flags, cache, target(4, 4), allocate));
        renderer.draw_primitive(primitive);
        renderer.end_recording_texture();
    }
    let pending: Vec<(u64, &Cmd)> =
        renderer.texture_cache.pending.iter().map(|(id, r)| (*id, &r.commands[0])).collect();
    assert_eq!(pending, vec![(2, &Cmd::Draw("two")), (1, &Cmd::Draw("three"))]);
}

#[test]
fn flushing_swaps_the_buffers_in_and_out() {
    let mut flags = CacheFlags::new();
    let a = TextureCache::new(&mut flags);
    let b = TextureCache::new(&mut flags);
    let mut renderer = renderer();
    renderer.draw_primitive("frame");
    for cache in [&a, &b] {
        assert!(renderer.start_recording_texture(&mut flags, cache, target(4, 4), allocate));
        renderer.draw_primitive("cached");
        renderer.end_recording_texture();
    }
    let mut order = Vec::new();
    while let Some(flush) = renderer.next_flush(|| "new".to_string()) {
        order.push(flush.id);
        assert_eq!(renderer.layers.commands, vec![Cmd::Draw("cached")]);
        assert_eq!(renderer.state, "new");
        assert_eq!(flush.entry.state, Some("main".to_string()));
        assert_eq!(flush.entry.texture_capacity_size, Size { width: 128, height: 128 });
        assert!(!renderer.texture_cache.entries.contains_key(&flush.id));
        renderer.state = format!("rendered {}", flush.id);
        renderer.finish_flush(flush);
    }
    assert_eq!(order, vec![1, 2]);
    assert_eq!(renderer.state, "main");
    assert_eq!(renderer.layers.commands, vec![Cmd::Draw("frame")]);
    assert_eq!(renderer.texture_cache.entries.len(), 2);
    assert_eq!(renderer.texture_cache.entries[&2].state, Some("rendered 2".to_string()));
    a.invalidate(&mut flags);
    assert!(renderer.start_recording_texture(&mut flags, &a, target(4, 4), allocate));
    renderer.end_recording_texture();
    let flush = renderer.next_flush(|| "new".to_string()).unwrap();
    assert_eq!(renderer.state, "rendered 1");
    renderer.finish_flush(flush);
    assert!(renderer.next_flush(|| "new".to_string()).is_none());
}

#[test]
fn recordings_of_reclaimed_caches_are_dropped() {
    let mut flags = CacheFlags::new();
    let a = TextureCache::new(&mut flags);
    let b = TextureCache::new(&mut flags);
    let mut renderer = renderer();
    for cache in [&a, &b] {
        assert!(renderer.start_recording_texture(&mut flags, cache, target(4, 4), allocate));
        renderer.end_recording_texture();
    }
    flags.release(a);
    renderer.texture_cache.reclaim(&flags);
    assert!(!renderer.texture_cache.entries.contains_key(&1));
    assert!(renderer.texture_cache.entries.contains_key(&2));
    let flush = renderer.next_flush(|| String::new()).unwrap();
    assert_eq!(flush.id, 2);
    renderer.finish_flush(flush);
    flags.release(b);
    renderer.texture_cache.reclaim(&flags);
    assert!(renderer.next_flush(|| String::new()).is_none());
    assert!(renderer.texture_cache.pending.is_empty());
}

#[test]
fn live_geometry_is_drawn_in_order() {
    let mut renderer = renderer();
    renderer.draw_geometry(Geometry::Live {
        meshes: "meshes",
        images: vec!["first", "second"],
        text: "text",
    });
    let expected: Vec<Cmd> =
        ["meshes", "first", "second", "text"].into_iter().map(Cmd::Draw).collect();
    assert_eq!(renderer.layers.commands, expected);
}

#[test]
fn cached_geometry_draws_what_there_is() {
    let mut renderer = renderer();
    renderer.draw_geometry(Geometry::Cached(GeometryCache {
        meshes: None,
        images: Some(vec!["image"]),
        text: Some("text"),
    }));
    renderer.draw_geometry(Geometry::Cached(GeometryCache {
        meshes: Some("meshes"),
        images: None,
        text: None,
    }));
    let expected: Vec<Cmd> = ["image", "text", "meshes"].into_iter().map(Cmd::Draw).collect();
    assert_eq!(renderer.layers.commands, expected);
}

#[test]
fn the_gpu_backend_goes_by_its_name() {
    assert_eq!(name(), "wgpu");
    assert!(accepts(None));
    assert!(accepts(Some("wgpu")));
    assert!(!accepts(Some("wgpu ")));
    assert!(!accepts(Some("tiny-skia")));
    assert!(!accepts(Some("")));
}

#[test]
fn a_new_storage_is_empty() {
    let storage: Storage<Device> = Storage::default();
    assert!(storage.entries.is_empty());
    assert!(storage.pending.is_empty());
    assert!(storage.recording_stack.is_empty());
    assert!(storage.pipeline.is_none());
}

#[test]
fn uniforms_are_at_least_their_size_apart() {
    assert_eq!(UNIFORMS_SIZE, 96);
    assert_eq!(Pipeline::new(0).uniform_alignment, 96);
    assert_eq!(Pipeline::new(64).uniform_alignment, 96);
    assert_eq!(Pipeline::new(96).uniform_alignment, 96);
    assert_eq!(Pipeline::new(256).uniform_alignment, 256);
    assert_eq!(Pipeline::new(u32::MAX).uniform_alignment, u32::MAX as u64);
}

#[test]
fn buffers_grow_to_the_number_of_instances() {
    let pipeline = Pipeline::new(256);
    let sizes = RefCell::new(Vec::new());
    let create = |size: u64| {
        sizes.borrow_mut().push(size);
        (size, size + 1)
    };
    let mut state: LayerState<Device> = LayerState::new();
    state.ensure_capacity(&pipeline, 0, &create);
    assert!(state.uniform_buffer.is_none());
    state.ensure_capacity(&pipeline, 3, &create);
    state.ensure_capacity(&pipeline, 2, &create);
    assert_eq!(state.capacity, 3);
    state.ensure_capacity(&pipeline, 4, &create);
    assert_eq!(state.capacity, 4);
    assert_eq!(state.uniform_buffer, Some(1024));
    assert_eq!(state.constant_bind_group, Some(1025));
    assert_eq!(*sizes.borrow(), vec![768, 1024]);
}

#[test]
fn a_layer_state_holds_the_greatest_count() {
    let pipeline = Pipeline::new(256);
    let mut state: LayerState<Device> = LayerState::new();
    let mut greatest = 0;
    for count in [0, 2, 1, 5, 0, 5, 4, 9, 3] {
        state.ensure_capacity(&pipeline, count, &|size| (size, size + 1));
        greatest = count.max(greatest);
        assert_eq!(state.capacity, greatest);
        assert_eq!(state.uniform_buffer.is_some(), greatest > 0);
        assert_eq!(state.constant_bind_group.is_some(), greatest > 0);
        assert_eq!(state.uniform_buffer.unwrap_or(0), 256 * u64::from(greatest));
    }
}

#[test]
fn textures_never_shrink_and_grow_only_when_exceeded() {
    let mut flags = CacheFlags::new();
    let cache = TextureCache::new(&mut flags);
    let other = TextureCache::new(&mut flags);
    let mut renderer = renderer();
    renderer.draw_to_texture(&mut flags, &other, target(7, 8), allocate, |_: &mut Renderer<Device>| {});
    let mut capacity = Size { width: 0, height: 0 };
    let id = cache.id().as_u64();
    for (width, height) in [(10, 10), (64, 64), (65, 1), (3, 200), (100, 150), (1, 1), (300, 300)] {
        let target = target(width, height);
        renderer.draw_to_texture(&mut flags, &cache, target, allocate, |_: &mut Renderer<Device>| {});
        let entry = &renderer.texture_cache.entries[&id];
        let grown = entry.texture_capacity_size;
        assert!(grown.width.is_power_of_two() && grown.height.is_power_of_two());
        assert!(grown.width >= 128 && grown.height >= 128);
        assert!(grown.width >= 2 * width && grown.height >= 2 * height);
        assert!(grown.width >= capacity.width && grown.height >= capacity.height);
        let held = 2 * width <= capacity.width && 2 * height <= capacity.height;
        assert_eq!(held, grown == capacity);
        assert_eq!(entry.physical_size, target.physical_size);
        capacity = grown;
    }
    assert_eq!(capacity, Size { width: 1024, height: 1024 });
    let untouched = &renderer.texture_cache.entries[&other.id().as_u64()];
    assert_eq!(untouched.texture_capacity_size, Size { width: 128, height: 128 });
}

#[test]
fn a_second_recording_of_the_same_size_is_skipped() {
    let mut flags = CacheFlags::new();
    let cache = TextureCache::new(&mut flags);
    let mut renderer = renderer();
    let changed = RecordTarget { scale_changed: true, ..target(3, 4) };
    let mut calls = 0;
    for target in [changed, target(3, 4), target(3, 4)] {
        renderer.draw_to_texture(&mut flags, &cache, target, allocate, |_: &mut Renderer<Device>| {
            calls += 1;
        });
    }
    assert_eq!(calls, 1);
    cache.invalidate(&mut flags);
    renderer.draw_to_texture(&mut flags, &cache, target(3, 4), allocate, |_: &mut Renderer<Device>| {
        calls += 1;
    });
    assert_eq!(calls, 2);
}

#[test]
fn trimming_starts_the_frame_over() {
    let mut frame: FrameState<Device> = FrameState::new();
    frame.layers.push(LayerState::default());
    frame.prepare_layer = 1;
    frame.render_layer = 1;
    frame.trim();
    assert_eq!((frame.prepare_layer, frame.render_layer), (0, 0));
    assert_eq!(frame.layers.len(), 1);
}
