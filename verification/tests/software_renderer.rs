use layer_compositor::geometry::{Color, Rectangle, Scalar, Size};
use layer_compositor::renderer::{
    Background, Command, Quad, RecordTarget, Renderer as _, Settings, TextureRecordMode,
};
use layer_compositor::software::frame::{render_steps, GroupSummary, LayerSummary, RenderStep};
use layer_compositor::software::texture_cache::Storage;
use layer_compositor::software::{accepts, name, Geometry, Renderer};
use layer_compositor::texture_cache::{CacheFlags, TextureCache};

type Cmd = Command<&'static str>;

fn scalar(x: f32) -> Scalar {
    Scalar { bits: x.to_bits() }
}

fn target(width: u32, height: u32) -> RecordTarget {
    RecordTarget {
        size: Size { width, height },
        extent: Size { width: scalar(width as f32), height: scalar(height as f32) },
        physical_size: Size { width: 2 * width, height: 2 * height },
        scale_factor: scalar(2.0),
        scale_changed: false,
    }
}

fn bounds() -> Rectangle {
    Rectangle::with_size(Size { width: scalar(5.0), height: scalar(6.0) })
}

fn record(
    renderer: &mut Renderer<&'static str>,
    flags: &mut CacheFlags,
    cache: &TextureCache,
    target: RecordTarget,
    primitive: &'static str,
) -> bool {
    let began = renderer.record_texture(TextureRecordMode::Flush, flags, cache, target);
    if began {
        renderer.draw_primitive(primitive);
        renderer.end_recording_texture();
    }
    began
}

#[test]
fn pixmaps_have_the_physical_size() {
    let mut flags = CacheFlags::new();
    let cache = TextureCache::new(&mut flags);
    let mut renderer: Renderer<&'static str> = Renderer::new(Settings::default());
    assert!(record(&mut renderer, &mut flags, &cache, target(3, 5), "a"));
    let entry = &renderer.texture_cache.entries[&1];
    assert_eq!((entry.pixmap.width(), entry.pixmap.height()), (6, 10));
    assert_eq!(entry.pixmap.data().len(), 240);
    assert!(entry.pixmap.data().iter().all(|byte| *byte == 0));
}

#[test]
fn an_empty_cache_has_one_pixel() {
    let mut flags = CacheFlags::new();
    let cache = TextureCache::new(&mut flags);
    let mut renderer: Renderer<&'static str> = Renderer::new(Settings::default());
    assert!(record(&mut renderer, &mut flags, &cache, target(0, 0), "a"));
    let entry = &renderer.texture_cache.entries[&1];
    assert_eq!((entry.pixmap.width(), entry.pixmap.height()), (1, 1));
    let flush = renderer.next_flush().unwrap();
    assert_eq!((flush.clip_mask.width(), flush.clip_mask.height()), (1, 1));
}

#[test]
fn a_pixmap_of_the_right_size_is_kept() {
    let mut flags = CacheFlags::new();
    let cache = TextureCache::new(&mut flags);
    let mut renderer: Renderer<&'static str> = Renderer::new(Settings::default());
    assert!(record(&mut renderer, &mut flags, &cache, target(3, 5), "a"));
    renderer.texture_cache.entries.get_mut(&1).unwrap().pixmap.data_mut()[0] = 9;
    let other_size = RecordTarget { size: Size { width: 4, height: 5 }, ..target(3, 5) };
    assert!(record(&mut renderer, &mut flags, &cache, other_size, "b"));
    let entry = &renderer.texture_cache.entries[&1];
    assert_eq!(entry.pixmap.data()[0], 9);
    assert_eq!(entry.size, Size { width: 4, height: 5 });
    assert!(record(&mut renderer, &mut flags, &cache, target(4, 5), "c"));
    let entry = &renderer.texture_cache.entries[&1];
    assert_eq!(entry.pixmap.data()[0], 0);
    assert_eq!(entry.pixmap.width(), 8);
}

#[test]
fn a_fresh_pixmap_is_not_recorded_again() {
    let mut flags = CacheFlags::new();
    let cache = TextureCache::new(&mut flags);
    let mut renderer: Renderer<&'static str> = Renderer::new(Settings::default());
    assert!(record(&mut renderer, &mut flags, &cache, target(3, 5), "a"));
    assert!(!record(&mut renderer, &mut flags, &cache, target(3, 5), "b"));
    assert!(record(
        &mut renderer,
        &mut flags,
        &cache,
        RecordTarget { scale_changed: true, ..target(3, 5) },
        "c"
    ));
    cache.invalidate(&mut flags);
    let mut calls = 0;
    renderer.draw_to_texture(&mut flags, &cache, target(3, 5), |_| (), |_: &mut Renderer<&'static str>| {
        calls += 1;
    });
    renderer.draw_to_texture(&mut flags, &cache, target(3, 5), |_| (), |_: &mut Renderer<&'static str>| {
        calls += 1;
    });
    assert_eq!(calls, 1);
}

#[test]
fn traversing_a_fresh_pixmap_keeps_nothing() {
    let mut flags = CacheFlags::new();
    let cache = TextureCache::new(&mut flags);
    let mut renderer: Renderer<&'static str> = Renderer::new(Settings::default());
    assert!(record(&mut renderer, &mut flags, &cache, target(3, 5), "a"));
    let traverse = TextureRecordMode::TraverseOnly;
    assert!(renderer.record_texture(traverse, &mut flags, &cache, target(3, 5)));
    renderer.draw_primitive("b");
    renderer.end_recording_texture();
    assert_eq!(renderer.texture_cache.pending.len(), 1);
    assert_eq!(renderer.texture_cache.pending[0].1.commands, vec![Cmd::Draw("a")]);
}

#[test]
fn flushing_hands_out_transparent_pixmaps() {
    let mut flags = CacheFlags::new();
    let a = TextureCache::new(&mut flags);
    let b = TextureCache::new(&mut flags);
    let c = TextureCache::new(&mut flags);
    let mut renderer: Renderer<&'static str> = Renderer::new(Settings::default());
    renderer.draw_primitive("frame");
    for (cache, primitive) in [(&a, "a"), (&b, "b"), (&c, "c")] {
        assert!(record(&mut renderer, &mut flags, cache, target(3, 5), primitive));
    }
    flags.release(b);
    renderer.texture_cache.reclaim(&flags);
    renderer.texture_cache.entries.get_mut(&1).unwrap().pixmap.data_mut()[7] = 200;
    let mut order = Vec::new();
    while let Some(flush) = renderer.next_flush() {
        order.push((flush.id, flush.layers.commands.len()));
        assert!(flush.entry.pixmap.data().iter().all(|byte| *byte == 0));
        assert_eq!(flush.entry.pixmap.data().len(), 240);
        assert_eq!((flush.clip_mask.width(), flush.clip_mask.height()), (6, 10));
        assert!(flush.clip_mask.data().iter().all(|byte| *byte == 0));
        assert!(!renderer.texture_cache.entries.contains_key(&flush.id));
        let mut entry = flush.entry;
        entry.pixmap.data_mut()[0] = 1;
        renderer.finish_flush(flush.id, entry);
    }
    assert_eq!(order, vec![(1, 1), (3, 1)]);
    assert_eq!(renderer.texture_cache.entries[&3].pixmap.data()[0], 1);
    assert!(renderer.texture_cache.pending.is_empty());
    assert_eq!(renderer.layers(), &[Cmd::Draw("frame")]);
}

#[test]
fn cached_pixmaps_are_drawn_if_they_exist() {
    let mut flags = CacheFlags::new();
    let a = TextureCache::new(&mut flags);
    let b = TextureCache::new(&mut flags);
    let mut renderer: Renderer<&'static str> = Renderer::new(Settings::default());
    assert!(record(&mut renderer, &mut flags, &a, target(3, 5), "a"));
    renderer.draw_cached_texture(&b, bounds());
    renderer.draw_cached_texture(&a, bounds());
    assert_eq!(renderer.layers(), &[Cmd::DrawCachedTexture(1, bounds())]);
    renderer.reset(bounds());
    assert!(renderer.layers().is_empty());
}

#[test]
fn a_pixmap_is_not_drawn_during_its_first_recording() {
    let mut flags = CacheFlags::new();
    let a = TextureCache::new(&mut flags);
    let mut renderer: Renderer<&'static str> = Renderer::new(Settings::default());
    let mode = TextureRecordMode::Flush;
    assert!(renderer.record_texture(mode, &mut flags, &a, target(3, 5)));
    renderer.draw_cached_texture(&a, bounds());
    assert!(renderer.layers().is_empty());
    renderer.end_recording_texture();
    renderer.draw_cached_texture(&a, bounds());
    assert_eq!(renderer.layers(), &[Cmd::DrawCachedTexture(1, bounds())]);
    let flush = renderer.next_flush().unwrap();
    assert!(flush.entry.recorded);
    renderer.finish_flush(flush.id, flush.entry);
    renderer.draw_cached_texture(&a, bounds());
    assert_eq!(renderer.layers().len(), 2);
    assert!(renderer.record_texture(mode, &mut flags, &a, target(4, 5)));
    renderer.draw_cached_texture(&a, bounds());
    assert_eq!(renderer.layers(), &[Cmd::DrawCachedTexture(1, bounds())]);
}

#[test]
fn what_a_closure_draws_waits_to_be_rendered() {
    let mut flags = CacheFlags::new();
    let a = TextureCache::new(&mut flags);
    let mut renderer: Renderer<&'static str> = Renderer::new(Settings::default());
    renderer.draw_primitive("frame");
    let fill = |r: &mut Renderer<&'static str>| {
        r.draw_primitive("first");
        r.draw_primitive("second");
    };
    renderer.draw_to_texture(&mut flags, &a, target(3, 5), |_| (), fill);
    assert_eq!(renderer.layers(), &[Cmd::Draw("frame")]);
    assert_eq!(renderer.texture_cache.pending.len(), 1);
    let (id, waiting) = &renderer.texture_cache.pending[0];
    assert_eq!(*id, 1);
    assert_eq!(waiting.commands, vec![Cmd::Draw("first"), Cmd::Draw("second")]);
    let extent = Size { width: scalar(3.0), height: scalar(5.0) };
    assert_eq!(waiting.bounds, Rectangle::with_size(extent));
}

#[test]
fn software_geometry_is_drawn_in_order() {
    let mut renderer: Renderer<&'static str> = Renderer::new(Settings::default());
    renderer.draw_geometry(Geometry {
        primitives: "paths",
        images: vec!["first", "second"],
        text: "text",
    });
    let expected: Vec<Cmd> =
        ["paths", "first", "second", "text"].into_iter().map(Cmd::Draw).collect();
    assert_eq!(renderer.layers(), &expected[..]);
}

#[test]
fn the_software_backend_goes_by_three_names() {
    assert_eq!(name(), "tiny-skia");
    assert!(accepts(None));
    assert!(accepts(Some("tiny-skia")));
    assert!(accepts(Some("tiny_skia")));
    assert!(accepts(Some("software")));
    assert!(!accepts(Some("wgpu")));
}

#[test]
fn a_layer_is_rasterized_in_order() {
    let mut flags = CacheFlags::new();
    let cache = TextureCache::new(&mut flags);
    let mut renderer: Renderer<&'static str> = Renderer::new(Settings::default());
    assert!(record(&mut renderer, &mut flags, &cache, target(0, 5), "a"));
    let layer = LayerSummary {
        visible: true,
        quads: 2,
        primitives: vec![
            GroupSummary { visible: true, primitives: 2 },
            GroupSummary { visible: false, primitives: 9 },
            GroupSummary { visible: true, primitives: 0 },
        ],
        images: 1,
        text: vec![1, 0, 2],
        cached_textures: vec![8, 1],
    };
    let expected = vec![
        RenderStep::ClipToLayer,
        RenderStep::Quad(0),
        RenderStep::Quad(1),
        RenderStep::ClipToGroup(0),
        RenderStep::Primitive(0, 0),
        RenderStep::Primitive(0, 1),
        RenderStep::ClipToLayer,
        RenderStep::ClipToGroup(2),
        RenderStep::ClipToLayer,
        RenderStep::Image(0),
        RenderStep::Text(0, 0),
        RenderStep::Text(2, 0),
        RenderStep::Text(2, 1),
        RenderStep::CachedTexture { index: 1, source: Size { width: 1, height: 10 } },
    ];
    assert_eq!(render_steps(&layer, &renderer.texture_cache), expected);
    let hidden = LayerSummary { visible: false, ..layer };
    assert!(render_steps(&hidden, &renderer.texture_cache).is_empty());
}

#[test]
fn a_new_pixmap_storage_is_empty() {
    let storage: Storage<u8> = Storage::default();
    assert!(storage.entries.is_empty());
    assert!(storage.pending.is_empty());
    assert!(storage.recording_stack.is_empty());
}

#[test]
fn software_rendering_remembers_the_last_hint() {
    let mut renderer: Renderer<u8> = Renderer::new(Settings::default());
    assert!(renderer.scale_factor().is_none());
    renderer.hint(scalar(1.0));
    renderer.hint(scalar(2.0));
    renderer.fill_quad(Quad::default(), Background::Color(Color::black()));
    renderer.reset(Rectangle::with_size(Size::zero()));
    assert_eq!(renderer.scale_factor(), Some(scalar(2.0)));
}
