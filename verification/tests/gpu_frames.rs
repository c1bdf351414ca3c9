use layer_compositor::geometry::{Color, Rectangle, Scalar, Size, Transformation};
use layer_compositor::gpu::frame::{
    composite, layers_rendered, load_of, need_render, prepare, undrawn_steps, visible_primitives,
    Fraction, LayerSummary, Load, PrepareStep, RenderCursor, RenderStep, UvMax,
};
use layer_compositor::gpu::texture_cache::{
    Entry, FrameState, Instance, LayerState, Pipeline, Storage,
};
use layer_compositor::gpu::Backend;

struct Device;

impl Backend for Device {
    type Primitive = u8;
    type Texture = &'static str;
    type State = ();
    type Buffer = u64;
    type BindGroup = &'static str;
}

fn scalar(x: f32) -> Scalar {
    Scalar { bits: x.to_bits() }
}

fn rect(n: u32) -> Rectangle<u32> {
    Rectangle { x: n, y: n + 1, width: n + 2, height: n + 3 }
}

fn instance(cache_id: u64) -> Instance {
    Instance {
        cache_id,
        bounds: Rectangle {
            x: scalar(1.0),
            y: scalar(2.0),
            width: scalar(3.0),
            height: scalar(4.0),
        },
    }
}

fn layer(n: u32, caches: &[u64]) -> LayerSummary {
    LayerSummary {
        scissor_rect: Some(rect(n)),
        quads: 0,
        triangles: 0,
        primitives: Vec::new(),
        images: 0,
        text: 0,
        cached_textures: caches.iter().map(|id| instance(*id)).collect(),
    }
}

fn full(n: u32, caches: &[u64]) -> LayerSummary {
    LayerSummary {
        quads: 2,
        triangles: 1,
        primitives: vec![Some(rect(7)), None, Some(rect(9))],
        images: 1,
        text: 3,
        ..layer(n, caches)
    }
}

fn storage(caches: &[(u64, u32, u32)]) -> Storage<Device> {
    let mut storage = Storage::new();
    for (id, contents, capacity) in caches {
        let entry = Entry {
            texture: if *id == 1 { "one" } else { "other" },
            state: None,
            size: Size { width: 1, height: 1 },
            physical_size: Size { width: *contents, height: *contents },
            texture_capacity_size: Size { width: *capacity, height: 2 * *capacity },
            scale_factor: scalar(1.0),
            recorded: true,
        };
        let _ = storage.entries.insert(*id, entry);
        storage.pipeline = Some(Pipeline::new(256));
    }
    storage
}

fn create(size: u64) -> (u64, &'static str) {
    (size, "binding")
}

fn fraction(numerator: u32, denominator: u32) -> Fraction {
    Fraction { numerator, denominator }
}

#[test]
fn layers_are_prepared_in_order() {
    let storage = storage(&[(1, 100, 128)]);
    let mut frame: FrameState<Device> = FrameState::new();
    let hidden = LayerSummary { scissor_rect: None, ..full(0, &[1]) };
    let layers = vec![hidden, full(1, &[1, 5]), layer(2, &[]), layer(3, &[1])];
    let steps = prepare(&layers, &storage, &mut frame, &create);
    let one = UvMax { width: fraction(100, 128), height: fraction(100, 256) };
    let all = UvMax { width: fraction(1, 1), height: fraction(1, 1) };
    let expected = vec![
        PrepareStep::Quads(1),
        PrepareStep::Triangles(1),
        PrepareStep::Primitive(1, 0),
        PrepareStep::Primitive(1, 1),
        PrepareStep::Primitive(1, 2),
        PrepareStep::Images(1),
        PrepareStep::Text(1),
        PrepareStep::CachedTexture { layer: 1, index: 0, state: 0, uv_max: one },
        PrepareStep::CachedTexture { layer: 1, index: 1, state: 0, uv_max: all },
        PrepareStep::CachedTexture { layer: 3, index: 0, state: 1, uv_max: one },
    ];
    assert_eq!(steps, expected);
    assert_eq!(frame.prepare_layer, 2);
    assert_eq!(frame.render_layer, 0);
    assert_eq!(frame.layers.len(), 2);
    assert_eq!(frame.layers[0].uniform_buffer, Some(512));
    assert_eq!(frame.layers[0].capacity, 2);
    assert_eq!(frame.layers[1].uniform_buffer, Some(256));
}

#[test]
fn empty_contents_take_up_nothing_of_their_texture() {
    let storage = storage(&[(1, 0, 128)]);
    let mut frame: FrameState<Device> = FrameState::new();
    let steps = prepare(&vec![layer(0, &[1])], &storage, &mut frame, &create);
    let uv_max = UvMax { width: fraction(0, 128), height: fraction(0, 256) };
    assert_eq!(steps, vec![PrepareStep::CachedTexture { layer: 0, index: 0, state: 0, uv_max }]);
}

#[test]
fn buffers_are_reused_by_the_next_frame() {
    let storage = storage(&[(1, 10, 128)]);
    let mut frame: FrameState<Device> = FrameState::new();
    let layers = vec![layer(0, &[1, 1, 1])];
    let _ = prepare(&layers, &storage, &mut frame, &create);
    frame.trim();
    let _ = prepare(&vec![layer(0, &[1])], &storage, &mut frame, &create);
    assert_eq!(frame.layers.len(), 1);
    assert_eq!(frame.layers[0].capacity, 3);
}

#[test]
fn layers_are_rendered_in_order() {
    let storage = storage(&[(1, 100, 128)]);
    let frame: FrameState<Device> = FrameState::new();
    let mut cursor = RenderCursor::new(&frame);
    let layer = full(4, &[1, 5]);
    let first = vec![
        RenderStep::Quads { state: 0, scissor_rect: rect(4) },
        RenderStep::EndPass,
        RenderStep::Triangles { state: 0 },
        RenderStep::BeginPass,
        RenderStep::Primitives,
        RenderStep::Images { state: 0, scissor_rect: rect(4) },
        RenderStep::Text { state: 0, scissor_rect: rect(4) },
        RenderStep::CachedTextures { state: 0, scissor_rect: rect(4) },
    ];
    assert_eq!(cursor.steps(&layer, &storage), first);
    cursor.advance(&layer, 5, 2);
    let second = vec![
        RenderStep::Quads { state: 1, scissor_rect: rect(4) },
        RenderStep::EndPass,
        RenderStep::Triangles { state: 5 },
        RenderStep::BeginPass,
        RenderStep::Primitives,
        RenderStep::Images { state: 1, scissor_rect: rect(4) },
        RenderStep::Text { state: 2, scissor_rect: rect(4) },
        RenderStep::CachedTextures { state: 1, scissor_rect: rect(4) },
    ];
    assert_eq!(cursor.steps(&layer, &storage), second);
    let hidden = LayerSummary { scissor_rect: None, ..full(4, &[1]) };
    assert!(cursor.steps(&hidden, &storage).is_empty());
    let before = cursor;
    cursor.advance(&hidden, 9, 9);
    assert_eq!(cursor, before);
}

#[test]
fn textures_without_an_entry_are_not_composited() {
    let storage = storage(&[]);
    let frame: FrameState<Device> = FrameState::new();
    let mut cursor = RenderCursor::new(&frame);
    let layer = layer(4, &[8, 9]);
    assert!(cursor.steps(&layer, &storage).is_empty());
    cursor.advance(&layer, 0, 0);
    assert_eq!(cursor.cached_texture_layer, 1);
}

#[test]
fn rendering_uses_the_states_that_were_prepared() {
    let storage = storage(&[(1, 100, 128)]);
    let mut frame: FrameState<Device> = FrameState::new();
    let passes = vec![
        vec![layer(0, &[1]), full(1, &[]), layer(2, &[7])],
        vec![layer(0, &[]), full(1, &[1, 1])],
    ];
    for layers in &passes {
        let steps = prepare(layers, &storage, &mut frame, &create);
        let mut cursor = RenderCursor::new(&frame);
        for (i, layer) in layers.iter().enumerate() {
            let prepared: Vec<usize> = steps
                .iter()
                .filter_map(|step| match step {
                    PrepareStep::CachedTexture { layer, state, .. } if *layer == i => Some(*state),
                    _ => None,
                })
                .collect();
            for step in cursor.steps(layer, &storage) {
                if let RenderStep::CachedTextures { state, .. } = step {
                    assert!(prepared.iter().all(|prepared| *prepared == state));
                }
            }
            cursor.advance(layer, 3, 4);
        }
        cursor.finish(&mut frame);
        assert_eq!(frame.render_layer, frame.prepare_layer);
    }
    assert_eq!(frame.render_layer, 3);
}

#[test]
fn composited_textures_read_their_own_uniforms() {
    let storage = storage(&[(1, 100, 128), (3, 50, 128)]);
    let mut frame: FrameState<Device> = FrameState::new();
    let batch: Vec<Instance> = [1, 2, 3].iter().map(|id| instance(*id)).collect();
    frame.layers.push(LayerState::new());
    assert!(composite(&storage, &frame, 0, &batch, rect(0)).is_none());
    frame.layers[0].ensure_capacity(&Pipeline::new(256), 3, &create);
    let pass = composite(&storage, &frame, 0, &batch, rect(6)).unwrap();
    assert_eq!(*pass.constant_bind_group, "binding");
    assert_eq!(pass.scissor_rect, rect(6));
    let draws: Vec<(u32, &str)> =
        pass.draws.iter().map(|draw| (draw.dynamic_offset, *draw.texture)).collect();
    assert_eq!(draws, vec![(0, "one"), (512, "other")]);
    assert!(composite(&storage, &frame, 0, &vec![instance(2)], rect(6)).is_none());
}

#[test]
fn only_the_offsets_that_are_used_must_be_addressable() {
    let mut storage = storage(&[(1, 100, 128)]);
    storage.pipeline = Some(Pipeline { uniform_alignment: u32::MAX as u64 });
    let mut frame: FrameState<Device> = FrameState::new();
    frame.layers.push(LayerState::new());
    frame.layers[0].ensure_capacity(&Pipeline { uniform_alignment: u32::MAX as u64 }, 3, &create);
    let batch: Vec<Instance> = [2, 1, 2].iter().map(|id| instance(*id)).collect();
    let pass = composite(&storage, &frame, 0, &batch, rect(6)).unwrap();
    assert_eq!(pass.draws.len(), 1);
    assert_eq!(pass.draws[0].dynamic_offset, u32::MAX);
}

#[test]
fn uniforms_are_laid_out_as_the_shader_reads_them() {
    let pipeline = Pipeline::new(256);
    let mut state: LayerState<Device> = LayerState::new();
    state.ensure_capacity(&pipeline, 4, &create);
    let projection = Transformation::translate(scalar(10.0), scalar(20.0));
    let uv_max = [scalar(0.25), scalar(0.5)];
    let write = state.write_instance(&pipeline, 3, &instance(1), projection, scalar(1.5), uv_max);
    assert_eq!(*write.buffer, 1024);
    assert_eq!(write.offset, 768);
    let floats: Vec<f32> = write
        .bytes
        .chunks(4)
        .map(|bytes| f32::from_ne_bytes([bytes[0], bytes[1], bytes[2], bytes[3]]))
        .collect();
    let expected = vec![
        1.0, 0.0, 0.0, 0.0, 0.0, 1.0, 0.0, 0.0, 0.0, 0.0, 1.0, 0.0, 10.0, 20.0, 0.0, 1.0, 1.0, 2.0,
        3.0, 4.0, 1.5, 0.0, 0.25, 0.5,
    ];
    assert_eq!(floats, expected);
}

#[test]
fn primitives_that_were_not_drawn_are_rendered() {
    let layer = full(0, &[]);
    let visible = visible_primitives(&layer);
    assert_eq!(visible, vec![(0, rect(7)), (2, rect(9))]);
    assert_eq!(need_render(&visible, &vec![true, false]), vec![(2, rect(9))]);
    assert!(need_render(&visible, &vec![true, true]).is_empty());
}

#[test]
fn primitives_that_were_not_drawn_interrupt_the_pass() {
    let visible = visible_primitives(&full(0, &[]));
    let expected = vec![
        RenderStep::EndPass,
        RenderStep::Primitive { index: 0, clip_bounds: rect(7) },
        RenderStep::Primitive { index: 2, clip_bounds: rect(9) },
        RenderStep::BeginPass,
    ];
    assert_eq!(undrawn_steps(&visible, &[false, false]), expected);
    let expected = vec![
        RenderStep::EndPass,
        RenderStep::Primitive { index: 2, clip_bounds: rect(9) },
        RenderStep::BeginPass,
    ];
    assert_eq!(undrawn_steps(&visible, &[true, false]), expected);
    assert!(undrawn_steps(&visible, &[true, true]).is_empty());
}

#[test]
fn only_the_first_pass_clears_its_target() {
    assert_eq!(load_of(true, Some(Color::black())), Load::Clear(Color::black()));
    assert_eq!(load_of(true, None), Load::Keep);
    assert_eq!(load_of(false, Some(Color::black())), Load::Keep);
    assert_eq!(load_of(false, None), Load::Keep);
}

#[test]
fn rendered_layers_are_counted() {
    let hidden = LayerSummary { scissor_rect: None, ..full(0, &[]) };
    assert_eq!(layers_rendered(&vec![full(0, &[]), layer(1, &[]), hidden, layer(2, &[4])]), 2);
    assert!(layer(1, &[]).is_empty());
    assert!(!layer(1, &[4]).is_empty());
}

#[test]
fn uniforms_of_neighbours_do_not_overlap() {
    for alignment in [0, 64, 96, 256, 1000] {
        let pipeline = Pipeline::new(alignment);
        let mut state: LayerState<Device> = LayerState::new();
        state.ensure_capacity(&pipeline, 5, &create);
        let size = state.uniform_buffer.unwrap();
        let mut end = 0;
        for index in 0..5 {
            let write = state.write_instance(
                &pipeline,
                index,
                &instance(1),
                Transformation::identity(),
                scalar(1.0),
                [scalar(1.0), scalar(1.0)],
            );
            assert!(write.offset >= end);
            end = write.offset + write.bytes.len() as u64;
        }
        assert!(end <= size);
    }
}
