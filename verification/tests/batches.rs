use layer_compositor::batching::{batch, Item};
use layer_compositor::geometry::{Color, Rectangle, Scalar, Size, Transformation};
use layer_compositor::gpu::summary::{summaries, Kind};
use layer_compositor::gpu::texture_cache::Instance;
use layer_compositor::renderer::{Background, Command, Quad};
use layer_compositor::software::frame::GroupSummary;
use layer_compositor::software::summary as software;

type Cmd = Command<char>;

fn square(size: f32) -> Rectangle {
    let side = Scalar { bits: size.to_bits() };
    Rectangle::with_size(Size { width: side, height: side })
}

fn item(command: usize, transformation: Option<usize>) -> Item {
    Item { command, transformation }
}

fn quad() -> Cmd {
    Cmd::FillQuad(Quad::default(), Background::Color(Color::black()))
}

fn transform() -> Cmd {
    Cmd::StartTransformation(Transformation::identity())
}

#[test]
fn an_empty_recording_has_one_empty_batch() {
    let sorted = batch::<char>(&[]);
    assert_eq!(sorted.batches.len(), 1);
    assert!(sorted.batches[0].opened.is_none());
    assert!(sorted.batches[0].items.is_empty());
    assert!(sorted.transformations.is_empty());
}

#[test]
fn operations_go_to_their_innermost_layer() {
    let commands = vec![
        Cmd::Draw('a'),
        transform(),
        Cmd::StartLayer(square(1.0)),
        Cmd::Draw('b'),
        transform(),
        Cmd::StartLayer(square(2.0)),
        Cmd::Draw('c'),
        Cmd::EndLayer,
        Cmd::EndTransformation,
        Cmd::Draw('d'),
        Cmd::EndLayer,
        Cmd::StartLayer(square(3.0)),
        Cmd::EndTransformation,
        Cmd::Draw('e'),
        Cmd::EndLayer,
        Cmd::Draw('f'),
    ];
    let sorted = batch(&commands);
    let items: Vec<Vec<Item>> = sorted.batches.iter().map(|b| b.items.clone()).collect();
    assert_eq!(
        items,
        vec![
            vec![item(0, None), item(15, None)],
            vec![item(3, Some(1)), item(9, Some(1))],
            vec![item(6, Some(4))],
            vec![item(13, None)],
        ]
    );
    let opened: Vec<Option<Item>> = sorted.batches.iter().map(|b| b.opened).collect();
    assert_eq!(
        opened,
        vec![None, Some(item(2, Some(1))), Some(item(5, Some(4))), Some(item(11, Some(1)))]
    );
    let outer: Vec<usize> = sorted.batches.iter().map(|b| b.outer).collect();
    assert_eq!(outer, vec![0, 0, 1, 0]);
    assert_eq!(sorted.transformations, vec![item(1, None), item(4, Some(1))]);
}

#[test]
fn closing_what_is_not_open_does_nothing() {
    let commands = vec![
        Cmd::EndLayer,
        Cmd::EndTransformation,
        Cmd::Draw('a'),
        Cmd::StartLayer(square(1.0)),
        Cmd::EndLayer,
        Cmd::EndLayer,
        Cmd::Draw('b'),
    ];
    let sorted = batch(&commands);
    assert_eq!(sorted.batches[0].items, vec![item(2, None), item(6, None)]);
    assert_eq!(sorted.batches.len(), 2);
}

#[test]
fn batches_are_summed_up_for_the_gpu() {
    let clip = Rectangle { x: 1, y: 2, width: 3, height: 4 };
    let commands = vec![
        quad(),
        Cmd::Draw('m'),
        Cmd::Draw('s'),
        Cmd::StartLayer(square(1.0)),
        Cmd::DrawCachedTexture(7, square(5.0)),
        Cmd::Draw('i'),
        Cmd::Draw('h'),
        Cmd::EndLayer,
        Cmd::Draw('t'),
        quad(),
    ];
    let kinds: Vec<Kind> = commands
        .iter()
        .map(|command| match command {
            Command::Draw('m') => Kind::Mesh,
            Command::Draw('s') => Kind::Shader(Some(clip)),
            Command::Draw('h') => Kind::Shader(None),
            Command::Draw('i') => Kind::Image,
            _ => Kind::Text,
        })
        .collect();
    let bounds: Vec<Rectangle> = (0..commands.len()).map(|i| square(i as f32)).collect();
    let sorted = batch(&commands);
    let layers = summaries(&commands, &kinds, &bounds, &sorted.batches, &[Some(clip), None]);
    assert_eq!(layers.len(), 2);
    assert_eq!(layers[0].scissor_rect, Some(clip));
    assert_eq!((layers[0].quads, layers[0].triangles, layers[0].images, layers[0].text), (2, 1, 0, 1));
    assert_eq!(layers[0].primitives, vec![Some(clip)]);
    assert!(layers[0].cached_textures.is_empty());
    assert_eq!(layers[1].scissor_rect, None);
    assert_eq!((layers[1].quads, layers[1].triangles, layers[1].images, layers[1].text), (0, 0, 1, 0));
    assert_eq!(layers[1].primitives, vec![None]);
    assert_eq!(layers[1].cached_textures, vec![Instance { cache_id: 7, bounds: square(4.0) }]);
}

#[test]
fn batches_are_summed_up_for_the_rasterizer() {
    let commands = vec![
        quad(),
        Cmd::Draw('g'),
        Cmd::Draw('i'),
        Cmd::Draw('t'),
        Cmd::Draw('m'),
        Cmd::DrawCachedTexture(7, square(5.0)),
    ];
    let group = GroupSummary { visible: true, primitives: 3 };
    let kinds: Vec<software::Kind> = commands
        .iter()
        .map(|command| match command {
            Command::Draw('g') => software::Kind::Group(group),
            Command::Draw('i') => software::Kind::Image,
            Command::Draw('t') => software::Kind::Text(4),
            _ => software::Kind::Unsupported,
        })
        .collect();
    let sorted = batch(&commands);
    let layer = software::summarize(&commands, &kinds, &sorted.batches, 0, true);
    assert!(layer.visible);
    assert_eq!((layer.quads, layer.images), (1, 1));
    assert_eq!(layer.primitives.len(), 1);
    assert_eq!(layer.primitives[0].primitives, 3);
    assert_eq!(layer.text, vec![4]);
    assert_eq!(layer.cached_textures, vec![7]);
}
