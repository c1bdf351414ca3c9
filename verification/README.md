# layer_compositor

A compositor for persistent, transform-animated layers, written and verified in
[Verus](https://github.com/verus-lang/verus).

A widget rasterizes its contents into a cache once and then animates them by writing
a transformation into a layer slot each frame. Registered slots are composited after
the widgets have drawn themselves: parent transformations apply to their children,
clips wrap a slot together with its children, and a nested layer keeps moving while
the contents of its parent stay cached.

## Layout

| Path | What it holds |
| --- | --- |
| `src/texture_cache.rs` | handles to caches and their invalidation flags |
| `src/layer.rs` | layer slots, what is written to them, and the registry of a frame |
| `src/shell.rs` | what a widget can ask for, and the layers that enclose it |
| `src/renderer.rs` | the interface that widgets draw through |
| `src/compose.rs`, `src/compose/laws.rs` | compositing the registered layers, and what holds of every frame |
| `src/recording.rs` | recorded operations and the queue of finished recordings |
| `src/batching.rs` | sorting recorded operations into the layers they are drawn in |
| `src/gpu.rs`, `src/gpu/` | the renderer for GPUs; `src/gpu/growth.rs` says how its textures and buffers grow over time |
| `src/software.rs`, `src/software/` | the renderer for CPUs |
| `app/` | the same on `wgpu` and `tiny_skia` devices, in ordinary Rust |
| `tests/` | tests of the compiled library |

Everything in `src/` is verified, except that calls into other crates have contracts
that are trusted: these stand in `src/fx.rs`, in `src/software/pixmap.rs` and next to
the uniforms in `src/gpu/texture_cache.rs`. Functions whose names start with `law_`
state what holds across several operations.

Floating-point numbers are carried as their bit patterns and never computed with in
`src/`.
