//! A compositor for persistent, transform-animated layers.
//!
//! A widget records its contents into a [cache](texture_cache) once. From then on it
//! only writes a few parameters into a [layer slot](layer) each frame and registers
//! the slot through its [shell]. Once the widgets have drawn themselves, every
//! registered layer is [composited](compose): its cache is drawn under its
//! transformation, inside those of its ancestors.
//!
//! The [interface](renderer) that widgets draw through has two implementations, one
//! for [GPUs](gpu) and one for [CPUs](software). Both [record](recording) what they
//! are asked to draw, [sort](batching) it into layers, and decide how recordings and
//! frames are rendered. The work on a device, and arithmetic on floating-point
//! numbers, is left to their users.
pub mod batching;
pub mod clipboard;
pub mod compose;
pub mod event;
pub mod geometry;
pub mod gpu;
pub mod input_method;
pub mod layer;
pub mod recording;
pub mod renderer;
pub mod shell;
pub mod software;
pub mod texture_cache;
pub mod window;

mod child_index;
mod fx;
mod sequences;
