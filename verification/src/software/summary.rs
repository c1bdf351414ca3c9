//! What there is to draw in the layers of a recording.
//!
//! Where a layer or a group ends up on the target is floating-point arithmetic. The
//! rasterizer does it and hands the results in; the rest is collected here.
use vstd::prelude::*;

use crate::batching::{Batch, Item};
use crate::renderer::Command;
use crate::software::frame::{GroupSummary, LayerSummary};

verus! {

/// How the rasterizer draws a primitive.
#[derive(Debug, Clone, Copy)]
pub enum Kind {
    /// As a group of primitives that are clipped together.
    Group(GroupSummary),
    /// As an image.
    Image,
    /// As a group of so many texts.
    Text(usize),
    /// Not at all.
    Unsupported,
}

/// The number of quads among the first `n` items.
pub open spec fn quads_in<P>(commands: Seq<Command<P>>, items: Seq<Item>, n: int) -> int
    decreases n,
{
    if n <= 0 {
        0
    } else {
        quads_in(commands, items, n - 1) + if commands[items[n - 1].command as int] is FillQuad {
            1int
        } else {
            0
        }
    }
}

/// The groups of primitives among the first `n` items.
pub open spec fn groups_in<P>(
    commands: Seq<Command<P>>,
    kinds: Seq<Kind>,
    items: Seq<Item>,
    n: int,
) -> Seq<GroupSummary>
    decreases n,
{
    if n <= 0 {
        Seq::empty()
    } else {
        let before = groups_in(commands, kinds, items, n - 1);
        match (commands[items[n - 1].command as int], kinds[items[n - 1].command as int]) {
            (Command::Draw(_), Kind::Group(group)) => before.push(group),
            _ => before,
        }
    }
}

/// The number of images among the first `n` items.
pub open spec fn images_in<P>(
    commands: Seq<Command<P>>,
    kinds: Seq<Kind>,
    items: Seq<Item>,
    n: int,
) -> int
    decreases n,
{
    if n <= 0 {
        0
    } else {
        images_in(commands, kinds, items, n - 1) + match (
            commands[items[n - 1].command as int],
            kinds[items[n - 1].command as int],
        ) {
            (Command::Draw(_), Kind::Image) => 1int,
            _ => 0,
        }
    }
}

/// The groups of texts among the first `n` items. The name of a layer is a group of
/// its own.
pub open spec fn texts_in<P>(
    commands: Seq<Command<P>>,
    kinds: Seq<Kind>,
    items: Seq<Item>,
    n: int,
) -> Seq<usize>
    decreases n,
{
    if n <= 0 {
        Seq::empty()
    } else {
        let before = texts_in(commands, kinds, items, n - 1);
        match (commands[items[n - 1].command as int], kinds[items[n - 1].command as int]) {
            (Command::FillLayerLabel(_, _, _), _) => before.push(1),
            (Command::Draw(_), Kind::Text(count)) => before.push(count),
            _ => before,
        }
    }
}

/// The caches among the first `n` items.
pub open spec fn caches_in<P>(commands: Seq<Command<P>>, items: Seq<Item>, n: int) -> Seq<u64>
    decreases n,
{
    if n <= 0 {
        Seq::empty()
    } else {
        let before = caches_in(commands, items, n - 1);
        match commands[items[n - 1].command as int] {
            Command::DrawCachedTexture(id, _) => before.push(id),
            _ => before,
        }
    }
}

/// Whether `summary` says what there is to draw in the given batch.
pub open spec fn summarizes<P>(
    commands: Seq<Command<P>>,
    kinds: Seq<Kind>,
    items: Seq<Item>,
    visible: bool,
    summary: LayerSummary,
) -> bool {
    let n = items.len() as int;
    &&& summary.visible == visible
    &&& summary.quads == quads_in(commands, items, n)
    &&& summary.primitives@ == groups_in(commands, kinds, items, n)
    &&& summary.images == images_in(commands, kinds, items, n)
    &&& summary.text@ == texts_in(commands, kinds, items, n)
    &&& summary.cached_textures@ == caches_in(commands, items, n)
}

/// Sums up what there is to draw in batch `b` of a recording.
///
/// `kinds` says how the primitive at each position of the recording is drawn.
/// Positions of other operations are not looked at.
pub fn summarize<P>(
    commands: &[Command<P>],
    kinds: &[Kind],
    batches: &[Batch],
    b: usize,
    visible: bool,
) -> (r: LayerSummary)
    requires
        kinds@.len() == commands@.len(),
        b < batches@.len(),
        crate::batching::sorted_into(commands@, batches@, commands@.len() as int),
    ensures
        summarizes(commands@, kinds@, batches@[b as int].items@, visible, r),
{
    proof {
        crate::batching::lemma_batch_items(commands@, batches@, b as int);
    }
    let items = batches[b].items.as_slice();
    let mut quads: usize = 0;
    let mut primitives: Vec<GroupSummary> = Vec::new();
    let mut images: usize = 0;
    let mut text: Vec<usize> = Vec::new();
    let mut cached_textures: Vec<u64> = Vec::new();
    let mut k: usize = 0;
    while k < items.len()
        invariant
            k <= items@.len(),
            kinds@.len() == commands@.len(),
            forall|k: int|
                0 <= k < items@.len() ==> (#[trigger] items@[k]).command < commands@.len(),
            quads <= k,
            images <= k,
            quads == quads_in(commands@, items@, k as int),
            primitives@ == groups_in(commands@, kinds@, items@, k as int),
            images == images_in(commands@, kinds@, items@, k as int),
            text@ == texts_in(commands@, kinds@, items@, k as int),
            cached_textures@ == caches_in(commands@, items@, k as int),
        decreases items@.len() - k,
    {
        let position: usize = items[k].command;
        match &commands[position] {
            Command::FillQuad(_, _) => {
                quads = quads + 1;
            },
            Command::FillLayerLabel(_, _, _) => {
                text.push(1);
            },
            Command::DrawCachedTexture(id, _) => {
                cached_textures.push(*id);
            },
            Command::Draw(_) => {
                match kinds[position] {
                    Kind::Group(group) => {
                        primitives.push(group);
                    },
                    Kind::Image => {
                        images = images + 1;
                    },
                    Kind::Text(count) => {
                        text.push(count);
                    },
                    Kind::Unsupported => {},
                }
            },
            _ => {},
        }
        k = k + 1;
    }
    LayerSummary { visible, quads, primitives, images, text, cached_textures }
}

} // verus!
