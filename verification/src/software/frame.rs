//! Rasterizing the layers of a frame.
//!
//! [`render_steps`] decides what is done with a layer and in which order. Each step
//! is one call of the rasterizer.
use vstd::prelude::*;

use crate::fx;
use crate::geometry::Size;
use crate::software::texture_cache::{Entry, Storage};

verus! {

/// A group of primitives that are clipped together.
#[derive(Debug, Clone, Copy)]
pub struct GroupSummary {
    /// Whether the group overlaps the part of its layer that is drawn.
    pub visible: bool,
    /// The number of primitives.
    pub primitives: usize,
}

/// What there is to draw in one layer.
#[derive(Debug)]
pub struct LayerSummary {
    /// Whether the layer overlaps the damaged part of the target.
    pub visible: bool,
    /// The number of quads.
    pub quads: usize,
    /// The groups of primitives.
    pub primitives: Vec<GroupSummary>,
    /// The number of images.
    pub images: usize,
    /// The number of texts in each group of texts.
    pub text: Vec<usize>,
    /// The ids of the caches to composite.
    pub cached_textures: Vec<u64>,
}

/// One thing to do to draw a layer.
#[derive(Debug, Clone, Copy, PartialEq)]
pub enum RenderStep {
    /// Clip to the layer.
    ClipToLayer,
    /// Draw a quad.
    Quad(usize),
    /// Clip to a group of primitives.
    ClipToGroup(usize),
    /// Draw a primitive of a group.
    Primitive(usize, usize),
    /// Draw an image.
    Image(usize),
    /// Draw a text of a group.
    Text(usize, usize),
    /// Composite a cache, from a pixmap of the given size.
    CachedTexture { index: usize, source: Size<u32> },
}

/// The steps that draw the primitives of the first `n` groups. Groups that cannot
/// be seen are left out.
pub open spec fn group_steps(groups: Seq<GroupSummary>, n: int) -> Seq<RenderStep>
    decreases n,
{
    if n <= 0 {
        Seq::empty()
    } else {
        group_steps(groups, n - 1) + (if groups[n - 1].visible {
            seq![RenderStep::ClipToGroup((n - 1) as usize)] + Seq::new(
                groups[n - 1].primitives as nat,
                |j: int| RenderStep::Primitive((n - 1) as usize, j as usize),
            ) + seq![RenderStep::ClipToLayer]
        } else {
            Seq::empty()
        })
    }
}

/// The steps that draw the texts of the first `n` groups.
pub open spec fn text_steps(groups: Seq<usize>, n: int) -> Seq<RenderStep>
    decreases n,
{
    if n <= 0 {
        Seq::empty()
    } else {
        text_steps(groups, n - 1) + Seq::new(
            groups[n - 1] as nat,
            |j: int| RenderStep::Text((n - 1) as usize, j as usize),
        )
    }
}

/// The size of the pixmap of an entry.
pub open spec fn source_size(entry: Entry) -> Size<u32> {
    Size {
        width: crate::software::texture_cache::at_least_one(entry.physical_size.width),
        height: crate::software::texture_cache::at_least_one(entry.physical_size.height),
    }
}

/// The steps that composite the first `n` caches. Those without a pixmap are left
/// out.
pub open spec fn cached_steps(entries: Map<u64, Entry>, ids: Seq<u64>, n: int) -> Seq<RenderStep>
    decreases n,
{
    if n <= 0 {
        Seq::empty()
    } else if entries.contains_key(ids[n - 1]) {
        cached_steps(entries, ids, n - 1).push(
            RenderStep::CachedTexture {
                index: (n - 1) as usize,
                source: source_size(entries[ids[n - 1]]),
            },
        )
    } else {
        cached_steps(entries, ids, n - 1)
    }
}

/// The steps that draw a layer: none if it cannot be seen, else its quads,
/// primitives, images, texts and caches, in this order.
pub open spec fn layer_steps(entries: Map<u64, Entry>, layer: LayerSummary) -> Seq<RenderStep> {
    if !layer.visible {
        Seq::empty()
    } else {
        seq![RenderStep::ClipToLayer] + Seq::new(
            layer.quads as nat,
            |j: int| RenderStep::Quad(j as usize),
        ) + group_steps(layer.primitives@, layer.primitives@.len() as int) + Seq::new(
            layer.images as nat,
            |j: int| RenderStep::Image(j as usize),
        ) + text_steps(layer.text@, layer.text@.len() as int) + cached_steps(
            entries,
            layer.cached_textures@,
            layer.cached_textures@.len() as int,
        )
    }
}

fn push_groups(groups: &[GroupSummary], steps: &mut Vec<RenderStep>)
    ensures
        final(steps)@ == old(steps)@ + group_steps(groups@, groups@.len() as int),
{
    let mut g: usize = 0;
    assert(steps@ =~= steps@ + group_steps(groups@, 0));
    while g < groups.len()
        invariant
            g <= groups@.len(),
            steps@ == old(steps)@ + group_steps(groups@, g as int),
        decreases groups@.len() - g,
    {
        if groups[g].visible {
            let ghost before = steps@;
            steps.push(RenderStep::ClipToGroup(g));
            let ghost clipped = steps@;
            let count: usize = groups[g].primitives;
            let mut j: usize = 0;
            while j < count
                invariant
                    j <= count,
                    steps@ == clipped + Seq::new(
                        j as nat,
                        |j: int| RenderStep::Primitive(g as usize, j as usize),
                    ),
                decreases count - j,
            {
                steps.push(RenderStep::Primitive(g, j));
                j = j + 1;
                assert(steps@ =~= clipped + Seq::new(
                    j as nat,
                    |j: int| RenderStep::Primitive(g as usize, j as usize),
                ));
            }
            steps.push(RenderStep::ClipToLayer);
        }
        assert(steps@ =~= old(steps)@ + group_steps(groups@, g + 1));
        g = g + 1;
    }
}

fn push_text(groups: &[usize], steps: &mut Vec<RenderStep>)
    ensures
        final(steps)@ == old(steps)@ + text_steps(groups@, groups@.len() as int),
{
    let mut g: usize = 0;
    assert(steps@ =~= steps@ + text_steps(groups@, 0));
    while g < groups.len()
        invariant
            g <= groups@.len(),
            steps@ == old(steps)@ + text_steps(groups@, g as int),
        decreases groups@.len() - g,
    {
        let ghost before = steps@;
        let count: usize = groups[g];
        let mut j: usize = 0;
        while j < count
            invariant
                j <= count,
                steps@ == before + Seq::new(
                    j as nat,
                    |j: int| RenderStep::Text(g as usize, j as usize),
                ),
            decreases count - j,
        {
            steps.push(RenderStep::Text(g, j));
            j = j + 1;
            assert(steps@ =~= before + Seq::new(
                j as nat,
                |j: int| RenderStep::Text(g as usize, j as usize),
            ));
        }
        assert(steps@ =~= old(steps)@ + text_steps(groups@, g + 1));
        g = g + 1;
    }
}

fn push_cached<P>(storage: &Storage<P>, ids: &[u64], steps: &mut Vec<RenderStep>)
    ensures
        final(steps)@ == old(steps)@ + cached_steps(storage.entries@, ids@, ids@.len() as int),
{
    let mut i: usize = 0;
    assert(steps@ =~= steps@ + cached_steps(storage.entries@, ids@, 0));
    while i < ids.len()
        invariant
            i <= ids@.len(),
            steps@ == old(steps)@ + cached_steps(storage.entries@, ids@, i as int),
        decreases ids@.len() - i,
    {
        if let Some(entry) = fx::get(&storage.entries, ids[i]) {
            let width: u32 = if entry.physical_size.width < 1 {
                1
            } else {
                entry.physical_size.width
            };
            let height: u32 = if entry.physical_size.height < 1 {
                1
            } else {
                entry.physical_size.height
            };
            steps.push(RenderStep::CachedTexture { index: i, source: Size { width, height } });
        }
        assert(steps@ =~= old(steps)@ + cached_steps(storage.entries@, ids@, i + 1));
        i = i + 1;
    }
}

/// Decides how to draw a layer.
pub fn render_steps<P>(layer: &LayerSummary, storage: &Storage<P>) -> (r: Vec<RenderStep>)
    ensures
        r@ == layer_steps(storage.entries@, *layer),
{
    let mut steps: Vec<RenderStep> = Vec::new();
    if layer.visible {
        steps.push(RenderStep::ClipToLayer);
        let ghost clipped = steps@;
        let mut i: usize = 0;
        while i < layer.quads
            invariant
                i <= layer.quads,
                steps@ == clipped + Seq::new(i as nat, |j: int| RenderStep::Quad(j as usize)),
            decreases layer.quads - i,
        {
            steps.push(RenderStep::Quad(i));
            i = i + 1;
            assert(steps@ =~= clipped + Seq::new(
                i as nat,
                |j: int| RenderStep::Quad(j as usize),
            ));
        }
        push_groups(layer.primitives.as_slice(), &mut steps);
        let ghost before = steps@;
        let mut i: usize = 0;
        while i < layer.images
            invariant
                i <= layer.images,
                steps@ == before + Seq::new(i as nat, |j: int| RenderStep::Image(j as usize)),
            decreases layer.images - i,
        {
            steps.push(RenderStep::Image(i));
            i = i + 1;
            assert(steps@ =~= before + Seq::new(
                i as nat,
                |j: int| RenderStep::Image(j as usize),
            ));
        }
        push_text(layer.text.as_slice(), &mut steps);
        push_cached(storage, layer.cached_textures.as_slice(), &mut steps);
    }
    assert(steps@ =~= layer_steps(storage.entries@, *layer));
    steps
}

} // verus!
