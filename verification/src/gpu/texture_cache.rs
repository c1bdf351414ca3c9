//! The textures behind caches, and the state that composites them into a frame.
use rustc_hash::FxHashMap;
use vstd::arithmetic::power2::is_pow2;
use vstd::prelude::*;

use crate::fx;
use crate::geometry::{Rectangle, Scalar, Size, Transformation};
use crate::gpu::capacity::MIN_CAPACITY;
use crate::gpu::Backend;
use crate::recording::Stack;
use crate::texture_cache::CacheFlags;

verus! {

/// A cached texture to composite.
#[derive(Debug, Clone, Copy, PartialEq)]
pub struct Instance {
    /// The id of the cache to sample from.
    pub cache_id: u64,
    /// The destination bounds, in logical pixels, with the transformation of the
    /// recording already applied.
    pub bounds: Rectangle,
}

/// The cached textures of one layer.
pub type Batch = Vec<Instance>;

/// The texture behind a cache.
pub struct Entry<K: Backend> {
    /// The texture itself.
    pub texture: K::Texture,
    /// The buffers that recordings of this cache are prepared into. They are the
    /// cache's own, so that rendering it does not disturb those of the frame. None
    /// until the cache is rendered for the first time.
    pub state: Option<K::State>,
    /// The size of the recorded contents, in logical pixels.
    pub size: Size<u32>,
    /// The size of the recorded contents, in physical pixels.
    pub physical_size: Size<u32>,
    /// The size of the texture, in physical pixels.
    pub texture_capacity_size: Size<u32>,
    /// The physical pixels per logical pixel.
    pub scale_factor: Scalar,
    /// Whether a recording of the cache has been finished.
    pub recorded: bool,
}

impl<K: Backend> Entry<K> {
    /// The texture holds the contents, and its extents are powers of two that are not
    /// too small.
    pub open spec fn wf(self) -> bool {
        let capacity = self.texture_capacity_size;
        &&& crate::gpu::capacity::holds(capacity, self.physical_size)
        &&& is_pow2(capacity.width as int) && MIN_CAPACITY <= capacity.width
        &&& is_pow2(capacity.height as int) && MIN_CAPACITY <= capacity.height
    }
}

/// The caches of one renderer.
pub struct Storage<K: Backend> {
    /// The textures behind the caches, by cache id.
    pub entries: FxHashMap<u64, Entry<K>>,
    /// The recordings that wait to be rendered into the texture of their cache.
    pub pending: Vec<(u64, Stack<K::Primitive>)>,
    /// What was being recorded when a recording into a cache began, with the id of
    /// that cache and whether its recording will be kept; outermost first.
    pub recording_stack: Vec<(u64, Stack<K::Primitive>, bool)>,
    /// What samples cached textures, once there is one to sample.
    pub pipeline: Option<Pipeline>,
}

impl<K: Backend> Storage<K> {
    /// Every texture holds its contents, no cache has two recordings waiting, and
    /// there is a pipeline if there is a texture to sample.
    pub open spec fn wf(self) -> bool {
        &&& forall|id: u64| #[trigger]
            self.entries@.contains_key(id) ==> self.entries@[id].wf() && self.pipeline is Some
        &&& crate::recording::distinct_pending(self.pending@)
        &&& self.pipeline is Some ==> self.pipeline->0.wf()
    }

    /// Creates a storage without any cache.
    pub fn new() -> (r: Storage<K>)
        ensures
            r.wf(),
            r.entries@ == Map::<u64, Entry<K>>::empty(),
            r.pending@.len() == 0,
            r.recording_stack@.len() == 0,
            r.pipeline is None,
    {
        Storage {
            entries: FxHashMap::default(),
            pending: Vec::new(),
            recording_stack: Vec::new(),
            pipeline: None,
        }
    }

    /// Drops the textures of caches that are gone.
    pub fn reclaim(&mut self, flags: &CacheFlags)
        requires
            old(self).wf(),
        ensures
            final(self).wf(),
            final(self).entries@ == old(self).entries@.restrict(flags@.dom()),
            final(self).pending@ == old(self).pending@,
            final(self).recording_stack@ == old(self).recording_stack@,
            final(self).pipeline == old(self).pipeline,
    {
        fx::retain_live(&mut self.entries, flags);
        assert(forall|id: u64| #[trigger]
            self.entries@.contains_key(id) ==> old(self).entries@.contains_key(id));
    }
}

impl<K: Backend> Default for Storage<K> {
    fn default() -> (r: Storage<K>)
        ensures
            r.wf(),
            r.entries@ == Map::<u64, Entry<K>>::empty(),
            r.pending@.len() == 0,
            r.recording_stack@.len() == 0,
            r.pipeline is None,
    {
        Storage::new()
    }
}

/// The number of bytes that the uniforms of one instance take.
pub const UNIFORMS_SIZE: u32 = 96;

/// The uniforms of one instance, as the shader reads them.
#[derive(Debug, Clone, Copy)]
pub struct Uniforms {
    /// The projection of the target.
    pub transform: [Scalar; 16],
    /// The destination bounds: `x`, `y`, `width` and `height`.
    pub bounds: [Scalar; 4],
    /// The physical pixels per logical pixel.
    pub scale: Scalar,
    /// Aligns what follows to eight bytes.
    pub pad: Scalar,
    /// The part of the texture that holds contents, as fractions of its width and
    /// height.
    pub uv_max: [Scalar; 2],
}

impl Uniforms {
    /// The uniforms word by word.
    pub open spec fn words_spec(self) -> Seq<u32> {
        let scalars = self.transform@ + self.bounds@ + seq![self.scale, self.pad] + self.uv_max@;
        scalars.map_values(|s: Scalar| s.bits)
    }

    /// Returns the uniforms word by word.
    pub fn words(&self) -> (r: [u32; 24])
        ensures
            r@ == self.words_spec(),
    {
        let t = self.transform;
        let b = self.bounds;
        let u = self.uv_max;
        let r: [u32; 24] = [
            t[0].bits,
            t[1].bits,
            t[2].bits,
            t[3].bits,
            t[4].bits,
            t[5].bits,
            t[6].bits,
            t[7].bits,
            t[8].bits,
            t[9].bits,
            t[10].bits,
            t[11].bits,
            t[12].bits,
            t[13].bits,
            t[14].bits,
            t[15].bits,
            b[0].bits,
            b[1].bits,
            b[2].bits,
            b[3].bits,
            self.scale.bits,
            self.pad.bits,
            u[0].bits,
            u[1].bits,
        ];
        assert(r@ =~= self.words_spec());
        r
    }
}

/// Byte `k` of a word, the least significant one first.
pub open spec fn byte_of(word: u32, k: int) -> u8 {
    (if k == 0 {
        word as int % 0x100
    } else if k == 1 {
        word as int / 0x100 % 0x100
    } else if k == 2 {
        word as int / 0x1_0000 % 0x100
    } else {
        word as int / 0x100_0000
    }) as u8
}

/// The bytes of the given words in memory, on a machine that stores the least
/// significant byte of a word first, or last.
pub open spec fn in_memory(words: Seq<u32>, least_first: bool) -> Seq<u8> {
    Seq::new(
        4 * words.len(),
        |j: int|
            byte_of(
                words[j / 4],
                if least_first {
                    j % 4
                } else {
                    3 - j % 4
                },
            ),
    )
}

/// Calls `bytemuck::bytes_of`: hands out a copy of the memory that holds the words.
/// Which byte of a word comes first depends on the machine.
#[verifier::external_body]
fn bytes_of(words: &[u32; 24]) -> (r: Vec<u8>)
    ensures
        r@ == in_memory(words@, true) || r@ == in_memory(words@, false),
{
    bytemuck::bytes_of(words).to_vec()
}

/// What samples cached textures into a frame.
#[derive(Debug, Clone, Copy, PartialEq)]
pub struct Pipeline {
    /// The distance between the uniforms of two instances, in bytes.
    pub uniform_alignment: u64,
}

impl Pipeline {
    /// The uniforms of two instances do not overlap, and the distance fits the
    /// device's 32-bit limits.
    pub open spec fn wf(self) -> bool {
        UNIFORMS_SIZE <= self.uniform_alignment <= u32::MAX
    }

    /// The pipeline of a device with the given alignment of offsets into uniform
    /// buffers.
    pub open spec fn of(min_uniform_buffer_offset_alignment: u32) -> Pipeline {
        Pipeline {
            uniform_alignment: (if min_uniform_buffer_offset_alignment < UNIFORMS_SIZE {
                UNIFORMS_SIZE
            } else {
                min_uniform_buffer_offset_alignment
            }) as u64,
        }
    }

    /// Creates the pipeline of a device with the given alignment of offsets into
    /// uniform buffers.
    pub fn new(min_uniform_buffer_offset_alignment: u32) -> (r: Pipeline)
        ensures
            r.wf(),
            r == Pipeline::of(min_uniform_buffer_offset_alignment),
    {
        let alignment: u32 = if min_uniform_buffer_offset_alignment < UNIFORMS_SIZE {
            UNIFORMS_SIZE
        } else {
            min_uniform_buffer_offset_alignment
        };
        Pipeline { uniform_alignment: alignment as u64 }
    }
}

/// Bytes to write into a buffer of uniforms.
pub struct BufferWrite<'a, K: Backend> {
    /// The buffer to write into.
    pub buffer: &'a K::Buffer,
    /// Where the bytes go, in bytes from the start of the buffer.
    pub offset: u64,
    /// The bytes to write.
    pub bytes: Vec<u8>,
}

/// One cached texture to draw.
pub struct CompositeDraw<'a, K: Backend> {
    /// Where the uniforms of the instance start in the buffer that is bound.
    pub dynamic_offset: u32,
    /// The texture to sample.
    pub texture: &'a K::Texture,
}

/// The cached textures of one layer, ready to be drawn.
pub struct Composite<'a, K: Backend> {
    /// What binds the uniforms.
    pub constant_bind_group: &'a K::BindGroup,
    /// What the draws are clipped to, in physical pixels.
    pub scissor_rect: Rectangle<u32>,
    /// The textures to draw, in order.
    pub draws: Vec<CompositeDraw<'a, K>>,
}

/// The uniforms of the cached textures of one layer.
pub struct LayerState<K: Backend> {
    /// The buffer that holds the uniforms.
    pub uniform_buffer: Option<K::Buffer>,
    /// What binds that buffer to a render pass.
    pub constant_bind_group: Option<K::BindGroup>,
    /// The number of instances that the buffer holds.
    pub capacity: u32,
}

impl<K: Backend> LayerState<K> {
    /// Whether the buffer holds the uniforms of `count` instances.
    pub open spec fn has_room(self, count: int) -> bool {
        count == 0 || (self.uniform_buffer is Some && count <= self.capacity)
    }

    /// The buffer and what binds it come together, as soon as there is room for an
    /// instance.
    pub open spec fn wf(self) -> bool {
        &&& self.uniform_buffer is Some <==> self.constant_bind_group is Some
        &&& self.uniform_buffer is Some <==> self.capacity > 0
    }

    /// The state without a buffer.
    pub open spec fn empty() -> LayerState<K> {
        LayerState { uniform_buffer: None, constant_bind_group: None, capacity: 0 }
    }

    /// Creates a state without a buffer.
    pub fn new() -> (r: LayerState<K>)
        ensures
            r.wf(),
            r == LayerState::<K>::empty(),
    {
        LayerState { uniform_buffer: None, constant_bind_group: None, capacity: 0 }
    }

    /// Makes room for the uniforms of `count` instances.
    ///
    /// `create` creates a buffer of the given number of bytes, and what binds it.
    pub fn ensure_capacity<F: Fn(u64) -> (K::Buffer, K::BindGroup)>(
        &mut self,
        pipeline: &Pipeline,
        count: u32,
        create: &F,
    )
        requires
            pipeline.wf(),
            !old(self).has_room(count as int) ==> call_requires(
                *create,
                ((pipeline.uniform_alignment * count) as u64,),
            ),
        ensures
            final(self).has_room(count as int),
            old(self).wf() ==> final(self).wf(),
            old(self).wf() ==> final(self).capacity == (if old(self).capacity < count {
                count
            } else {
                old(self).capacity
            }),
            ensured(*old(self), *final(self), *pipeline, count as int, *create),
    {
        if count == 0 {
            return;
        }
        if self.uniform_buffer.is_some() && self.capacity >= count {
            return;
        }
        let alignment: u64 = pipeline.uniform_alignment;
        assert(alignment * count <= u64::MAX) by (nonlinear_arith)
            requires
                alignment <= u32::MAX,
                count <= u32::MAX,
        ;
        let size: u64 = alignment * count as u64;
        let (buffer, bind_group) = create(size);
        self.uniform_buffer = Some(buffer);
        self.constant_bind_group = Some(bind_group);
        self.capacity = count;
    }

    /// Returns what to write into the buffer for the given instance.
    ///
    /// The bytes are those of the machine's own byte order.
    pub fn write_instance<'a>(
        &'a self,
        pipeline: &Pipeline,
        index: u32,
        instance: &Instance,
        projection: Transformation,
        scale: Scalar,
        uv_max: [Scalar; 2],
    ) -> (r: BufferWrite<'a, K>)
        requires
            pipeline.wf(),
            self.uniform_buffer is Some,
        ensures
            *r.buffer == self.uniform_buffer->0,
            r.offset == pipeline.uniform_alignment * index,
            ({
                let words = uniforms_of(*instance, projection, scale, uv_max).words_spec();
                r.bytes@ == in_memory(words, true) || r.bytes@ == in_memory(words, false)
            }),
            r.bytes@.len() == UNIFORMS_SIZE,
    {
        let alignment: u64 = pipeline.uniform_alignment;
        assert(alignment * index <= u64::MAX) by (nonlinear_arith)
            requires
                alignment <= u32::MAX,
                index <= u32::MAX,
        ;
        let offset: u64 = alignment * index as u64;
        let uniforms = Uniforms {
            transform: projection.matrix,
            bounds: [
                instance.bounds.x,
                instance.bounds.y,
                instance.bounds.width,
                instance.bounds.height,
            ],
            scale,
            pad: Scalar::zero(),
            uv_max,
        };
        assert(uniforms.bounds@ =~= seq![
            instance.bounds.x,
            instance.bounds.y,
            instance.bounds.width,
            instance.bounds.height,
        ]);
        assert(uniforms.words_spec() == uniforms_of(
            *instance,
            projection,
            scale,
            uv_max,
        ).words_spec());
        let words = uniforms.words();
        BufferWrite {
            buffer: self.uniform_buffer.as_ref().unwrap(),
            offset,
            bytes: bytes_of(&words),
        }
    }

    /// Returns how to draw the given textures, each with the index of its instance
    /// in the layer: `None` if there is no buffer to read uniforms from.
    pub fn render<'a>(
        &'a self,
        pipeline: &Pipeline,
        instances: &[(u32, &'a K::Texture)],
        scissor_rect: Rectangle<u32>,
    ) -> (r: Option<Composite<'a, K>>)
        requires
            pipeline.wf(),
            self.constant_bind_group is Some ==> forall|i: int|
                0 <= i < instances@.len() ==> pipeline.uniform_alignment * (
                #[trigger] instances@[i]).0 <= u32::MAX,
        ensures
            r is Some <==> self.constant_bind_group is Some,
            r matches Some(composite) ==> {
                &&& *composite.constant_bind_group == self.constant_bind_group->0
                &&& composite.scissor_rect == scissor_rect
                &&& composite.draws@.len() == instances@.len()
                &&& forall|i: int|
                    0 <= i < instances@.len() ==> {
                        &&& (#[trigger] composite.draws@[i]).dynamic_offset
                            == pipeline.uniform_alignment * instances@[i].0
                        &&& *composite.draws@[i].texture == *instances@[i].1
                    }
            },
    {
        match &self.constant_bind_group {
            Some(constant_bind_group) => {
                let alignment: u32 = pipeline.uniform_alignment as u32;
                let mut draws: Vec<CompositeDraw<'a, K>> = Vec::new();
                let mut i: usize = 0;
                while i < instances.len()
                    invariant
                        i <= instances@.len(),
                        alignment == pipeline.uniform_alignment,
                        draws@.len() == i,
                        forall|j: int|
                            0 <= j < instances@.len() ==> pipeline.uniform_alignment * (
                            #[trigger] instances@[j]).0 <= u32::MAX,
                        forall|j: int|
                            0 <= j < i ==> {
                                &&& (#[trigger] draws@[j]).dynamic_offset
                                    == pipeline.uniform_alignment * instances@[j].0
                                &&& *draws@[j].texture == *instances@[j].1
                            },
                    decreases instances@.len() - i,
                {
                    let (index, texture) = instances[i];
                    draws.push(CompositeDraw { dynamic_offset: alignment * index, texture });
                    i = i + 1;
                }
                Some(Composite { constant_bind_group, scissor_rect, draws })
            },
            None => None,
        }
    }
}

impl<K: Backend> Default for LayerState<K> {
    fn default() -> (r: LayerState<K>)
        ensures
            r.wf(),
            r == LayerState::<K>::empty(),
    {
        LayerState::new()
    }
}

/// Whether `after` is `before` with room for `count` instances: unchanged if there
/// was room, else with a new buffer of exactly that many.
pub open spec fn ensured<K: Backend, F: Fn(u64) -> (K::Buffer, K::BindGroup)>(
    before: LayerState<K>,
    after: LayerState<K>,
    pipeline: Pipeline,
    count: int,
    create: F,
) -> bool {
    if before.has_room(count) {
        after == before
    } else {
        &&& after.capacity == count
        &&& after.uniform_buffer is Some
        &&& after.constant_bind_group is Some
        &&& call_ensures(
            create,
            ((pipeline.uniform_alignment * count) as u64,),
            (after.uniform_buffer->0, after.constant_bind_group->0),
        )
    }
}

/// The uniforms of an instance lie within the buffer, and after those of the
/// instances before it.
pub proof fn law_uniforms_do_not_overlap(pipeline: Pipeline, count: int, i: int, j: int)
    requires
        pipeline.wf(),
        0 <= i < j <= count,
    ensures
        pipeline.uniform_alignment * i + UNIFORMS_SIZE <= pipeline.uniform_alignment * j,
        pipeline.uniform_alignment * i + UNIFORMS_SIZE <= pipeline.uniform_alignment * count,
{
    let a = pipeline.uniform_alignment as int;
    assert(a * i + a <= a * j) by (nonlinear_arith)
        requires
            0 <= i < j,
            0 <= a,
    ;
    assert(a * j <= a * count) by (nonlinear_arith)
        requires
            j <= count,
            0 <= a,
    ;
}

/// The uniforms of the given instance.
pub open spec fn uniforms_of(
    instance: Instance,
    projection: Transformation,
    scale: Scalar,
    uv_max: [Scalar; 2],
) -> Uniforms {
    Uniforms {
        transform: projection.matrix,
        bounds: [
            instance.bounds.x,
            instance.bounds.y,
            instance.bounds.width,
            instance.bounds.height,
        ],
        scale,
        pad: Scalar::zero_spec(),
        uv_max,
    }
}

/// The state that composites the cached textures of a frame.
///
/// The passes of a frame, one for each recording that is rendered and then the one
/// of the frame itself, use up the layer states one after the other.
pub struct FrameState<K: Backend> {
    /// The state of each layer that composites cached textures.
    pub layers: Vec<LayerState<K>>,
    /// The next layer state to prepare.
    pub prepare_layer: usize,
    /// The next layer state to render.
    pub render_layer: usize,
}

impl<K: Backend> FrameState<K> {
    /// What has been prepared exists, and nothing is rendered before it is
    /// prepared.
    pub open spec fn wf(self) -> bool {
        &&& self.render_layer <= self.prepare_layer <= self.layers@.len()
        &&& forall|i: int| 0 <= i < self.layers@.len() ==> (#[trigger] self.layers@[i]).wf()
    }

    /// Creates a state for a frame without layers.
    pub fn new() -> (r: FrameState<K>)
        ensures
            r.wf(),
            r.layers@.len() == 0,
            r.prepare_layer == 0,
            r.render_layer == 0,
    {
        FrameState { layers: Vec::new(), prepare_layer: 0, render_layer: 0 }
    }

    /// Starts over for the next frame. The buffers are kept.
    pub fn trim(&mut self)
        ensures
            old(self).wf() ==> final(self).wf(),
            final(self).layers@ == old(self).layers@,
            final(self).prepare_layer == 0,
            final(self).render_layer == 0,
    {
        self.prepare_layer = 0;
        self.render_layer = 0;
    }
}

impl<K: Backend> Default for FrameState<K> {
    fn default() -> (r: FrameState<K>)
        ensures
            r.wf(),
            r.layers@.len() == 0,
            r.prepare_layer == 0,
            r.render_layer == 0,
    {
        FrameState::new()
    }
}

} // verus!
