//! How textures and buffers of uniforms grow over many calls.
use vstd::arithmetic::power2::is_pow2;
use vstd::prelude::*;

use crate::geometry::Size;
use crate::gpu::texture_cache::{ensured, Entry, LayerState, Pipeline};
use crate::gpu::{capacity, ended, fits, is_entry_for, started, Backend, Renderer};
use crate::renderer::RecordTarget;
use crate::texture_cache::CacheFlags;

verus! {

/// What a kept recording asks for: the id of the cache, the target, and what
/// allocates textures.
#[verifier::ext_equal]
pub ghost struct Request<A> {
    pub id: u64,
    pub target: RecordTarget,
    pub allocate: A,
}

/// Whether both entries have the same texture, with the same contents in it.
pub open spec fn same_texture<K: Backend>(a: Entry<K>, b: Entry<K>) -> bool {
    &&& a.texture == b.texture
    &&& a.texture_capacity_size == b.texture_capacity_size
    &&& a.size == b.size
    &&& a.physical_size == b.physical_size
    &&& a.scale_factor == b.scale_factor
}

/// Whether `after` are the entries that come of `before` in one step: a kept recording
/// begins, or anything else happens that can drop entries but leaves the textures of
/// the others alone.
pub open spec fn is_step<K: Backend, A: FnOnce(Size<u32>) -> K::Texture>(
    before: Map<u64, Entry<K>>,
    after: Map<u64, Entry<K>>,
    request: Option<Request<A>>,
) -> bool {
    match request {
        Some(request) => {
            &&& after.contains_key(request.id)
            &&& after == before.insert(request.id, after[request.id])
            &&& is_entry_for(
                before,
                request.id,
                request.target,
                request.allocate,
                after[request.id],
            )
        },
        None => forall|id: u64| #[trigger]
            after.contains_key(id) ==> before.contains_key(id) && same_texture(
                before[id],
                after[id],
            ),
    }
}

/// Whether `states` are the entries of a renderer over many steps. It begins with
/// entries in order: a new renderer has none.
pub open spec fn is_run<K: Backend, A: FnOnce(Size<u32>) -> K::Texture>(
    states: Seq<Map<u64, Entry<K>>>,
    requests: Seq<Option<Request<A>>>,
) -> bool {
    &&& states.len() == requests.len() + 1
    &&& all_wf(states[0])
    &&& forall|k: int|
        0 <= k < requests.len() ==> is_step(states[k], states[k + 1], #[trigger] requests[k])
}

/// Whether all entries are in order.
pub open spec fn all_wf<K: Backend>(entries: Map<u64, Entry<K>>) -> bool {
    forall|id: u64| #[trigger] entries.contains_key(id) ==> entries[id].wf()
}

/// The start of a recording is a step.
pub proof fn law_starting_is_a_step<K: Backend, A: FnOnce(Size<u32>) -> K::Texture>(
    before: Renderer<K>,
    after: Renderer<K>,
    id: u64,
    began: bool,
    keep: bool,
    target: RecordTarget,
    allocate: A,
)
    requires
        started(before, after, id, began, keep, target, allocate),
    ensures
        is_step(
            before.texture_cache.entries@,
            after.texture_cache.entries@,
            if began && keep {
                Some(Request { id, target, allocate })
            } else {
                None
            },
        ),
{
}

/// So is its end.
pub proof fn law_ending_is_a_step<K: Backend, A: FnOnce(Size<u32>) -> K::Texture>(
    before: Renderer<K>,
    after: Renderer<K>,
)
    requires
        ended(before, after),
    ensures
        is_step::<K, A>(before.texture_cache.entries@, after.texture_cache.entries@, None),
{
}

/// So is rendering a recording, once its cache has its entry back, with other buffers
/// in it.
pub proof fn law_flushing_is_a_step<K: Backend, A: FnOnce(Size<u32>) -> K::Texture>(
    before: Map<u64, Entry<K>>,
    id: u64,
    state: K::State,
)
    requires
        before.contains_key(id),
    ensures
        is_step::<K, A>(
            before,
            before.insert(id, Entry { state: Some(state), ..before[id] }),
            None,
        ),
{
}

/// So is reclaiming the textures of caches that are gone.
pub proof fn law_reclaiming_is_a_step<K: Backend, A: FnOnce(Size<u32>) -> K::Texture>(
    before: Map<u64, Entry<K>>,
    flags: CacheFlags,
)
    ensures
        is_step::<K, A>(before, before.restrict(flags@.dom()), None),
{
}

/// In one step entries stay in order, and no texture that stays shrinks. A texture is
/// replaced only where it does not hold the contents that are asked for, and then
/// every extent that is too small at least doubles. Wherever the extents of an entry
/// change, or there was none, its texture is the one that was allocated with just
/// these extents. The cache that is asked for has what was asked for, and the entries
/// of the other caches are left alone.
pub proof fn law_one_request_grows_one_texture<K: Backend, A: FnOnce(Size<u32>) -> K::Texture>(
    before: Map<u64, Entry<K>>,
    after: Map<u64, Entry<K>>,
    request: Request<A>,
)
    requires
        all_wf(before),
        is_step(before, after, Some(request)),
    ensures
        all_wf(after),
        after[request.id].size == request.target.size,
        after[request.id].physical_size == request.target.physical_size,
        after[request.id].scale_factor == request.target.scale_factor,
        forall|id: u64| #[trigger]
            before.contains_key(id) ==> after.contains_key(id) && (id != request.id ==> after[id]
                == before[id]) && capacity::holds(
                after[id].texture_capacity_size,
                before[id].texture_capacity_size,
            ),
        fits(before, request.id, request.target.physical_size) ==> after[request.id].texture
            == before[request.id].texture && after[request.id].texture_capacity_size
            == before[request.id].texture_capacity_size,
        !before.contains_key(request.id) || after[request.id].texture_capacity_size
            != before[request.id].texture_capacity_size ==> call_ensures(
            request.allocate,
            (after[request.id].texture_capacity_size,),
            after[request.id].texture,
        ),
        before.contains_key(request.id) && after[request.id].texture_capacity_size
            == before[request.id].texture_capacity_size ==> after[request.id].texture
            == before[request.id].texture,
        after[request.id].texture_capacity_size.width >= request.target.physical_size.width,
        after[request.id].texture_capacity_size.height >= request.target.physical_size.height,
        !before.contains_key(request.id) ==> after[request.id].texture_capacity_size.width
            == capacity::MIN_CAPACITY || after[request.id].texture_capacity_size.width < 2
            * request.target.physical_size.width,
        !before.contains_key(request.id) ==> after[request.id].texture_capacity_size.height
            == capacity::MIN_CAPACITY || after[request.id].texture_capacity_size.height < 2
            * request.target.physical_size.height,
        before.contains_key(request.id) && before[request.id].texture_capacity_size.width
            < request.target.physical_size.width ==> 2
            * before[request.id].texture_capacity_size.width
            <= after[request.id].texture_capacity_size.width,
        before.contains_key(request.id) && before[request.id].texture_capacity_size.height
            < request.target.physical_size.height ==> 2
            * before[request.id].texture_capacity_size.height
            <= after[request.id].texture_capacity_size.height,
{
    let id = request.id;
    let contents = request.target.physical_size;
    if !fits(before, id, contents) {
        let current = if before.contains_key(id) {
            before[id].texture_capacity_size
        } else {
            Size { width: 0u32, height: 0u32 }
        };
        let grown = after[id].texture_capacity_size;
        lemma_axis(grown.width as int, contents.width as int, current.width as int);
        lemma_axis(grown.height as int, contents.height as int, current.height as int);
    }
    assert forall|other: u64| #[trigger] after.contains_key(other) implies after[other].wf() by {
        if other != id {
            assert(before.contains_key(other));
        } else if fits(before, id, contents) {
            assert(before.contains_key(id));
        }
    }
}

proof fn lemma_axis(grown: int, needed: int, current: int)
    requires
        capacity::is_grown(grown, needed, current),
        0 <= needed,
        current == 0 || is_pow2(current),
        0 <= current,
    ensures
        is_pow2(grown),
        capacity::MIN_CAPACITY <= grown,
        needed <= grown,
        current <= grown,
        current < needed ==> 2 * current <= grown,
        current == 0 ==> grown == capacity::MIN_CAPACITY || grown < 2 * needed,
{
    if current == 0 {
        capacity::law_first_textures_are_small(grown, needed);
    }
    capacity::law_grown_is_a_power_of_two(grown, needed, current);
    capacity::law_grown_holds_the_contents(grown, needed, current);
    if 0 < current < needed {
        capacity::law_reallocation_doubles(grown, needed, current);
    }
}

/// Over many steps every texture holds its contents and has extents that are powers
/// of two, of at least [`MIN_CAPACITY`](capacity::MIN_CAPACITY) pixels.
pub proof fn law_entries_stay_in_order<K: Backend, A: FnOnce(Size<u32>) -> K::Texture>(
    states: Seq<Map<u64, Entry<K>>>,
    requests: Seq<Option<Request<A>>>,
    k: int,
)
    requires
        is_run(states, requests),
        0 <= k < states.len(),
    ensures
        all_wf(states[k]),
        forall|id: u64| #[trigger]
            states[k].contains_key(id) ==> {
                let extents = states[k][id].texture_capacity_size;
                &&& is_pow2(extents.width as int) && extents.width >= 128
                &&& is_pow2(extents.height as int) && extents.height >= 128
                &&& extents.width >= states[k][id].physical_size.width
                &&& extents.height >= states[k][id].physical_size.height
            },
    decreases k,
{
    if k > 0 {
        law_entries_stay_in_order(states, requests, k - 1);
        assert(is_step(states[k - 1], states[k - 1 + 1], requests[k - 1]));
        match requests[k - 1] {
            Some(request) => law_one_request_grows_one_texture(states[k - 1], states[k], request),
            None => {
                assert forall|id: u64| #[trigger]
                    states[k].contains_key(id) implies states[k][id].wf() by {
                    assert(states[k - 1].contains_key(id));
                }
            },
        }
    }
}

/// Whether step `k` asks for contents that the texture of the given cache does not
/// hold.
pub open spec fn exceeds<K: Backend, A: FnOnce(Size<u32>) -> K::Texture>(
    states: Seq<Map<u64, Entry<K>>>,
    requests: Seq<Option<Request<A>>>,
    id: u64,
    k: int,
) -> bool {
    requests[k] matches Some(request) && request.id == id && !fits(
        states[k],
        id,
        request.target.physical_size,
    )
}

/// Over many steps, the texture of a cache that stays never shrinks, and it has the
/// size it had, unless contents were asked for in between that it did not hold.
pub proof fn law_textures_never_shrink<K: Backend, A: FnOnce(Size<u32>) -> K::Texture>(
    states: Seq<Map<u64, Entry<K>>>,
    requests: Seq<Option<Request<A>>>,
    id: u64,
    i: int,
    j: int,
)
    requires
        is_run(states, requests),
        0 <= i <= j < states.len(),
        forall|k: int| i <= k <= j ==> (#[trigger] states[k]).contains_key(id),
    ensures
        capacity::holds(states[j][id].texture_capacity_size, states[i][id].texture_capacity_size),
        (states[j][id].texture_capacity_size == states[i][id].texture_capacity_size
            && states[j][id].texture == states[i][id].texture) || exists|k: int|
            i <= k < j && #[trigger] exceeds(states, requests, id, k),
    decreases j - i,
{
    if i < j {
        law_textures_never_shrink(states, requests, id, i, j - 1);
        law_entries_stay_in_order(states, requests, j - 1);
        assert(states[j].contains_key(id));
        assert(states[j - 1].contains_key(id));
        assert(is_step(states[j - 1], states[j - 1 + 1], requests[j - 1]));
        match requests[j - 1] {
            Some(request) => {
                law_one_request_grows_one_texture(states[j - 1], states[j], request);
                if request.id == id && !fits(states[j - 1], id, request.target.physical_size) {
                    assert(exceeds(states, requests, id, j - 1));
                }
            },
            None => {},
        }
    }
}

/// The greatest of the first `n` counts, or zero.
pub open spec fn greatest(counts: Seq<u32>, n: int) -> int
    decreases n,
{
    if n <= 0 {
        0
    } else {
        capacity::larger(greatest(counts, n - 1), counts[n - 1] as int)
    }
}

/// Whether `states` is a layer state over many calls that make room in it, beginning
/// without a buffer.
pub open spec fn makes_room<K: Backend, F: Fn(u64) -> (K::Buffer, K::BindGroup)>(
    states: Seq<LayerState<K>>,
    counts: Seq<u32>,
    pipeline: Pipeline,
    create: F,
) -> bool {
    &&& states.len() == counts.len() + 1
    &&& states[0] == LayerState::<K>::empty()
    &&& forall|k: int|
        0 <= k < counts.len() ==> ensured(
            states[k],
            states[k + 1],
            pipeline,
            #[trigger] counts[k] as int,
            create,
        )
}

/// A layer state has room for the greatest number of instances that it was asked to
/// make room for, and no more. Its buffer has just the bytes for them. It is replaced
/// only by a call that asks for more than every call before, so that the room never
/// gets less.
pub proof fn law_a_layer_state_holds_the_greatest_count<
    K: Backend,
    F: Fn(u64) -> (K::Buffer, K::BindGroup),
>(
    states: Seq<LayerState<K>>,
    counts: Seq<u32>,
    pipeline: Pipeline,
    create: F,
    k: int,
)
    requires
        makes_room(states, counts, pipeline, create),
        0 <= k < states.len(),
    ensures
        states[k].wf(),
        states[k].capacity == greatest(counts, k),
        states[k].capacity > 0 ==> call_ensures(
            create,
            ((pipeline.uniform_alignment * states[k].capacity) as u64,),
            (states[k].uniform_buffer->0, states[k].constant_bind_group->0),
        ),
        k > 0 ==> states[k - 1].capacity <= states[k].capacity,
        k > 0 && states[k] != states[k - 1] ==> counts[k - 1] > greatest(counts, k - 1),
    decreases k,
{
    if k > 0 {
        law_a_layer_state_holds_the_greatest_count(states, counts, pipeline, create, k - 1);
        assert(ensured(states[k - 1], states[k - 1 + 1], pipeline, counts[k - 1] as int, create));
    }
}

/// The room that a layer state has never gets less, however many calls come in
/// between.
pub proof fn law_room_never_gets_less<
    K: Backend,
    F: Fn(u64) -> (K::Buffer, K::BindGroup),
>(
    states: Seq<LayerState<K>>,
    counts: Seq<u32>,
    pipeline: Pipeline,
    create: F,
    i: int,
    j: int,
)
    requires
        makes_room(states, counts, pipeline, create),
        0 <= i <= j < states.len(),
    ensures
        states[i].capacity <= states[j].capacity,
    decreases j - i,
{
    if i < j {
        law_room_never_gets_less(states, counts, pipeline, create, i, j - 1);
        law_a_layer_state_holds_the_greatest_count(states, counts, pipeline, create, j);
    }
}

} // verus!
