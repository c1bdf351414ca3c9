//! Compositor layers: persistent registration units for cached,
//! transform-animated content.
//!
//! A [`LayerSlot`] is a small handle, held behind an [`Arc`], that a widget owns
//! across frames. Layer-aware widgets write their per-frame parameters into the
//! slot while events propagate and enroll the slot in this frame's
//! [`LayerRegistry`]. After the widgets have drawn themselves, every registered
//! slot is composited: parent transformations apply to their children, and clip
//! bounds wrap a slot together with its children.
//!
//! What changes from frame to frame lives in [`SlotStates`], keyed by
//! [`LayerId`], so every handle to a slot sees the same state.
use std::collections::{HashMap, HashSet};
use std::sync::Arc;
use vstd::prelude::*;

use crate::geometry::{Rectangle, Scalar, Size, Transformation};
use crate::texture_cache::TextureCache;

verus! {

/// An identifier for a [`LayerSlot`], unique among all slots of one
/// [`SlotStates`].
#[derive(Debug, Copy, Clone, PartialEq, Eq, PartialOrd, Ord, Hash, Structural)]
pub struct LayerId(u64);

impl View for LayerId {
    type V = u64;

    closed spec fn view(&self) -> u64 {
        self.0
    }
}

impl LayerId {
    /// Returns the raw integer value of the [`LayerId`].
    pub fn as_u64(self) -> (r: u64)
        ensures
            r == self@,
    {
        self.0
    }
}

/// Layer ids with the same value are the same id.
pub broadcast proof fn lemma_layer_id_extensional(a: LayerId, b: LayerId)
    ensures
        (#[trigger] a@ == #[trigger] b@) == (a == b),
{
}

/// What a widget writes into a [`LayerSlot`] each frame.
#[derive(Debug, Clone, Copy, PartialEq)]
pub struct LayerSlotData {
    /// Local transformation applied while compositing. It applies inside the
    /// parent layer's transformation.
    pub transform: Transformation,
    /// Bounds at which the slot's cache is composited. For a group layer that
    /// records no cache this can be the layer's outer rectangle.
    pub bounds: Rectangle,
    /// The enclosing layer at registration time, or [`None`] for top-level
    /// layers.
    pub parent_id: Option<LayerId>,
    /// Optional clip rectangle. When set, the slot and its children are
    /// composited inside a layer with these bounds.
    pub clip_bounds: Option<Rectangle>,
}

impl LayerSlotData {
    /// Whether these are the parameters of a slot that nobody has written to.
    pub open spec fn is_default(self) -> bool {
        &&& self.transform.is_identity()
        &&& self.bounds == Rectangle::with_size_spec(Size::<Scalar>::zero_spec())
        &&& self.parent_id is None
        &&& self.clip_bounds is None
    }
}

impl Default for LayerSlotData {
    fn default() -> (r: LayerSlotData)
        ensures
            r.is_default(),
    {
        LayerSlotData {
            transform: Transformation::identity(),
            bounds: Rectangle::with_size(Size::zero()),
            parent_id: None,
            clip_bounds: None,
        }
    }
}

/// A persistent registration handle for a compositor layer.
#[derive(Debug)]
pub struct LayerSlot {
    id: LayerId,
    cache: TextureCache,
}

/// The state of one slot.
#[derive(Debug, Clone, Copy)]
pub struct SlotState {
    /// The parameters last written.
    pub data: LayerSlotData,
    /// Whether a descendant's cache went stale since the flag was last taken.
    pub subtree_dirty: bool,
}

/// The state of all live slots, and the counter that the ids of new slots are
/// drawn from.
#[derive(Debug)]
pub struct SlotStates {
    next: u64,
    slots: HashMap<u64, SlotState>,
}

impl View for SlotStates {
    type V = Map<u64, SlotState>;

    /// The state of each live slot, by its id.
    closed spec fn view(&self) -> Map<u64, SlotState> {
        self.slots@
    }
}

impl SlotStates {
    /// The id that the next slot will get.
    pub closed spec fn next_id(&self) -> u64 {
        self.next
    }

    /// Ids count up from one, and every live slot has one that was given out.
    pub open spec fn wf(&self) -> bool {
        &&& 1 <= self.next_id()
        &&& forall|id: u64| #[trigger] self@.contains_key(id) ==> 1 <= id < self.next_id()
    }

    /// Whether `slot` was created here and not released since.
    pub open spec fn contains(&self, slot: LayerSlot) -> bool {
        self@.contains_key(slot.id()@)
    }

    /// The parameters last written to `slot`.
    pub open spec fn data_of(&self, slot: LayerSlot) -> LayerSlotData {
        self@[slot.id()@].data
    }

    /// Creates an empty set of slots. The first id given out is one.
    pub fn new() -> (r: SlotStates)
        ensures
            r.wf(),
            r@ == Map::<u64, SlotState>::empty(),
            r.next_id() == 1,
    {
        SlotStates { next: 1, slots: HashMap::new() }
    }

    /// Returns whether there is an id left for another slot.
    pub fn has_room(&self) -> (r: bool)
        ensures
            r == (self.next_id() < u64::MAX),
    {
        self.next < u64::MAX
    }

    /// Returns whether the slot with the given id is live.
    pub fn is_live(&self, id: LayerId) -> (r: bool)
        ensures
            r == self@.contains_key(id@),
    {
        self.slots.contains_key(&id.0)
    }

    /// Forgets a slot whose handles are all gone. Its id is not given out again.
    pub fn release(&mut self, slot: Arc<LayerSlot>)
        requires
            old(self).wf(),
        ensures
            final(self).wf(),
            final(self)@ == old(self)@.remove(slot.id()@),
            final(self).next_id() == old(self).next_id(),
    {
        let id: u64 = slot.id.0;
        self.slots.remove(&id);
        assert(forall|k: u64| #[trigger]
            self@.contains_key(k) ==> old(self)@.contains_key(k));
    }
}

impl LayerSlot {
    /// The id of this slot.
    pub closed spec fn spec_id(&self) -> LayerId {
        self.id
    }

    /// The texture cache that holds the recorded contents of this layer.
    pub closed spec fn spec_cache(&self) -> TextureCache {
        self.cache
    }

    /// Creates a new layer slot backed by the given texture cache, wrapped in an
    /// [`Arc`] so that the handle can be cloned cheaply into the registry.
    pub fn new(cache: TextureCache, states: &mut SlotStates) -> (r: Arc<LayerSlot>)
        requires
            old(states).wf(),
            old(states).next_id() < u64::MAX,
        ensures
            final(states).wf(),
            r.spec_cache() == cache,
            r.id()@ == old(states).next_id(),
            !old(states).contains(*r),
            final(states).contains(*r),
            final(states).data_of(*r).is_default(),
            !final(states)@[r.id()@].subtree_dirty,
            final(states)@ == old(states)@.insert(r.id()@, final(states)@[r.id()@]),
            final(states).next_id() == old(states).next_id() + 1,
    {
        let id: u64 = states.next;
        states.next = id + 1;
        states.slots.insert(
            id,
            SlotState { data: LayerSlotData::default(), subtree_dirty: false },
        );
        assert(forall|k: u64| #[trigger]
            states@.contains_key(k) ==> k == id || old(states)@.contains_key(k));
        Arc::new(LayerSlot { id: LayerId(id), cache })
    }

    /// Returns the [`LayerId`] of this slot.
    #[verifier::when_used_as_spec(spec_id)]
    pub fn id(&self) -> (r: LayerId)
        ensures
            r == self.id(),
    {
        self.id
    }

    /// Returns the texture cache that holds the recorded contents of this layer.
    ///
    /// Group layers may never record into it. Compositing an unrecorded cache draws
    /// nothing, and the layer's children are still composited.
    pub fn cache(&self) -> (r: &TextureCache)
        ensures
            *r == self.spec_cache(),
    {
        &self.cache
    }

    /// Runs `f` with mutable access to the per-frame data of this slot.
    pub fn write<R, F: FnOnce(&mut LayerSlotData) -> R>(
        &self,
        states: &mut SlotStates,
        f: F,
    ) -> (r: R)
        requires
            old(states).wf(),
            old(states).contains(*self),
            forall|d: &mut LayerSlotData|
                *d == old(states).data_of(*self) ==> #[trigger] call_requires(f, (d,)),
        ensures
            final(states).wf(),
            final(states).next_id() == old(states).next_id(),
            exists|d: &mut LayerSlotData|
                {
                    &&& *d == old(states).data_of(*self)
                    &&& #[trigger] call_ensures(f, (d,), r)
                    &&& final(states)@ == written(old(states)@, self.id()@, *final(d))
                },
    {
        let mut state = self.state(states);
        let r = f(&mut state.data);
        states.slots.insert(self.id.0, state);
        assert(forall|k: u64| #[trigger]
            states@.contains_key(k) ==> k == self.id()@ || old(states)@.contains_key(k));
        r
    }

    /// Returns the state of this slot.
    fn state(&self, states: &SlotStates) -> (r: SlotState)
        requires
            states.contains(*self),
        ensures
            r == states@[self.id()@],
    {
        *states.slots.get(&self.id.0).unwrap()
    }

    /// Returns a copy of the per-frame data of this slot.
    pub fn read(&self, states: &SlotStates) -> (r: LayerSlotData)
        requires
            states.contains(*self),
        ensures
            r == states.data_of(*self),
    {
        self.state(states).data
    }

    /// Flags this slot as having a dirty cache somewhere in its subtree.
    ///
    /// A descendant whose own cache is invalidated marks every ancestor slot. The
    /// flag tells this slot that it must traverse its content to reach that
    /// descendant, without recording its own contents again.
    pub fn mark_subtree_dirty(&self, states: &mut SlotStates)
        requires
            old(states).wf(),
            old(states).contains(*self),
        ensures
            final(states).wf(),
            final(states)@ == flagged(old(states)@, self.id()@, true),
            final(states).next_id() == old(states).next_id(),
    {
        let mut state = self.state(states);
        state.subtree_dirty = true;
        states.slots.insert(self.id.0, state);
    }

    /// Reads the subtree-dirty flag and resets it to `false`.
    ///
    /// Consumed once per frame: returns `true` if a descendant marked this slot
    /// since the flag was last taken, then clears it so that it does not persist
    /// into the next frame.
    pub fn take_subtree_dirty(&self, states: &mut SlotStates) -> (r: bool)
        requires
            old(states).wf(),
            old(states).contains(*self),
        ensures
            final(states).wf(),
            r == old(states)@[self.id()@].subtree_dirty,
            final(states)@ == flagged(old(states)@, self.id()@, false),
            final(states).next_id() == old(states).next_id(),
    {
        let mut state = self.state(states);
        let was = state.subtree_dirty;
        state.subtree_dirty = false;
        states.slots.insert(self.id.0, state);
        was
    }
}

/// Whether one of `slots` has the given id.
pub open spec fn has_id(slots: Seq<Arc<LayerSlot>>, id: LayerId) -> bool {
    exists|i: int| 0 <= i < slots.len() && (#[trigger] slots[i]).id() == id
}

/// Whether no two of `slots` have the same id.
pub open spec fn distinct_ids(slots: Seq<Arc<LayerSlot>>) -> bool {
    forall|i: int, j: int|
        0 <= i < j < slots.len() ==> (#[trigger] slots[i]).id() != (#[trigger] slots[j]).id()
}

/// `slots` with `slot` registered: unchanged if a slot with the same id is there
/// already, else with `slot` at the end.
pub open spec fn with_registered(slots: Seq<Arc<LayerSlot>>, slot: Arc<LayerSlot>) -> Seq<
    Arc<LayerSlot>,
> {
    if has_id(slots, slot.id()) {
        slots
    } else {
        slots.push(slot)
    }
}

/// The layers registered during one frame.
///
/// Cleared before events propagate, filled by layer-aware widgets while they
/// update, and consumed when the layers are composited.
#[derive(Debug)]
pub struct LayerRegistry {
    registered: Vec<Arc<LayerSlot>>,
    registered_ids: HashSet<u64>,
    stack: Vec<Arc<LayerSlot>>,
}

impl LayerRegistry {
    /// The slots registered this frame, in the order of their first
    /// registration.
    pub closed spec fn slots(&self) -> Seq<Arc<LayerSlot>> {
        self.registered@
    }

    /// The enclosing layers of the widget that is being updated, outermost
    /// first.
    pub closed spec fn parents(&self) -> Seq<Arc<LayerSlot>> {
        self.stack@
    }

    /// The membership set holds the ids of the registered slots.
    pub closed spec fn ids_match(&self) -> bool {
        forall|id: u64| #[trigger]
            self.registered_ids@.contains(id) <==> has_id(self.registered@, LayerId(id))
    }

    /// No slot is registered twice.
    pub open spec fn wf(&self) -> bool {
        &&& self.ids_match()
        &&& distinct_ids(self.slots())
    }

    /// Creates a new, empty registry with room for the usual number of layers.
    pub fn new() -> (r: LayerRegistry)
        ensures
            r.wf(),
            r.slots().len() == 0,
            r.parents().len() == 0,
    {
        LayerRegistry {
            registered: Vec::with_capacity(64),
            registered_ids: HashSet::with_capacity(64),
            stack: Vec::with_capacity(8),
        }
    }

    /// Clears all per-frame state. Capacity is retained.
    pub fn clear(&mut self)
        ensures
            final(self).wf(),
            final(self).slots().len() == 0,
            final(self).parents().len() == 0,
    {
        self.registered.clear();
        self.registered_ids.clear();
        self.stack.clear();
    }

    /// Returns the slots registered this frame, in registration order.
    pub fn registered(&self) -> (r: &[Arc<LayerSlot>])
        ensures
            r@ == self.slots(),
    {
        self.registered.as_slice()
    }

    /// Returns `true` if no slots have been registered this frame.
    pub fn is_empty(&self) -> (r: bool)
        ensures
            r == (self.slots().len() == 0),
    {
        self.registered.is_empty()
    }

    /// Adds `slot` unless one with the same id is registered already.
    pub(crate) fn register(&mut self, slot: Arc<LayerSlot>)
        requires
            old(self).wf(),
        ensures
            final(self).wf(),
            final(self).slots() == with_registered(old(self).slots(), slot),
            final(self).parents() == old(self).parents(),
    {
        let id: u64 = slot.id.0;
        let ghost before = self.registered@;
        if self.registered_ids.insert(id) {
            self.registered.push(slot);
            let ghost after = self.registered@;
            assert forall|k: u64| #[trigger]
                self.registered_ids@.contains(k) <==> has_id(after, LayerId(k)) by {
                if has_id(before, LayerId(k)) {
                    let i = choose|i: int|
                        0 <= i < before.len() && (#[trigger] before[i]).id() == LayerId(k);
                    assert(after[i].id() == LayerId(k));
                }
                if k == id {
                    assert(after[before.len() as int].id() == LayerId(k));
                }
            }
        }
    }

    /// Enters `slot`: it becomes the innermost enclosing layer.
    pub(crate) fn enter(&mut self, slot: Arc<LayerSlot>)
        ensures
            old(self).wf() ==> final(self).wf(),
            final(self).slots() == old(self).slots(),
            final(self).parents() == old(self).parents().push(slot),
    {
        self.stack.push(slot);
    }

    /// Leaves the innermost enclosing layer, if there is one.
    pub(crate) fn leave(&mut self)
        ensures
            old(self).wf() ==> final(self).wf(),
            final(self).slots() == old(self).slots(),
            final(self).parents() == (if old(self).parents().len() == 0 {
                old(self).parents()
            } else {
                old(self).parents().drop_last()
            }),
    {
        let _ = self.stack.pop();
    }

    /// Returns a handle to the innermost enclosing layer.
    pub(crate) fn innermost(&self) -> (r: Option<Arc<LayerSlot>>)
        ensures
            r == (if self.parents().len() == 0 {
                None
            } else {
                Some(self.parents().last())
            }),
    {
        let n: usize = self.stack.len();
        if n == 0 {
            None
        } else {
            Some(self.stack[n - 1].clone())
        }
    }

    /// Returns handles to the enclosing layers, innermost first.
    pub(crate) fn ancestors(&self) -> (r: Vec<Arc<LayerSlot>>)
        ensures
            r@ == self.parents().reverse(),
    {
        let mut handles: Vec<Arc<LayerSlot>> = Vec::new();
        let mut left: usize = self.stack.len();
        while left > 0
            invariant
                left <= self.stack@.len(),
                handles@.len() == self.stack@.len() - left,
                forall|i: int|
                    0 <= i < handles@.len() ==> #[trigger] handles@[i] == self.stack@[self.stack@.len()
                        - 1 - i],
            decreases left,
        {
            left = left - 1;
            handles.push(self.stack[left].clone());
        }
        handles
    }
}

impl Default for LayerRegistry {
    fn default() -> (r: LayerRegistry)
        ensures
            r.wf(),
            r.slots().len() == 0,
            r.parents().len() == 0,
    {
        LayerRegistry::new()
    }
}

/// Registering a slot a second time changes nothing.
pub proof fn law_registering_again_changes_nothing(
    slots: Seq<Arc<LayerSlot>>,
    slot: Arc<LayerSlot>,
)
    ensures
        with_registered(with_registered(slots, slot), slot) == with_registered(slots, slot),
{
    if !has_id(slots, slot.id()) {
        assert(slots.push(slot)[slots.len() as int].id() == slot.id());
    }
}

/// Registration keeps the slots that are there in their order, adds at most one at
/// the end, and never leads to two slots with the same id.
pub proof fn law_registration_order_is_kept(
    slots: Seq<Arc<LayerSlot>>,
    slot: Arc<LayerSlot>,
)
    requires
        distinct_ids(slots),
    ensures
        slots.is_prefix_of(with_registered(slots, slot)),
        with_registered(slots, slot).len() <= slots.len() + 1,
        has_id(with_registered(slots, slot), slot.id()),
        distinct_ids(with_registered(slots, slot)),
        (exists|i: int| 0 <= i < slots.len() && (#[trigger] slots[i]).id() == slot.id())
            ==> with_registered(slots, slot) == slots,
        (forall|i: int| 0 <= i < slots.len() ==> (#[trigger] slots[i]).id() != slot.id()) ==> (
        with_registered(slots, slot).len() == slots.len() + 1 && with_registered(
            slots,
            slot,
        ).last() == slot),
{
    if !has_id(slots, slot.id()) {
        assert(slots.push(slot)[slots.len() as int].id() == slot.id());
    }
}

/// Leaving a layer undoes entering it: the same layers enclose the widget as
/// before, and inside it is the innermost.
pub proof fn law_leaving_undoes_entering(
    parents: Seq<Arc<LayerSlot>>,
    slot: Arc<LayerSlot>,
)
    ensures
        parents.push(slot).drop_last() == parents,
        parents.push(slot).last() == slot,
        parents.push(slot).reverse() == seq![slot] + parents.reverse(),
{
    assert(parents.push(slot).drop_last() =~= parents);
    assert(parents.push(slot).reverse() =~= seq![slot] + parents.reverse());
}

/// The states after `data` has been written to the slot with the given id.
pub open spec fn written(states: Map<u64, SlotState>, id: u64, data: LayerSlotData) -> Map<
    u64,
    SlotState,
> {
    states.insert(id, SlotState { data, ..states[id] })
}

/// The states after the dirty flag of the slot with the given id has been set or
/// reset.
pub open spec fn flagged(states: Map<u64, SlotState>, id: u64, dirty: bool) -> Map<
    u64,
    SlotState,
> {
    states.insert(id, SlotState { subtree_dirty: dirty, ..states[id] })
}

/// A read gives back what was written last. Writing to a slot touches neither its
/// dirty flag nor any other slot.
pub proof fn law_read_gives_back_the_last_write(
    states: Map<u64, SlotState>,
    id: u64,
    first: LayerSlotData,
    last: LayerSlotData,
    other: u64,
)
    requires
        states.contains_key(id),
    ensures
        written(states, id, last)[id].data == last,
        written(written(states, id, first), id, last) == written(states, id, last),
        written(states, id, last)[id].subtree_dirty == states[id].subtree_dirty,
        other != id ==> written(states, id, last)[other] == states[other],
        written(states, id, last).dom() == states.dom(),
{
    assert(written(written(states, id, first), id, last) =~= written(states, id, last));
    assert(written(states, id, last).dom() =~= states.dom());
}

/// A mark is taken exactly once, however often it was set. Marks touch neither what
/// was written to the slot nor any other slot.
pub proof fn law_a_mark_is_taken_once(states: Map<u64, SlotState>, id: u64, other: u64)
    requires
        states.contains_key(id),
    ensures
        flagged(states, id, true)[id].subtree_dirty,
        flagged(flagged(states, id, true), id, true) == flagged(states, id, true),
        !flagged(flagged(states, id, true), id, false)[id].subtree_dirty,
        flagged(states, id, true)[id].data == states[id].data,
        flagged(states, id, false)[id].data == states[id].data,
        other != id ==> flagged(states, id, true)[other] == states[other],
        other != id ==> flagged(states, id, false)[other] == states[other],
{
    assert(flagged(flagged(states, id, true), id, true) =~= flagged(states, id, true));
}

/// A slot that nobody has written to is not moved, has empty bounds, is in no layer and
/// clips nothing.
pub proof fn law_an_unwritten_slot_does_nothing(data: LayerSlotData, i: int)
    requires
        data.is_default(),
        0 <= i < 16,
    ensures
        data.transform.matrix@[i].bits == (if i == 0 || i == 5 || i == 10 || i == 15 {
            0x3f80_0000u32
        } else {
            0
        }),
        data.bounds.x.bits == 0,
        data.bounds.y.bits == 0,
        data.bounds.width.bits == 0,
        data.bounds.height.bits == 0,
        data.parent_id is None,
        data.clip_bounds is None,
{
    assert(data.transform.matrix@[i] == data.transform.matrix@[i]);
}

/// A new slot has an id that no slot before it had, whether or not that one is still
/// live.
pub proof fn law_slot_ids_are_not_given_out_again(states: SlotStates, earlier: u64)
    requires
        states.wf(),
        states@.contains_key(earlier) || earlier < states.next_id(),
    ensures
        earlier != states.next_id(),
        !states@.contains_key(states.next_id()),
{
}

} // verus!
