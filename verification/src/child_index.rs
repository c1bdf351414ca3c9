//! A sorted index from layers to the slots registered inside them.
//!
//! The index is a vector of `(parent, slot)` pairs, sorted by parent and then by
//! registration order, so that the children of a layer are a contiguous run that
//! two binary searches find. Its capacity is kept from frame to frame.
use std::sync::Arc;
use vstd::prelude::*;

use crate::compose::Scene;
use crate::layer::{lemma_layer_id_extensional, LayerId, LayerSlot, SlotStates};

verus! {

/// Whether pair `a` belongs before pair `b`.
pub open spec fn pair_before(a: (LayerId, usize), b: (LayerId, usize)) -> bool {
    a.0@ < b.0@ || (a.0@ == b.0@ && a.1 < b.1)
}

/// Whether `index` is the sorted index over the first `n` slots of `scene`.
pub open spec fn is_index(scene: Scene, index: Seq<(LayerId, usize)>, n: int) -> bool {
    &&& forall|k: int|
        0 <= k < index.len() ==> (#[trigger] index[k]).1 < n && scene.is_child(
            index[k].1 as int,
            index[k].0,
        )
    &&& forall|k: int, l: int|
        0 <= k < l < index.len() ==> pair_before(#[trigger] index[k], #[trigger] index[l])
    &&& forall|i: int, p: LayerId|
        0 <= i < n && #[trigger] scene.is_child(i, p) ==> index.contains((p, i as usize))
}

/// Returns how many pairs have a parent below `id`, or also those of `id` itself.
fn partition_point(index: &Vec<(LayerId, usize)>, id: LayerId, inclusive: bool) -> (r: usize)
    requires
        forall|k: int, l: int|
            0 <= k < l < index@.len() ==> pair_before(#[trigger] index@[k], #[trigger] index@[l]),
    ensures
        r <= index@.len(),
        forall|k: int|
            0 <= k < r ==> (#[trigger] index@[k]).0@ < id@ || (inclusive && index@[k].0@ == id@),
        forall|k: int|
            r <= k < index@.len() ==> (#[trigger] index@[k]).0@ > id@ || (!inclusive
                && index@[k].0@ == id@),
{
    let key: u64 = id.as_u64();
    let mut low: usize = 0;
    let mut high: usize = index.len();
    while low < high
        invariant
            low <= high <= index@.len(),
            key == id@,
            forall|k: int, l: int|
                0 <= k < l < index@.len() ==> pair_before(
                    #[trigger] index@[k],
                    #[trigger] index@[l],
                ),
            forall|k: int|
                0 <= k < low ==> (#[trigger] index@[k]).0@ < id@ || (inclusive && index@[k].0@
                    == id@),
            forall|k: int|
                high <= k < index@.len() ==> (#[trigger] index@[k]).0@ > id@ || (!inclusive
                    && index@[k].0@ == id@),
        decreases high - low,
    {
        let middle: usize = low + (high - low) / 2;
        let parent: u64 = index[middle].0.as_u64();
        if parent < key || (inclusive && parent == key) {
            low = middle + 1;
        } else {
            high = middle;
        }
    }
    low
}

/// Rebuilds `index` over the given slots.
pub fn build(slots: &[Arc<LayerSlot>], states: &SlotStates, index: &mut Vec<(LayerId, usize)>)
    requires
        Scene::new(slots@, states@, Set::empty()).wf(),
    ensures
        forall|backed: Set<u64>|
            is_index(
                #[trigger] Scene::new(slots@, states@, backed),
                final(index)@,
                slots@.len() as int,
            ),
{
    let ghost scene = Scene::new(slots@, states@, Set::empty());
    index.clear();
    let mut i: usize = 0;
    while i < slots.len()
        invariant
            i <= slots@.len(),
            scene == Scene::new(slots@, states@, Set::empty()),
            scene.wf(),
            is_index(scene, index@, i as int),
        decreases slots@.len() - i,
    {
        assert(scene.states.contains_key(scene.slots[i as int].id()@));
        let parent = slots[i].read(states).parent_id;
        if let Some(parent) = parent {
            let at: usize = partition_point(index, parent, true);
            let ghost before = index@;
            index.insert(at, (parent, i));
            proof {
                lemma_insert(scene, before, at as int, parent, i);
            }
        } else {
            assert(is_index(scene, index@, i + 1));
        }
        i = i + 1;
    }
    assert forall|backed: Set<u64>|
        is_index(
            #[trigger] Scene::new(slots@, states@, backed),
            index@,
            slots@.len() as int,
        ) by {
        let other = Scene::new(slots@, states@, backed);
        assert forall|k: int| 0 <= k < index@.len() implies (#[trigger] index@[k]).1
            < slots@.len() && other.is_child(index@[k].1 as int, index@[k].0) by {
            assert(scene.is_child(index@[k].1 as int, index@[k].0));
        }
        assert forall|j: int, p: LayerId|
            0 <= j < slots@.len() && #[trigger] other.is_child(j, p) implies index@.contains(
            (p, j as usize),
        ) by {
            assert(scene.is_child(j, p));
        }
    }
}

/// Inserting the pair of slot `n` behind those of the same parent gives the index
/// over one slot more.
proof fn lemma_insert(
    scene: Scene,
    index: Seq<(LayerId, usize)>,
    at: int,
    parent: LayerId,
    n: usize,
)
    requires
        is_index(scene, index, n as int),
        scene.is_child(n as int, parent),
        0 <= at <= index.len(),
        forall|k: int| 0 <= k < at ==> (#[trigger] index[k]).0@ <= parent@,
        forall|k: int| at <= k < index.len() ==> (#[trigger] index[k]).0@ > parent@,
    ensures
        is_index(scene, index.insert(at, (parent, n)), n + 1),
{
    let after = index.insert(at, (parent, n));
    assert forall|i: int, p: LayerId|
        0 <= i < n + 1 && #[trigger] scene.is_child(i, p) implies after.contains(
        (p, i as usize),
    ) by {
        if i == n {
            assert(after[at] == (p, i as usize));
        } else {
            assert(index.contains((p, i as usize)));
            let k = choose|k: int| 0 <= k < index.len() && index[k] == (p, i as usize);
            if k < at {
                assert(after[k] == (p, i as usize));
            } else {
                assert(after[k + 1] == (p, i as usize));
            }
        }
    }
}

/// Two increasing sequences with the same members are the same.
proof fn lemma_increasing_equal(a: Seq<int>, b: Seq<int>)
    requires
        forall|i: int, j: int| 0 <= i < j < a.len() ==> #[trigger] a[i] < #[trigger] a[j],
        forall|i: int, j: int| 0 <= i < j < b.len() ==> #[trigger] b[i] < #[trigger] b[j],
        forall|x: int| a.contains(x) <==> b.contains(x),
    ensures
        a == b,
    decreases a.len(),
{
    if a.len() == 0 {
        if b.len() > 0 {
            assert(b.contains(b[0]));
        }
        assert(a =~= b);
    } else {
        assert(a.contains(a.last()));
        assert(b.contains(a.last()));
        assert(b.contains(b.last()));
        assert(a.contains(b.last()));
        let x = a.last();
        assert(b.last() == x) by {
            let k = choose|k: int| 0 <= k < b.len() && b[k] == a.last();
            let l = choose|l: int| 0 <= l < a.len() && a[l] == b.last();
            if k < b.len() - 1 {
                assert(b[k] < b[b.len() - 1]);
            }
            if l < a.len() - 1 {
                assert(a[l] < a[a.len() - 1]);
            }
        }
        let a1 = a.drop_last();
        let b1 = b.drop_last();
        assert forall|y: int| a1.contains(y) <==> b1.contains(y) by {
            if a1.contains(y) {
                let l = choose|l: int| 0 <= l < a1.len() && a1[l] == y;
                assert(a[l] < a[a.len() - 1]);
                assert(a.contains(a[l]));
                assert(b.contains(y));
                let k = choose|k: int| 0 <= k < b.len() && b[k] == y;
                assert(b1[k] == y);
            }
            if b1.contains(y) {
                let l = choose|l: int| 0 <= l < b1.len() && b1[l] == y;
                assert(b[l] < b[b.len() - 1]);
                assert(b.contains(b[l]));
                assert(a.contains(y));
                let k = choose|k: int| 0 <= k < a.len() && a[k] == y;
                assert(a1[k] == y);
            }
        }
        lemma_increasing_equal(a1, b1);
        assert(a =~= a1.push(x));
        assert(b =~= b1.push(x));
    }
}

/// The children of a layer are listed in increasing order, and they are exactly
/// the slots registered inside it.
pub proof fn lemma_children_below(scene: Scene, parent: LayerId, n: int)
    requires
        n <= scene.slots.len(),
    ensures
        forall|i: int, j: int|
            0 <= i < j < scene.children_below(parent, n).len() ==> #[trigger] scene.children_below(
                parent,
                n,
            )[i] < #[trigger] scene.children_below(parent, n)[j],
        forall|x: int|
            #[trigger] scene.children_below(parent, n).contains(x) <==> (x < n && scene.is_child(
                x,
                parent,
            )),
    decreases n,
{
    if n > 0 {
        lemma_children_below(scene, parent, n - 1);
        let before = scene.children_below(parent, n - 1);
        let after = scene.children_below(parent, n);
        assert forall|i: int| 0 <= i < before.len() implies #[trigger] before[i] < n - 1 by {
            assert(before.contains(before[i]));
        }
        assert forall|x: int| after.contains(x) <==> (x < n && scene.is_child(x, parent)) by {
            if before.contains(x) {
                let k = choose|k: int| 0 <= k < before.len() && before[k] == x;
                assert(after[k] == x);
            }
            if after.contains(x) {
                let k = choose|k: int| 0 <= k < after.len() && after[k] == x;
                if k < before.len() {
                    assert(before[k] == x);
                }
            }
            if x == n - 1 && scene.is_child(x, parent) {
                assert(after[before.len() as int] == x);
            }
        }
    }
}

/// Returns the children of the layer with the given id.
pub fn children(index: &Vec<(LayerId, usize)>, id: LayerId, Ghost(scene): Ghost<Scene>) -> (r: Vec<
    usize,
>)
    requires
        is_index(scene, index@, scene.slots.len() as int),
        scene.slots.len() <= usize::MAX,
    ensures
        r@.map_values(|i: usize| i as int) == scene.children(id),
{
    let start: usize = partition_point(index, id, false);
    let end: usize = partition_point(index, id, true);
    let mut found: Vec<usize> = Vec::new();
    let mut k: usize = start;
    assert(start <= end) by {
        if end < start {
            assert(index@[end as int].0@ < id@);
        }
    }
    while k < end
        invariant
            start <= k <= end <= index@.len(),
            found@.len() == k - start,
            forall|j: int| 0 <= j < found@.len() ==> #[trigger] found@[j] == index@[start + j].1,
        decreases end - k,
    {
        found.push(index[k].1);
        k = k + 1;
    }
    proof {
        let a = found@.map_values(|i: usize| i as int);
        let b = scene.children(id);
        lemma_children_below(scene, id, scene.slots.len() as int);
        assert forall|j: int| 0 <= j < a.len() implies #[trigger] index@[start + j].0 == id by {
            assert(index@[start + j].0@ == id@);
            lemma_layer_id_extensional(index@[start + j].0, id);
        }
        assert forall|i: int, j: int| 0 <= i < j < a.len() implies #[trigger] a[i]
            < #[trigger] a[j] by {
            assert(pair_before(index@[start + i], index@[start + j]));
        }
        assert forall|x: int| a.contains(x) <==> b.contains(x) by {
            if a.contains(x) {
                let j = choose|j: int| 0 <= j < a.len() && a[j] == x;
                assert(index@[start + j].1 == x);
                assert(scene.is_child(x, id));
            }
            if b.contains(x) {
                assert(scene.is_child(x, id));
                assert(index@.contains((id, x as usize)));
                let k = choose|k: int| 0 <= k < index@.len() && index@[k] == (id, x as usize);
                assert(start <= k < end);
                assert(a[k - start] == x);
            }
        }
        lemma_increasing_equal(a, b);
    }
    found
}

} // verus!
