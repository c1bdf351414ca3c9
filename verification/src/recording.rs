//! Recorded drawing operations, and the recordings that wait to be rendered.
use vstd::prelude::*;

use crate::geometry::{Rectangle, Size};
use crate::renderer::Command;

verus! {

/// The operations recorded for one target, in the order they were issued.
#[derive(Debug, PartialEq)]
pub struct Stack<P> {
    /// The bounds of the target.
    pub bounds: Rectangle,
    /// The recorded operations.
    pub commands: Vec<Command<P>>,
}

/// What is recorded for one target.
#[verifier::ext_equal]
pub ghost struct Recorded<P> {
    pub bounds: Rectangle,
    pub commands: Seq<Command<P>>,
}

impl<P> View for Stack<P> {
    type V = Recorded<P>;

    open spec fn view(&self) -> Recorded<P> {
        Recorded { bounds: self.bounds, commands: self.commands@ }
    }
}

impl<P> Stack<P> {
    /// Creates a stack for an empty target.
    pub fn new() -> (r: Stack<P>)
        ensures
            r.commands@ == Seq::<Command<P>>::empty(),
            r.bounds == Rectangle::with_size_spec(Size::zero_spec()),
    {
        Stack { bounds: Rectangle::with_size(Size::zero()), commands: Vec::new() }
    }

    /// Drops what has been recorded and starts over in the given bounds.
    pub fn reset(&mut self, bounds: Rectangle)
        ensures
            final(self).commands@ == Seq::<Command<P>>::empty(),
            final(self).bounds == bounds,
    {
        self.bounds = bounds;
        self.commands.clear();
    }

    /// Appends an operation.
    pub fn record(&mut self, command: Command<P>)
        ensures
            final(self).commands@ == old(self).commands@.push(command),
            final(self).bounds == old(self).bounds,
            samples(final(self).commands@) == (samples(old(self).commands@)
                || command is DrawCachedTexture),
    {
        self.commands.push(command);
        proof {
            let before = old(self).commands@;
            let after = self.commands@;
            if samples(before) {
                let i = choose|i: int|
                    0 <= i < before.len() && (#[trigger] before[i]) is DrawCachedTexture;
                assert(after[i] is DrawCachedTexture);
            }
            assert(after[before.len() as int] == command);
        }
    }
}

/// Whether one of the operations draws a cached texture.
pub open spec fn samples<P>(commands: Seq<Command<P>>) -> bool {
    exists|i: int| 0 <= i < commands.len() && (#[trigger] commands[i]) is DrawCachedTexture
}

/// Whether the recording of the given cache is at position `i` of `pending`.
pub open spec fn pending_at<T>(pending: Seq<(u64, T)>, id: u64, i: int) -> bool {
    0 <= i < pending.len() && pending[i].0 == id
}

/// Whether the first recording of the given cache is at position `i` of `pending`.
pub open spec fn first_at<T>(pending: Seq<(u64, T)>, id: u64, i: int) -> bool {
    pending_at(pending, id, i) && forall|j: int| 0 <= j < i ==> (#[trigger] pending[j]).0 != id
}

/// Whether a recording of the given cache waits in `pending`.
pub open spec fn is_pending<T>(pending: Seq<(u64, T)>, id: u64) -> bool {
    exists|i: int| pending_at(pending, id, i)
}

/// Whether no cache has two recordings in `pending`.
pub open spec fn distinct_pending<T>(pending: Seq<(u64, T)>) -> bool {
    forall|i: int, j: int|
        0 <= i < j < pending.len() ==> (#[trigger] pending[i]).0 != (#[trigger] pending[j]).0
}

/// Whether position `k` is the first in `pending` whose cache has a texture.
pub open spec fn first_backed<T>(
    pending: Seq<(u64, T)>,
    backed: Set<u64>,
    k: int,
) -> bool {
    &&& 0 <= k < pending.len()
    &&& backed.contains(pending[k].0)
    &&& forall|j: int| 0 <= j < k ==> !backed.contains((#[trigger] pending[j]).0)
}

/// `pending` without the recording of the given cache.
pub open spec fn without<T>(pending: Seq<(u64, T)>, id: u64) -> Seq<(u64, T)> {
    if is_pending(pending, id) {
        pending.remove(choose|i: int| first_at(pending, id, i))
    } else {
        pending
    }
}

/// `pending` with a recording of the given cache at the end, in place of an earlier
/// one of the same cache.
pub open spec fn enqueued<T>(pending: Seq<(u64, T)>, id: u64, recording: T) -> Seq<
    (u64, T),
> {
    without(pending, id).push((id, recording))
}

proof fn lemma_first<T>(pending: Seq<(u64, T)>, id: u64, i: int) -> (k: int)
    requires
        pending_at(pending, id, i),
    ensures
        k <= i,
        first_at(pending, id, k),
        k == choose|k: int| first_at(pending, id, k),
    decreases i,
{
    let k = if exists|j: int| pending_at(pending, id, j) && j < i {
        let j = choose|j: int| pending_at(pending, id, j) && j < i;
        lemma_first(pending, id, j)
    } else {
        assert forall|j: int| 0 <= j < i implies (#[trigger] pending[j]).0 != id by {
            assert(!pending_at(pending, id, j));
        }
        i
    };
    let c = choose|k: int| first_at(pending, id, k);
    assert(first_at(pending, id, k));
    assert(first_at(pending, id, c));
    if k < c {
        assert(pending[k].0 == id);
    } else if c < k {
        assert(pending[c].0 == id);
    }
    k
}

/// Queues a recording of the given cache behind all others. An earlier one of the
/// same cache is dropped.
pub fn enqueue<P>(pending: &mut Vec<(u64, Stack<P>)>, id: u64, recording: Stack<P>)
    ensures
        final(pending)@ == enqueued(old(pending)@, id, recording),
        distinct_pending(old(pending)@) ==> distinct_pending(final(pending)@),
{
    let mut i: usize = 0;
    while i < pending.len()
        invariant_except_break
            i <= pending@.len(),
            pending@ == old(pending)@,
            forall|j: int| 0 <= j < i ==> (#[trigger] pending@[j]).0 != id,
        ensures
            pending@ == without(old(pending)@, id),
        decreases pending@.len() - i,
    {
        if pending[i].0 == id {
            proof {
                assert(first_at(pending@, id, i as int));
                let _ = lemma_first(pending@, id, i as int);
            }
            pending.remove(i);
            break;
        }
        i = i + 1;
    }
    proof {
        if distinct_pending(old(pending)@) {
            lemma_without(old(pending)@, id);
            assert forall|j: int| 0 <= j < pending@.len() implies (#[trigger] pending@[j]).0
                != id by {
                assert(!pending_at(pending@, id, j));
            }
        }
    }
    pending.push((id, recording));
}

proof fn lemma_without<T>(pending: Seq<(u64, T)>, id: u64)
    requires
        distinct_pending(pending),
    ensures
        distinct_pending(without(pending, id)),
        !is_pending(without(pending, id), id),
{
    let after = without(pending, id);
    if is_pending(pending, id) {
        let k = lemma_first(pending, id, choose|i: int| pending_at(pending, id, i));
        assert forall|i: int, j: int| 0 <= i < j < after.len() implies (#[trigger] after[i]).0 != (
        #[trigger] after[j]).0 by {
            let a = if i < k {
                i
            } else {
                i + 1
            };
            let b = if j < k {
                j
            } else {
                j + 1
            };
            assert(pending[a].0 != pending[b].0);
        }
        assert forall|i: int| !pending_at(after, id, i) by {
            if pending_at(after, id, i) {
                if i < k {
                    assert(pending[i].0 != pending[k].0);
                } else {
                    assert(pending[k].0 != pending[i + 1].0);
                }
            }
        }
    }
}

/// A queued recording is the one that waits for its cache, behind all others. Of
/// the other caches, those that waited still do, with the recordings they had.
pub proof fn law_enqueued_is_pending<T>(
    pending: Seq<(u64, T)>,
    id: u64,
    recording: T,
    other: u64,
)
    requires
        distinct_pending(pending),
    ensures
        distinct_pending(enqueued(pending, id, recording)),
        enqueued(pending, id, recording).last() == (id, recording),
        other != id ==> forall|i: int| #[trigger]
            pending_at(pending, other, i) ==> enqueued(pending, id, recording).contains(
                pending[i],
            ),
        other != id ==> (is_pending(enqueued(pending, id, recording), other) == is_pending(
            pending,
            other,
        )),
{
    let after = enqueued(pending, id, recording);
    lemma_without(pending, id);
    let kept = without(pending, id);
    assert forall|i: int| 0 <= i < kept.len() implies (#[trigger] kept[i]).0 != id by {
        assert(!pending_at(kept, id, i));
    }
    if other != id {
        assert forall|i: int| #[trigger] pending_at(pending, other, i) implies after.contains(
            pending[i],
        ) by {
            let a = lemma_kept(pending, id, recording, i);
        }
        if is_pending(pending, other) {
            let i = choose|i: int| pending_at(pending, other, i);
            let a = lemma_kept(pending, id, recording, i);
            assert(pending_at(after, other, a));
        }
        if is_pending(after, other) {
            let a = choose|i: int| pending_at(after, other, i);
            lemma_came_from(pending, id, recording, a);
        }
    }
}

/// Where the recording at position `i`, of another cache, ends up.
proof fn lemma_kept<T>(
    pending: Seq<(u64, T)>,
    id: u64,
    recording: T,
    i: int,
) -> (a: int)
    requires
        0 <= i < pending.len(),
        pending[i].0 != id,
    ensures
        0 <= a < enqueued(pending, id, recording).len() - 1,
        enqueued(pending, id, recording)[a] == pending[i],
        is_pending(pending, id) && (choose|k: int| first_at(pending, id, k)) < i ==> a == i - 1,
        is_pending(pending, id) && (choose|k: int| first_at(pending, id, k)) > i ==> a == i,
        !is_pending(pending, id) ==> a == i,
{
    if is_pending(pending, id) {
        let k = lemma_first(pending, id, choose|i: int| pending_at(pending, id, i));
        if k < i {
            i - 1
        } else {
            i
        }
    } else {
        i
    }
}

/// What waits at position `a`, of another cache, waited before.
proof fn lemma_came_from<T>(pending: Seq<(u64, T)>, id: u64, recording: T, a: int)
    requires
        0 <= a < enqueued(pending, id, recording).len(),
        enqueued(pending, id, recording)[a].0 != id,
    ensures
        is_pending(pending, enqueued(pending, id, recording)[a].0),
{
    let other = enqueued(pending, id, recording)[a].0;
    if is_pending(pending, id) {
        let k = lemma_first(pending, id, choose|i: int| pending_at(pending, id, i));
        if k <= a {
            assert(pending_at(pending, other, a + 1));
        } else {
            assert(pending_at(pending, other, a));
        }
    } else {
        assert(pending_at(pending, other, a));
    }
}

/// What waits is what waited before, and the new recording.
pub proof fn lemma_enqueued_elements<T>(
    pending: Seq<(u64, T)>,
    id: u64,
    recording: T,
    a: int,
)
    requires
        0 <= a < enqueued(pending, id, recording).len(),
    ensures
        enqueued(pending, id, recording)[a] == (id, recording) || pending.contains(
            enqueued(pending, id, recording)[a],
        ),
{
    let kept = without(pending, id);
    if a < kept.len() {
        if is_pending(pending, id) {
            let k = lemma_first(pending, id, choose|i: int| pending_at(pending, id, i));
            if k <= a {
                assert(kept[a] == pending[a + 1]);
            } else {
                assert(kept[a] == pending[a]);
            }
        } else {
            assert(kept[a] == pending[a]);
        }
    }
}

/// Recordings that wait are rendered in the order in which they were finished. So
/// a recording made inside another one, which is finished first, is rendered first,
/// and the other can show it.
pub proof fn law_queue_keeps_order<T>(
    pending: Seq<(u64, T)>,
    id: u64,
    recording: T,
    i: int,
    j: int,
)
    requires
        distinct_pending(pending),
        0 <= i < j < pending.len(),
        pending[i].0 != id,
        pending[j].0 != id,
    ensures
        exists|a: int, b: int|
            0 <= a < b < enqueued(pending, id, recording).len() - 1 && #[trigger] enqueued(
                pending,
                id,
                recording,
            )[a] == pending[i] && #[trigger] enqueued(pending, id, recording)[b] == pending[j],
        enqueued(pending, id, recording).last() == (id, recording),
{
    let a = lemma_kept(pending, id, recording, i);
    let b = lemma_kept(pending, id, recording, j);
    if is_pending(pending, id) {
        let k = lemma_first(pending, id, choose|i: int| pending_at(pending, id, i));
        assert(k != i && k != j);
    }
}

/// What waits, by what is recorded.
pub open spec fn contents<P>(pending: Seq<(u64, Stack<P>)>) -> Seq<(u64, Recorded<P>)> {
    pending.map_values(|waiting: (u64, Stack<P>)| (waiting.0, waiting.1@))
}

/// Queueing a recording queues what is recorded.
pub proof fn lemma_contents_enqueued<P>(
    pending: Seq<(u64, Stack<P>)>,
    id: u64,
    recording: Stack<P>,
)
    ensures
        contents(enqueued(pending, id, recording)) == enqueued(
            contents(pending),
            id,
            recording@,
        ),
{
    let waiting = contents(pending);
    assert forall|i: int| #[trigger] pending_at(waiting, id, i) == pending_at(pending, id, i) by {}
    if is_pending(pending, id) {
        let i = choose|i: int| pending_at(pending, id, i);
        let k = lemma_first(pending, id, i);
        assert(pending_at(waiting, id, i));
        let l = lemma_first(waiting, id, i);
        if k < l {
            assert(waiting[k].0 == id);
        } else if l < k {
            assert(pending[l].0 == id);
        }
    } else {
        assert forall|i: int| !pending_at(waiting, id, i) by {
            assert(!pending_at(pending, id, i));
        }
    }
    assert(contents(enqueued(pending, id, recording)) =~= enqueued(waiting, id, recording@));
}

} // verus!
