//! Sorting recorded operations into the layers they are drawn in.
//!
//! Layers and transformations nest in a recording, independently of each other.
//! [`batch`] finds, for every operation that draws, the innermost layer and the
//! innermost transformation that are open where it was recorded. The operations of a
//! layer make up a [`Batch`].
use vstd::prelude::*;

use crate::renderer::Command;

pub mod laws;

verus! {

/// The layers that are open after the first `n` operations, as the positions of the
/// operations that opened them, outermost first. An operation that closes a layer
/// where none is open does nothing.
pub open spec fn open_layers<P>(commands: Seq<Command<P>>, n: int) -> Seq<int>
    decreases n,
{
    if n <= 0 {
        Seq::empty()
    } else {
        let before = open_layers(commands, n - 1);
        match commands[n - 1] {
            Command::StartLayer(_) => before.push(n - 1),
            Command::EndLayer => if before.len() > 0 {
                before.drop_last()
            } else {
                before
            },
            _ => before,
        }
    }
}

/// The transformations that are open after the first `n` operations, as the
/// positions of the operations that opened them, outermost first. An operation that
/// closes a transformation where none is open does nothing.
pub open spec fn open_transformations<P>(commands: Seq<Command<P>>, n: int) -> Seq<int>
    decreases n,
{
    if n <= 0 {
        Seq::empty()
    } else {
        let before = open_transformations(commands, n - 1);
        match commands[n - 1] {
            Command::StartTransformation(_) => before.push(n - 1),
            Command::EndTransformation => if before.len() > 0 {
                before.drop_last()
            } else {
                before
            },
            _ => before,
        }
    }
}

/// The last of the open layers or transformations, if one is open.
pub open spec fn innermost(open: Seq<int>) -> Option<int> {
    if open.len() == 0 {
        None
    } else {
        Some(open.last())
    }
}

/// Whether the operation draws something.
pub open spec fn draws<P>(command: Command<P>) -> bool {
    match command {
        Command::StartLayer(_) => false,
        Command::EndLayer => false,
        Command::StartTransformation(_) => false,
        Command::EndTransformation => false,
        _ => true,
    }
}

/// The operation at position `c`, with the innermost transformation that is open
/// there.
pub open spec fn item_at<P>(commands: Seq<Command<P>>, c: int) -> (int, Option<int>) {
    (c, innermost(open_transformations(commands, c)))
}

/// Those of the first `n` operations that draw and whose innermost layer is the one
/// opened at `opener`, or that are in no layer.
pub open spec fn items_in<P>(
    commands: Seq<Command<P>>,
    opener: Option<int>,
    n: int,
) -> Seq<(int, Option<int>)>
    decreases n,
{
    if n <= 0 {
        Seq::empty()
    } else {
        let before = items_in(commands, opener, n - 1);
        if draws(commands[n - 1]) && innermost(open_layers(commands, n - 1)) == opener {
            before.push(item_at(commands, n - 1))
        } else {
            before
        }
    }
}

/// Those of the first `n` operations that open a layer.
pub open spec fn layers_in<P>(commands: Seq<Command<P>>, n: int) -> Seq<(int, Option<int>)>
    decreases n,
{
    if n <= 0 {
        Seq::empty()
    } else if commands[n - 1] is StartLayer {
        layers_in(commands, n - 1).push(item_at(commands, n - 1))
    } else {
        layers_in(commands, n - 1)
    }
}

/// Those of the first `n` operations that open a transformation.
pub open spec fn transformations_in<P>(
    commands: Seq<Command<P>>,
    n: int,
) -> Seq<(int, Option<int>)>
    decreases n,
{
    if n <= 0 {
        Seq::empty()
    } else if commands[n - 1] is StartTransformation {
        transformations_in(commands, n - 1).push(item_at(commands, n - 1))
    } else {
        transformations_in(commands, n - 1)
    }
}

/// A recorded operation and the transformation it is subject to.
#[derive(Debug, Clone, Copy, PartialEq, Eq, Structural)]
pub struct Item {
    /// The position of the operation in the recording.
    pub command: usize,
    /// The position of the operation that opened the innermost transformation, if
    /// one is open.
    pub transformation: Option<usize>,
}

impl View for Item {
    type V = (int, Option<int>);

    open spec fn view(&self) -> (int, Option<int>) {
        (
            self.command as int,
            match self.transformation {
                Some(position) => Some(position as int),
                None => None,
            },
        )
    }
}

/// What is drawn in one layer.
#[derive(Debug)]
pub struct Batch {
    /// The operation that opened the layer: `None` for what is in no layer.
    pub opened: Option<Item>,
    /// The batch of the layer that this one is in.
    pub outer: usize,
    /// The operations that draw in the layer, in order.
    pub items: Vec<Item>,
}

impl Batch {
    /// The position of the operation that opened the layer.
    pub open spec fn opener(self) -> Option<int> {
        match self.opened {
            Some(item) => Some(item.command as int),
            None => None,
        }
    }
}

/// A recording, sorted into layers.
#[derive(Debug)]
pub struct Batches {
    /// What is in no layer, followed by the layers in the order they were opened.
    pub batches: Vec<Batch>,
    /// The operations that opened a transformation, each subject to the one around
    /// it.
    pub transformations: Vec<Item>,
}

/// What the given items stand for.
pub open spec fn views(items: Seq<Item>) -> Seq<(int, Option<int>)> {
    items.map_values(|item: Item| item@)
}

/// Whether `batches` are the layers among the first `n` operations.
pub open spec fn sorted_into<P>(
    commands: Seq<Command<P>>,
    batches: Seq<Batch>,
    n: int,
) -> bool {
    let layers = layers_in(commands, n);
    &&& batches.len() == layers.len() + 1
    &&& batches[0].opened is None
    &&& batches[0].outer == 0
    &&& forall|k: int|
        0 < k < batches.len() ==> {
            let batch = #[trigger] batches[k];
            &&& batch.opened is Some
            &&& batch.opened->0@ == layers[k - 1]
            &&& batch.outer < k
            &&& batches[batch.outer as int].opener() == innermost(
                open_layers(commands, layers[k - 1].0),
            )
        }
    &&& forall|k: int|
        0 <= k < batches.len() ==> views((#[trigger] batches[k]).items@) == items_in(
            commands,
            batches[k].opener(),
            n,
        )
}

proof fn lemma_open_layers<P>(commands: Seq<Command<P>>, n: int)
    requires
        0 <= n <= commands.len(),
    ensures
        forall|j: int|
            0 <= j < open_layers(commands, n).len() ==> 0 <= #[trigger] open_layers(commands, n)[j]
                < n,
    decreases n,
{
    if n > 0 {
        lemma_open_layers(commands, n - 1);
        let before = open_layers(commands, n - 1);
        let after = open_layers(commands, n);
        assert forall|j: int| 0 <= j < after.len() && j < before.len() implies #[trigger] after[j]
            == before[j] by {}
    }
}

proof fn lemma_no_items_yet<P>(commands: Seq<Command<P>>, opener: int, n: int)
    requires
        0 <= n <= commands.len(),
        n <= opener,
    ensures
        items_in(commands, Some(opener), n) == Seq::<(int, Option<int>)>::empty(),
    decreases n,
{
    if n > 0 {
        lemma_no_items_yet(commands, opener, n - 1);
        lemma_open_layers(commands, n - 1);
    }
}

proof fn lemma_layers_in<P>(commands: Seq<Command<P>>, n: int)
    requires
        0 <= n <= commands.len(),
    ensures
        forall|k: int|
            0 <= k < layers_in(commands, n).len() ==> 0 <= (#[trigger] layers_in(commands, n)[k]).0
                < n,
        forall|k: int, l: int|
            0 <= k < l < layers_in(commands, n).len() ==> (#[trigger] layers_in(commands, n)[k]).0 < (
            #[trigger] layers_in(commands, n)[l]).0,
    decreases n,
{
    if n > 0 {
        lemma_layers_in(commands, n - 1);
        let before = layers_in(commands, n - 1);
        let after = layers_in(commands, n);
        assert forall|k: int| 0 <= k < before.len() implies #[trigger] after[k] == before[k] by {}
    }
}

fn last(open: &Vec<usize>) -> (r: Option<usize>)
    ensures
        r == (if open@.len() == 0 {
            None
        } else {
            Some(open@.last())
        }),
{
    let n: usize = open.len();
    if n == 0 {
        None
    } else {
        Some(open[n - 1])
    }
}

/// Sorts recorded operations into the layers they are drawn in.
pub fn batch<P>(commands: &[Command<P>]) -> (r: Batches)
    ensures
        sorted_into(commands@, r.batches@, commands@.len() as int),
        views(r.transformations@) == transformations_in(commands@, commands@.len() as int),
{
    let mut batches: Vec<Batch> = Vec::new();
    batches.push(Batch { opened: None, outer: 0, items: Vec::new() });
    let mut transformations: Vec<Item> = Vec::new();
    let mut open: Vec<usize> = Vec::new();
    let mut scopes: Vec<usize> = Vec::new();
    let mut i: usize = 0;
    assert(views(batches@[0].items@) =~= Seq::empty());
    assert(views(transformations@) =~= Seq::empty());
    while i < commands.len()
        invariant
            i <= commands@.len(),
            sorted_into(commands@, batches@, i as int),
            views(transformations@) == transformations_in(commands@, i as int),
            open@.len() == open_layers(commands@, i as int).len(),
            forall|j: int|
                0 <= j < open@.len() ==> 0 < #[trigger] open@[j] < batches@.len()
                    && batches@[open@[j] as int].opener() == Some(
                    open_layers(commands@, i as int)[j],
                ),
            scopes@.map_values(|s: usize| s as int) == open_transformations(commands@, i as int),
        decreases commands@.len() - i,
    {
        let ghost before = batches@;
        let ghost n = i as int;
        proof {
            lemma_layers_in(commands@, n);
            lemma_open_layers(commands@, n);
            assert(scopes@.len() == scopes@.map_values(|s: usize| s as int).len());
            if scopes@.len() > 0 {
                assert(scopes@.map_values(|s: usize| s as int).last() == scopes@.last());
            }
        }
        let item = Item { command: i, transformation: last(&scopes) };
        assert(item@ == item_at(commands@, n));
        let current: usize = match last(&open) {
            Some(batch) => batch,
            None => 0,
        };
        assert(batches@[current as int].opener() == innermost(open_layers(commands@, n)));
        match &commands[i] {
            Command::StartLayer(_) => {
                open.push(batches.len());
                batches.push(Batch { opened: Some(item), outer: current, items: Vec::new() });
                proof {
                    lemma_no_items_yet(commands@, n, n);
                    assert(views(batches@.last().items@) =~= Seq::empty());
                    assert(batches@.drop_last() =~= before);
                    lemma_started(commands@, before, batches@, n);
                }
            },
            Command::EndLayer => {
                let _ = open.pop();
                proof {
                    lemma_unchanged(commands@, before, n);
                }
            },
            Command::StartTransformation(_) => {
                let ghost earlier = transformations@;
                transformations.push(item);
                scopes.push(i);
                proof {
                    lemma_unchanged(commands@, before, n);
                    assert(views(transformations@) =~= views(earlier).push(item@));
                    assert(scopes@.map_values(|s: usize| s as int) =~= open_transformations(
                        commands@,
                        n,
                    ).push(n));
                }
            },
            Command::EndTransformation => {
                let ghost earlier = scopes@;
                let _ = scopes.pop();
                proof {
                    lemma_unchanged(commands@, before, n);
                    assert(scopes@.map_values(|s: usize| s as int) =~= open_transformations(
                        commands@,
                        n + 1,
                    ));
                }
            },
            _ => {
                let ghost items = batches@[current as int].items@;
                batches[current].items.push(item);
                proof {
                    assert(views(batches@[current as int].items@) =~= views(items).push(item@));
                    lemma_drawn(commands@, before, batches@, current as int, n);
                }
            },
        }
        i = i + 1;
    }
    Batches { batches, transformations }
}

/// Operations that neither draw nor open a layer change no batch.
proof fn lemma_unchanged<P>(commands: Seq<Command<P>>, batches: Seq<Batch>, n: int)
    requires
        0 <= n < commands.len(),
        sorted_into(commands, batches, n),
        !draws(commands[n]),
        !(commands[n] is StartLayer),
    ensures
        sorted_into(commands, batches, n + 1),
{
}

/// An operation that opens a layer adds an empty batch.
proof fn lemma_started<P>(
    commands: Seq<Command<P>>,
    before: Seq<Batch>,
    after: Seq<Batch>,
    n: int,
)
    requires
        0 <= n < commands.len(),
        sorted_into(commands, before, n),
        commands[n] is StartLayer,
        after.len() == before.len() + 1,
        after.drop_last() == before,
        after.last().opened is Some,
        after.last().opened->0@ == item_at(commands, n),
        after.last().outer < before.len(),
        before[after.last().outer as int].opener() == innermost(open_layers(commands, n)),
        views(after.last().items@) == Seq::<(int, Option<int>)>::empty(),
    ensures
        sorted_into(commands, after, n + 1),
{
    lemma_no_items_yet(commands, n, n);
    let layers = layers_in(commands, n);
    assert(layers_in(commands, n + 1) == layers.push(item_at(commands, n)));
    assert forall|k: int| 0 <= k < before.len() implies #[trigger] after[k] == before[k] by {
        assert(after.drop_last()[k] == before[k]);
    }
    assert forall|k: int| 0 < k < after.len() implies {
        let batch = #[trigger] after[k];
        &&& batch.opened is Some
        &&& batch.opened->0@ == layers_in(commands, n + 1)[k - 1]
        &&& batch.outer < k
        &&& after[batch.outer as int].opener() == innermost(
            open_layers(commands, layers_in(commands, n + 1)[k - 1].0),
        )
    } by {
        if k < before.len() {
            assert(after[k] == before[k]);
        }
    }
    assert forall|k: int| 0 <= k < after.len() implies views((#[trigger] after[k]).items@)
        == items_in(commands, after[k].opener(), n + 1) by {
        if k < before.len() {
            assert(after[k] == before[k]);
        }
    }
}

/// An operation that draws goes into the batch of its innermost layer and into no
/// other.
proof fn lemma_drawn<P>(
    commands: Seq<Command<P>>,
    before: Seq<Batch>,
    after: Seq<Batch>,
    current: int,
    n: int,
)
    requires
        0 <= n < commands.len(),
        sorted_into(commands, before, n),
        draws(commands[n]),
        0 <= current < before.len(),
        before[current].opener() == innermost(open_layers(commands, n)),
        after.len() == before.len(),
        forall|k: int|
            0 <= k < before.len() && k != current ==> #[trigger] after[k] == before[k],
        after[current].opened == before[current].opened,
        after[current].outer == before[current].outer,
        views(after[current].items@) == views(before[current].items@).push(item_at(commands, n)),
    ensures
        sorted_into(commands, after, n + 1),
{
    lemma_layers_in(commands, n);
    let layers = layers_in(commands, n);
    assert forall|k: int| 0 <= k < after.len() implies #[trigger] after[k].opener()
        == before[k].opener() by {}
    assert forall|k: int| 0 < k < after.len() implies {
        let batch = #[trigger] after[k];
        &&& batch.opened is Some
        &&& batch.opened->0@ == layers[k - 1]
        &&& batch.outer < k
        &&& after[batch.outer as int].opener() == innermost(
            open_layers(commands, layers[k - 1].0),
        )
    } by {
        assert(before[k].opened is Some);
        assert(after[before[k].outer as int].opener() == before[before[k].outer as int].opener());
    }
    assert forall|k: int| 0 <= k < after.len() implies views((#[trigger] after[k]).items@)
        == items_in(commands, after[k].opener(), n + 1) by {
        if k != current {
            assert(after[k] == before[k]);
            if k > 0 && current > 0 {
                assert(before[k].opened->0@ == layers[k - 1]);
                assert(before[current].opened->0@ == layers[current - 1]);
                assert(layers[k - 1].0 != layers[current - 1].0);
            } else if k > 0 {
                assert(before[k].opened is Some);
            } else {
                assert(before[current].opened is Some);
            }
        }
    }
}

/// Every operation that draws is in the batch of its innermost layer, at exactly one
/// place, and in no other batch.
pub proof fn law_every_operation_is_in_one_batch<P>(
    commands: Seq<Command<P>>,
    opener: Option<int>,
    n: int,
    c: int,
)
    requires
        0 <= c < n <= commands.len(),
        draws(commands[c]),
    ensures
        items_in(commands, opener, n).contains(item_at(commands, c)) <==> opener == innermost(
            open_layers(commands, c),
        ),
        forall|i: int, j: int|
            0 <= i < j < items_in(commands, opener, n).len() ==> (#[trigger] items_in(
                commands,
                opener,
                n,
            )[i]).0 < (#[trigger] items_in(commands, opener, n)[j]).0,
    decreases n,
{
    lemma_items_in(commands, opener, n);
    let items = items_in(commands, opener, n);
    let before = items_in(commands, opener, n - 1);
    if c < n - 1 {
        law_every_operation_is_in_one_batch(commands, opener, n - 1, c);
        if before.contains(item_at(commands, c)) {
            let k = choose|k: int| 0 <= k < before.len() && before[k] == item_at(commands, c);
            assert(items[k] == item_at(commands, c));
        }
        if items.contains(item_at(commands, c)) {
            let k = choose|k: int| 0 <= k < items.len() && items[k] == item_at(commands, c);
            assert(before[k] == item_at(commands, c));
        }
    } else {
        if opener == innermost(open_layers(commands, c)) {
            assert(items.last() == item_at(commands, c));
            assert(items[items.len() - 1] == item_at(commands, c));
        } else {
            assert(items == before);
            lemma_items_in(commands, opener, n - 1);
        }
    }
}

proof fn lemma_items_in<P>(commands: Seq<Command<P>>, opener: Option<int>, n: int)
    requires
        0 <= n <= commands.len(),
    ensures
        forall|i: int|
            0 <= i < items_in(commands, opener, n).len() ==> 0 <= (#[trigger] items_in(
                commands,
                opener,
                n,
            )[i]).0 < n && draws(commands[items_in(commands, opener, n)[i].0]),
        forall|i: int, j: int|
            0 <= i < j < items_in(commands, opener, n).len() ==> (#[trigger] items_in(
                commands,
                opener,
                n,
            )[i]).0 < (#[trigger] items_in(commands, opener, n)[j]).0,
    decreases n,
{
    if n > 0 {
        lemma_items_in(commands, opener, n - 1);
        let before = items_in(commands, opener, n - 1);
        let after = items_in(commands, opener, n);
        assert forall|k: int| 0 <= k < before.len() implies #[trigger] after[k] == before[k] by {}
    }
}

/// The items of a batch are positions in the recording, and no more than there are.
pub proof fn lemma_batch_items<P>(commands: Seq<Command<P>>, batches: Seq<Batch>, k: int)
    requires
        sorted_into(commands, batches, commands.len() as int),
        0 <= k < batches.len(),
    ensures
        batches[k].items@.len() <= commands.len(),
        forall|i: int|
            0 <= i < batches[k].items@.len() ==> (#[trigger] batches[k].items@[i]).command
                < commands.len(),
{
    let n = commands.len() as int;
    let items = batches[k].items@;
    let expected = items_in(commands, batches[k].opener(), n);
    lemma_items_in(commands, batches[k].opener(), n);
    lemma_items_len(commands, batches[k].opener(), n);
    assert(views(items) == expected);
    assert forall|i: int| 0 <= i < items.len() implies (#[trigger] items[i]).command
        < commands.len() by {
        assert(views(items)[i] == items[i]@);
    }
}

proof fn lemma_items_len<P>(commands: Seq<Command<P>>, opener: Option<int>, n: int)
    requires
        0 <= n,
    ensures
        items_in(commands, opener, n).len() <= n,
    decreases n,
{
    if n > 0 {
        lemma_items_len(commands, opener, n - 1);
    }
}

} // verus!
