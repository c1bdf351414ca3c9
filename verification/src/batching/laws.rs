//! What holds of every recording that is sorted into layers.
use vstd::prelude::*;

use crate::batching::{
    innermost, item_at, items_in, law_every_operation_is_in_one_batch, layers_in, lemma_items_in,
    lemma_layers_in, open_layers, open_transformations, sorted_into, transformations_in, views,
    Batch, Item,
};
use crate::renderer::Command;

verus! {

/// By how many the open layers become more with an operation.
pub open spec fn layer_change<P>() -> spec_fn(Command<P>) -> int {
    |command: Command<P>|
        match command {
            Command::StartLayer(_) => 1int,
            Command::EndLayer => -1int,
            _ => 0int,
        }
}

/// By how many the open transformations become more with an operation.
pub open spec fn transformation_change<P>() -> spec_fn(Command<P>) -> int {
    |command: Command<P>|
        match command {
            Command::StartTransformation(_) => 1int,
            Command::EndTransformation => -1int,
            _ => 0int,
        }
}

/// How many more are opened than closed from position `a` up to position `b`.
pub open spec fn level<P>(
    commands: Seq<Command<P>>,
    change: spec_fn(Command<P>) -> int,
    a: int,
    b: int,
) -> int
    decreases b,
{
    if b <= a || b <= 0 {
        0
    } else {
        level(commands, change, a, b - 1) + change(commands[b - 1])
    }
}

/// Whether what the operation at position `p` opens is still open before position `n`:
/// nowhere in between more is closed than opened.
pub open spec fn stays_open<P>(
    commands: Seq<Command<P>>,
    change: spec_fn(Command<P>) -> int,
    p: int,
    n: int,
) -> bool {
    &&& 0 <= p < n
    &&& change(commands[p]) == 1
    &&& forall|q: int| p < q <= n ==> #[trigger] level(commands, change, p + 1, q) >= 0
}

/// Whether `at` is the last of what is open before position `n`, or nothing is.
pub open spec fn is_innermost<P>(
    commands: Seq<Command<P>>,
    change: spec_fn(Command<P>) -> int,
    at: Option<int>,
    n: int,
) -> bool {
    match at {
        Some(p) => stays_open(commands, change, p, n) && forall|q: int|
            p < q ==> !#[trigger] stays_open(commands, change, q, n),
        None => forall|q: int| !#[trigger] stays_open(commands, change, q, n),
    }
}

/// What is open after the first `n` operations.
spec fn open_by<P>(
    commands: Seq<Command<P>>,
    change: spec_fn(Command<P>) -> int,
    n: int,
) -> Seq<int>
    decreases n,
{
    if n <= 0 {
        Seq::empty()
    } else {
        let before = open_by(commands, change, n - 1);
        if change(commands[n - 1]) == 1 {
            before.push(n - 1)
        } else if change(commands[n - 1]) == -1 && before.len() > 0 {
            before.drop_last()
        } else {
            before
        }
    }
}

proof fn lemma_one_more<P>(
    commands: Seq<Command<P>>,
    change: spec_fn(Command<P>) -> int,
    p: int,
    n: int,
)
    requires
        0 <= p < n - 1,
    ensures
        stays_open(commands, change, p, n) <==> (stays_open(commands, change, p, n - 1) && level(
            commands,
            change,
            p + 1,
            n,
        ) >= 0),
{
    if stays_open(commands, change, p, n - 1) && level(commands, change, p + 1, n) >= 0 {
        assert forall|q: int| p < q <= n implies #[trigger] level(commands, change, p + 1, q)
            >= 0 by {}
    }
    if stays_open(commands, change, p, n) {
        assert forall|q: int| p < q <= n - 1 implies #[trigger] level(commands, change, p + 1, q)
            >= 0 by {}
        assert(level(commands, change, p + 1, n) >= 0);
    }
}

proof fn lemma_open_by<P>(
    commands: Seq<Command<P>>,
    change: spec_fn(Command<P>) -> int,
    n: int,
)
    requires
        0 <= n <= commands.len(),
        forall|command: Command<P>| -1 <= #[trigger] change(command) <= 1,
    ensures
        forall|j: int|
            0 <= j < open_by(commands, change, n).len() ==> stays_open(
                commands,
                change,
                #[trigger] open_by(commands, change, n)[j],
                n,
            ) && level(commands, change, open_by(commands, change, n)[j] + 1, n) == open_by(
                commands,
                change,
                n,
            ).len() - 1 - j,
        forall|i: int, j: int|
            0 <= i < j < open_by(commands, change, n).len() ==> #[trigger] open_by(
                commands,
                change,
                n,
            )[i] < #[trigger] open_by(commands, change, n)[j],
        forall|p: int| #[trigger]
            stays_open(commands, change, p, n) ==> open_by(commands, change, n).contains(p),
    decreases n,
{
    if n > 0 {
        lemma_open_by(commands, change, n - 1);
        let s = open_by(commands, change, n - 1);
        let t = open_by(commands, change, n);
        let last = commands[n - 1];
        assert(-1 <= change(last) <= 1);
        assert forall|j: int| 0 <= j < t.len() implies stays_open(
            commands,
            change,
            #[trigger] t[j],
            n,
        ) && level(commands, change, t[j] + 1, n) == t.len() - 1 - j by {
            if j < s.len() {
                assert(t[j] == s[j]);
                assert(stays_open(commands, change, s[j], n - 1));
                assert(level(commands, change, s[j] + 1, n) == level(
                    commands,
                    change,
                    s[j] + 1,
                    n - 1,
                ) + change(last));
                lemma_one_more(commands, change, s[j], n);
            } else {
                assert(t[j] == n - 1);
                assert forall|q: int| n - 1 < q <= n implies #[trigger] level(
                    commands,
                    change,
                    n,
                    q,
                ) >= 0 by {}
            }
        }
        assert forall|i: int, j: int| 0 <= i < j < t.len() implies #[trigger] t[i]
            < #[trigger] t[j] by {
            if j < s.len() {
                assert(t[i] == s[i] && t[j] == s[j]);
            } else {
                assert(t[i] == s[i]);
                assert(stays_open(commands, change, s[i], n - 1));
            }
        }
        assert forall|p: int| #[trigger] stays_open(commands, change, p, n) implies t.contains(
            p,
        ) by {
            if p == n - 1 {
                assert(t[s.len() as int] == p);
            } else {
                lemma_one_more(commands, change, p, n);
                assert(s.contains(p));
                let j = choose|j: int| 0 <= j < s.len() && s[j] == p;
                assert(level(commands, change, p + 1, n) == level(commands, change, p + 1, n - 1)
                    + change(last));
                assert(level(commands, change, s[j] + 1, n - 1) == s.len() - 1 - j);
                assert(t[j] == p);
            }
        }
    }
}

proof fn lemma_innermost<P>(
    commands: Seq<Command<P>>,
    change: spec_fn(Command<P>) -> int,
    n: int,
)
    requires
        0 <= n <= commands.len(),
        forall|command: Command<P>| -1 <= #[trigger] change(command) <= 1,
    ensures
        is_innermost(commands, change, innermost(open_by(commands, change, n)), n),
{
    lemma_open_by(commands, change, n);
    let open = open_by(commands, change, n);
    if open.len() > 0 {
        let p = open.last();
        assert(open[open.len() - 1] == p);
        assert forall|q: int| p < q implies !#[trigger] stays_open(commands, change, q, n) by {
            if stays_open(commands, change, q, n) {
                assert(open.contains(q));
                let j = choose|j: int| 0 <= j < open.len() && open[j] == q;
                if j < open.len() - 1 {
                    assert(open[j] < open[open.len() - 1]);
                }
            }
        }
    } else {
        assert forall|q: int| !#[trigger] stays_open(commands, change, q, n) by {
            if stays_open(commands, change, q, n) {
                assert(open.contains(q));
            }
        }
    }
}

proof fn lemma_layers_by<P>(commands: Seq<Command<P>>, n: int)
    requires
        0 <= n <= commands.len(),
    ensures
        open_layers(commands, n) == open_by(commands, layer_change(), n),
        open_transformations(commands, n) == open_by(commands, transformation_change(), n),
    decreases n,
{
    if n > 0 {
        lemma_layers_by(commands, n - 1);
    }
}

/// The layer that an operation is in is the last one opened before it that has not
/// been closed by then, and likewise the transformation it is subject to. Layers and
/// transformations do not close each other.
pub proof fn law_the_innermost_is_the_last_that_is_open<P>(commands: Seq<Command<P>>, c: int)
    requires
        0 <= c <= commands.len(),
    ensures
        is_innermost(commands, layer_change(), innermost(open_layers(commands, c)), c),
        is_innermost(
            commands,
            transformation_change(),
            innermost(open_transformations(commands, c)),
            c,
        ),
{
    lemma_layers_by(commands, c);
    lemma_innermost(commands, layer_change(), c);
    lemma_innermost(commands, transformation_change(), c);
}

proof fn lemma_opened<P>(commands: Seq<Command<P>>, n: int)
    requires
        0 <= n <= commands.len(),
    ensures
        forall|k: int|
            0 <= k < layers_in(commands, n).len() ==> {
                let (c, t) = #[trigger] layers_in(commands, n)[k];
                &&& 0 <= c < n
                &&& commands[c] is StartLayer
                &&& t == innermost(open_transformations(commands, c))
            },
        forall|c: int|
            0 <= c < n && commands[c] is StartLayer ==> layers_in(commands, n).contains(
                #[trigger] item_at(commands, c),
            ),
        forall|k: int|
            0 <= k < transformations_in(commands, n).len() ==> {
                let (c, t) = #[trigger] transformations_in(commands, n)[k];
                &&& 0 <= c < n
                &&& commands[c] is StartTransformation
                &&& t == innermost(open_transformations(commands, c))
            },
        forall|k: int, l: int|
            0 <= k < l < transformations_in(commands, n).len() ==> (#[trigger] transformations_in(
                commands,
                n,
            )[k]).0 < (#[trigger] transformations_in(commands, n)[l]).0,
        forall|c: int|
            0 <= c < n && commands[c] is StartTransformation ==> transformations_in(
                commands,
                n,
            ).contains(#[trigger] item_at(commands, c)),
    decreases n,
{
    if n > 0 {
        lemma_opened(commands, n - 1);
        let last = item_at(commands, n - 1);
        let s = layers_in(commands, n - 1);
        let t = layers_in(commands, n);
        let u = transformations_in(commands, n - 1);
        let v = transformations_in(commands, n);
        assert forall|c: int| 0 <= c < n && commands[c] is StartLayer implies t.contains(
            #[trigger] item_at(commands, c),
        ) by {
            if c == n - 1 {
                assert(t[s.len() as int] == last);
            } else {
                assert(s.contains(item_at(commands, c)));
                let k = choose|k: int| 0 <= k < s.len() && s[k] == item_at(commands, c);
                assert(t[k] == s[k]);
            }
        }
        assert forall|c: int| 0 <= c < n && commands[c] is StartTransformation implies v.contains(
            #[trigger] item_at(commands, c),
        ) by {
            if c == n - 1 {
                assert(v[u.len() as int] == last);
            } else {
                assert(u.contains(item_at(commands, c)));
                let k = choose|k: int| 0 <= k < u.len() && u[k] == item_at(commands, c);
                assert(v[k] == u[k]);
            }
        }
    }
}

/// Whether the operation draws something: it opens and closes nothing.
pub open spec fn is_drawn<P>(command: Command<P>) -> bool {
    match command {
        Command::FillQuad(_, _) => true,
        Command::FillLayerLabel(_, _, _) => true,
        Command::DrawCachedTexture(_, _) => true,
        Command::Draw(_) => true,
        _ => false,
    }
}

/// The position of the operation that opened a batch, if one did.
pub open spec fn opened_at(batch: Batch) -> Option<int> {
    match batch.opened {
        Some(item) => Some(item.command as int),
        None => None,
    }
}

/// The position of the operation that opened the transformation an item is subject to,
/// if there is one.
pub open spec fn transformed_at(item: Item) -> Option<int> {
    match item.transformation {
        Some(position) => Some(position as int),
        None => None,
    }
}

/// Sorting loses nothing and adds nothing. There is a batch for what is in no layer,
/// and one for each layer, in the order they were opened. Every operation that draws
/// is in one of them, at one place.
pub proof fn law_every_operation_and_every_layer_is_found<P>(
    commands: Seq<Command<P>>,
    batches: Seq<Batch>,
    c: int,
)
    requires
        sorted_into(commands, batches, commands.len() as int),
        0 <= c < commands.len(),
    ensures
        batches.len() > 0,
        batches[0].opened is None,
        forall|k: int, l: int|
            0 < k < l < batches.len() ==> (#[trigger] batches[k]).opened->0.command < (
            #[trigger] batches[l]).opened->0.command,
        commands[c] is StartLayer ==> exists|k: int|
            0 < k < batches.len() && opened_at(#[trigger] batches[k]) == Some(c),
        is_drawn(commands[c]) ==> exists|k: int, i: int|
            0 <= k < batches.len() && 0 <= i < batches[k].items@.len() && (
            #[trigger] batches[k].items@[i]).command == c,
{
    let n = commands.len() as int;
    let layers = layers_in(commands, n);
    lemma_layers_in(commands, n);
    lemma_opened(commands, n);
    assert forall|k: int, l: int| 0 < k < l < batches.len() implies (
    #[trigger] batches[k]).opened->0.command < (#[trigger] batches[l]).opened->0.command by {
        assert(batches[k].opened->0@ == layers[k - 1]);
        assert(batches[l].opened->0@ == layers[l - 1]);
        assert(layers[k - 1].0 < layers[l - 1].0);
    }
    if commands[c] is StartLayer {
        let k = lemma_batch_of(commands, batches, c);
    }
    if is_drawn(commands[c]) {
        let opener = innermost(open_layers(commands, c));
        law_the_innermost_is_the_last_that_is_open(commands, c);
        let k = match opener {
            Some(p) => {
                assert(stays_open(commands, layer_change(), p, c));
                lemma_batch_of(commands, batches, p)
            },
            None => 0,
        };
        assert(batches[k].opener() == opener);
        law_every_operation_is_in_one_batch(commands, opener, n, c);
        let items = items_in(commands, opener, n);
        let i = choose|i: int| 0 <= i < items.len() && items[i] == item_at(commands, c);
        assert(views(batches[k].items@) == items);
        assert(views(batches[k].items@)[i] == batches[k].items@[i]@);
        assert(batches[k].items@[i].command == c);
    }
}

proof fn lemma_batch_of<P>(commands: Seq<Command<P>>, batches: Seq<Batch>, p: int) -> (k: int)
    requires
        sorted_into(commands, batches, commands.len() as int),
        0 <= p < commands.len(),
        commands[p] is StartLayer,
    ensures
        0 < k < batches.len(),
        batches[k].opened is Some,
        batches[k].opened->0.command == p,
{
    let n = commands.len() as int;
    let layers = layers_in(commands, n);
    lemma_opened(commands, n);
    assert(layers.contains(item_at(commands, p)));
    let k = choose|k: int| 0 <= k < layers.len() && layers[k] == item_at(commands, p);
    assert(batches[k + 1].opened->0@ == layers[k]);
    k + 1
}

/// Every operation in a batch draws something and is in the layer of the batch, the
/// innermost one around it. It is subject to the innermost transformation around it.
/// The operations of a batch are in the order they were recorded, none of them twice.
pub proof fn law_a_batch_holds_what_is_in_its_layer<P>(
    commands: Seq<Command<P>>,
    batches: Seq<Batch>,
    k: int,
    i: int,
)
    requires
        sorted_into(commands, batches, commands.len() as int),
        0 <= k < batches.len(),
        0 <= i < batches[k].items@.len(),
    ensures
        ({
            let item = batches[k].items@[i];
            &&& item.command < commands.len()
            &&& is_drawn(commands[item.command as int])
            &&& is_innermost(
                commands,
                layer_change(),
                opened_at(batches[k]),
                item.command as int,
            )
            &&& is_innermost(
                commands,
                transformation_change(),
                transformed_at(item),
                item.command as int,
            )
            &&& i > 0 ==> batches[k].items@[i - 1].command < item.command
        }),
{
    let n = commands.len() as int;
    let item = batches[k].items@[i];
    let opener = batches[k].opener();
    let items = items_in(commands, opener, n);
    assert(views(batches[k].items@) == items);
    assert(views(batches[k].items@)[i] == item@);
    lemma_items_in(commands, opener, n);
    let c = items[i].0;
    lemma_items_from(commands, opener, n, i);
    law_the_innermost_is_the_last_that_is_open(commands, c);
    if i > 0 {
        assert(views(batches[k].items@)[i - 1] == batches[k].items@[i - 1]@);
        assert(items[i - 1].0 < items[i].0);
    }
}

proof fn lemma_items_from<P>(commands: Seq<Command<P>>, opener: Option<int>, n: int, i: int)
    requires
        0 <= n <= commands.len(),
        0 <= i < items_in(commands, opener, n).len(),
    ensures
        ({
            let (c, t) = items_in(commands, opener, n)[i];
            &&& 0 <= c < n
            &&& is_drawn(commands[c])
            &&& innermost(open_layers(commands, c)) == opener
            &&& t == innermost(open_transformations(commands, c))
        }),
    decreases n,
{
    let before = items_in(commands, opener, n - 1);
    if i < before.len() {
        lemma_items_from(commands, opener, n - 1, i);
        assert(items_in(commands, opener, n)[i] == before[i]);
    }
}

/// A batch is opened by the start of its layer. Around it is the batch of the layer
/// that this one was opened in.
pub proof fn law_a_batch_knows_the_layer_around_it<P>(
    commands: Seq<Command<P>>,
    batches: Seq<Batch>,
    k: int,
)
    requires
        sorted_into(commands, batches, commands.len() as int),
        0 < k < batches.len(),
    ensures
        batches[k].opened is Some,
        ({
            let item = batches[k].opened->0;
            &&& item.command < commands.len()
            &&& commands[item.command as int] is StartLayer
            &&& is_innermost(
                commands,
                transformation_change(),
                transformed_at(item),
                item.command as int,
            )
            &&& batches[k].outer < k
            &&& is_innermost(
                commands,
                layer_change(),
                opened_at(batches[batches[k].outer as int]),
                item.command as int,
            )
        }),
{
    let n = commands.len() as int;
    lemma_opened(commands, n);
    let layers = layers_in(commands, n);
    assert(batches[k].opened->0@ == layers[k - 1]);
    law_the_innermost_is_the_last_that_is_open(commands, layers[k - 1].0);
}

/// The transformations that are found are just those that are started, in order, each
/// subject to the innermost one around it.
pub proof fn law_every_transformation_is_found<P>(
    commands: Seq<Command<P>>,
    transformations: Seq<Item>,
    c: int,
    k: int,
)
    requires
        views(transformations) == transformations_in(commands, commands.len() as int),
        0 <= c < commands.len(),
    ensures
        commands[c] is StartTransformation ==> exists|j: int|
            0 <= j < transformations.len() && (#[trigger] transformations[j]).command == c,
        0 <= k < transformations.len() ==> {
            let item = transformations[k];
            &&& item.command < commands.len()
            &&& commands[item.command as int] is StartTransformation
            &&& is_innermost(
                commands,
                transformation_change(),
                transformed_at(item),
                item.command as int,
            )
            &&& k > 0 ==> transformations[k - 1].command < item.command
        },
{
    let n = commands.len() as int;
    lemma_opened(commands, n);
    let all = transformations_in(commands, n);
    assert(transformations.len() == all.len());
    if commands[c] is StartTransformation {
        assert(all.contains(item_at(commands, c)));
        let j = choose|j: int| 0 <= j < all.len() && all[j] == item_at(commands, c);
        assert(views(transformations)[j] == transformations[j]@);
        assert(transformations[j].command == c);
    }
    if 0 <= k < transformations.len() {
        assert(views(transformations)[k] == transformations[k]@);
        law_the_innermost_is_the_last_that_is_open(commands, all[k].0);
        if k > 0 {
            assert(views(transformations)[k - 1] == transformations[k - 1]@);
            assert(all[k - 1].0 < all[k].0);
        }
    }
}

} // verus!
