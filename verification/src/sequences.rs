//! Facts about sequences.
use vstd::prelude::*;

verus! {

/// What a concatenation holds.
pub proof fn lemma_in_both<T>(a: Seq<T>, b: Seq<T>, x: T)
    ensures
        (a + b).contains(x) <==> a.contains(x) || b.contains(x),
{
    if a.contains(x) {
        let i = choose|i: int| 0 <= i < a.len() && a[i] == x;
        assert((a + b)[i] == x);
    }
    if b.contains(x) {
        let i = choose|i: int| 0 <= i < b.len() && b[i] == x;
        assert((a + b)[a.len() + i] == x);
    }
    if (a + b).contains(x) {
        let i = choose|i: int| 0 <= i < (a + b).len() && (a + b)[i] == x;
        if i < a.len() {
            assert(a[i] == x);
        } else {
            assert(b[i - a.len()] == x);
        }
    }
}

/// What a filter keeps of one element more.
pub proof fn lemma_filter_one_more<T>(s: Seq<T>, n: int, wanted: spec_fn(T) -> bool)
    requires
        0 < n <= s.len(),
    ensures
        s.take(n).filter(wanted) == (if wanted(s[n - 1]) {
            s.take(n - 1).filter(wanted).push(s[n - 1])
        } else {
            s.take(n - 1).filter(wanted)
        }),
{
    reveal(Seq::filter);
    assert(s.take(n).drop_last() =~= s.take(n - 1));
    assert(s.take(n).last() == s[n - 1]);
}

/// What a filter keeps of nothing.
pub proof fn lemma_filter_none<T>(s: Seq<T>, wanted: spec_fn(T) -> bool)
    ensures
        s.take(0).filter(wanted) == Seq::<T>::empty(),
{
    reveal(Seq::filter);
    assert(s.take(0) =~= Seq::empty());
}

} // verus!
