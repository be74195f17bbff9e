//! Facts about sequences and filters that the proofs of the store share.

use vstd::prelude::*;

verus! {

/// A prefix that is one longer is the shorter prefix and one more item.
pub proof fn lemma_take_next<A>(s: Seq<A>, i: int)
    requires
        0 <= i < s.len(),
    ensures
        s.take(i + 1) == s.take(i).push(s[i]),
{
    assert(s.take(i + 1) =~= s.take(i).push(s[i]));
}

/// A filter that every item passes changes nothing.
pub proof fn lemma_filter_keeps_all<A>(s: Seq<A>, keep: spec_fn(A) -> bool)
    requires
        forall|i: int| 0 <= i < s.len() ==> keep(#[trigger] s[i]),
    ensures
        s.filter(keep) == s,
    decreases s.len(),
{
    reveal(Seq::filter);
    if s.len() > 0 {
        lemma_filter_keeps_all(s.drop_last(), keep);
        assert(s.drop_last().push(s.last()) =~= s);
    }
}

/// A filter that no item passes leaves nothing.
pub proof fn lemma_filter_keeps_none<A>(s: Seq<A>, keep: spec_fn(A) -> bool)
    requires
        forall|i: int| 0 <= i < s.len() ==> !keep(#[trigger] s[i]),
    ensures
        s.filter(keep) == Seq::<A>::empty(),
    decreases s.len(),
{
    reveal(Seq::filter);
    if s.len() > 0 {
        lemma_filter_keeps_none(s.drop_last(), keep);
    }
}

/// A filter that only the item at `i` fails removes exactly that item.
pub proof fn lemma_filter_removes_one<A>(s: Seq<A>, keep: spec_fn(A) -> bool, i: int)
    requires
        0 <= i < s.len(),
        !keep(s[i]),
        forall|j: int| 0 <= j < s.len() && j != i ==> keep(#[trigger] s[j]),
    ensures
        s.filter(keep) == s.remove(i),
    decreases s.len(),
{
    reveal(Seq::filter);
    if i == s.len() - 1 {
        lemma_filter_keeps_all(s.drop_last(), keep);
        assert(s.remove(i) =~= s.drop_last());
    } else {
        lemma_filter_removes_one(s.drop_last(), keep, i);
        assert(s.remove(i) =~= s.drop_last().remove(i).push(s.last()));
    }
}

/// The items that pass a filter in a prefix are the first of those that
/// pass it in the whole.
pub proof fn lemma_filter_of_prefix<A>(s: Seq<A>, keep: spec_fn(A) -> bool, i: int)
    requires
        0 <= i <= s.len(),
    ensures
        s.take(i).filter(keep).len() <= s.filter(keep).len(),
        forall|k: int|
            0 <= k < s.take(i).filter(keep).len() ==> #[trigger] s.take(i).filter(keep)[k]
                == s.filter(keep)[k],
{
    s.take(i).lemma_filter_monotone(s, keep);
}

/// A filter that only the item at `i` passes leaves exactly that item.
pub proof fn lemma_filter_keeps_one<A>(s: Seq<A>, keep: spec_fn(A) -> bool, i: int)
    requires
        0 <= i < s.len(),
        keep(s[i]),
        forall|j: int| 0 <= j < s.len() && j != i ==> !keep(#[trigger] s[j]),
    ensures
        s.filter(keep) == seq![s[i]],
    decreases s.len(),
{
    reveal(Seq::filter);
    if i == s.len() - 1 {
        lemma_filter_keeps_none(s.drop_last(), keep);
        assert(Seq::<A>::empty().push(s.last()) =~= seq![s[i]]);
    } else {
        lemma_filter_keeps_one(s.drop_last(), keep, i);
    }
}

/// A filter sees no change that leaves alone every item that passes it and
/// lets no other item pass.
pub proof fn lemma_filter_of_map<A>(s: Seq<A>, change: spec_fn(A) -> A, keep: spec_fn(A) -> bool)
    requires
        forall|i: int| 0 <= i < s.len() && keep(#[trigger] s[i]) ==> change(s[i]) == s[i],
        forall|i: int| 0 <= i < s.len() && !keep(#[trigger] s[i]) ==> !keep(change(s[i])),
    ensures
        s.map_values(change).filter(keep) == s.filter(keep),
    decreases s.len(),
{
    reveal(Seq::filter);
    if s.len() > 0 {
        lemma_filter_of_map(s.drop_last(), change, keep);
        assert(s.map_values(change).drop_last() =~= s.drop_last().map_values(change));
    }
}

/// A filter sees nothing of an earlier filter that kept every item that
/// passes it.
pub proof fn lemma_filter_twice<A>(s: Seq<A>, first: spec_fn(A) -> bool, keep: spec_fn(A) -> bool)
    requires
        forall|i: int| 0 <= i < s.len() && keep(#[trigger] s[i]) ==> first(s[i]),
    ensures
        s.filter(first).filter(keep) == s.filter(keep),
    decreases s.len(),
{
    reveal(Seq::filter);
    if s.len() > 0 {
        lemma_filter_twice(s.drop_last(), first, keep);
        if first(s.last()) {
            s.drop_last().filter(first).lemma_filter_push(s.last(), keep);
        }
    }
}

/// Two filters leave the same items in whichever order they are applied.
pub proof fn lemma_filter_commutes<A>(s: Seq<A>, first: spec_fn(A) -> bool, second: spec_fn(A) -> bool)
    ensures
        s.filter(first).filter(second) == s.filter(second).filter(first),
    decreases s.len(),
{
    reveal(Seq::filter);
    if s.len() > 0 {
        lemma_filter_commutes(s.drop_last(), first, second);
        if first(s.last()) {
            s.drop_last().filter(first).lemma_filter_push(s.last(), second);
        }
        if second(s.last()) {
            s.drop_last().filter(second).lemma_filter_push(s.last(), first);
        }
    }
}

/// Every item that passes a filter is an item of the sequence, and every
/// item of the sequence that passes is left.
pub proof fn lemma_filter_members<A>(s: Seq<A>, keep: spec_fn(A) -> bool)
    ensures
        forall|x: A| #[trigger] s.filter(keep).contains(x) <==> s.contains(x) && keep(x),
{
    assert forall|x: A| #[trigger] s.filter(keep).contains(x) <==> s.contains(x) && keep(x) by {
        if s.filter(keep).contains(x) {
            s.lemma_filter_contains_rev(keep, x);
            let k = choose|k: int| 0 <= k < s.filter(keep).len() && s.filter(keep)[k] == x;
            s.lemma_filter_pred(keep, k);
        }
        if s.contains(x) && keep(x) {
            let m = choose|m: int| 0 <= m < s.len() && s[m] == x;
            s.lemma_filter_contains(keep, m);
        }
    }
}

} // verus!
