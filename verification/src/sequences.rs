//! Facts about what a filter leaves of a sequence.

use vstd::prelude::*;

verus! {

/// What a filter leaves of a list without duplicates has none either.
pub proof fn lemma_filter_no_duplicates<A>(s: Seq<A>, keep: spec_fn(A) -> bool)
    requires
        s.no_duplicates(),
    ensures
        s.filter(keep).no_duplicates(),
    decreases s.len(),
{
    reveal(Seq::filter);
    if s.len() > 0 {
        let front = s.drop_last();
        lemma_filter_no_duplicates(front, keep);
        let f = front.filter(keep);
        assert forall|x: A| #[trigger] f.contains(x) implies x != s.last() by {
            front.lemma_filter_contains_rev(keep, x);
            let k = choose|k: int| 0 <= k < front.len() && front[k] == x;
            assert(s[k] == x);
        }
        if keep(s.last()) {
            assert forall|i: int| 0 <= i < f.len() implies f[i] != s.last() by {
                assert(f.contains(f[i]));
            }
        }
    }
}

/// What a filter leaves: the elements that it keeps, and no others.
pub proof fn lemma_filter_contains<A>(s: Seq<A>, keep: spec_fn(A) -> bool)
    ensures
        forall|x: A| #[trigger] s.filter(keep).contains(x) <==> s.contains(x) && keep(x),
{
    broadcast use vstd::seq_lib::group_filter_ensures;

    let f = s.filter(keep);
    assert forall|x: A| #[trigger] f.contains(x) <==> s.contains(x) && keep(x) by {
        if f.contains(x) {
            s.lemma_filter_contains_rev(keep, x);
            let k = choose|k: int| 0 <= k < f.len() && f[k] == x;
            assert(keep(f[k]));
        }
        if s.contains(x) && keep(x) {
            let k = choose|k: int| 0 <= k < s.len() && s[k] == x;
            assert(f.contains(s[k]));
        }
    }
}

/// A filter that keeps every element changes nothing.
pub proof fn lemma_filter_all<A>(s: Seq<A>, keep: spec_fn(A) -> bool)
    requires
        forall|i: int| 0 <= i < s.len() ==> keep(#[trigger] s[i]),
    ensures
        s.filter(keep) == s,
    decreases s.len(),
{
    reveal(Seq::filter);
    if s.len() > 0 {
        assert forall|i: int| 0 <= i < s.drop_last().len() implies keep(
            #[trigger] s.drop_last()[i],
        ) by {
            assert(s.drop_last()[i] == s[i]);
        }
        lemma_filter_all(s.drop_last(), keep);
        assert(s.drop_last().push(s.last()) =~= s);
    }
}

/// A filter that keeps no element leaves nothing.
pub proof fn lemma_filter_none<A>(s: Seq<A>, keep: spec_fn(A) -> bool)
    requires
        forall|i: int| 0 <= i < s.len() ==> !keep(#[trigger] s[i]),
    ensures
        s.filter(keep) == Seq::<A>::empty(),
    decreases s.len(),
{
    reveal(Seq::filter);
    if s.len() > 0 {
        assert forall|i: int| 0 <= i < s.drop_last().len() implies !keep(
            #[trigger] s.drop_last()[i],
        ) by {
            assert(s.drop_last()[i] == s[i]);
        }
        lemma_filter_none(s.drop_last(), keep);
    }
    assert(s.filter(keep) =~= Seq::<A>::empty());
}

/// Two filters can be applied in either order.
pub proof fn lemma_filters_commute<A>(s: Seq<A>, p: spec_fn(A) -> bool, q: spec_fn(A) -> bool)
    ensures
        s.filter(p).filter(q) == s.filter(q).filter(p),
    decreases s.len(),
{
    reveal(Seq::filter);
    if s.len() > 0 {
        let front = s.drop_last();
        let x = s.last();
        lemma_filters_commute(front, p, q);
        front.filter(p).lemma_filter_push(x, q);
        front.filter(q).lemma_filter_push(x, p);
    }
}

/// Filtering twice is filtering once.
pub proof fn lemma_filter_twice<A>(s: Seq<A>, keep: spec_fn(A) -> bool)
    ensures
        s.filter(keep).filter(keep) == s.filter(keep),
{
    let f = s.filter(keep);
    lemma_filter_contains(s, keep);
    assert forall|i: int| 0 <= i < f.len() implies keep(#[trigger] f[i]) by {
        assert(f.contains(f[i]));
    }
    lemma_filter_all(f, keep);
}

/// In a list without duplicates, filtering out the element at position `p` is
/// taking it out.
pub proof fn lemma_filter_one_out<A>(s: Seq<A>, keep: spec_fn(A) -> bool, p: int)
    requires
        0 <= p < s.len(),
        forall|i: int| 0 <= i < s.len() ==> (keep(#[trigger] s[i]) <==> i != p),
    ensures
        s.filter(keep) == s.remove(p),
    decreases s.len(),
{
    reveal(Seq::filter);
    let front = s.drop_last();
    assert forall|i: int| 0 <= i < front.len() implies (keep(#[trigger] front[i]) <==> i != p) by {
        assert(front[i] == s[i]);
    }
    assert(s.last() == s[s.len() - 1]);
    if p == s.len() - 1 {
        lemma_filter_all(front, keep);
        assert(s.remove(p) =~= front);
    } else {
        lemma_filter_one_out(front, keep, p);
        assert(s.remove(p) =~= front.remove(p).push(s.last()));
    }
}

} // verus!
