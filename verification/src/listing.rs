//! Which windows the overlay lists, and in which order.

use crate::mru::{MruOrder, MruView};
use crate::sequences::lemma_filter_no_duplicates;
use crate::window::{toplevel_views, window_views, ToplevelInfo, ToplevelView, WindowInfo, WindowView, Workspace};
use std::collections::HashSet;
use vstd::prelude::*;
use vstd::relations::{sorted_by, total_ordering};

verus! {

/// The workspace `handle` is shown at present.
pub open spec fn is_active(workspaces: Seq<Workspace>, handle: u64) -> bool {
    exists|i: int|
        0 <= i < workspaces.len() && #[trigger] workspaces[i].handle == handle
            && workspaces[i].active
}

/// The toplevel belongs in the list: it is on an active workspace, or the
/// compositor does not say on which workspaces it is.
pub open spec fn visible(toplevel: ToplevelView, workspaces: Seq<Workspace>) -> bool {
    toplevel.workspace.len() == 0 || exists|k: int|
        0 <= k < toplevel.workspace.len() && is_active(workspaces, #[trigger] toplevel.workspace[k])
}

/// The positions of the toplevels that belong in the list.
pub open spec fn visible_positions(
    toplevels: Seq<ToplevelView>,
    workspaces: Seq<Workspace>,
) -> Seq<int> {
    Seq::new(toplevels.len(), |i: int| i).filter(visible_at(toplevels, workspaces))
}

/// The toplevel at a position belongs in the list.
pub open spec fn visible_at(toplevels: Seq<ToplevelView>, workspaces: Seq<Workspace>) -> spec_fn(
    int,
) -> bool {
    |i: int| visible(toplevels[i], workspaces)
}

/// The order of two positions in the list: by recency of use, and among
/// equals by position.
pub open spec fn precedes(toplevels: Seq<ToplevelView>, mru: MruView) -> spec_fn(int, int) -> bool {
    |i: int, j: int|
        mru.rank(toplevels[i].identifier) < mru.rank(toplevels[j].identifier) || (mru.rank(
            toplevels[i].identifier,
        ) == mru.rank(toplevels[j].identifier) && i <= j)
}

/// The positions of the listed toplevels, in the order of the list.
pub open spec fn window_order(
    toplevels: Seq<ToplevelView>,
    workspaces: Seq<Workspace>,
    mru: MruView,
) -> Seq<int> {
    visible_positions(toplevels, workspaces).sort_by(precedes(toplevels, mru))
}

/// The list: the windows of the visible toplevels, the most recently used one
/// first.
pub open spec fn listed_windows(
    toplevels: Seq<ToplevelView>,
    workspaces: Seq<Workspace>,
    mru: MruView,
) -> Seq<WindowView> {
    window_order(toplevels, workspaces, mru).map_values(|i: int| toplevels[i].window())
}

/// Positions as numbers.
spec fn as_positions(order: Seq<usize>) -> Seq<int> {
    order.map_values(|p: usize| p as int)
}

/// The order of positions is a total order.
proof fn lemma_precedes_total(toplevels: Seq<ToplevelView>, mru: MruView)
    ensures
        total_ordering(precedes(toplevels, mru)),
{
}

/// The handles of the workspaces that are shown at present.
fn active_handles(workspaces: &Vec<Workspace>) -> (r: HashSet<u64>)
    ensures
        forall|h: u64| #[trigger] r@.contains(h) <==> is_active(workspaces@, h),
{
    broadcast use vstd::std_specs::hash::group_hash_axioms;

    let mut r: HashSet<u64> = HashSet::new();
    let mut i: usize = 0;
    while i < workspaces.len()
        invariant
            i <= workspaces.len(),
            forall|h: u64| #[trigger] r@.contains(h) <==> is_active(workspaces@.take(i as int), h),
        decreases workspaces.len() - i,
    {
        let ghost seen = workspaces@.take(i as int);
        let ghost next = workspaces@.take(i + 1);
        let w = workspaces[i];
        if w.active {
            r.insert(w.handle);
        }
        assert forall|h: u64| #[trigger] r@.contains(h) <==> is_active(next, h) by {
            if is_active(next, h) {
                let k = choose|k: int|
                    0 <= k < next.len() && #[trigger] next[k].handle == h && next[k].active;
                if k < i {
                    assert(seen[k].handle == h);
                }
            }
            if is_active(seen, h) {
                let k = choose|k: int|
                    0 <= k < seen.len() && #[trigger] seen[k].handle == h && seen[k].active;
                assert(next[k].handle == h);
            }
            assert(next[i as int].handle == w.handle);
        }
        i += 1;
    }
    assert(workspaces@.take(i as int) =~= workspaces@);
    r
}

/// Whether a toplevel belongs in the list, given the active workspaces.
fn is_visible(
    toplevel: &ToplevelInfo,
    active: &HashSet<u64>,
    Ghost(workspaces): Ghost<Seq<Workspace>>,
) -> (r: bool)
    requires
        forall|h: u64| #[trigger] active@.contains(h) <==> is_active(workspaces, h),
    ensures
        r == visible(toplevel@, workspaces),
{
    broadcast use vstd::std_specs::hash::group_hash_axioms;

    if toplevel.workspace.len() == 0 {
        return true;
    }
    let mut k: usize = 0;
    while k < toplevel.workspace.len()
        invariant
            k <= toplevel.workspace.len(),
            forall|h: u64| #[trigger] active@.contains(h) <==> is_active(workspaces, h),
            forall|m: int|
                0 <= m < k ==> !is_active(workspaces, #[trigger] toplevel.workspace@[m]),
        decreases toplevel.workspace.len() - k,
    {
        let h: u64 = toplevel.workspace[k];
        if active.contains(&h) {
            assert(is_active(workspaces, toplevel@.workspace[k as int]));
            return true;
        }
        k += 1;
    }
    false
}

/// Puts position `p` into an order that is sorted and holds smaller positions
/// only, behind all that precede it.
fn insert_position(
    order: &mut Vec<usize>,
    ranks: &Vec<usize>,
    p: usize,
    Ghost(toplevels): Ghost<Seq<ToplevelView>>,
    Ghost(mru): Ghost<MruView>,
)
    requires
        p < ranks.len(),
        ranks@.len() <= toplevels.len(),
        forall|i: int| 0 <= i <= p ==> ranks@[i] == mru.rank(#[trigger] toplevels[i].identifier),
        forall|k: int| 0 <= k < old(order)@.len() ==> #[trigger] old(order)@[k] < p,
        sorted_by(as_positions(old(order)@), precedes(toplevels, mru)),
    ensures
        sorted_by(as_positions(final(order)@), precedes(toplevels, mru)),
        as_positions(final(order)@).to_multiset() == as_positions(old(order)@).to_multiset().insert(
            p as int,
        ),
        forall|k: int| 0 <= k < final(order)@.len() ==> #[trigger] final(order)@[k] <= p,
{
    let ghost before = order@;
    let ghost leq = precedes(toplevels, mru);
    let mut at: usize = order.len();
    while at > 0 && ranks[order[at - 1]] > ranks[p]
        invariant
            order@ == before,
            p < ranks.len(),
            at <= order@.len(),
            forall|k: int| 0 <= k < order@.len() ==> #[trigger] order@[k] < p,
            forall|k: int| at <= k < order@.len() ==> ranks@[#[trigger] order@[k] as int] > ranks@[p as int],
        decreases at,
    {
        at -= 1;
    }
    order.insert(at, p);
    proof {
        let old_positions = as_positions(before);
        let positions = as_positions(order@);
        assert(positions =~= old_positions.insert(at as int, p as int));
        vstd::seq_lib::to_multiset_insert(old_positions, at as int, p as int);
        assert forall|i: int, j: int| 0 <= i < j < positions.len() implies #[trigger] leq(
            positions[i],
            positions[j],
        ) by {
            assert(ranks@[p as int] == mru.rank(toplevels[p as int].identifier));
            if i < at && j == at {
                assert(positions[i] == old_positions[i]);
                assert(before[i] < p);
                assert(before[at - 1] < p);
                assert(ranks@[before[i] as int] == mru.rank(toplevels[before[i] as int].identifier));
                assert(ranks@[before[at - 1] as int] == mru.rank(
                    toplevels[before[at - 1] as int].identifier,
                ));
                if i < at - 1 {
                    assert(leq(old_positions[i], old_positions[at - 1]));
                }
            } else if i == at {
                assert(positions[j] == old_positions[j - 1]);
                assert(before[j - 1] < p);
                assert(ranks@[before[j - 1] as int] == mru.rank(
                    toplevels[before[j - 1] as int].identifier,
                ));
            } else {
                let a = if i < at { i } else { i - 1 };
                let b = if j < at { j } else { j - 1 };
                assert(positions[i] == old_positions[a] && positions[j] == old_positions[b]);
                assert(leq(old_positions[a], old_positions[b]));
            }
        }
        assert forall|k: int| 0 <= k < order@.len() implies #[trigger] order@[k] <= p by {
            if k < at {
                assert(order@[k] == before[k]);
            } else if k > at {
                assert(order@[k] == before[k - 1]);
            }
        }
    }
}

/// The windows to list, the most recently used one first: those of the
/// toplevels on an active workspace, and of those whose workspaces are unknown.
pub fn window_list(
    toplevels: &Vec<ToplevelInfo>,
    workspaces: &Vec<Workspace>,
    mru: &MruOrder,
) -> (r: Vec<WindowInfo>)
    ensures
        window_views(r@) == listed_windows(toplevel_views(toplevels@), workspaces@, mru@),
{
    let ghost views = toplevel_views(toplevels@);
    let ghost leq = precedes(views, mru@);
    let ghost all = Seq::new(views.len(), |i: int| i);
    let ghost keep = visible_at(views, workspaces@);
    let active = active_handles(workspaces);
    let mut ranks: Vec<usize> = Vec::new();
    let mut order: Vec<usize> = Vec::new();
    let mut i: usize = 0;
    assert(all.take(0).filter(keep) =~= Seq::<int>::empty()) by {
        reveal(Seq::filter);
    }
    assert(as_positions(order@) =~= Seq::<int>::empty());
    while i < toplevels.len()
        invariant
            i <= toplevels.len(),
            i == ranks.len(),
            views == toplevel_views(toplevels@),
            leq == precedes(views, mru@),
            all == Seq::new(views.len(), |i: int| i),
            keep == visible_at(views, workspaces@),
            forall|h: u64| #[trigger] active@.contains(h) <==> is_active(workspaces@, h),
            forall|j: int| 0 <= j < i ==> ranks@[j] == mru@.rank(#[trigger] views[j].identifier),
            forall|k: int| 0 <= k < order@.len() ==> #[trigger] order@[k] < i,
            sorted_by(as_positions(order@), leq),
            as_positions(order@).to_multiset() == all.take(i as int).filter(keep).to_multiset(),
        decreases toplevels.len() - i,
    {
        let toplevel = &toplevels[i];
        assert(views[i as int] == toplevel@);
        ranks.push(mru.rank(&toplevel.identifier));
        proof {
            assert(all.take(i + 1) =~= all.take(i as int).push(i as int));
            all.take(i as int).lemma_filter_push(i as int, keep);
            vstd::seq_lib::to_multiset_build(all.take(i as int).filter(keep), i as int);
        }
        if is_visible(toplevel, &active, Ghost(workspaces@)) {
            insert_position(&mut order, &ranks, i, Ghost(views), Ghost(mru@));
        }
        i += 1;
    }
    let mut r: Vec<WindowInfo> = Vec::new();
    let mut k: usize = 0;
    while k < order.len()
        invariant
            k <= order.len(),
            r.len() == k,
            views == toplevel_views(toplevels@),
            forall|j: int| 0 <= j < order@.len() ==> #[trigger] order@[j] < toplevels.len(),
            forall|j: int| 0 <= j < k ==> (#[trigger] r@[j])@ == views[order@[j] as int].window(),
        decreases order.len() - k,
    {
        r.push(toplevels[order[k]].window());
        k += 1;
    }
    proof {
        assert(all.take(i as int) =~= all);
        lemma_precedes_total(views, mru@);
        visible_positions(views, workspaces@).lemma_sort_by_ensures(leq);
        vstd::seq_lib::lemma_sorted_unique(
            as_positions(order@),
            window_order(views, workspaces@, mru@),
            leq,
        );
        assert(window_views(r@) =~= listed_windows(views, workspaces@, mru@));
    }
    r
}

/// What the list holds: every visible toplevel once and no other, each before
/// those that were used less recently, and among equals in the order in which
/// the compositor lists them.
pub proof fn lemma_window_order(
    toplevels: Seq<ToplevelView>,
    workspaces: Seq<Workspace>,
    mru: MruView,
)
    ensures
        window_order(toplevels, workspaces, mru).no_duplicates(),
        forall|i: int| #[trigger]
            window_order(toplevels, workspaces, mru).contains(i) <==> 0 <= i < toplevels.len()
                && visible(toplevels[i], workspaces),
        forall|a: int, b: int|
            0 <= a < b < window_order(toplevels, workspaces, mru).len() ==> {
                let i = #[trigger] window_order(toplevels, workspaces, mru)[a];
                let j = #[trigger] window_order(toplevels, workspaces, mru)[b];
                let ri = mru.rank(toplevels[i].identifier);
                let rj = mru.rank(toplevels[j].identifier);
                ri < rj || (ri == rj && i < j)
            },
{
    let leq = precedes(toplevels, mru);
    let all = Seq::new(toplevels.len(), |i: int| i);
    let keep = visible_at(toplevels, workspaces);
    let positions = visible_positions(toplevels, workspaces);
    let order = window_order(toplevels, workspaces, mru);
    lemma_precedes_total(toplevels, mru);
    positions.lemma_sort_by_ensures(leq);
    lemma_filter_no_duplicates(all, keep);
    positions.lemma_multiset_has_no_duplicates();
    order.lemma_multiset_has_no_duplicates_conv();
    broadcast use vstd::seq_lib::group_filter_ensures;
    assert forall|i: int| #[trigger] order.contains(i) <==> 0 <= i < toplevels.len() && visible(
        toplevels[i],
        workspaces,
    ) by {
        vstd::seq_lib::to_multiset_contains(order, i);
        vstd::seq_lib::to_multiset_contains(positions, i);
        if positions.contains(i) {
            all.lemma_filter_contains_rev(keep, i);
            let k = choose|k: int| 0 <= k < positions.len() && positions[k] == i;
            assert(keep(positions[k]));
        }
        if 0 <= i < toplevels.len() && visible(toplevels[i], workspaces) {
            assert(all[i] == i);
            assert(keep(all[i]));
            assert(positions.contains(all[i]));
        }
    }
    assert forall|a: int, b: int| 0 <= a < b < order.len() implies {
        let i = #[trigger] order[a];
        let j = #[trigger] order[b];
        let ri = mru.rank(toplevels[i].identifier);
        let rj = mru.rank(toplevels[j].identifier);
        ri < rj || (ri == rj && i < j)
    } by {
        assert(leq(order[a], order[b]));
        assert(order[a] != order[b]);
    }
}

} // verus!
