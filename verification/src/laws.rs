//! What holds of the library as a whole, over several functions or several
//! calls.

use crate::app::{
    last_position, pinned, raised, row, window_identifiers, AppView, Message, Task, PIN_MS,
};
use crate::input::{
    commits_on_release, message_of_input, message_of_signal, InputEvent, Key, Modifiers, Signal,
};
use crate::listing::{lemma_window_order, listed_windows, visible, window_order};
use crate::mru::{
    due, lemma_forgotten_well_formed, lemma_noted_well_formed, lemma_promoted_all,
    lemma_settled_well_formed, not_due, not_of, other_than, promoted, promoted_all, remaining,
    MruView, Promotion, PROMOTION_DELAY_MS,
};
use crate::sequences::{
    lemma_filter_all, lemma_filter_contains, lemma_filter_none, lemma_filter_one_out,
    lemma_filter_twice, lemma_filters_commute,
};
use crate::thread::Stage;
use crate::wayland::{activations, is_first_with, Activation};
use crate::window::{window_views, ToplevelView, WindowInfo, WindowView, Workspace};
use vstd::prelude::*;

verus! {

// The order of use.

/// Every promotion to come is that of a toplevel that has had focus since
/// `now` at the latest: the clock has not gone back.
pub open spec fn started_by(v: MruView, now: u64) -> bool {
    forall|i: int| 0 <= i < v.pending.len() ==> (#[trigger] v.pending[i]).1 <= now
}

/// Where no promotion is due, the passing of time changes nothing.
pub proof fn nothing_due_nothing_changes(v: MruView, now: u64)
    requires
        !v.any_due(now),
    ensures
        v.settled(now) == v,
{
    assert forall|i: int| 0 <= i < v.pending.len() implies !due(now)(#[trigger] v.pending[i])
        && not_due(now)(v.pending[i]) by {}
    lemma_filter_none(v.pending, due(now));
    lemma_filter_all(v.pending, not_due(now));
    assert(v.settled(now) =~= v);
}

/// A toplevel whose last report said that it is activated is not promoted by
/// another such report: nothing changes but by the passing of time.
pub proof fn repeated_activation_changes_nothing(v: MruView, id: Seq<char>, now: u64)
    requires
        v.well_formed(),
        v.has_focus(id),
    ensures
        v.noted(id, true, now) == v.settled(now),
{
    lemma_settled_well_formed(v, now);
    assert(v.settled(now).order.contains(id));
    assert(v.noted(id, true, now) =~= v.settled(now));
}

/// A report without focus leaves the order of the known toplevels as it is, but
/// for the passing of time, unless it is about a toplevel that appeared with
/// focus and loses it before the delay is over.
pub proof fn report_without_focus_keeps_order(v: MruView, id: Seq<char>, now: u64)
    requires
        v.well_formed(),
        v.order.contains(id),
        !v.settled(now).newly_focused(id),
    ensures
        v.noted(id, false, now).order == v.settled(now).order,
{
    lemma_settled_well_formed(v, now);
    assert(v.settled(now).order.contains(id));
}

/// A change of focus to a known toplevel does not change the order at once.
pub proof fn focus_does_not_promote_at_once(v: MruView, id: Seq<char>, now: u64)
    requires
        v.well_formed(),
        v.order.contains(id),
    ensures
        v.noted(id, true, now).order == v.settled(now).order,
{
    lemma_settled_well_formed(v, now);
    assert(v.settled(now).order.contains(id));
}

/// A toplevel that appears without focus takes the least recent place: all that
/// were known before keep their rank and come before it.
pub proof fn new_without_focus_is_least_recent(
    v: MruView,
    id: Seq<char>,
    now: u64,
    other: Seq<char>,
)
    requires
        v.well_formed(),
        !v.order.contains(id),
        v.order.contains(other),
    ensures
        v.noted(id, false, now).rank(id) == v.settled(now).order.len(),
        v.noted(id, false, now).rank(other) == v.settled(now).rank(other),
        v.noted(id, false, now).rank(other) < v.noted(id, false, now).rank(id),
{
    let s = v.settled(now);
    let w = v.noted(id, false, now);
    lemma_settled_well_formed(v, now);
    lemma_noted_well_formed(v, id, false, now);
    assert(!s.order.contains(id) && s.order.contains(other));
    assert(w.order == seq![id] + s.order);
    let p = choose|p: int| 0 <= p < s.order.len() && s.order[p] == other;
    lemma_rank(s, p);
    lemma_rank(w, 0);
    lemma_rank(w, p + 1);
}

/// A toplevel that appears with focus takes the most recent place.
pub proof fn new_with_focus_is_most_recent(v: MruView, id: Seq<char>, now: u64)
    requires
        v.well_formed(),
        !v.order.contains(id),
    ensures
        v.noted(id, true, now).rank(id) == 0,
{
    let w = v.noted(id, true, now);
    lemma_settled_well_formed(v, now);
    lemma_noted_well_formed(v, id, true, now);
    assert(!v.settled(now).order.contains(id));
    lemma_rank(w, w.order.len() - 1);
}

/// A focus that has lasted for the whole delay moves the toplevel to the most
/// recent place, where nothing has been reported since; by any clock.
pub proof fn lasting_focus_is_promoted(v: MruView, id: Seq<char>, start: u64, now: u64)
    requires
        v.well_formed(),
        v.focuses(id, true),
        now - start >= PROMOTION_DELAY_MS,
    ensures
        v.noted(id, true, start).settled(now).rank(id) == 0,
{
    let w = v.noted(id, true, start);
    lemma_noted_well_formed(v, id, true, start);
    assert(w.pending.last().0 == id && w.pending.last().1 == start);
    lemma_last_promotion_leads(w, now);
}

/// Promotions keep the order of all other toplevels among themselves.
pub proof fn promotions_keep_the_order_of_others(
    v: MruView,
    now: u64,
    a: Seq<char>,
    b: Seq<char>,
)
    requires
        v.well_formed(),
        v.order.contains(a),
        v.order.contains(b),
        v.rank(a) < v.rank(b),
        forall|i: int|
            0 <= i < v.pending.len() && due(now)(#[trigger] v.pending[i]) ==> v.pending[i].0 != a
                && v.pending[i].0 != b,
    ensures
        v.settled(now).rank(a) < v.settled(now).rank(b),
{
    let made = v.pending.filter(due(now));
    let w = v.settled(now);
    lemma_settled_well_formed(v, now);
    lemma_filter_contains(v.pending, due(now));
    assert forall|i: int| 0 <= i < made.len() implies v.order.contains((#[trigger] made[i]).0)
        && made[i].0 != a && made[i].0 != b by {
        assert(made.contains(made[i]));
        let k = choose|k: int| 0 <= k < v.pending.len() && v.pending[k] == made[i];
        assert(v.has_focus(v.pending[k].0));
    }
    let pa = choose|p: int| 0 <= p < v.order.len() && v.order[p] == a;
    let pb = choose|p: int| 0 <= p < v.order.len() && v.order[p] == b;
    lemma_rank(v, pa);
    lemma_rank(v, pb);
    let (qb, qa) = lemma_promotions_keep(v.order, made, pb, pa);
    lemma_rank(w, qa);
    lemma_rank(w, qb);
}

/// Where two positions of an order are those of toplevels that are not
/// promoted, where these stand afterwards.
proof fn lemma_promotions_keep(
    order: Seq<Seq<char>>,
    made: Seq<Promotion>,
    i: int,
    j: int,
) -> (r: (int, int))
    requires
        order.no_duplicates(),
        0 <= i < j < order.len(),
        forall|k: int|
            0 <= k < made.len() ==> order.contains((#[trigger] made[k]).0) && made[k].0 != order[i]
                && made[k].0 != order[j],
    ensures
        0 <= r.0 < r.1 < promoted_all(order, made).len(),
        promoted_all(order, made)[r.0] == order[i],
        promoted_all(order, made)[r.1] == order[j],
    decreases made.len(),
{
    if made.len() == 0 {
        (i, j)
    } else {
        let front = made.drop_last();
        assert forall|k: int| 0 <= k < front.len() implies order.contains((#[trigger] front[k]).0)
            && front[k].0 != order[i] && front[k].0 != order[j] by {
            assert(front[k] == made[k]);
        }
        let (a, b) = lemma_promotions_keep(order, front, i, j);
        let before = promoted_all(order, front);
        lemma_promoted_all(order, front);
        let id = made.last().0;
        assert(made[made.len() - 1].0 == id);
        assert(before.contains(id));
        let p = choose|p: int| 0 <= p < before.len() && before[p] == id;
        lemma_filter_one_out(before, other_than(id), p);
        (if a < p { a } else { a - 1 }, if b < p { b } else { b - 1 })
    }
}

/// After focus has gone to `previous` and then, however soon, to `current`, and
/// nothing has been reported until the delay is over, these are the two most
/// recently focused toplevels.
pub proof fn last_two_focused_are_most_recent(
    v: MruView,
    previous: Seq<char>,
    current: Seq<char>,
    first: u64,
    second: u64,
    now: u64,
)
    requires
        v.well_formed(),
        started_by(v, first),
        first <= second,
        now - second >= PROMOTION_DELAY_MS,
        previous != current,
        v.focuses(previous, true),
        v.noted(previous, true, first).focuses(current, true),
    ensures
        two_most_recent(
            v.noted(previous, true, first).noted(current, true, second).settled(now),
            previous,
            current,
        ),
{
    let a = v.noted(previous, true, first);
    let s = a.settled(second);
    let b = a.noted(current, true, second);
    let w = b.settled(now);
    lemma_noted_well_formed(v, previous, true, first);
    lemma_settled_well_formed(a, second);
    lemma_noted_well_formed(a, current, true, second);
    lemma_settled_well_formed(b, now);
    lemma_starts_kept(v, first, first);
    assert(started_by(a, first));
    lemma_starts_kept(a, second, first);
    let x = a.pending.last();
    let y = b.pending.last();
    assert(x.0 == previous && x.1 == first && y.0 == current && y.1 == second);
    let front = a.pending.drop_last();
    assert(a.pending =~= front.push(x));
    assert(b.pending == s.pending.push(y));
    assert forall|i: int| 0 <= i < b.pending.len() implies due(now)(#[trigger] b.pending[i]) by {
        if i < s.pending.len() {
            assert(b.pending[i] == s.pending[i]);
        }
    }
    lemma_filter_all(b.pending, due(now));
    assert(b.pending.drop_last() =~= s.pending);
    if due(second)(x) {
        assert forall|i: int| 0 <= i < a.pending.len() implies !not_due(second)(
            #[trigger] a.pending[i],
        ) by {}
        lemma_filter_none(a.pending, not_due(second));
        lemma_last_promotion_leads(a, second);
        assert(promoted_all(b.order, s.pending) == b.order);
        if s.order.contains(current) {
            lemma_leads_by_two(s.order, previous, current);
        } else {
            assert(b.order == s.order.push(current));
            s.order.lemma_filter_push(current, other_than(current));
            lemma_leads_by_two(s.order, previous, current);
        }
    } else {
        front.lemma_filter_push(x, not_due(second));
        let rest = front.filter(not_due(second));
        assert(s.pending == rest.push(x));
        assert(s.pending.drop_last() =~= rest);
        let middle = promoted(promoted_all(b.order, rest), previous);
        assert(promoted_all(b.order, s.pending) == middle);
        lemma_leads_by_two(middle, previous, current);
    }
    assert(w.order[w.order.len() - 1] == current);
    assert(w.order[w.order.len() - 2] == previous);
    lemma_rank(w, w.order.len() - 1);
    lemma_rank(w, w.order.len() - 2);
}

/// Promoting another toplevel than the most recent one leaves that one second.
proof fn lemma_leads_by_two(order: Seq<Seq<char>>, previous: Seq<char>, current: Seq<char>)
    requires
        order.len() > 0,
        order.last() == previous,
        previous != current,
    ensures
        promoted(order, current).len() >= 2,
        promoted(order, current)[promoted(order, current).len() - 1] == current,
        promoted(order, current)[promoted(order, current).len() - 2] == previous,
{
    assert(order =~= order.drop_last().push(previous));
    order.drop_last().lemma_filter_push(previous, other_than(current));
}

/// Where the last promotion to come is due, it is the last one made, and the
/// toplevel takes the most recent place.
pub proof fn lemma_last_promotion_leads(v: MruView, now: u64)
    requires
        v.well_formed(),
        v.pending.len() > 0,
        due(now)(v.pending.last()),
    ensures
        v.settled(now).order.len() > 0,
        v.settled(now).order.last() == v.pending.last().0,
        v.settled(now).rank(v.pending.last().0) == 0,
{
    let w = v.settled(now);
    let front = v.pending.drop_last();
    let x = v.pending.last();
    lemma_settled_well_formed(v, now);
    assert(v.pending =~= front.push(x));
    front.lemma_filter_push(x, due(now));
    let made = front.filter(due(now));
    assert(made.push(x).drop_last() =~= made);
    assert(w.order == promoted(promoted_all(v.order, made), x.0));
    lemma_rank(w, w.order.len() - 1);
}

/// The passing of time keeps when the focus of the toplevels began.
pub proof fn lemma_starts_kept(v: MruView, now: u64, latest: u64)
    requires
        started_by(v, latest),
    ensures
        started_by(v.settled(now), latest),
{
    let kept = v.pending.filter(not_due(now));
    lemma_filter_contains(v.pending, not_due(now));
    assert forall|i: int| 0 <= i < kept.len() implies (#[trigger] kept[i]).1 <= latest by {
        assert(kept.contains(kept[i]));
        let k = choose|k: int| 0 <= k < v.pending.len() && v.pending[k] == kept[i];
        assert(v.pending[k].1 <= latest);
    }
}

/// Where no promotion is due, and the report is neither that of a new toplevel
/// with focus nor that of its loss before the delay is over, every known
/// toplevel keeps its rank.
pub proof fn ranks_change_by_promotion_only(
    v: MruView,
    id: Seq<char>,
    activated: bool,
    now: u64,
    other: Seq<char>,
)
    requires
        v.well_formed(),
        !v.any_due(now),
        v.order.contains(id) || !activated,
        activated || !v.newly_focused(id),
        v.order.contains(other),
    ensures
        v.noted(id, activated, now).order.contains(other),
        v.noted(id, activated, now).rank(other) == v.rank(other),
{
    nothing_due_nothing_changes(v, now);
    let w = v.noted(id, activated, now);
    lemma_noted_well_formed(v, id, activated, now);
    if !v.order.contains(id) {
        let p = choose|p: int| 0 <= p < v.order.len() && v.order[p] == other;
        assert(w.order[p + 1] == other);
        lemma_rank(v, p);
        lemma_rank(w, p + 1);
    }
}

/// The toplevel that has just lost focus may still claim to be activated, as
/// its own state event has not been processed yet. That claim changes nothing,
/// and does not put it above the one that has gained focus.
pub proof fn stale_claim_is_not_promoted(
    v: MruView,
    lost: Seq<char>,
    gained: Seq<char>,
    start: u64,
    claim: u64,
    now: u64,
)
    requires
        v.well_formed(),
        started_by(v, start),
        v.has_focus(lost),
        v.focuses(gained, true),
        now - start >= PROMOTION_DELAY_MS,
    ensures
        v.noted(gained, true, start).noted(lost, true, claim) == v.noted(
            gained,
            true,
            start,
        ).settled(claim),
        v.noted(gained, true, start).noted(lost, true, claim).settled(now).rank(gained) == 0,
{
    let w = v.noted(gained, true, start);
    lemma_noted_well_formed(v, gained, true, start);
    repeated_activation_changes_nothing(w, lost, claim);
    lemma_starts_kept(v, start, start);
    let s = w.settled(claim);
    let x = w.pending.last();
    assert(x.0 == gained && x.1 == start);
    let front = w.pending.drop_last();
    lemma_settled_well_formed(w, claim);
    assert(w.pending =~= front.push(x));
    if due(claim)(x) {
        assert forall|i: int| 0 <= i < w.pending.len() implies !not_due(claim)(
            #[trigger] w.pending[i],
        ) by {
            assert(w.pending[i].1 <= start);
        }
        lemma_filter_none(w.pending, not_due(claim));
        lemma_last_promotion_leads(w, claim);
        nothing_due_nothing_changes(s, now);
    } else {
        front.lemma_filter_push(x, not_due(claim));
        assert(s.pending.last() == x);
        lemma_last_promotion_leads(s, now);
    }
}

/// Nothing is left of a closed toplevel: it comes after all known ones, no
/// promotion of it is to come, and a later report on the same identifier is
/// that on a new toplevel.
pub proof fn closed_is_forgotten(v: MruView, id: Seq<char>)
    requires
        v.well_formed(),
    ensures
        !v.forgotten(id).order.contains(id),
        v.forgotten(id).rank(id) == v.forgotten(id).order.len(),
        v.forgotten(id).focuses(id, true),
        forall|i: int|
            0 <= i < v.forgotten(id).pending.len() ==> (#[trigger] v.forgotten(id).pending[i]).0
                != id,
{
    lemma_forgotten_well_formed(v, id);
    let w = v.forgotten(id);
    w.order.index_of_last_ensures(id);
    assert forall|i: int| 0 <= i < w.pending.len() implies (#[trigger] w.pending[i]).0 != id by {
        assert(w.has_focus(w.pending[i].0));
    }
}

/// Taking out a toplevel before promotions, of which those of others are made,
/// is taking it out afterwards.
pub proof fn lemma_promotions_and_filter(
    order: Seq<Seq<char>>,
    made: Seq<Promotion>,
    id: Seq<char>,
)
    ensures
        promoted_all(order, made).filter(other_than(id)) == promoted_all(
            order.filter(other_than(id)),
            made.filter(not_of(id)),
        ),
    decreases made.len(),
{
    if made.len() == 0 {
        lemma_filter_all(made, not_of(id));
    } else {
        let front = made.drop_last();
        let x = made.last();
        let other = other_than(id);
        let before = promoted_all(order, front);
        lemma_promotions_and_filter(order, front, id);
        assert(made =~= front.push(x));
        front.lemma_filter_push(x, not_of(id));
        before.filter(other_than(x.0)).lemma_filter_push(x.0, other);
        if x.0 == id {
            lemma_filter_twice(before, other);
        } else {
            lemma_filters_commute(before, other_than(x.0), other);
            let kept = front.filter(not_of(id));
            assert(kept.push(x).drop_last() =~= kept);
        }
    }
}

/// Until the wait is over no promotion is due, and then one is.
pub proof fn wait_ends_with_a_promotion(v: MruView, now: u64, wait: u64, time: u64)
    requires
        started_by(v, now),
        v.is_wait(now, Some(wait)),
        now <= time,
    ensures
        time < now + wait ==> !v.any_due(time),
        time >= now + wait ==> v.any_due(time),
{
    if time < now + wait {
        assert forall|i: int| 0 <= i < v.pending.len() implies !due(time)(
            #[trigger] v.pending[i],
        ) by {
            assert(wait <= remaining(v.pending[i].1, now));
        }
    } else {
        let i = choose|i: int|
            0 <= i < v.pending.len() && remaining((#[trigger] v.pending[i]).1, now) == wait;
        assert(due(time)(v.pending[i]));
    }
}

/// The rank of the identifier at position `p` of an order without duplicates.
pub proof fn lemma_rank(v: MruView, p: int)
    requires
        v.order.no_duplicates(),
        0 <= p < v.order.len(),
    ensures
        v.rank(v.order[p]) == v.order.len() - 1 - p,
{
    v.order.index_of_last_ensures(v.order[p]);
    assert(v.order.contains(v.order[p]));
}

// The list, and what is done with it.

/// The list holds the windows of the current workspace and no others: a window
/// is in it exactly where it is that of a toplevel on an active workspace, or
/// of one whose workspaces are unknown.
pub proof fn list_is_that_of_the_current_workspace(
    toplevels: Seq<ToplevelView>,
    workspaces: Seq<Workspace>,
    mru: MruView,
    window: WindowView,
)
    ensures
        listed_windows(toplevels, workspaces, mru).contains(window) <==> exists|i: int|
            0 <= i < toplevels.len() && visible(#[trigger] toplevels[i], workspaces)
                && toplevels[i].window() == window,
{
    let order = window_order(toplevels, workspaces, mru);
    let listed = listed_windows(toplevels, workspaces, mru);
    lemma_window_order(toplevels, workspaces, mru);
    if listed.contains(window) {
        let k = choose|k: int| 0 <= k < listed.len() && listed[k] == window;
        assert(order.contains(order[k]));
        assert(toplevels[order[k]].window() == window);
    }
    if exists|i: int|
        0 <= i < toplevels.len() && visible(#[trigger] toplevels[i], workspaces)
            && toplevels[i].window() == window {
        let i = choose|i: int|
            0 <= i < toplevels.len() && visible(#[trigger] toplevels[i], workspaces)
                && toplevels[i].window() == window;
        assert(order.contains(i));
        let k = choose|k: int| 0 <= k < order.len() && order[k] == i;
        assert(listed[k] == window);
    }
}

/// The most recently focused toplevel is the first of the list, where it has a
/// window in it.
pub proof fn most_recent_leads_the_list(
    mru: MruView,
    current: Seq<char>,
    toplevels: Seq<ToplevelView>,
    workspaces: Seq<Workspace>,
    at: int,
)
    requires
        mru.well_formed(),
        mru.order.contains(current),
        mru.rank(current) == 0,
        listed_once(toplevels, workspaces, current, at),
    ensures
        listed_windows(toplevels, workspaces, mru).len() >= 1,
        listed_windows(toplevels, workspaces, mru)[0] == toplevels[at].window(),
{
    let order = window_order(toplevels, workspaces, mru);
    lemma_window_order(toplevels, workspaces, mru);
    assert(order.contains(at));
    let c = choose|k: int| 0 <= k < order.len() && order[k] == at;
    if c > 0 {
        assert(order.contains(order[0]));
        let id = toplevels[order[0]].identifier;
        mru.order.index_of_last_ensures(id);
        mru.order.index_of_last_ensures(current);
        assert(mru.rank(id) <= mru.rank(toplevels[order[c]].identifier));
        assert(id == current);
    }
}

/// Where `current` and `previous` are the two most recently focused toplevels,
/// and both have a window in the list, `current` is the first of the list and
/// `previous` the second.
pub proof fn two_most_recent_lead_the_list(
    mru: MruView,
    previous: Seq<char>,
    current: Seq<char>,
    toplevels: Seq<ToplevelView>,
    workspaces: Seq<Workspace>,
    at_previous: int,
    at_current: int,
)
    requires
        two_most_recent(mru, previous, current),
        listed_once(toplevels, workspaces, previous, at_previous),
        listed_once(toplevels, workspaces, current, at_current),
    ensures
        listed_windows(toplevels, workspaces, mru).len() >= 2,
        listed_windows(toplevels, workspaces, mru)[0] == toplevels[at_current].window(),
        listed_windows(toplevels, workspaces, mru)[1] == toplevels[at_previous].window(),
{
    let n = mru.order.len() as int;
    let of_current = choose|k: int| 0 <= k < n && mru.order[k] == current;
    let of_previous = choose|k: int| 0 <= k < n && mru.order[k] == previous;
    lemma_rank(mru, of_current);
    lemma_rank(mru, of_previous);
    assert forall|id: Seq<char>| id != current && id != previous implies #[trigger] mru.rank(id)
        >= 2 by {
        mru.order.index_of_last_ensures(id);
    }
    let order = window_order(toplevels, workspaces, mru);
    lemma_window_order(toplevels, workspaces, mru);
    assert(order.contains(at_current) && order.contains(at_previous));
    let c = choose|k: int| 0 <= k < order.len() && order[k] == at_current;
    let p = choose|k: int| 0 <= k < order.len() && order[k] == at_previous;
    assert forall|k: int| 0 <= k < order.len() implies mru.rank(
        toplevels[#[trigger] order[k]].identifier,
    ) >= (if k == c { 0int } else if k == p { 1 } else { 2 }) by {
        assert(order.contains(order[k]));
        let id = toplevels[order[k]].identifier;
        if id == current {
            assert(order[k] == at_current);
        } else if id == previous {
            assert(order[k] == at_previous);
        }
    }
    if c > 0 {
        let first = order[0];
        assert(mru.rank(toplevels[first].identifier) >= 1);
        assert(mru.rank(toplevels[order[c]].identifier) == 0);
    }
    assert(c == 0);
    assert(p != 0);
    if p > 1 {
        let second = order[1];
        assert(mru.rank(toplevels[second].identifier) >= 2);
        assert(mru.rank(toplevels[order[p]].identifier) == 1);
    }
    assert(p == 1);
}

/// `current` is the most recently focused toplevel, and `previous` the one
/// before it.
pub open spec fn two_most_recent(mru: MruView, previous: Seq<char>, current: Seq<char>) -> bool {
    &&& mru.well_formed()
    &&& mru.order.contains(current)
    &&& mru.rank(current) == 0
    &&& mru.order.contains(previous)
    &&& mru.rank(previous) == 1
}

/// Among the visible toplevels, the one at position `at` and no other has the
/// identifier `id`.
pub open spec fn listed_once(
    toplevels: Seq<ToplevelView>,
    workspaces: Seq<Workspace>,
    id: Seq<char>,
    at: int,
) -> bool {
    &&& 0 <= at < toplevels.len()
    &&& visible(toplevels[at], workspaces)
    &&& toplevels[at].identifier == id
    &&& forall|i: int|
        0 <= i < toplevels.len() && visible(#[trigger] toplevels[i], workspaces)
            && toplevels[i].identifier == id ==> i == at
}

/// Summoning the overlay highlights the window that had focus before the
/// current one, and committing at once asks for that window.
pub proof fn summon_and_commit_switches_back<H>(
    mru: MruView,
    previous: Seq<char>,
    current: Seq<char>,
    toplevels: Seq<ToplevelView>,
    workspaces: Seq<Workspace>,
    at_previous: int,
    at_current: int,
    app: AppView<H>,
    now: u64,
)
    requires
        two_most_recent(mru, previous, current),
        listed_once(toplevels, workspaces, previous, at_previous),
        listed_once(toplevels, workspaces, current, at_current),
        !app.shown,
        app.windows == listed_windows(toplevels, workspaces, mru),
    ensures
        app.updated(Message::CycleNext, now).shown,
        app.updated(Message::CycleNext, now).highlighted == 1,
        app.updated(Message::CycleNext, now).windows[1] == toplevels[at_previous].window(),
        app.wayland is Some ==> app.updated(Message::CycleNext, now).request(Message::Confirm) == Some(
            previous,
        ),
{
    two_most_recent_lead_the_list(
        mru,
        previous,
        current,
        toplevels,
        workspaces,
        at_previous,
        at_current,
    );
}

/// Every window of the list is that of a visible toplevel, and a request for
/// its identifier reaches a toplevel with that identifier.
pub proof fn listed_windows_can_be_requested(
    toplevels: Seq<ToplevelView>,
    workspaces: Seq<Workspace>,
    mru: MruView,
    k: int,
)
    requires
        0 <= k < listed_windows(toplevels, workspaces, mru).len(),
    ensures
        exists|i: int|
            0 <= i < toplevels.len() && visible(#[trigger] toplevels[i], workspaces)
                && toplevels[i].window() == listed_windows(toplevels, workspaces, mru)[k],
        exists|i: int| #[trigger]
            is_first_with(toplevels, listed_windows(toplevels, workspaces, mru)[k].identifier, i),
{
    let order = window_order(toplevels, workspaces, mru);
    lemma_window_order(toplevels, workspaces, mru);
    assert(order.contains(order[k]));
    let i = order[k];
    assert(visible(toplevels[i], workspaces));
    assert(listed_windows(toplevels, workspaces, mru)[k] == toplevels[i].window());
    let id = listed_windows(toplevels, workspaces, mru)[k].identifier;
    assert(id == toplevels[i].identifier);
    lemma_first_with(toplevels, id, i);
    let j = choose|j: int| is_first_with(toplevels, id, j);
    assert(is_first_with(toplevels, id, j));
}

/// Where a toplevel has an identifier, there is a first one that has it.
proof fn lemma_first_with(toplevels: Seq<ToplevelView>, id: Seq<char>, i: int)
    requires
        0 <= i < toplevels.len(),
        toplevels[i].identifier == id,
    ensures
        exists|j: int| is_first_with(toplevels, id, j),
    decreases i,
{
    if exists|j: int| 0 <= j < i && (#[trigger] toplevels[j]).identifier == id {
        let j = choose|j: int| 0 <= j < i && (#[trigger] toplevels[j]).identifier == id;
        lemma_first_with(toplevels, id, j);
    } else {
        assert(is_first_with(toplevels, id, i));
    }
}

/// Where one toplevel only has an identifier, and it can be controlled, a
/// request for the identifier gives it the focus of every seat, once each.
pub proof fn request_reaches_every_seat(
    toplevels: Seq<ToplevelView>,
    seats: usize,
    at: int,
    seat: int,
)
    requires
        0 <= at < toplevels.len() <= usize::MAX,
        toplevels[at].controllable,
        forall|i: int|
            0 <= i < toplevels.len() && (#[trigger] toplevels[i]).identifier
                == toplevels[at].identifier ==> i == at,
        0 <= seat < seats,
    ensures
        activations(toplevels, seats, toplevels[at].identifier).len() == seats,
        activations(toplevels, seats, toplevels[at].identifier)[seat] == (Activation {
            toplevel: at as usize,
            seat: seat as usize,
        }),
{
    let id = toplevels[at].identifier;
    assert(is_first_with(toplevels, id, at));
    let i = choose|i: int| #[trigger] is_first_with(toplevels, id, i);
    assert(toplevels[i].identifier == id);
}

// The overlay.

/// Moving the highlight forward and then back, or back and then forward,
/// leaves everything as it was.
pub proof fn cycling_back_undoes_cycling<H>(v: AppView<H>, first: u64, second: u64)
    requires
        v.well_formed(),
        v.shown,
    ensures
        v.updated(Message::CycleNext, first).updated(Message::CyclePrev, second) == v,
        v.updated(Message::CyclePrev, first).updated(Message::CycleNext, second) == v,
{
    cycles_add_up(v, 1, -1);
    cycles_add_up(v, -1, 1);
    if v.windows.len() > 0 {
        vstd::arithmetic::div_mod::lemma_small_mod(v.highlighted as nat, v.windows.len());
    }
    assert(v.cycled(0) =~= v);
}

/// Moving the highlight by `a` positions and then by `b` is moving it by
/// `a + b`.
pub proof fn cycles_add_up<H>(v: AppView<H>, a: int, b: int)
    ensures
        v.cycled(a).cycled(b) == v.cycled(a + b),
{
    if v.windows.len() > 0 {
        let len = v.windows.len() as int;
        vstd::arithmetic::div_mod::lemma_add_mod_noop(v.highlighted + a, b, len);
        vstd::arithmetic::div_mod::lemma_add_mod_noop((v.highlighted + a) % len, b, len);
        vstd::arithmetic::div_mod::lemma_mod_twice(v.highlighted + a, len);
        assert(v.highlighted + a + b == v.highlighted + (a + b));
    }
    assert(v.cycled(a).cycled(b) =~= v.cycled(a + b));
}

/// The state after the message [`Message::CycleNext`] at each of these times.
pub open spec fn after_next<H>(v: AppView<H>, times: Seq<u64>) -> AppView<H>
    decreases times.len(),
{
    if times.len() == 0 {
        v
    } else {
        after_next(v, times.drop_last()).updated(Message::CycleNext, times.last())
    }
}

/// While the overlay is shown, any number of forward steps move the highlight
/// by that many positions round the list.
pub proof fn forward_steps_go_round<H>(v: AppView<H>, times: Seq<u64>)
    requires
        v.well_formed(),
        v.shown,
    ensures
        after_next(v, times) == v.cycled(times.len() as int),
    decreases times.len(),
{
    if times.len() == 0 {
        if v.windows.len() > 0 {
            vstd::arithmetic::div_mod::lemma_small_mod(v.highlighted as nat, v.windows.len());
        }
        assert(v.cycled(0) =~= v);
    } else {
        forward_steps_go_round(v, times.drop_last());
        cycles_add_up(v, times.len() - 1, 1);
    }
}

/// As many forward steps as there are windows lead back to the start.
pub proof fn full_round_returns<H>(v: AppView<H>, times: Seq<u64>)
    requires
        v.well_formed(),
        v.shown,
        times.len() == v.windows.len(),
    ensures
        after_next(v, times) == v,
{
    forward_steps_go_round(v, times);
    if v.windows.len() > 0 {
        let len = v.windows.len() as int;
        vstd::arithmetic::div_mod::lemma_mod_add_multiples_vanish(v.highlighted, len);
        vstd::arithmetic::div_mod::lemma_small_mod(v.highlighted as nat, v.windows.len());
    }
    assert(v.cycled(v.windows.len() as int) =~= v);
}

/// Every window can be reached: for each position there is a number of forward
/// steps, less than the number of windows, that leads to it, whenever they are
/// made.
pub proof fn every_window_is_reached<H>(v: AppView<H>, target: int) -> (n: nat)
    requires
        v.well_formed(),
        v.shown,
        0 <= target < v.windows.len(),
    ensures
        n < v.windows.len(),
        forall|times: Seq<u64>|
            times.len() == n ==> (#[trigger] after_next(v, times)).highlighted == target,
{
    let len = v.windows.len() as int;
    let n: nat = if target >= v.highlighted {
        (target - v.highlighted) as nat
    } else {
        (target - v.highlighted + len) as nat
    };
    vstd::arithmetic::div_mod::lemma_small_mod(target as nat, v.windows.len());
    vstd::arithmetic::div_mod::lemma_mod_add_multiples_vanish(target, len);
    assert forall|times: Seq<u64>| times.len() == n implies (#[trigger] after_next(
        v,
        times,
    )).highlighted == target by {
        forward_steps_go_round(v, times);
    }
    n
}

/// With one window or none, moving the highlight does nothing.
pub proof fn cycling_a_short_list_does_nothing<H>(v: AppView<H>, now: u64)
    requires
        v.well_formed(),
        v.shown,
        v.windows.len() <= 1,
    ensures
        v.updated(Message::CycleNext, now) == v,
        v.updated(Message::CyclePrev, now) == v,
        v.task(Message::CycleNext) == Task::Idle,
        v.task(Message::CyclePrev) == Task::Idle,
{
    assert(v.updated(Message::CycleNext, now) =~= v);
    assert(v.updated(Message::CyclePrev, now) =~= v);
}

/// Wherever the highlight was when the overlay was hidden, by committing or by
/// cancelling, the next summon puts it on the second window of the list, or on
/// the last window where it is a backward one.
pub proof fn summon_resets_the_highlight<H>(
    v: AppView<H>,
    hide: Message<H>,
    hidden_at: u64,
    now: u64,
)
    requires
        hide is Confirm || hide is Cancel,
    ensures
        !v.updated(hide, hidden_at).shown,
        v.updated(hide, hidden_at).windows.len() == v.windows.len(),
        v.updated(hide, hidden_at).updated(Message::CycleNext, now).shown,
        v.updated(hide, hidden_at).updated(Message::CyclePrev, now).shown,
        v.updated(hide, hidden_at).updated(Message::CycleNext, now).windows == v.updated(
            hide,
            hidden_at,
        ).windows,
        v.windows.len() >= 2 ==> v.updated(hide, hidden_at).updated(
            Message::CycleNext,
            now,
        ).highlighted == 1,
        v.windows.len() < 2 ==> v.updated(hide, hidden_at).updated(
            Message::CycleNext,
            now,
        ).highlighted == 0,
        v.updated(hide, hidden_at).updated(Message::CyclePrev, now).highlighted == last_position(
            v.windows.len(),
        ),
{
}

/// A list that arrives while the overlay is hidden is the one that the next
/// summon shows.
pub proof fn hidden_updates_are_shown_next<H>(
    v: AppView<H>,
    update: Message<H>,
    summon: Message<H>,
    updated_at: u64,
    now: u64,
)
    requires
        !v.shown,
        update is WindowsUpdated,
        summon is CycleNext || summon is CyclePrev,
    ensures
        !v.updated(update, updated_at).shown,
        v.updated(update, updated_at).updated(summon, now).shown,
        v.updated(update, updated_at).updated(summon, now).windows == v.updated(
            update,
            updated_at,
        ).windows,
{
}

/// While the overlay is hidden, committing and cancelling do nothing.
pub proof fn hidden_overlay_ignores_commit_and_cancel<H>(
    v: AppView<H>,
    message: Message<H>,
    now: u64,
)
    requires
        !v.shown,
        message is Confirm || message is Cancel,
    ensures
        v.updated(message, now) == v,
        v.task(message) == Task::Idle,
        v.request(message) is None,
{
    assert(v.updated(message, now) =~= v);
}

/// A commit that requests a window moves it to the top of the list at once; the
/// others keep their order.
pub proof fn commit_moves_the_window_to_the_top<H>(v: AppView<H>, message: Message<H>, now: u64)
    requires
        v.well_formed(),
        v.commits(message),
        v.wayland is Some,
        v.windows.len() > 0,
    ensures
        v.request(message) == Some(v.windows[v.highlighted].identifier),
        v.updated(message, now).windows == seq![v.windows[v.highlighted]] + v.windows.remove(
            v.highlighted,
        ),
        v.updated(message, now).committed == Some((v.windows[v.highlighted].identifier, now)),
{
}

/// A list that arrives within a second of a commit, and that holds the
/// committed window, is shown with that window first; the others keep the order
/// of the list.
pub proof fn committed_window_stays_first<H>(
    v: AppView<H>,
    id: Seq<char>,
    at: u64,
    windows: Vec<WindowInfo>,
    now: u64,
)
    requires
        v.committed == Some((id, at)),
        now - at < PIN_MS,
        window_identifiers(window_views(windows@)).contains(id),
    ensures
        v.updated(Message::WindowsUpdated(windows), now).windows.len() == windows@.len(),
        v.updated(Message::WindowsUpdated(windows), now).windows[0].identifier == id,
        exists|i: int|
            0 <= i < windows@.len() && v.updated(Message::WindowsUpdated(windows), now).windows
                == #[trigger] raised(window_views(windows@), i),
{
    let list = window_views(windows@);
    window_identifiers(list).index_of_first_ensures(id);
    assert(pinned(list, id) == raised(list, window_identifiers(list).index_of_first(id)->0));
}

/// A list that arrives later, or that does not hold the committed window, or
/// where none was committed, is shown as it comes.
pub proof fn other_lists_are_shown_as_they_come<H>(
    v: AppView<H>,
    windows: Vec<WindowInfo>,
    now: u64,
)
    requires
        v.committed matches Some(c) ==> now - c.1 >= PIN_MS || !window_identifiers(
            window_views(windows@),
        ).contains(c.0),
    ensures
        v.updated(Message::WindowsUpdated(windows), now).windows == window_views(windows@),
{
    if let Some(c) = v.committed {
        window_identifiers(window_views(windows@)).index_of_first_ensures(c.0);
    }
}

/// Switching to another window and at once back again works before the listener
/// has told of the change of focus: the second summon highlights the window that
/// was current at first, and committing asks for it.
pub proof fn quick_switch_back<H>(v: AppView<H>, committed_at: u64, now: u64)
    requires
        v.shown,
        v.wayland is Some,
        1 <= v.highlighted < v.windows.len(),
    ensures
        v.updated(Message::Confirm, committed_at).updated(Message::CycleNext, now).highlighted == 1,
        v.updated(Message::Confirm, committed_at).updated(Message::CycleNext, now).windows[1]
            == v.windows[0],
        v.updated(Message::Confirm, committed_at).updated(Message::CycleNext, now).request(
            Message::Confirm,
        ) == Some(v.windows[0].identifier),
{
}

/// The same where the listener tells of the old order once more, within a second
/// of the commit, before the second summon.
pub proof fn quick_switch_back_over_an_old_list<H>(
    v: AppView<H>,
    committed_at: u64,
    windows: Vec<WindowInfo>,
    told_at: u64,
    now: u64,
)
    requires
        v.shown,
        v.wayland is Some,
        1 <= v.highlighted < v.windows.len(),
        forall|j: int|
            0 <= j < v.highlighted ==> (#[trigger] v.windows[j]).identifier
                != v.windows[v.highlighted].identifier,
        window_views(windows@) == v.windows,
        told_at - committed_at < PIN_MS,
    ensures
        v.updated(Message::Confirm, committed_at).updated(
            Message::WindowsUpdated(windows),
            told_at,
        ).windows == v.updated(Message::Confirm, committed_at).windows,
        v.updated(Message::Confirm, committed_at).updated(
            Message::WindowsUpdated(windows),
            told_at,
        ).updated(Message::CycleNext, now).highlighted == 1,
        v.updated(Message::Confirm, committed_at).updated(
            Message::WindowsUpdated(windows),
            told_at,
        ).updated(Message::CycleNext, now).request(Message::Confirm) == Some(
            v.windows[0].identifier,
        ),
{
    let ids = window_identifiers(v.windows);
    let i = v.highlighted;
    let id = v.windows[i].identifier;
    assert(ids[i] == id);
    assert(ids.contains(id));
    ids.index_of_first_ensures(id);
    assert(ids.index_of_first(id) == Some(i)) by {
        let p = ids.index_of_first(id)->0;
        assert(v.windows[p].identifier == id);
    }
}

/// While the overlay is shown, pressing Enter, releasing Alt, or releasing any
/// modifier that was held when the overlay first gained keyboard focus commits:
/// the highlighted window is requested, where there is one, and the overlay
/// hides.
pub proof fn commit_keys_switch<H>(v: AppView<H>, event: InputEvent, now: u64)
    requires
        v.well_formed(),
        v.shown,
        (event matches InputEvent::KeyReleased { key } && commits_on_release(key, v.held))
            || event matches InputEvent::KeyPressed { key: Key::Enter, .. },
    ensures
        message_of_input::<H>(event, v.held) == Some(Message::<H>::Confirm),
        !v.updated(Message::Confirm, now).shown,
        v.task(Message::Confirm) == Task::Hide,
        v.windows.len() > 0 && v.wayland is Some ==> v.request(Message::Confirm)
            == Some(v.windows[v.highlighted].identifier),
{
}

/// The modifiers that are held when the overlay first gains keyboard focus
/// after a summon count until the next summon: releasing any of them commits,
/// also after other modifiers have been pressed.
pub proof fn held_modifiers_are_those_at_first_focus<H>(
    v: AppView<H>,
    summon: Message<H>,
    held: Modifiers,
    later: Modifiers,
    key: Key,
    now: u64,
)
    requires
        !v.shown,
        summon is CycleNext || summon is CyclePrev,
        !(v.instant_commit && held.none_held()),
        held.holds(key),
    ensures
        v.updated(summon, now).updated(Message::ModifiersHeld(held), now).shown,
        v.updated(summon, now).updated(Message::ModifiersHeld(held), now).held == Some(held),
        v.updated(summon, now).updated(Message::ModifiersHeld(held), now).updated(
            Message::ModifiersHeld(later),
            now,
        ).held == Some(held),
        message_of_input::<H>(InputEvent::KeyReleased { key }, Some(held)) == Some(
            Message::<H>::Confirm,
        ),
{
}

/// A tap so fast that no modifier is held any more when the overlay gains
/// keyboard focus: with instant commit it commits at once, and without it the
/// overlay stays until a key says otherwise.
pub proof fn fast_tap_commits_where_asked<H>(
    v: AppView<H>,
    summon: Message<H>,
    held: Modifiers,
    now: u64,
)
    requires
        v.well_formed(),
        !v.shown,
        summon is CycleNext || summon is CyclePrev,
        held.none_held(),
    ensures
        v.updated(summon, now).updated(Message::ModifiersHeld(held), now).shown
            == !v.instant_commit,
        v.instant_commit ==> v.updated(summon, now).task(Message::ModifiersHeld(held))
            == Task::Hide,
        v.instant_commit && v.wayland is Some && v.windows.len() > 0 ==> v.updated(
            summon,
            now,
        ).request(Message::ModifiersHeld(held)) == v.updated(summon, now).request(Message::Confirm),
        !v.instant_commit ==> v.updated(summon, now).request(Message::ModifiersHeld(held)) is None,
{
}

/// Pressing Escape cancels, whatever modifiers were held: a shown overlay is
/// hidden, and nothing is requested.
pub proof fn escape_hides_without_switching<H>(
    v: AppView<H>,
    shift: bool,
    held: Option<Modifiers>,
    now: u64,
)
    requires
        v.shown,
    ensures
        message_of_input::<H>(InputEvent::KeyPressed { key: Key::Escape, shift }, held) == Some(
            Message::<H>::Cancel,
        ),
        !v.updated(Message::Cancel, now).shown,
        v.updated(Message::Cancel, now).windows == v.windows,
        v.task(Message::Cancel) == Task::Hide,
        v.request(Message::Cancel) is None,
{
}

/// A signal shows a hidden overlay, with the previous window highlighted or,
/// for the second signal, the least recent one; it moves the highlight of a
/// shown one forward or, for the second signal, back.
pub proof fn signals_summon_or_cycle<H>(v: AppView<H>, signal: Signal, now: u64)
    ensures
        v.updated(message_of_signal::<H>(signal), now).shown,
        v.updated(message_of_signal::<H>(signal), now).windows == v.windows,
        !v.shown && signal == Signal::User1 && v.windows.len() >= 2 ==> v.updated(
            message_of_signal::<H>(signal),
            now,
        ).highlighted == 1,
        !v.shown && signal == Signal::User2 ==> v.updated(
            message_of_signal::<H>(signal),
            now,
        ).highlighted == last_position(v.windows.len()),
        v.shown && signal == Signal::User1 ==> v.updated(message_of_signal::<H>(signal), now)
            == v.cycled(1),
        v.shown && signal == Signal::User2 ==> v.updated(message_of_signal::<H>(signal), now)
            == v.cycled(-1),
{
}

/// A request is sent only when a shown overlay is committed, and then it is for
/// the highlighted window.
pub proof fn only_commit_requests<H>(v: AppView<H>, message: Message<H>)
    requires
        v.well_formed(),
    ensures
        v.request(message) is Some <==> v.commits(message) && v.wayland is Some
            && v.windows.len() > 0,
        v.request(message) is Some ==> v.request(message)
            == Some(v.windows[v.highlighted].identifier),
{
}

/// The surface exists exactly while the overlay is shown: it is created where
/// a message turns the overlay from hidden to shown, destroyed where a message
/// turns it from shown to hidden, and neither otherwise.
pub proof fn surface_follows_the_overlay<H>(v: AppView<H>, message: Message<H>, now: u64)
    ensures
        v.task(message) is Summon <==> !v.shown && v.updated(message, now).shown,
        v.task(message) is Hide <==> v.shown && !v.updated(message, now).shown,
{
}

/// One row of the list is highlighted, and it is that of the window which a
/// commit asks for.
pub proof fn highlighted_row_is_requested<H>(v: AppView<H>, i: int)
    requires
        v.well_formed(),
        0 <= i < v.windows.len(),
    ensures
        row(v.entries, v.windows[i], i == v.highlighted).highlighted <==> i == v.highlighted,
        0 <= v.highlighted < v.windows.len(),
        i == v.highlighted && v.wayland is Some ==> v.activation() == Some(
            v.windows[i].identifier,
        ),
{
}

/// A scroll leads to a place within the list: the top for the first window,
/// the bottom for the last, and nothing is divided by zero.
pub proof fn scroll_stays_within_the_list<H>(
    v: AppView<H>,
    message: Message<H>,
    now: u64,
    index: usize,
    last: usize,
)
    requires
        v.well_formed(),
        v.task(message) == (Task::SnapTo { index, last }),
    ensures
        0 <= index <= last,
        last > 0,
        index == v.updated(message, now).highlighted,
        last == v.updated(message, now).windows.len() - 1,
{
    if v.windows.len() > 0 {
        let len = v.windows.len() as int;
        vstd::arithmetic::div_mod::lemma_mod_bound(v.highlighted + 1, len);
        vstd::arithmetic::div_mod::lemma_mod_bound(v.highlighted - 1, len);
    }
}

// The listener thread.

/// The step after `n` successful ones, from `stage` on.
pub open spec fn after_successes(stage: Stage, n: nat) -> Stage
    decreases n,
{
    if n == 0 {
        stage
    } else {
        after_successes(stage, (n - 1) as nat).successor()
    }
}

/// A thread whose steps succeed is dispatching from its sixth step on.
pub proof fn successful_thread_dispatches(n: nat)
    requires
        n >= 5,
    ensures
        after_successes(Stage::Connect, n) == Stage::Dispatch,
    decreases n,
{
    if n == 5 {
        reveal_with_fuel(after_successes, 6);
    } else {
        successful_thread_dispatches((n - 1) as nat);
    }
}

} // verus!
