//! What each operation does, said of the values that go in and come out.

use crate::app::{
    label, requested, row, window_identifiers, AppView, Effects, Message, Task, WindowRow, PIN_MS,
    SYNC_SCROLL_DELAY_MS,
};
use crate::config::{report_text, LoadError, KEY, VERSION};
use crate::icon::{
    default_icon, entry_fields, entry_names, entry_views, icon_name, icon_of, icon_view,
    matching_position, IconSource, IconView,
};
use crate::input::{message_of_input, message_of_signal, InputEvent, Key, Modifiers, Signal};
use crate::laws::{
    lasting_focus_is_promoted, lemma_last_promotion_leads, lemma_rank, nothing_due_nothing_changes,
};
use crate::listing::{is_active, lemma_window_order, listed_windows, visible, window_order};
use crate::mru::{
    due, lemma_noted_well_formed, lemma_promoted_all, not_due, not_of, other_than, remaining,
    MruView, Promotion, PROMOTION_DELAY_MS,
};
use crate::screen::{is_current_mode, is_screen_height, length, output_height};
use crate::sequences::{
    lemma_filter_all, lemma_filter_contains, lemma_filter_none, lemma_filter_one_out,
};
use crate::thread::Stage;
use crate::wayland::{
    activations, carries, carries_height, carries_windows, is_first_with, without, Compositor,
    ThreadEvent, WaylandRequest,
};
use crate::window::{
    toplevel_views, window_views, Mode, OutputInfo, ToplevelInfo, ToplevelState, ToplevelView,
    WindowInfo, WindowView, Workspace,
};
use freedesktop_desktop_entry::DesktopEntry;
use vstd::prelude::*;

verus! {

// Windows and toplevels.

/// A window is seen by its own texts.
pub proof fn window_is_seen_by_its_texts(windows: Seq<WindowInfo>, k: int)
    requires
        0 <= k < windows.len(),
    ensures
        window_views(windows).len() == windows.len(),
        window_views(windows)[k].title == windows[k].title@,
        window_views(windows)[k].app_id == windows[k].app_id@,
        window_views(windows)[k].identifier == windows[k].identifier@,
        windows[k]@ == window_views(windows)[k],
{
}

/// A toplevel is seen by its own fields, and its window by its texts.
pub proof fn toplevel_is_seen_by_its_fields(toplevels: Seq<ToplevelInfo>, k: int)
    requires
        0 <= k < toplevels.len(),
    ensures
        toplevel_views(toplevels).len() == toplevels.len(),
        toplevel_views(toplevels)[k].title == toplevels[k].title@,
        toplevel_views(toplevels)[k].app_id == toplevels[k].app_id@,
        toplevel_views(toplevels)[k].identifier == toplevels[k].identifier@,
        toplevel_views(toplevels)[k].state == toplevels[k].state@,
        toplevel_views(toplevels)[k].workspace == toplevels[k].workspace@,
        toplevel_views(toplevels)[k].controllable == toplevels[k].controllable,
        toplevels[k]@ == toplevel_views(toplevels)[k],
        toplevels[k]@.window().title == toplevels[k].title@,
        toplevels[k]@.window().app_id == toplevels[k].app_id@,
        toplevels[k]@.window().identifier == toplevels[k].identifier@,
{
}

/// One activated flag is enough for focus, whatever the other flags are.
pub proof fn activated_flag_is_focus(t: ToplevelView, i: int)
    requires
        0 <= i < t.state.len(),
        t.state[i] == ToplevelState::Activated,
    ensures
        t.activated(),
{
}

/// Without an activated flag there is no focus, whatever the other flags are.
pub proof fn no_activated_flag_is_no_focus(t: ToplevelView)
    requires
        forall|i: int| 0 <= i < t.state.len() ==> t.state[i] != ToplevelState::Activated,
    ensures
        !t.activated(),
{
}

/// Focus goes by the set of flags alone: two toplevels with the same flags, in
/// any order and however often, are focused alike.
pub proof fn focus_goes_by_the_flags(a: ToplevelView, b: ToplevelView)
    requires
        forall|i: int| 0 <= i < a.state.len() ==> b.state.contains(#[trigger] a.state[i]),
        forall|i: int| 0 <= i < b.state.len() ==> a.state.contains(#[trigger] b.state[i]),
    ensures
        a.activated() == b.activated(),
{
    if a.activated() {
        let i = choose|i: int| 0 <= i < a.state.len() && a.state[i] == ToplevelState::Activated;
        assert(b.state.contains(a.state[i]));
    }
    if b.activated() {
        let i = choose|i: int| 0 <= i < b.state.len() && b.state[i] == ToplevelState::Activated;
        assert(a.state.contains(b.state[i]));
    }
}

/// A report on a known toplevel whose flags hold the activated one, and whose
/// last report had none, leads to the most recent place after the delay.
pub proof fn activated_toplevel_becomes_most_recent(
    v: MruView,
    t: ToplevelView,
    i: int,
    start: u64,
    now: u64,
)
    requires
        v.well_formed(),
        0 <= i < t.state.len(),
        t.state[i] == ToplevelState::Activated,
        v.activated.contains_key(t.identifier),
        !v.activated[t.identifier],
        now - start >= 300,
    ensures
        v.noted(t.identifier, t.activated(), start).settled(now).order.len() > 0,
        v.noted(t.identifier, t.activated(), start).settled(now).order.last() == t.identifier,
        v.noted(t.identifier, t.activated(), start).settled(now).rank(t.identifier) == 0,
{
    activated_flag_is_focus(t, i);
    lasting_focus_is_promoted(v, t.identifier, start, now);
    let w = v.noted(t.identifier, true, start);
    lemma_noted_well_formed(v, t.identifier, true, start);
    lemma_last_promotion_leads(w, now);
}

/// A report without an activated flag promotes nothing: where no promotion was
/// to come, a known toplevel and all others keep their places for good.
pub proof fn toplevel_without_the_flag_is_not_promoted(
    v: MruView,
    t: ToplevelView,
    start: u64,
    now: u64,
)
    requires
        v.well_formed(),
        v.pending.len() == 0,
        forall|i: int| 0 <= i < t.state.len() ==> t.state[i] != ToplevelState::Activated,
        v.activated.contains_key(t.identifier),
    ensures
        v.noted(t.identifier, t.activated(), start).settled(now).order == v.order,
{
    no_activated_flag_is_no_focus(t);
    nothing_due_nothing_changes(v, start);
    let w = v.noted(t.identifier, false, start);
    lemma_filter_none(v.pending, not_of(t.identifier));
    assert(v.order.contains(t.identifier));
    nothing_due_nothing_changes(w, now);
}

// The order of use.

/// What a well-formed order is: no identifier twice, one last report for each
/// identifier and no other, and a promotion to come only where the last report
/// said activated, one for each toplevel at most.
pub proof fn well_formed_order_is_this(v: MruView)
    ensures
        v.well_formed() <==> (forall|i: int, j: int|
            0 <= i < j < v.order.len() ==> v.order[i] != v.order[j]) && (forall|i: int|
            0 <= i < v.order.len() ==> v.activated.contains_key(#[trigger] v.order[i])) && (forall|
            id: Seq<char>,
        | #[trigger]
            v.activated.contains_key(id) ==> exists|i: int|
                0 <= i < v.order.len() && v.order[i] == id) && (forall|i: int|
            0 <= i < v.pending.len() ==> v.activated.contains_key((#[trigger] v.pending[i]).0)
                && v.activated[v.pending[i].0]) && (forall|i: int, j: int|
            0 <= i < j < v.pending.len() ==> (#[trigger] v.pending[i]).0 != (
            #[trigger] v.pending[j]).0),
{
    if v.well_formed() {
        assert forall|i: int| 0 <= i < v.order.len() implies v.activated.contains_key(
            #[trigger] v.order[i],
        ) by {
            assert(v.order.contains(v.order[i]));
        }
        assert forall|id: Seq<char>| #[trigger] v.activated.contains_key(id) implies exists|i: int|
            0 <= i < v.order.len() && v.order[i] == id by {
            assert(v.order.contains(id));
        }
        assert forall|i: int| 0 <= i < v.pending.len() implies v.activated.contains_key(
            (#[trigger] v.pending[i]).0,
        ) && v.activated[v.pending[i].0] by {
            assert(v.has_focus(v.pending[i].0));
        }
    }
}

/// The order starts empty.
pub proof fn order_starts_empty()
    ensures
        MruView::empty().order.len() == 0,
        MruView::empty().pending.len() == 0,
        forall|id: Seq<char>| !MruView::empty().activated.contains_key(id),
{
}

/// The rank counts the identifiers behind: the last has zero, each one before it
/// has one more, and an unknown one comes after all.
pub proof fn rank_counts_the_more_recent(v: MruView, p: int, unknown: Seq<char>)
    requires
        forall|i: int, j: int| 0 <= i < j < v.order.len() ==> v.order[i] != v.order[j],
        0 <= p < v.order.len(),
        forall|i: int| 0 <= i < v.order.len() ==> v.order[i] != unknown,
    ensures
        v.rank(v.order[p]) + p + 1 == v.order.len(),
        v.rank(unknown) == v.order.len(),
{
    lemma_rank(v, p);
    v.order.index_of_last_ensures(unknown);
}

/// Of an empty order every rank is zero.
pub proof fn rank_in_an_empty_order_is_zero(v: MruView, id: Seq<char>)
    requires
        v.order.len() == 0,
    ensures
        v.rank(id) == 0,
{
    v.order.index_of_last_ensures(id);
}

/// Where no promotion is to come, the passing of time changes nothing.
pub proof fn time_alone_changes_nothing(v: MruView, now: u64)
    requires
        v.pending.len() == 0,
    ensures
        v.settled(now) == v,
        !v.any_due(now),
{
    nothing_due_nothing_changes(v, now);
}

/// What one more promotion to come, behind all others, adds when time passes:
/// where the focus has lasted for 300 ms it is made after all others, which
/// takes the toplevel out of its place and puts it last; else it is still to
/// come, and the order is as without it.
pub proof fn one_more_promotion(v: MruView, u: MruView, x: Promotion, now: u64)
    requires
        forall|i: int, j: int| 0 <= i < j < v.order.len() ==> v.order[i] != v.order[j],
        forall|i: int| 0 <= i < v.pending.len() ==> v.order.contains((#[trigger] v.pending[i]).0),
        v.order.contains(x.0),
        u.order == v.order,
        u.activated == v.activated,
        u.pending == v.pending.push(x),
    ensures
        now - x.1 >= 300 ==> exists|p: int|
            0 <= p < v.settled(now).order.len() && v.settled(now).order[p] == x.0
                && u.settled(now).order == (#[trigger] v.settled(now).order.remove(p)).push(x.0),
        now - x.1 >= 300 ==> u.settled(now).pending == v.settled(now).pending,
        now - x.1 >= 300 ==> u.any_due(now),
        now - x.1 < 300 ==> u.settled(now).order == v.settled(now).order,
        now - x.1 < 300 ==> u.settled(now).pending == v.settled(now).pending.push(x),
        now - x.1 < 300 ==> u.any_due(now) == v.any_due(now),
        u.settled(now).activated == v.activated,
{
    v.pending.lemma_filter_push(x, due(now));
    v.pending.lemma_filter_push(x, not_due(now));
    let made = v.pending.filter(due(now));
    lemma_filter_contains(v.pending, due(now));
    assert forall|i: int| 0 <= i < made.len() implies v.order.contains((#[trigger] made[i]).0) by {
        assert(made.contains(made[i]));
        let k = choose|k: int| 0 <= k < v.pending.len() && v.pending[k] == made[i];
        assert(v.order.contains(v.pending[k].0));
    }
    assert(v.order.no_duplicates());
    lemma_promoted_all(v.order, made);
    let before = v.settled(now).order;
    assert(before.contains(x.0));
    let p = choose|p: int| 0 <= p < before.len() && before[p] == x.0;
    lemma_filter_one_out(before, other_than(x.0), p);
    if now - x.1 >= 300 {
        assert(made.push(x).drop_last() =~= made);
        assert(u.settled(now).order == before.remove(p).push(x.0));
        assert(u.pending[v.pending.len() as int] == x);
        assert(due(now)(u.pending[v.pending.len() as int]));
    } else {
        assert forall|i: int| 0 <= i < v.pending.len() && due(now)(
            #[trigger] v.pending[i],
        ) implies u.any_due(now) by {
            assert(u.pending[i] == v.pending[i]);
            assert(due(now)(u.pending[i]));
        }
        if u.any_due(now) {
            let i = choose|i: int| 0 <= i < u.pending.len() && due(now)(#[trigger] u.pending[i]);
            assert(i < v.pending.len());
            assert(due(now)(v.pending[i]));
        }
    }
}

/// A promotion is due exactly where a focus has lasted for 300 ms.
pub proof fn due_after_the_delay(v: MruView, now: u64)
    ensures
        v.any_due(now) <==> exists|i: int|
            0 <= i < v.pending.len() && now - (#[trigger] v.pending[i]).1 >= 300,
{
    if v.any_due(now) {
        let i = choose|i: int| 0 <= i < v.pending.len() && due(now)(#[trigger] v.pending[i]);
        assert(now - v.pending[i].1 >= 300);
    }
    if exists|i: int| 0 <= i < v.pending.len() && now - (#[trigger] v.pending[i]).1 >= 300 {
        let i = choose|i: int| 0 <= i < v.pending.len() && now - (#[trigger] v.pending[i]).1 >= 300;
        assert(due(now)(v.pending[i]));
    }
}

/// How long to wait: until 300 ms after the earliest beginning of a focus that
/// is to be promoted, not at all where that is past, and without end where no
/// promotion is to come.
pub proof fn wait_is_until_the_earliest_promotion(v: MruView, now: u64, wait: Option<u64>)
    requires
        v.is_wait(now, wait),
        forall|i: int| 0 <= i < v.pending.len() ==> (#[trigger] v.pending[i]).1 <= now,
    ensures
        wait is None <==> v.pending.len() == 0,
        wait matches Some(w) ==> {
            &&& forall|i: int|
                0 <= i < v.pending.len() ==> w == 0 || now + w <= (#[trigger] v.pending[i]).1 + 300
            &&& exists|i: int|
                0 <= i < v.pending.len() && now + w >= (#[trigger] v.pending[i]).1 + 300
        },
{
    if let Some(w) = wait {
        let i = choose|i: int|
            0 <= i < v.pending.len() && remaining((#[trigger] v.pending[i]).1, now)
                == w;
        assert(now + w >= v.pending[i].1 + 300);
        assert forall|i: int| 0 <= i < v.pending.len() implies w == 0 || now + w <= (
        #[trigger] v.pending[i]).1 + 300 by {
            assert(w <= remaining(v.pending[i].1, now));
        }
    }
}

/// The wait is never longer than 300 ms, and that long where the focus of all
/// toplevels to be promoted has only begun.
pub proof fn wait_is_at_most_the_delay(v: MruView, now: u64, wait: u64)
    requires
        v.is_wait(now, Some(wait)),
    ensures
        wait <= 300,
        (forall|i: int| 0 <= i < v.pending.len() ==> (#[trigger] v.pending[i]).1 >= now) ==> wait
            == 300,
{
    let i = choose|i: int|
        0 <= i < v.pending.len() && remaining((#[trigger] v.pending[i]).1, now)
            == wait;
    assert(v.pending[i].1 >= now ==> wait == 300);
}

/// A report makes the promotions that are due first: it is the same before and
/// after time has passed to its own time.
pub proof fn report_lets_time_pass_first(v: MruView, id: Seq<char>, activated: bool, now: u64)
    ensures
        v.noted(id, activated, now) == v.settled(now).noted(id, activated, now),
{
    let s = v.settled(now);
    lemma_filter_contains(v.pending, not_due(now));
    assert forall|i: int| 0 <= i < s.pending.len() implies !due(now)(#[trigger] s.pending[i]) by {
        assert(s.pending.contains(s.pending[i]));
        assert(not_due(now)(s.pending[i]));
    }
    nothing_due_nothing_changes(s, now);
}

/// Nothing is due at a time, said of the times themselves.
proof fn lemma_nothing_due(v: MruView, now: u64)
    requires
        forall|i: int| 0 <= i < v.pending.len() ==> now - (#[trigger] v.pending[i]).1 < 300,
    ensures
        v.settled(now) == v,
{
    assert(!v.any_due(now)) by {
        if v.any_due(now) {
            let i = choose|i: int| 0 <= i < v.pending.len() && due(now)(#[trigger] v.pending[i]);
            assert(now - v.pending[i].1 < 300);
        }
    }
    nothing_due_nothing_changes(v, now);
}

/// Every report is remembered as the last one on its toplevel, and on no other.
pub proof fn report_is_remembered(
    v: MruView,
    id: Seq<char>,
    activated: bool,
    now: u64,
    other: Seq<char>,
)
    requires
        other != id,
    ensures
        v.noted(id, activated, now).activated.contains_key(id),
        v.noted(id, activated, now).activated[id] == activated,
        v.noted(id, activated, now).activated.contains_key(other)
            == v.activated.contains_key(other),
        v.activated.contains_key(other) ==> v.noted(id, activated, now).activated[other]
            == v.activated[other],
{
}

/// What a report that says activated does where nothing is due. To the order: an
/// unknown toplevel is put last, and a known one stays where it is. To the
/// promotions: one is to come, behind the others, where the last report did not
/// say so; else none is added.
pub proof fn report_with_focus(v: MruView, id: Seq<char>, now: u64)
    requires
        forall|i: int| 0 <= i < v.pending.len() ==> now - (#[trigger] v.pending[i]).1 < 300,
    ensures
        v.order.contains(id) ==> v.noted(id, true, now).order == v.order,
        !v.order.contains(id) && !(v.activated.contains_key(id) && v.activated[id]) ==> v.noted(
            id,
            true,
            now,
        ).order == v.order.push(id),
        !(v.activated.contains_key(id) && v.activated[id]) ==> v.noted(id, true, now).pending
            == v.pending.push((id, now, !v.order.contains(id))),
        v.activated.contains_key(id) && v.activated[id] ==> v.noted(id, true, now).pending
            == v.pending,
{
    lemma_nothing_due(v, now);
}

/// What a report that says not activated does where nothing is due. To the
/// order: an unknown toplevel is put first, and a known one stays where it is,
/// but for one that appeared with focus less than 300 ms ago, which is taken out
/// of its place and put first. To the promotions: that of the toplevel is taken
/// back, as where it is closed.
pub proof fn report_without_focus(v: MruView, id: Seq<char>, now: u64, p: int)
    requires
        forall|i: int| 0 <= i < v.pending.len() ==> now - (#[trigger] v.pending[i]).1 < 300,
        forall|i: int, j: int| 0 <= i < j < v.order.len() ==> v.order[i] != v.order[j],
        v.order.contains(id) ==> 0 <= p < v.order.len() && v.order[p] == id,
    ensures
        !v.order.contains(id) ==> v.noted(id, false, now).order == seq![id] + v.order,
        v.order.contains(id) && (forall|i: int|
            0 <= i < v.pending.len() && (#[trigger] v.pending[i]).0 == id ==> !v.pending[i].2)
            ==> v.noted(id, false, now).order == v.order,
        v.order.contains(id) && (exists|i: int|
            0 <= i < v.pending.len() && (#[trigger] v.pending[i]).0 == id && v.pending[i].2)
            ==> v.noted(id, false, now).order == seq![id] + v.order.remove(p),
        v.noted(id, false, now).pending == v.forgotten(id).pending,
{
    lemma_nothing_due(v, now);
    if v.order.contains(id) {
        lemma_filter_one_out(v.order, other_than(id), p);
    }
}

/// Closing takes the toplevel out of its place; an unknown one leaves the order
/// as it is. The last reports on all others stay.
pub proof fn closing_takes_out_one(v: MruView, id: Seq<char>, p: int, other: Seq<char>)
    requires
        forall|i: int, j: int| 0 <= i < j < v.order.len() ==> v.order[i] != v.order[j],
        v.order.contains(id) ==> 0 <= p < v.order.len() && v.order[p] == id,
        other != id,
    ensures
        v.order.contains(id) ==> v.forgotten(id).order == v.order.remove(p),
        !v.order.contains(id) ==> v.forgotten(id).order == v.order,
        !v.forgotten(id).activated.contains_key(id),
        v.forgotten(id).activated.contains_key(other) == v.activated.contains_key(other),
        v.activated.contains_key(other) ==> v.forgotten(id).activated[other]
            == v.activated[other],
{
    if v.order.contains(id) {
        lemma_filter_one_out(v.order, other_than(id), p);
    } else {
        assert forall|i: int| 0 <= i < v.order.len() implies other_than(id)(
            #[trigger] v.order[i],
        ) by {
            assert(v.order.contains(v.order[i]));
        }
        lemma_filter_all(v.order, other_than(id));
    }
}

/// What closing leaves of one more promotion to come: nothing where it is that
/// of the closed toplevel, and else the promotion, behind the others.
pub proof fn closing_takes_back_promotions(v: MruView, u: MruView, x: Promotion, id: Seq<char>)
    requires
        u.pending == v.pending.push(x),
    ensures
        v.pending.len() == 0 ==> v.forgotten(id).pending.len() == 0,
        x.0 == id ==> u.forgotten(id).pending == v.forgotten(id).pending,
        x.0 != id ==> u.forgotten(id).pending == v.forgotten(id).pending.push(x),
{
    v.pending.lemma_filter_push(x, not_of(id));
    if v.pending.len() == 0 {
        lemma_filter_none(v.pending, not_of(id));
    }
}

/// The delays, in milliseconds.
pub proof fn delays_in_milliseconds()
    ensures
        PROMOTION_DELAY_MS == 300,
        PIN_MS == 1000,
        SYNC_SCROLL_DELAY_MS == 50,
{
}

// The list.

/// A toplevel one of whose workspaces is marked active is in the list, whatever
/// else is said of it.
pub proof fn window_on_an_active_workspace_is_listed(
    toplevels: Seq<ToplevelView>,
    workspaces: Seq<Workspace>,
    mru: MruView,
    i: int,
    k: int,
    w: int,
)
    requires
        0 <= i < toplevels.len(),
        0 <= k < toplevels[i].workspace.len(),
        0 <= w < workspaces.len(),
        toplevels[i].workspace[k] == workspaces[w].handle,
        workspaces[w].active,
    ensures
        exists|n: int|
            0 <= n < listed_windows(toplevels, workspaces, mru).len() && (#[trigger] listed_windows(
                toplevels,
                workspaces,
                mru,
            )[n]).title == toplevels[i].title && listed_windows(toplevels, workspaces, mru)[n].app_id
                == toplevels[i].app_id && listed_windows(toplevels, workspaces, mru)[n].identifier
                == toplevels[i].identifier,
{
    assert(is_active(workspaces, toplevels[i].workspace[k]));
    assert(visible(toplevels[i], workspaces));
    lemma_visible_is_listed(toplevels, workspaces, mru, i);
}

/// A toplevel whose workspaces are unknown is in the list, whatever else is said
/// of it.
pub proof fn window_on_unknown_workspaces_is_listed(
    toplevels: Seq<ToplevelView>,
    workspaces: Seq<Workspace>,
    mru: MruView,
    i: int,
)
    requires
        0 <= i < toplevels.len(),
        toplevels[i].workspace.len() == 0,
    ensures
        exists|n: int|
            0 <= n < listed_windows(toplevels, workspaces, mru).len() && (#[trigger] listed_windows(
                toplevels,
                workspaces,
                mru,
            )[n]).title == toplevels[i].title && listed_windows(toplevels, workspaces, mru)[n].app_id
                == toplevels[i].app_id && listed_windows(toplevels, workspaces, mru)[n].identifier
                == toplevels[i].identifier,
{
    assert(visible(toplevels[i], workspaces));
    lemma_visible_is_listed(toplevels, workspaces, mru, i);
}

proof fn lemma_visible_is_listed(
    toplevels: Seq<ToplevelView>,
    workspaces: Seq<Workspace>,
    mru: MruView,
    i: int,
)
    requires
        0 <= i < toplevels.len(),
        visible(toplevels[i], workspaces),
    ensures
        exists|n: int|
            0 <= n < listed_windows(toplevels, workspaces, mru).len() && (#[trigger] listed_windows(
                toplevels,
                workspaces,
                mru,
            )[n]).title == toplevels[i].title && listed_windows(toplevels, workspaces, mru)[n].app_id
                == toplevels[i].app_id && listed_windows(toplevels, workspaces, mru)[n].identifier
                == toplevels[i].identifier,
{
    let order = window_order(toplevels, workspaces, mru);
    let listed = listed_windows(toplevels, workspaces, mru);
    lemma_window_order(toplevels, workspaces, mru);
    assert(order.contains(i));
    let n = choose|n: int| 0 <= n < order.len() && order[n] == i;
    assert(listed[n].title == toplevels[i].title);
}

/// The list is made of toplevels, each once, each on an active workspace or on
/// unknown ones, and all of these. Of two in the list, the later one was not
/// used more recently: where it stands in the order of use, the earlier one
/// stands there too, and not before it. Where they stand at the same place, or
/// neither stands there, they are in the order in which they were described. The
/// result gives the position of the toplevel of each window.
pub proof fn list_is_made_of_toplevels(
    toplevels: Seq<ToplevelView>,
    workspaces: Seq<Workspace>,
    mru: MruView,
) -> (from: Seq<int>)
    requires
        forall|i: int, j: int| 0 <= i < j < mru.order.len() ==> mru.order[i] != mru.order[j],
    ensures
        from.len() == listed_windows(toplevels, workspaces, mru).len(),
        forall|n: int|
            0 <= n < from.len() ==> 0 <= #[trigger] from[n] < toplevels.len() && listed_windows(
                toplevels,
                workspaces,
                mru,
            )[n].title == toplevels[from[n]].title && listed_windows(
                toplevels,
                workspaces,
                mru,
            )[n].app_id == toplevels[from[n]].app_id && listed_windows(
                toplevels,
                workspaces,
                mru,
            )[n].identifier == toplevels[from[n]].identifier,
        forall|n: int|
            0 <= n < from.len() ==> toplevels[#[trigger] from[n]].workspace.len() == 0 || exists|
                k: int,
                w: int,
            |
                0 <= k < toplevels[from[n]].workspace.len() && 0 <= w < workspaces.len()
                    && #[trigger] toplevels[from[n]].workspace[k] == (
                #[trigger] workspaces[w]).handle && workspaces[w].active,
        forall|i: int, k: int, w: int|
            0 <= i < toplevels.len() && 0 <= k < toplevels[i].workspace.len() && 0 <= w
                < workspaces.len() && #[trigger] toplevels[i].workspace[k] == (
            #[trigger] workspaces[w]).handle && workspaces[w].active ==> from.contains(i),
        forall|i: int|
            0 <= i < toplevels.len() && (#[trigger] toplevels[i]).workspace.len() == 0
                ==> from.contains(i),
        forall|a: int, b: int|
            0 <= a < b < from.len() ==> #[trigger] from[a] != #[trigger] from[b],
        forall|a: int, b: int, q: int|
            0 <= a < b < from.len() && 0 <= q < mru.order.len() && #[trigger] mru.order[q]
                == toplevels[#[trigger] from[b]].identifier ==> exists|p: int|
                q <= p < mru.order.len() && mru.order[p] == toplevels[(#[trigger] from[a])].identifier,
        forall|a: int, b: int|
            0 <= a < b < from.len() && toplevels[#[trigger] from[a]].identifier
                == toplevels[#[trigger] from[b]].identifier ==> from[a] < from[b],
        forall|a: int, b: int|
            0 <= a < b < from.len() && !mru.order.contains(toplevels[#[trigger] from[a]].identifier)
                && !mru.order.contains(toplevels[#[trigger] from[b]].identifier) ==> from[a]
                < from[b],
{
    let order = window_order(toplevels, workspaces, mru);
    let listed = listed_windows(toplevels, workspaces, mru);
    lemma_window_order(toplevels, workspaces, mru);
    assert forall|n: int| 0 <= n < order.len() implies 0 <= #[trigger] order[n] < toplevels.len()
        && listed[n].title == toplevels[order[n]].title && listed[n].app_id
        == toplevels[order[n]].app_id && listed[n].identifier == toplevels[order[n]].identifier by {
        assert(order.contains(order[n]));
    }
    assert forall|n: int| 0 <= n < order.len() implies toplevels[#[trigger] order[n]].workspace.len()
        == 0 || exists|k: int, w: int|
        0 <= k < toplevels[order[n]].workspace.len() && 0 <= w < workspaces.len()
            && #[trigger] toplevels[order[n]].workspace[k] == (#[trigger] workspaces[w]).handle
            && workspaces[w].active by {
        assert(order.contains(order[n]));
        let t = toplevels[order[n]];
        assert(visible(t, workspaces));
        if t.workspace.len() != 0 {
            let k = choose|k: int|
                0 <= k < t.workspace.len() && is_active(workspaces, #[trigger] t.workspace[k]);
            let w = choose|w: int|
                0 <= w < workspaces.len() && #[trigger] workspaces[w].handle == t.workspace[k]
                    && workspaces[w].active;
            assert(t.workspace[k] == workspaces[w].handle);
        }
    }
    assert forall|i: int, k: int, w: int|
        0 <= i < toplevels.len() && 0 <= k < toplevels[i].workspace.len() && 0 <= w
            < workspaces.len() && #[trigger] toplevels[i].workspace[k] == (
        #[trigger] workspaces[w]).handle && workspaces[w].active implies order.contains(i) by {
        assert(is_active(workspaces, toplevels[i].workspace[k]));
        assert(visible(toplevels[i], workspaces));
    }
    assert forall|i: int|
        0 <= i < toplevels.len() && (#[trigger] toplevels[i]).workspace.len()
            == 0 implies order.contains(i) by {
        assert(visible(toplevels[i], workspaces));
    }
    assert forall|a: int, b: int, q: int|
        0 <= a < b < order.len() && 0 <= q < mru.order.len() && #[trigger] mru.order[q]
            == toplevels[#[trigger] order[b]].identifier implies exists|p: int|
        q <= p < mru.order.len() && mru.order[p] == toplevels[(#[trigger] order[a])].identifier by {
        let ia = toplevels[order[a]].identifier;
        lemma_rank(mru, q);
        mru.order.index_of_last_ensures(ia);
        assert(mru.rank(ia) <= mru.rank(mru.order[q]));
        match mru.order.index_of_last(ia) {
            Some(p) => {
                assert(q <= p < mru.order.len() && mru.order[p] == toplevels[order[a]].identifier);
            },
            None => {},
        }
    }
    assert forall|a: int, b: int|
        0 <= a < b < order.len() && !mru.order.contains(toplevels[#[trigger] order[a]].identifier)
            && !mru.order.contains(toplevels[#[trigger] order[b]].identifier) implies order[a]
        < order[b] by {
        mru.order.index_of_last_ensures(toplevels[order[a]].identifier);
        mru.order.index_of_last_ensures(toplevels[order[b]].identifier);
    }
    order
}

/// An event that carries a list carries the texts of each of its windows.
pub proof fn event_carries_the_texts(event: ThreadEvent, list: Seq<WindowView>, k: int)
    requires
        carries(event, list),
        0 <= k < list.len(),
    ensures
        event matches ThreadEvent::Windows(w) && w@.len() == list.len() && w@[k].title@
            == list[k].title && w@[k].app_id@ == list[k].app_id && w@[k].identifier@
            == list[k].identifier,
{
    let w = event->Windows_0;
    assert(window_views(w@)[k] == list[k]);
}

/// An event that carries the windows of a state carries the list of that state's
/// toplevels and workspaces.
pub proof fn event_carries_the_list_of_the_state(
    event: ThreadEvent,
    compositor: Compositor,
    mru: MruView,
)
    ensures
        carries_windows(event, compositor, mru) <==> (event matches ThreadEvent::Windows(w)
            && window_views(w@) == listed_windows(
            toplevel_views(compositor.toplevels@),
            compositor.workspaces@,
            mru,
        )),
{
}

/// What is left of the toplevels when one is closed: all others, in order, where
/// it is described, and all where it is not.
pub proof fn closing_leaves_all_others(toplevels: Seq<ToplevelView>, p: int)
    requires
        0 <= p < toplevels.len(),
        forall|j: int| 0 <= j < p ==> toplevels[j] != toplevels[p],
    ensures
        without(toplevels, toplevels[p]).len() == toplevels.len() - 1,
        forall|j: int|
            0 <= j < p ==> #[trigger] without(toplevels, toplevels[p])[j] == toplevels[j],
        forall|j: int|
            p <= j < toplevels.len() - 1 ==> #[trigger] without(toplevels, toplevels[p])[j]
                == toplevels[j + 1],
{
    toplevels.index_of_first_ensures(toplevels[p]);
    assert(toplevels.contains(toplevels[p]));
    assert(toplevels.index_of_first(toplevels[p]) == Some(p)) by {
        let q = toplevels.index_of_first(toplevels[p])->0;
        assert(toplevels[q] == toplevels[p]);
    }
}

/// Closing a toplevel that is not described leaves all of them.
pub proof fn closing_an_unknown_toplevel_leaves_all(
    toplevels: Seq<ToplevelView>,
    closed: ToplevelView,
)
    requires
        forall|j: int| 0 <= j < toplevels.len() ==> toplevels[j] != closed,
    ensures
        without(toplevels, closed) == toplevels,
{
    toplevels.index_of_first_ensures(closed);
}

// Monitors.

/// A monitor with a logical height counts with that height where it is positive,
/// whatever its modes and its scale are.
pub proof fn logical_height_counts(outputs: Seq<Option<OutputInfo>>, i: int, h: int)
    requires
        0 <= i < outputs.len(),
        outputs[i] is Some,
        outputs[i]->0.logical_size is Some,
        h == (outputs[i]->0.logical_size->0).1,
        h > 0,
    ensures
        is_screen_height(outputs, h),
{
}

/// A monitor without a logical height counts with that of its first current
/// mode, divided by its scale and rounded down, where that is positive. A scale
/// below one counts as one.
pub proof fn mode_height_counts(
    outputs: Seq<Option<OutputInfo>>,
    i: int,
    m: int,
    scale: int,
    h: int,
)
    requires
        0 <= i < outputs.len(),
        outputs[i] is Some,
        outputs[i]->0.logical_size is None,
        0 <= m < outputs[i]->0.modes@.len(),
        outputs[i]->0.modes@[m].current,
        forall|j: int| 0 <= j < m ==> !(#[trigger] outputs[i]->0.modes@[j]).current,
        scale == (if outputs[i]->0.scale_factor >= 1 { outputs[i]->0.scale_factor as int } else { 1 }),
        h > 0,
        h * scale <= outputs[i]->0.modes@[m].dimensions.1 < (h + 1) * scale,
    ensures
        is_screen_height(outputs, h),
{
    let o = outputs[i]->0;
    let d = o.modes@[m].dimensions.1 as int;
    lemma_output_mode(o, m);
    assert(h * scale > 0) by (nonlinear_arith)
        requires
            h > 0,
            scale >= 1,
    ;
    lemma_quotient(d, scale, h);
    assert(output_height(o) == Some(h));
}

/// No other height counts: a height that counts is positive, and it is that of a
/// monitor, by its logical height or else by its first current mode.
pub proof fn only_these_heights_count(outputs: Seq<Option<OutputInfo>>, h: int) -> (i: int)
    requires
        is_screen_height(outputs, h),
    ensures
        h > 0,
        0 <= i < outputs.len(),
        outputs[i] is Some,
        outputs[i]->0.logical_size is Some ==> (outputs[i]->0.logical_size->0).1 == h,
        outputs[i]->0.logical_size is None ==> exists|m: int|
            0 <= m < outputs[i]->0.modes@.len() && (#[trigger] outputs[i]->0.modes@[m]).current && (
            forall|j: int| 0 <= j < m ==> !(#[trigger] outputs[i]->0.modes@[j]).current) && h * (
            if outputs[i]->0.scale_factor >= 1 {
                outputs[i]->0.scale_factor as int
            } else {
                1
            }) <= outputs[i]->0.modes@[m].dimensions.1 < (h + 1) * (if outputs[i]->0.scale_factor
                >= 1 {
                outputs[i]->0.scale_factor as int
            } else {
                1
            }),
{
    let i = choose|i: int|
        0 <= i < outputs.len() && (#[trigger] outputs[i]) is Some && output_height(outputs[i]->0)
            == Some(h);
    let o = outputs[i]->0;
    if o.logical_size is None {
        let mode = choose|m: Mode| is_current_mode(o.modes@, m);
        assert(is_current_mode(o.modes@, mode));
        let m = choose|m: int|
            0 <= m < o.modes@.len() && #[trigger] o.modes@[m] == mode && mode.current && forall|
                j: int,
            |
                0 <= j < m ==> !(#[trigger] o.modes@[j]).current;
        let scale: int = if o.scale_factor >= 1 {
            o.scale_factor as int
        } else {
            1
        };
        let d = o.modes@[m].dimensions.1;
        assert(length(d) / scale == h);
        vstd::arithmetic::div_mod::lemma_fundamental_div_mod(length(d), scale);
        vstd::arithmetic::div_mod::lemma_mod_bound(length(d), scale);
        assert(length(d) == scale * h + length(d) % scale);
        assert(h * scale == scale * h) by (nonlinear_arith);
        assert((h + 1) * scale == scale * h + scale) by (nonlinear_arith);
        assert(h * scale > 0) by (nonlinear_arith)
            requires
                h > 0,
                scale >= 1,
        ;
        assert(o.modes@[m].current);
    }
    i
}

proof fn lemma_output_mode(o: OutputInfo, m: int)
    requires
        o.logical_size is None,
        0 <= m < o.modes@.len(),
        o.modes@[m].current,
        forall|j: int| 0 <= j < m ==> !(#[trigger] o.modes@[j]).current,
    ensures
        output_height(o) == Some(
            length(o.modes@[m].dimensions.1) / (if o.scale_factor < 1 {
                1
            } else {
                o.scale_factor as int
            }),
        ),
{
    assert(is_current_mode(o.modes@, o.modes@[m]));
    let mode = choose|x: Mode| is_current_mode(o.modes@, x);
    let n = choose|n: int|
        0 <= n < o.modes@.len() && #[trigger] o.modes@[n] == mode && mode.current && forall|j: int|
            0 <= j < n ==> !(#[trigger] o.modes@[j]).current;
    assert(o.modes@[n].current && o.modes@[m].current);
}

proof fn lemma_quotient(d: int, scale: int, h: int)
    requires
        scale >= 1,
        h * scale <= d < (h + 1) * scale,
    ensures
        d / scale == h,
{
    assert(d == h * scale + (d - h * scale));
    assert((h + 1) * scale == h * scale + scale) by (nonlinear_arith);
    vstd::arithmetic::div_mod::lemma_fundamental_div_mod_converse(d, scale, h, d - h * scale);
}

/// The height that is told is one that counts, and the least of them; none is
/// told exactly where none counts. Nothing but a height is told.
pub proof fn least_height_is_told(event: Option<ThreadEvent>, compositor: Compositor, other: int)
    requires
        carries_height(event, compositor),
    ensures
        event matches Some(e) ==> e is ScreenHeight && is_screen_height(
            compositor.outputs@,
            e->ScreenHeight_0 as int,
        ),
        event matches Some(e) ==> is_screen_height(compositor.outputs@, other) ==> e->ScreenHeight_0
            <= other,
        event is None ==> !is_screen_height(compositor.outputs@, other),
{
}

// Requests.

/// The calls for an identifier: where the first toplevel that has it can be
/// controlled, one call for that toplevel and each seat, in the order of the
/// seats.
pub proof fn first_toplevel_is_activated_on_all_seats(
    toplevels: Seq<ToplevelView>,
    seats: usize,
    at: int,
    seat: int,
)
    requires
        0 <= at < toplevels.len() <= usize::MAX,
        toplevels[at].controllable,
        forall|j: int|
            0 <= j < at ==> (#[trigger] toplevels[j]).identifier != toplevels[at].identifier,
    ensures
        activations(toplevels, seats, toplevels[at].identifier).len() == seats,
        0 <= seat < seats ==> activations(
            toplevels,
            seats,
            toplevels[at].identifier,
        )[seat].toplevel == at,
        0 <= seat < seats ==> activations(toplevels, seats, toplevels[at].identifier)[seat].seat
            == seat,
{
    let id = toplevels[at].identifier;
    assert(is_first_with(toplevels, id, at));
    let i = choose|i: int| #[trigger] is_first_with(toplevels, id, i);
    assert(toplevels[i].identifier == id && toplevels[at].identifier == id);
}

/// There are no calls where the first toplevel with the identifier cannot be
/// controlled, though a later one could.
pub proof fn uncontrollable_toplevel_is_not_activated(
    toplevels: Seq<ToplevelView>,
    seats: usize,
    at: int,
)
    requires
        0 <= at < toplevels.len(),
        !toplevels[at].controllable,
        forall|j: int|
            0 <= j < at ==> (#[trigger] toplevels[j]).identifier != toplevels[at].identifier,
    ensures
        activations(toplevels, seats, toplevels[at].identifier).len() == 0,
{
    let id = toplevels[at].identifier;
    assert forall|i: int| #[trigger] is_first_with(toplevels, id, i) implies !toplevels[i].controllable
        by {
        assert(toplevels[i].identifier == id && toplevels[at].identifier == id);
    }
}

/// There are no calls for an identifier that no toplevel has.
pub proof fn unknown_identifier_is_not_activated(
    toplevels: Seq<ToplevelView>,
    seats: usize,
    id: Seq<char>,
)
    requires
        forall|j: int| 0 <= j < toplevels.len() ==> (#[trigger] toplevels[j]).identifier != id,
    ensures
        activations(toplevels, seats, id).len() == 0,
{
}

// Icons.

/// An icon with a slash anywhere is a path, and its text is kept.
pub proof fn icon_with_a_slash_is_a_path(icon: Seq<char>, i: int)
    requires
        0 <= i < icon.len(),
        icon[i] == '/',
    ensures
        icon_view(icon) == IconView::Path(icon),
{
}

/// An icon without a slash is a name, and its text is kept.
pub proof fn icon_without_a_slash_is_a_name(icon: Seq<char>)
    requires
        forall|i: int| 0 <= i < icon.len() ==> icon[i] != '/',
    ensures
        icon_view(icon) == IconView::Name(icon),
{
}

/// A source of an icon is seen by its kind and its text.
pub proof fn icon_source_is_seen_by_its_text(source: IconSource, text: String)
    ensures
        source == IconSource::Path(text) ==> source@ == IconView::Path(text@),
        source == IconSource::Name(text) ==> source@ == IconView::Name(text@),
{
}

/// The icon for an application is the value of the key `Icon` of the entry that
/// is found for it.
pub proof fn icon_is_that_of_the_entry_found(
    entries: Seq<DesktopEntry>,
    app_id: Seq<char>,
    i: int,
)
    requires
        0 <= i < entries.len(),
        matching_position(entry_views(entries), app_id) == Some(i),
        entry_fields(entries[i]).contains_key("Icon"@),
    ensures
        icon_name(entries, app_id) == entry_fields(entries[i])["Icon"@],
        icon_of(entry_fields(entries[i])) == entry_fields(entries[i])["Icon"@],
{
}

/// Where no entry is found, or the one found has no such key, the icon is that
/// of an executable.
pub proof fn default_icon_stands_in(entries: Seq<DesktopEntry>, app_id: Seq<char>)
    requires
        matching_position(entry_views(entries), app_id) matches Some(i) ==> !entry_fields(
            entries[i],
        ).contains_key("Icon"@),
    ensures
        icon_name(entries, app_id) == "application-x-executable"@,
        default_icon() == "application-x-executable"@,
        matching_position(entry_views(entries), app_id) matches Some(i) ==> icon_of(
            entry_fields(entries[i]),
        ) == "application-x-executable"@,
{
}

/// An entry is searched for by its own names and keys, at its own position.
pub proof fn entries_are_searched_by_names_and_keys(entries: Seq<DesktopEntry>, i: int)
    requires
        0 <= i < entries.len(),
    ensures
        entry_views(entries).len() == entries.len(),
        entry_views(entries)[i].0 == entry_names(entries[i]),
        entry_views(entries)[i].1 == entry_fields(entries[i]),
{
}

/// The row of a window: its icon by the application's ID, its title and that ID
/// with a dash between them, and the mark that is asked for.
pub proof fn row_shows_title_and_application(
    entries: Seq<DesktopEntry>,
    window: WindowView,
    highlighted: bool,
)
    ensures
        row(entries, window, highlighted).label == window.title + " — "@ + window.app_id,
        label(window) == window.title + " — "@ + window.app_id,
        row(entries, window, highlighted).highlighted == highlighted,
        row(entries, window, highlighted).icon == icon_view(icon_name(entries, window.app_id)),
{
}

/// A row is seen by its icon, its text and its mark.
pub proof fn row_is_seen_by_what_it_holds(shown: WindowRow)
    ensures
        shown@.icon == shown.icon@,
        shown@.label == shown.label@,
        shown@.highlighted == shown.highlighted,
{
}

// Keys, signals and modifiers.

/// Pressing Tab cycles forward, and backward with Shift, whatever was held.
pub proof fn tab_cycles<H>(shift: bool, held: Option<Modifiers>)
    ensures
        !shift ==> message_of_input::<H>(
            InputEvent::KeyPressed { key: Key::Tab, shift },
            held,
        ) == Some(Message::<H>::CycleNext),
        shift ==> message_of_input::<H>(
            InputEvent::KeyPressed { key: Key::Tab, shift },
            held,
        ) == Some(Message::<H>::CyclePrev),
{
}

/// Pressing Enter commits and pressing Escape cancels, whatever was held.
pub proof fn enter_commits_and_escape_cancels<H>(shift: bool, held: Option<Modifiers>)
    ensures
        message_of_input::<H>(InputEvent::KeyPressed { key: Key::Enter, shift }, held) == Some(
            Message::<H>::Confirm,
        ),
        message_of_input::<H>(InputEvent::KeyPressed { key: Key::Escape, shift }, held) == Some(
            Message::<H>::Cancel,
        ),
{
}

/// Pressing any other key means nothing, nor does any event but those of keys
/// and modifiers.
pub proof fn other_keys_mean_nothing<H>(key: Key, shift: bool, held: Option<Modifiers>)
    requires
        key != Key::Tab,
        key != Key::Enter,
        key != Key::Escape,
    ensures
        message_of_input::<H>(InputEvent::KeyPressed { key, shift }, held) is None,
        message_of_input::<H>(InputEvent::Other, held) is None,
{
}

/// Releasing Alt commits, whatever was held; releasing Shift, Ctrl or Super
/// commits exactly where it was held; releasing any other key means nothing.
pub proof fn released_keys<H>(key: Key, held: Option<Modifiers>)
    ensures
        key == Key::Alt ==> message_of_input::<H>(InputEvent::KeyReleased { key }, held) == Some(
            Message::<H>::Confirm,
        ),
        key == Key::Shift && held is Some && held->0.shift ==> message_of_input::<H>(
            InputEvent::KeyReleased { key },
            held,
        ) == Some(Message::<H>::Confirm),
        key == Key::Shift && !(held is Some && held->0.shift) ==> message_of_input::<H>(
            InputEvent::KeyReleased { key },
            held,
        ) is None,
        key == Key::Ctrl && held is Some && held->0.ctrl ==> message_of_input::<H>(
            InputEvent::KeyReleased { key },
            held,
        ) == Some(Message::<H>::Confirm),
        key == Key::Ctrl && !(held is Some && held->0.ctrl) ==> message_of_input::<H>(
            InputEvent::KeyReleased { key },
            held,
        ) is None,
        key == Key::Super && held is Some && held->0.logo ==> message_of_input::<H>(
            InputEvent::KeyReleased { key },
            held,
        ) == Some(Message::<H>::Confirm),
        key == Key::Super && !(held is Some && held->0.logo) ==> message_of_input::<H>(
            InputEvent::KeyReleased { key },
            held,
        ) is None,
        key == Key::Tab || key == Key::Enter || key == Key::Escape || key == Key::Other
            ==> message_of_input::<H>(InputEvent::KeyReleased { key }, held) is None,
{
}

/// A change of modifiers is passed on as it is, whatever was held.
pub proof fn modifiers_are_passed_on<H>(now_held: Modifiers, held: Option<Modifiers>)
    ensures
        message_of_input::<H>(InputEvent::ModifiersChanged(now_held), held) == Some(
            Message::<H>::ModifiersHeld(now_held),
        ),
{
}

/// Which modifiers are held goes by their own flags.
pub proof fn modifiers_go_by_their_flags(m: Modifiers)
    ensures
        m.holds(Key::Alt) == m.alt,
        m.holds(Key::Shift) == m.shift,
        m.holds(Key::Ctrl) == m.ctrl,
        m.holds(Key::Super) == m.logo,
        !m.holds(Key::Tab) && !m.holds(Key::Enter) && !m.holds(Key::Escape) && !m.holds(Key::Other),
        m.none_held() <==> !m.alt && !m.shift && !m.ctrl && !m.logo,
{
    assert(m.holds(Key::Alt) == m.alt && m.holds(Key::Shift) == m.shift && m.holds(Key::Ctrl)
        == m.ctrl && m.holds(Key::Super) == m.logo);
}

/// The first signal is the message forward and the second the message backward.
pub proof fn signals_are_forward_and_backward<H>(signal: Signal)
    ensures
        signal == Signal::User1 ==> message_of_signal::<H>(signal) == Message::<H>::CycleNext,
        signal == Signal::User2 ==> message_of_signal::<H>(signal) == Message::<H>::CyclePrev,
{
}

// The overlay's state.

/// What a valid state is: the highlight on a window, or on zero where there is
/// none.
pub proof fn valid_state_is_this<H>(v: AppView<H>)
    ensures
        v.well_formed() <==> v.windows.len() <= usize::MAX && ((v.windows.len() == 0
            && v.highlighted == 0) || 0 <= v.highlighted < v.windows.len()),
{
}

/// The application starts hidden, without windows, handle or height.
pub proof fn starts_hidden<H>(entries: Seq<DesktopEntry>, instant: bool)
    ensures
        !AppView::<H>::initial(entries, instant).shown,
        AppView::<H>::initial(entries, instant).windows.len() == 0,
        AppView::<H>::initial(entries, instant).entries == entries,
        AppView::<H>::initial(entries, instant).highlighted == 0,
        AppView::<H>::initial(entries, instant).wayland is None,
        AppView::<H>::initial(entries, instant).screen_height is None,
        AppView::<H>::initial(entries, instant).held is None,
        AppView::<H>::initial(entries, instant).instant_commit == instant,
        AppView::<H>::initial(entries, instant).committed is None,
{
}

/// The entries and the choice of instant commit never change.
pub proof fn entries_and_choice_are_fixed<H>(v: AppView<H>, message: Message<H>, now: u64)
    ensures
        v.updated(message, now).entries == v.entries,
        v.updated(message, now).instant_commit == v.instant_commit,
{
}

/// The handle that arrives is kept; nothing else changes.
pub proof fn handle_is_kept<H>(v: AppView<H>, handle: H, now: u64)
    ensures
        v.updated(Message::WaylandReady(handle), now).wayland == Some(handle),
        v.updated(Message::WaylandReady(handle), now).windows == v.windows,
        v.updated(Message::WaylandReady(handle), now).shown == v.shown,
        v.updated(Message::WaylandReady(handle), now).highlighted == v.highlighted,
        v.updated(Message::WaylandReady(handle), now).screen_height == v.screen_height,
        v.updated(Message::WaylandReady(handle), now).held == v.held,
        v.updated(Message::WaylandReady(handle), now).committed == v.committed,
        v.task(Message::WaylandReady(handle)) == Task::Idle,
        v.request(Message::WaylandReady(handle)) is None,
{
}

/// The height that arrives is kept; nothing else changes.
pub proof fn height_is_kept<H>(v: AppView<H>, h: u32, now: u64)
    ensures
        v.updated(Message::ScreenHeight(h), now).screen_height == Some(h),
        v.updated(Message::ScreenHeight(h), now).windows == v.windows,
        v.updated(Message::ScreenHeight(h), now).shown == v.shown,
        v.updated(Message::ScreenHeight(h), now).highlighted == v.highlighted,
        v.updated(Message::ScreenHeight(h), now).wayland == v.wayland,
        v.updated(Message::ScreenHeight(h), now).held == v.held,
        v.updated(Message::ScreenHeight(h), now).committed == v.committed,
        v.task(Message::ScreenHeight(h)) == Task::Idle,
        v.request(Message::ScreenHeight(h)) is None,
{
}

/// A list that arrives leaves the highlight where it is, or on the last window
/// where the list is too short for that. The overlay stays shown or hidden, and
/// nothing else changes but the list.
pub proof fn list_keeps_the_highlight<H>(v: AppView<H>, windows: Vec<WindowInfo>, now: u64)
    requires
        v.highlighted >= 0,
    ensures
        v.highlighted < windows@.len() ==> v.updated(
            Message::WindowsUpdated(windows),
            now,
        ).highlighted == v.highlighted,
        v.highlighted >= windows@.len() > 0 ==> v.updated(
            Message::WindowsUpdated(windows),
            now,
        ).highlighted == windows@.len() - 1,
        windows@.len() == 0 ==> v.updated(Message::WindowsUpdated(windows), now).highlighted == 0,
        v.updated(Message::WindowsUpdated(windows), now).shown == v.shown,
        v.updated(Message::WindowsUpdated(windows), now).windows.len() == windows@.len(),
        v.updated(Message::WindowsUpdated(windows), now).wayland == v.wayland,
        v.updated(Message::WindowsUpdated(windows), now).screen_height == v.screen_height,
        v.updated(Message::WindowsUpdated(windows), now).held == v.held,
        v.updated(Message::WindowsUpdated(windows), now).committed == v.committed,
        v.task(Message::WindowsUpdated(windows)) == Task::Idle,
        v.request(Message::WindowsUpdated(windows)) is None,
{
    if let Some(c) = v.committed {
        window_identifiers(window_views(windows@)).index_of_first_ensures(c.0);
    }
}

/// Where no window of a list was committed less than a second ago, the list is
/// shown as it comes.
pub proof fn list_is_shown_as_it_comes<H>(
    v: AppView<H>,
    windows: Vec<WindowInfo>,
    now: u64,
    k: int,
)
    requires
        v.committed matches Some(c) ==> now - c.1 >= 1000 || forall|j: int|
            0 <= j < windows@.len() ==> (#[trigger] windows@[j]).identifier@ != c.0,
        0 <= k < windows@.len(),
    ensures
        v.updated(Message::WindowsUpdated(windows), now).windows[k].title == windows@[k].title@,
        v.updated(Message::WindowsUpdated(windows), now).windows[k].app_id == windows@[k].app_id@,
        v.updated(Message::WindowsUpdated(windows), now).windows[k].identifier
            == windows@[k].identifier@,
{
    if let Some(c) = v.committed {
        let ids = window_identifiers(window_views(windows@));
        ids.index_of_first_ensures(c.0);
        if ids.contains(c.0) {
            let j = choose|j: int| 0 <= j < ids.len() && ids[j] == c.0;
            assert(windows@[j].identifier@ == c.0);
        }
    }
}

/// Where the window at position `p`, the first with its identifier, was
/// committed less than a second ago, it is shown first. Those before it move one
/// position down, and those behind it stay.
pub proof fn list_is_shown_with_the_committed_first<H>(
    v: AppView<H>,
    windows: Vec<WindowInfo>,
    at: u64,
    now: u64,
    p: int,
    k: int,
)
    requires
        0 <= p < windows@.len(),
        forall|j: int|
            0 <= j < p ==> (#[trigger] windows@[j]).identifier@ != windows@[p].identifier@,
        v.committed == Some((windows@[p].identifier@, at)),
        now - at < 1000,
        0 <= k < windows@.len(),
    ensures
        v.updated(Message::WindowsUpdated(windows), now).windows[0] == windows@[p]@,
        k < p ==> v.updated(Message::WindowsUpdated(windows), now).windows[k + 1] == windows@[k]@,
        k > p ==> v.updated(Message::WindowsUpdated(windows), now).windows[k] == windows@[k]@,
        windows@[k]@.title == windows@[k].title@,
        windows@[k]@.app_id == windows@[k].app_id@,
        windows@[k]@.identifier == windows@[k].identifier@,
{
    let ids = window_identifiers(window_views(windows@));
    let id = windows@[p].identifier@;
    assert(ids[p] == id);
    assert(ids.contains(id));
    ids.index_of_first_ensures(id);
    assert(ids.index_of_first(id) == Some(p)) by {
        let q = ids.index_of_first(id)->0;
        assert(ids[q] == windows@[q].identifier@);
    }
}

/// Moving the highlight forward goes to the next window, and from the last one
/// to the first, in a list of any length. Nothing else changes.
pub proof fn forward_goes_to_the_next<H>(v: AppView<H>, now: u64)
    requires
        v.shown,
        0 <= v.highlighted < v.windows.len(),
    ensures
        v.highlighted + 1 < v.windows.len() ==> v.updated(Message::CycleNext, now).highlighted
            == v.highlighted + 1,
        v.highlighted + 1 == v.windows.len() ==> v.updated(Message::CycleNext, now).highlighted
            == 0,
        v.updated(Message::CycleNext, now).shown,
        v.updated(Message::CycleNext, now).windows == v.windows,
        v.updated(Message::CycleNext, now).wayland == v.wayland,
        v.updated(Message::CycleNext, now).screen_height == v.screen_height,
        v.updated(Message::CycleNext, now).held == v.held,
        v.updated(Message::CycleNext, now).committed == v.committed,
{
    lemma_forward(v.highlighted, v.windows.len() as int);
}

/// Moving the highlight back goes to the window before, and from the first one
/// to the last, in a list of any length. Nothing else changes.
pub proof fn backward_goes_to_the_one_before<H>(v: AppView<H>, now: u64)
    requires
        v.shown,
        0 <= v.highlighted < v.windows.len(),
    ensures
        v.highlighted > 0 ==> v.updated(Message::CyclePrev, now).highlighted == v.highlighted - 1,
        v.highlighted == 0 ==> v.updated(Message::CyclePrev, now).highlighted == v.windows.len()
            - 1,
        v.updated(Message::CyclePrev, now).shown,
        v.updated(Message::CyclePrev, now).windows == v.windows,
        v.updated(Message::CyclePrev, now).wayland == v.wayland,
        v.updated(Message::CyclePrev, now).screen_height == v.screen_height,
        v.updated(Message::CyclePrev, now).held == v.held,
        v.updated(Message::CyclePrev, now).committed == v.committed,
{
    lemma_backward(v.highlighted, v.windows.len() as int);
}

/// Without windows there is no highlight to move: nothing changes.
pub proof fn empty_list_does_not_cycle<H>(v: AppView<H>, now: u64)
    requires
        v.shown,
        v.windows.len() == 0,
    ensures
        v.updated(Message::CycleNext, now) == v,
        v.updated(Message::CyclePrev, now) == v,
        v.task(Message::CycleNext) == Task::Idle,
        v.task(Message::CyclePrev) == Task::Idle,
{
}

/// Moving the highlight scrolls to where it goes, in a list of two windows or
/// more; a list of one cannot scroll. It requests nothing.
pub proof fn moving_scrolls_to_the_highlight<H>(v: AppView<H>)
    requires
        v.shown,
        0 <= v.highlighted < v.windows.len() <= usize::MAX,
    ensures
        v.windows.len() == 1 ==> v.task(Message::CycleNext) == Task::Idle && v.task(
            Message::CyclePrev,
        ) == Task::Idle,
        v.windows.len() > 1 ==> v.task(Message::CycleNext) is SnapTo && v.task(
            Message::CyclePrev,
        ) is SnapTo,
        v.windows.len() > 1 ==> v.task(Message::CycleNext)->last == v.windows.len() - 1 && v.task(
            Message::CyclePrev,
        )->last == v.windows.len() - 1,
        v.windows.len() > 1 ==> v.task(Message::CycleNext)->index == (if v.highlighted + 1
            < v.windows.len() {
            v.highlighted + 1
        } else {
            0
        }),
        v.windows.len() > 1 ==> v.task(Message::CyclePrev)->index == (if v.highlighted > 0 {
            v.highlighted - 1
        } else {
            v.windows.len() - 1
        }),
        v.request(Message::CycleNext) is None,
        v.request(Message::CyclePrev) is None,
{
    lemma_forward(v.highlighted, v.windows.len() as int);
    lemma_backward(v.highlighted, v.windows.len() as int);
}

proof fn lemma_forward(i: int, len: int)
    requires
        0 <= i < len,
    ensures
        (i + 1) % len == (if i + 1 < len { i + 1 } else { 0 }),
{
    if i + 1 < len {
        vstd::arithmetic::div_mod::lemma_small_mod((i + 1) as nat, len as nat);
    } else {
        vstd::arithmetic::div_mod::lemma_mod_self_0(len);
    }
}

proof fn lemma_backward(i: int, len: int)
    requires
        0 <= i < len,
    ensures
        (i + -1) % len == (if i > 0 { i - 1 } else { len - 1 }),
{
    if i > 0 {
        vstd::arithmetic::div_mod::lemma_small_mod((i - 1) as nat, len as nat);
    } else {
        vstd::arithmetic::div_mod::lemma_fundamental_div_mod_converse(-1, len, -1, len - 1);
    }
}

/// A forward summon shows the overlay with the second window highlighted, or the
/// only one, or none. It forgets which modifiers were held, and nothing else
/// changes. The surface is created, and no scroll is asked for.
pub proof fn forward_summon<H>(v: AppView<H>, now: u64)
    requires
        !v.shown,
    ensures
        v.updated(Message::CycleNext, now).shown,
        v.windows.len() >= 2 ==> v.updated(Message::CycleNext, now).highlighted == 1,
        v.windows.len() < 2 ==> v.updated(Message::CycleNext, now).highlighted == 0,
        v.updated(Message::CycleNext, now).held is None,
        v.updated(Message::CycleNext, now).windows == v.windows,
        v.updated(Message::CycleNext, now).wayland == v.wayland,
        v.updated(Message::CycleNext, now).screen_height == v.screen_height,
        v.updated(Message::CycleNext, now).committed == v.committed,
        v.task(Message::CycleNext) == (Task::Summon { sync_scroll_after: None }),
        v.request(Message::CycleNext) is None,
{
}

/// A backward summon shows the overlay with the last window highlighted. It
/// forgets which modifiers were held, and nothing else changes. The surface is
/// created, and a scroll is asked for after 50 ms.
pub proof fn backward_summon<H>(v: AppView<H>, now: u64)
    requires
        !v.shown,
    ensures
        v.updated(Message::CyclePrev, now).shown,
        v.windows.len() > 0 ==> v.updated(Message::CyclePrev, now).highlighted == v.windows.len()
            - 1,
        v.windows.len() == 0 ==> v.updated(Message::CyclePrev, now).highlighted == 0,
        v.updated(Message::CyclePrev, now).held is None,
        v.updated(Message::CyclePrev, now).windows == v.windows,
        v.updated(Message::CyclePrev, now).wayland == v.wayland,
        v.updated(Message::CyclePrev, now).screen_height == v.screen_height,
        v.updated(Message::CyclePrev, now).committed == v.committed,
        v.task(Message::CyclePrev) == (Task::Summon { sync_scroll_after: Some(50) }),
        v.request(Message::CyclePrev) is None,
{
}

/// A scroll that was asked for goes to the highlight, in a list of two windows
/// or more. It changes nothing and requests nothing.
pub proof fn scroll_goes_to_the_highlight<H>(v: AppView<H>, now: u64)
    requires
        0 <= v.highlighted,
        v.highlighted < v.windows.len() || v.windows.len() == 0,
        v.windows.len() <= usize::MAX,
    ensures
        v.updated(Message::SyncScroll, now) == v,
        v.windows.len() <= 1 ==> v.task(Message::SyncScroll) == Task::Idle,
        v.windows.len() > 1 ==> v.task(Message::SyncScroll) is SnapTo && v.task(
            Message::SyncScroll,
        )->index == v.highlighted && v.task(Message::SyncScroll)->last == v.windows.len() - 1,
        v.request(Message::SyncScroll) is None,
{
}

/// Committing a shown overlay hides it and requests the highlighted window,
/// which moves to the top: those before it move one position down, and those
/// behind it stay. What was committed, and when, is kept; nothing else changes.
pub proof fn commit_requests_and_raises<H>(v: AppView<H>, now: u64, k: int)
    requires
        v.shown,
        v.wayland is Some,
        0 <= v.highlighted < v.windows.len(),
        0 <= k < v.windows.len(),
    ensures
        v.request(Message::Confirm) == Some(v.windows[v.highlighted].identifier),
        v.task(Message::Confirm) == Task::Hide,
        !v.updated(Message::Confirm, now).shown,
        v.updated(Message::Confirm, now).windows.len() == v.windows.len(),
        v.updated(Message::Confirm, now).windows[0] == v.windows[v.highlighted],
        k < v.highlighted ==> v.updated(Message::Confirm, now).windows[k + 1] == v.windows[k],
        k > v.highlighted ==> v.updated(Message::Confirm, now).windows[k] == v.windows[k],
        v.updated(Message::Confirm, now).committed == Some(
            (v.windows[v.highlighted].identifier, now),
        ),
        v.updated(Message::Confirm, now).highlighted == v.highlighted,
        v.updated(Message::Confirm, now).wayland == v.wayland,
        v.updated(Message::Confirm, now).screen_height == v.screen_height,
        v.updated(Message::Confirm, now).held == v.held,
{
}

/// Committing without a handle or without windows only hides the overlay.
pub proof fn commit_without_a_target_hides<H>(v: AppView<H>, now: u64)
    requires
        v.shown,
        v.wayland is None || v.windows.len() == 0,
    ensures
        v.request(Message::Confirm) is None,
        v.task(Message::Confirm) == Task::Hide,
        !v.updated(Message::Confirm, now).shown,
        v.updated(Message::Confirm, now).windows == v.windows,
        v.updated(Message::Confirm, now).committed == v.committed,
        v.updated(Message::Confirm, now).highlighted == v.highlighted,
        v.updated(Message::Confirm, now).wayland == v.wayland,
        v.updated(Message::Confirm, now).screen_height == v.screen_height,
        v.updated(Message::Confirm, now).held == v.held,
{
}

/// Committing or cancelling a hidden overlay does nothing.
pub proof fn hidden_overlay_stays<H>(v: AppView<H>, now: u64)
    requires
        !v.shown,
    ensures
        v.updated(Message::Confirm, now) == v,
        v.updated(Message::Cancel, now) == v,
        v.task(Message::Confirm) == Task::Idle,
        v.task(Message::Cancel) == Task::Idle,
        v.request(Message::Confirm) is None,
        v.request(Message::Cancel) is None,
{
    assert(v.updated(Message::Cancel, now) =~= v);
}

/// Cancelling a shown overlay hides it, requests nothing and changes nothing
/// else.
pub proof fn cancel_only_hides<H>(v: AppView<H>, now: u64)
    requires
        v.shown,
    ensures
        v.request(Message::Cancel) is None,
        v.task(Message::Cancel) == Task::Hide,
        !v.updated(Message::Cancel, now).shown,
        v.updated(Message::Cancel, now).windows == v.windows,
        v.updated(Message::Cancel, now).committed == v.committed,
        v.updated(Message::Cancel, now).highlighted == v.highlighted,
        v.updated(Message::Cancel, now).wayland == v.wayland,
        v.updated(Message::Cancel, now).screen_height == v.screen_height,
        v.updated(Message::Cancel, now).held == v.held,
{
}

/// The first modifiers that are told to a shown overlay are kept as those held.
/// Where at least one is held, or instant commit is not chosen, nothing else
/// changes.
pub proof fn first_modifiers_are_kept<H>(v: AppView<H>, m: Modifiers, now: u64)
    requires
        v.shown,
        v.held is None,
        !v.instant_commit || m.alt || m.shift || m.ctrl || m.logo,
    ensures
        v.updated(Message::ModifiersHeld(m), now).held == Some(m),
        v.updated(Message::ModifiersHeld(m), now).shown,
        v.updated(Message::ModifiersHeld(m), now).windows == v.windows,
        v.updated(Message::ModifiersHeld(m), now).highlighted == v.highlighted,
        v.updated(Message::ModifiersHeld(m), now).wayland == v.wayland,
        v.updated(Message::ModifiersHeld(m), now).screen_height == v.screen_height,
        v.updated(Message::ModifiersHeld(m), now).committed == v.committed,
        v.task(Message::ModifiersHeld(m)) == Task::Idle,
        v.request(Message::ModifiersHeld(m)) is None,
{
    modifiers_go_by_their_flags(m);
}

/// Modifiers that are told to a hidden overlay, or once more to a shown one,
/// change nothing.
pub proof fn later_modifiers_change_nothing<H>(v: AppView<H>, m: Modifiers, now: u64)
    requires
        !v.shown || v.held is Some,
    ensures
        v.updated(Message::ModifiersHeld(m), now) == v,
        v.task(Message::ModifiersHeld(m)) == Task::Idle,
        v.request(Message::ModifiersHeld(m)) is None,
{
}

/// With instant commit, a shown overlay that is first told that no modifier is
/// held commits as if that were asked for; it differs only in that these
/// modifiers are kept.
pub proof fn no_modifier_commits_at_once<H>(v: AppView<H>, m: Modifiers, now: u64)
    requires
        v.shown,
        v.held is None,
        v.instant_commit,
        !m.alt && !m.shift && !m.ctrl && !m.logo,
    ensures
        v.task(Message::ModifiersHeld(m)) == v.task(Message::Confirm),
        v.request(Message::ModifiersHeld(m)) == v.request(Message::Confirm),
        v.updated(Message::ModifiersHeld(m), now).held == Some(m),
        v.updated(Message::ModifiersHeld(m), now).shown == v.updated(Message::Confirm, now).shown,
        v.updated(Message::ModifiersHeld(m), now).windows == v.updated(
            Message::Confirm,
            now,
        ).windows,
        v.updated(Message::ModifiersHeld(m), now).highlighted == v.highlighted,
        v.updated(Message::ModifiersHeld(m), now).committed == v.updated(
            Message::Confirm,
            now,
        ).committed,
        v.updated(Message::ModifiersHeld(m), now).wayland == v.wayland,
        v.updated(Message::ModifiersHeld(m), now).screen_height == v.screen_height,
{
    modifiers_go_by_their_flags(m);
}

/// A request asks for the window whose identifier it carries.
pub proof fn request_asks_for_its_identifier(effects: Effects, id: String)
    ensures
        effects.request == Some(WaylandRequest::Activate(id)) ==> requested(effects.request)
            == Some(id@),
        effects.request is None <==> requested(effects.request) is None,
{
}

// The listener thread and the settings.

/// A step that succeeds is followed by the next: connecting, listing the
/// globals, creating the loop, watching the requests, watching the connection
/// and dispatching, which is followed by itself.
pub proof fn steps_follow_in_order(stage: Stage)
    ensures
        stage.successor() == Stage::Dispatch <==> stage == Stage::InsertSource || stage
            == Stage::Dispatch,
        stage.successor() == Stage::InsertSource <==> stage == Stage::InsertRequests,
        stage.successor() == Stage::InsertRequests <==> stage == Stage::CreateLoop,
        stage.successor() == Stage::CreateLoop <==> stage == Stage::InitRegistry,
        stage.successor() == Stage::InitRegistry <==> stage == Stage::Connect,
        stage.successor() != Stage::Connect,
{
}

/// Every step but dispatching reports its failure, each in its own words.
pub proof fn failures_are_reported(stage: Stage)
    ensures
        stage.failure() is None <==> stage == Stage::Dispatch,
        stage == Stage::Connect ==> stage.failure() == Some("wayland: failed to connect: "@),
        stage == Stage::InitRegistry ==> stage.failure() == Some(
            "wayland: failed to init registry: "@,
        ),
        stage == Stage::CreateLoop ==> stage.failure() == Some(
            "wayland: failed to create event loop: "@,
        ),
        stage == Stage::InsertRequests ==> stage.failure() == Some(
            "wayland: failed to insert request channel into event loop: "@,
        ),
        stage == Stage::InsertSource ==> stage.failure() == Some(
            "wayland: failed to insert wayland source into event loop: "@,
        ),
{
}

/// Every failure to load the settings is reported with its reason, but that
/// there are none yet.
pub proof fn load_failures_are_reported(not_found: bool, why: String)
    ensures
        LoadError::Open(why).report() == Some(
            "cosmic-switch-less: failed to open config helper: "@ + why@,
        ),
        LoadError::Get(why).report() == Some("cosmic-switch-less: config load error: "@ + why@),
        not_found ==> (LoadError::GetKey { not_found, why }).report() is None,
        !not_found ==> (LoadError::GetKey { not_found, why }).report() == Some(
            "cosmic-switch-less: config load error: "@ + why@,
        ),
        report_text(Some(why)) == Some(why@),
        report_text(None) is None,
{
}

/// Where the settings are stored.
pub proof fn settings_are_stored_here()
    ensures
        VERSION == 1,
        KEY@ == "settings"@,
{
}

} // verus!
