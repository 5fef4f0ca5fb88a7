//! What holds of the order of use over any history of events: reports on
//! several toplevels come in one batch, toplevels are closed and time passes
//! between a change of focus and its promotion.

use crate::app::{AppView, Message};
use crate::laws::{
    lemma_last_promotion_leads, lemma_promotions_and_filter, lemma_rank, lemma_starts_kept,
    listed_once, nothing_due_nothing_changes, started_by, summon_and_commit_switches_back,
    two_most_recent,
};
use crate::listing::listed_windows;
use crate::mru::{
    due, lemma_forgotten_well_formed, lemma_noted_well_formed, lemma_settled_well_formed,
    not_due, not_of, other_than, promoted_all, MruView, Promotion, PROMOTION_DELAY_MS,
};
use crate::sequences::{
    lemma_filter_all, lemma_filter_contains, lemma_filter_none, lemma_filter_twice,
    lemma_filters_commute,
};
use crate::window::{ToplevelView, Workspace};
use vstd::prelude::*;

verus! {

/// What the order of use is told.
pub enum Event {
    /// A report on the toplevel `id` at the time `now`: whether it is activated.
    Report { id: Seq<char>, activated: bool, now: u64 },
    /// The toplevel `id` is closed.
    Close { id: Seq<char> },
    /// The time `now` has come.
    Pass { now: u64 },
}

/// The order after an event.
pub open spec fn after(v: MruView, event: Event) -> MruView {
    match event {
        Event::Report { id, activated, now } => v.noted(id, activated, now),
        Event::Close { id } => v.forgotten(id),
        Event::Pass { now } => v.settled(now),
    }
}

/// The order after several events, one after the other.
pub open spec fn after_all(v: MruView, events: Seq<Event>) -> MruView
    decreases events.len(),
{
    if events.len() == 0 {
        v
    } else {
        after(after_all(v, events.drop_last()), events.last())
    }
}

/// The event is a report on `id`, or that it is closed.
pub open spec fn about(event: Event, id: Seq<char>) -> bool {
    match event {
        Event::Report { id: r, .. } => r == id,
        Event::Close { id: c } => c == id,
        Event::Pass { .. } => false,
    }
}

/// The event comes before a focus since `start` has lasted long enough.
pub open spec fn within_delay(event: Event, start: u64) -> bool {
    match event {
        Event::Report { now, .. } => now - start < PROMOTION_DELAY_MS,
        Event::Close { .. } => true,
        Event::Pass { now } => now - start < PROMOTION_DELAY_MS,
    }
}

/// Focus stays with `id` in an event: it is not reported without focus nor
/// closed, and no toplevel gains focus.
pub open spec fn keeps_focus(v: MruView, id: Seq<char>, event: Event) -> bool {
    match event {
        Event::Report { id: r, activated, .. } => (r == id ==> activated) && !v.focuses(
            r,
            activated,
        ),
        Event::Close { id: c } => c != id,
        Event::Pass { .. } => true,
    }
}

/// Focus stays with `id` in all of several events. Others may lose focus, claim
/// to have it still, appear without it and be closed.
pub open spec fn focus_stays(v: MruView, id: Seq<char>, events: Seq<Event>) -> bool
    decreases events.len(),
{
    events.len() == 0 || (focus_stays(v, id, events.drop_last()) && keeps_focus(
        after_all(v, events.drop_last()),
        id,
        events.last(),
    ))
}

/// The toplevel `id` is not closed in any of several events.
pub open spec fn stays_open(id: Seq<char>, events: Seq<Event>) -> bool {
    forall|k: int| 0 <= k < events.len() ==> #[trigger] events[k] != (Event::Close { id })
}

// Every event keeps an order well formed.

/// An event keeps an order well formed.
pub proof fn lemma_after_well_formed(v: MruView, event: Event)
    requires
        v.well_formed(),
    ensures
        after(v, event).well_formed(),
{
    match event {
        Event::Report { id, activated, now } => lemma_noted_well_formed(v, id, activated, now),
        Event::Close { id } => lemma_forgotten_well_formed(v, id),
        Event::Pass { now } => lemma_settled_well_formed(v, now),
    }
}

/// The order of use is well formed after any history.
pub proof fn every_history_is_well_formed(events: Seq<Event>)
    ensures
        after_all(MruView::empty(), events).well_formed(),
    decreases events.len(),
{
    if events.len() > 0 {
        every_history_is_well_formed(events.drop_last());
        lemma_after_well_formed(after_all(MruView::empty(), events.drop_last()), events.last());
    }
}

// A focus that stays.

/// Either the promotion of `id`, with focus since `start`, is the last one to
/// come, or none is to come and `id` has the most recent place.
spec fn leads(v: MruView, id: Seq<char>, start: u64) -> bool {
    &&& v.well_formed()
    &&& v.has_focus(id)
    &&& started_by(v, start)
    &&& {
        ||| v.pending.len() > 0 && v.pending.last().0 == id && v.pending.last().1 == start
        ||| v.pending.len() == 0 && v.order.len() > 0 && v.order.last() == id
    }
}

proof fn lemma_leads_settled(v: MruView, id: Seq<char>, start: u64, now: u64)
    requires
        leads(v, id, start),
    ensures
        leads(v.settled(now), id, start),
        now - start >= PROMOTION_DELAY_MS ==> v.settled(now).pending.len() == 0,
{
    lemma_settled_well_formed(v, now);
    lemma_starts_kept(v, now, start);
    if v.pending.len() == 0 {
        nothing_due_nothing_changes(v, now);
    } else {
        let x = v.pending.last();
        let front = v.pending.drop_last();
        assert(v.pending =~= front.push(x));
        if due(now)(x) {
            assert forall|i: int| 0 <= i < v.pending.len() implies !not_due(now)(
                #[trigger] v.pending[i],
            ) by {}
            lemma_filter_none(v.pending, not_due(now));
            lemma_last_promotion_leads(v, now);
        } else {
            front.lemma_filter_push(x, not_due(now));
        }
    }
}

/// Taking out the promotions of another toplevel leaves that of `id` the last.
proof fn lemma_last_kept(pending: Seq<Promotion>, other: Seq<char>, latest: u64)
    requires
        forall|i: int| 0 <= i < pending.len() ==> (#[trigger] pending[i]).1 <= latest,
    ensures
        pending.len() > 0 && pending.last().0 != other ==> pending.filter(not_of(other)).len() > 0
            && pending.filter(not_of(other)).last() == pending.last(),
        pending.len() == 0 ==> pending.filter(not_of(other)).len() == 0,
        forall|i: int|
            0 <= i < pending.filter(not_of(other)).len() ==> (#[trigger] pending.filter(
                not_of(other),
            )[i]).1 <= latest,
{
    let kept = pending.filter(not_of(other));
    lemma_filter_contains(pending, not_of(other));
    assert forall|i: int| 0 <= i < kept.len() implies (#[trigger] kept[i]).1 <= latest by {
        assert(kept.contains(kept[i]));
        let k = choose|k: int| 0 <= k < pending.len() && pending[k] == kept[i];
        assert(pending[k].1 <= latest);
    }
    if pending.len() > 0 {
        assert(pending =~= pending.drop_last().push(pending.last()));
        pending.drop_last().lemma_filter_push(pending.last(), not_of(other));
    } else {
        lemma_filter_none(pending, not_of(other));
    }
}

proof fn lemma_leads_after(v: MruView, id: Seq<char>, start: u64, event: Event)
    requires
        leads(v, id, start),
        keeps_focus(v, id, event),
    ensures
        leads(after(v, event), id, start),
{
    lemma_after_well_formed(v, event);
    match event {
        Event::Report { id: r, activated, now } => {
            let s = v.settled(now);
            lemma_leads_settled(v, id, start, now);
            lemma_last_kept(s.pending, r, start);
            if s.pending.len() == 0 {
                assert(!s.newly_focused(r));
            }
        },
        Event::Close { id: c } => {
            lemma_last_kept(v.pending, c, start);
            if v.pending.len() == 0 {
                assert(v.order =~= v.order.drop_last().push(id));
                v.order.drop_last().lemma_filter_push(id, other_than(c));
            }
        },
        Event::Pass { now } => lemma_leads_settled(v, id, start, now),
    }
}

proof fn lemma_leads_after_all(v: MruView, id: Seq<char>, start: u64, events: Seq<Event>)
    requires
        leads(v, id, start),
        focus_stays(v, id, events),
    ensures
        leads(after_all(v, events), id, start),
    decreases events.len(),
{
    if events.len() > 0 {
        let front = events.drop_last();
        lemma_leads_after_all(v, id, start, front);
        lemma_leads_after(after_all(v, front), id, start, events.last());
    }
}

/// A toplevel that gains focus and keeps it has the most recent place once the
/// delay is over, whatever is reported on others meanwhile, and no promotion is
/// to come then.
pub proof fn focus_that_stays_is_promoted(
    v: MruView,
    id: Seq<char>,
    start: u64,
    events: Seq<Event>,
    now: u64,
)
    requires
        v.well_formed(),
        started_by(v, start),
        v.focuses(id, true),
        focus_stays(v.noted(id, true, start), id, events),
        now - start >= PROMOTION_DELAY_MS,
    ensures
        after_all(v.noted(id, true, start), events).settled(now).rank(id) == 0,
        after_all(v.noted(id, true, start), events).settled(now).pending.len() == 0,
{
    let w = v.noted(id, true, start);
    lemma_noted_well_formed(v, id, true, start);
    lemma_starts_kept(v, start, start);
    assert(leads(w, id, start));
    lemma_leads_after_all(w, id, start, events);
    let a = after_all(w, events);
    lemma_leads_settled(a, id, start, now);
    lemma_rank(a.settled(now), a.settled(now).order.len() - 1);
}

// The toplevel that had focus before.

/// `previous` is the most recent of all but `current`, which either is to be
/// promoted, and no other, or has the most recent place.
spec fn seconded(v: MruView, previous: Seq<char>, current: Seq<char>, start: u64) -> bool {
    &&& v.well_formed()
    &&& v.has_focus(current)
    &&& v.order.filter(other_than(current)).len() > 0
    &&& v.order.filter(other_than(current)).last() == previous
    &&& {
        ||| v.pending.len() == 1 && v.pending[0].0 == current && v.pending[0].1 == start
        ||| v.pending.len() == 0 && v.order.len() > 0 && v.order.last() == current
    }
}

proof fn lemma_seconded_settled(
    v: MruView,
    previous: Seq<char>,
    current: Seq<char>,
    start: u64,
    now: u64,
)
    requires
        seconded(v, previous, current, start),
    ensures
        seconded(v.settled(now), previous, current, start),
        now - start >= PROMOTION_DELAY_MS ==> v.settled(now).pending.len() == 0,
{
    lemma_settled_well_formed(v, now);
    if v.any_due(now) {
        assert(due(now)(v.pending[0]));
        lemma_filter_all(v.pending, due(now));
        lemma_filter_none(v.pending, not_due(now));
        let rest = v.order.filter(other_than(current));
        lemma_filter_twice(v.order, other_than(current));
        rest.lemma_filter_push(current, other_than(current));
        reveal_with_fuel(promoted_all, 2);
        assert(v.settled(now).order == rest.push(current));
    } else {
        nothing_due_nothing_changes(v, now);
        if v.pending.len() == 1 {
            assert(!due(now)(v.pending[0]));
        }
    }
}

proof fn lemma_seconded_after(
    v: MruView,
    previous: Seq<char>,
    current: Seq<char>,
    start: u64,
    event: Event,
)
    requires
        seconded(v, previous, current, start),
        keeps_focus(v, current, event),
        event != (Event::Close { id: previous }),
    ensures
        seconded(after(v, event), previous, current, start),
{
    lemma_after_well_formed(v, event);
    let others = other_than(current);
    match event {
        Event::Report { id: r, activated, now } => {
            let s = v.settled(now);
            lemma_seconded_settled(v, previous, current, start, now);
            assert(s.order.contains(current));
            if r != current {
                assert(!s.newly_focused(r));
                assert forall|i: int| 0 <= i < s.pending.len() implies not_of(r)(
                    #[trigger] s.pending[i],
                ) by {
                    assert(s.pending[i] == s.pending[0]);
                }
                lemma_filter_all(s.pending, not_of(r));
                Seq::filter_distributes_over_add(seq![r], s.order, others);
            }
        },
        Event::Close { id: c } => {
            let rest = v.order.filter(others);
            lemma_filters_commute(v.order, others, other_than(c));
            assert(rest =~= rest.drop_last().push(previous));
            rest.drop_last().lemma_filter_push(previous, other_than(c));
            assert forall|i: int| 0 <= i < v.pending.len() implies not_of(c)(
                #[trigger] v.pending[i],
            ) by {
                assert(v.pending[i] == v.pending[0]);
            }
            lemma_filter_all(v.pending, not_of(c));
            if v.pending.len() == 0 {
                assert(v.order =~= v.order.drop_last().push(current));
                v.order.drop_last().lemma_filter_push(current, other_than(c));
            }
        },
        Event::Pass { now } => lemma_seconded_settled(v, previous, current, start, now),
    }
}

proof fn lemma_seconded_after_all(
    v: MruView,
    previous: Seq<char>,
    current: Seq<char>,
    start: u64,
    events: Seq<Event>,
)
    requires
        seconded(v, previous, current, start),
        focus_stays(v, current, events),
        stays_open(previous, events),
    ensures
        seconded(after_all(v, events), previous, current, start),
    decreases events.len(),
{
    if events.len() > 0 {
        let front = events.drop_last();
        assert forall|k: int| 0 <= k < front.len() implies #[trigger] front[k] != (Event::Close {
            id: previous,
        }) by {
            assert(front[k] == events[k]);
        }
        lemma_seconded_after_all(v, previous, current, start, front);
        assert(events[events.len() - 1] == events.last());
        lemma_seconded_after(after_all(v, front), previous, current, start, events.last());
    }
}

/// Where `previous` has the most recent place and no promotion is to come,
/// `current` gains focus and keeps it, and `previous` stays open: once the delay
/// is over, these are the two most recently focused toplevels. Meanwhile
/// `previous` may lose its focus or claim to have it still, any number of times,
/// and others may be reported on and closed.
pub proof fn previous_is_second_after_a_change_of_focus(
    v: MruView,
    previous: Seq<char>,
    current: Seq<char>,
    start: u64,
    events: Seq<Event>,
    now: u64,
)
    requires
        v.well_formed(),
        v.pending.len() == 0,
        v.order.len() > 0,
        v.order.last() == previous,
        previous != current,
        v.focuses(current, true),
        focus_stays(v.noted(current, true, start), current, events),
        stays_open(previous, events),
        now - start >= PROMOTION_DELAY_MS,
    ensures
        two_most_recent(
            after_all(v.noted(current, true, start), events).settled(now),
            previous,
            current,
        ),
{
    let w = v.noted(current, true, start);
    let others = other_than(current);
    nothing_due_nothing_changes(v, start);
    lemma_noted_well_formed(v, current, true, start);
    assert(v.order =~= v.order.drop_last().push(previous));
    v.order.drop_last().lemma_filter_push(previous, others);
    v.order.lemma_filter_push(current, others);
    assert(seconded(w, previous, current, start));
    lemma_seconded_after_all(w, previous, current, start, events);
    let a = after_all(w, events);
    lemma_seconded_settled(a, previous, current, start, now);
    let e = a.settled(now);
    let rest = e.order.drop_last();
    assert(e.order =~= rest.push(current));
    rest.lemma_filter_push(current, others);
    assert forall|i: int| 0 <= i < rest.len() implies others(#[trigger] rest[i]) by {
        assert(e.order[i] != e.order[e.order.len() - 1]);
    }
    lemma_filter_all(rest, others);
    assert(e.order[e.order.len() - 2] == previous);
    lemma_rank(e, e.order.len() - 1);
    lemma_rank(e, e.order.len() - 2);
}

/// After `previous` has gained focus and kept it for the whole delay, and then
/// `current` has, these are the two most recently focused toplevels, whatever is
/// reported on others and on `previous` meanwhile.
pub proof fn last_two_lasting_focuses_lead(
    v: MruView,
    previous: Seq<char>,
    current: Seq<char>,
    first: u64,
    with_previous: Seq<Event>,
    second: u64,
    with_current: Seq<Event>,
    now: u64,
)
    requires
        v.well_formed(),
        started_by(v, first),
        v.focuses(previous, true),
        focus_stays(v.noted(previous, true, first), previous, with_previous),
        second - first >= PROMOTION_DELAY_MS,
        previous != current,
        after_all(v.noted(previous, true, first), with_previous).focuses(current, true),
        focus_stays(
            after_all(v.noted(previous, true, first), with_previous).noted(current, true, second),
            current,
            with_current,
        ),
        stays_open(previous, with_current),
        now - second >= PROMOTION_DELAY_MS,
    ensures
        two_most_recent(
            after_all(
                after_all(v.noted(previous, true, first), with_previous).noted(
                    current,
                    true,
                    second,
                ),
                with_current,
            ).settled(now),
            previous,
            current,
        ),
{
    let w = v.noted(previous, true, first);
    lemma_noted_well_formed(v, previous, true, first);
    lemma_starts_kept(v, first, first);
    assert(leads(w, previous, first));
    lemma_leads_after_all(w, previous, first, with_previous);
    let m = after_all(w, with_previous);
    lemma_leads_settled(m, previous, first, second);
    nothing_due_nothing_changes(m.settled(second), second);
    previous_is_second_after_a_change_of_focus(
        m.settled(second),
        previous,
        current,
        second,
        with_current,
        now,
    );
}

/// After such a change of focus from `previous` to `current`, and once the
/// delay is over, summoning the overlay highlights the window of `previous`, and
/// committing at once asks for it.
pub proof fn summon_after_a_change_of_focus_highlights_the_previous<H>(
    v: MruView,
    previous: Seq<char>,
    current: Seq<char>,
    start: u64,
    events: Seq<Event>,
    now: u64,
    toplevels: Seq<ToplevelView>,
    workspaces: Seq<Workspace>,
    at_previous: int,
    at_current: int,
    app: AppView<H>,
    summoned_at: u64,
)
    requires
        v.well_formed(),
        v.pending.len() == 0,
        v.order.len() > 0,
        v.order.last() == previous,
        previous != current,
        v.focuses(current, true),
        focus_stays(v.noted(current, true, start), current, events),
        stays_open(previous, events),
        now - start >= PROMOTION_DELAY_MS,
        listed_once(toplevels, workspaces, previous, at_previous),
        listed_once(toplevels, workspaces, current, at_current),
        !app.shown,
        app.windows == listed_windows(
            toplevels,
            workspaces,
            after_all(v.noted(current, true, start), events).settled(now),
        ),
    ensures
        app.updated(Message::CycleNext, summoned_at).shown,
        app.updated(Message::CycleNext, summoned_at).highlighted == 1,
        app.updated(Message::CycleNext, summoned_at).windows[1] == toplevels[at_previous].window(),
        app.wayland is Some ==> app.updated(Message::CycleNext, summoned_at).request(
            Message::Confirm,
        ) == Some(previous),
{
    previous_is_second_after_a_change_of_focus(v, previous, current, start, events, now);
    summon_and_commit_switches_back(
        after_all(v.noted(current, true, start), events).settled(now),
        previous,
        current,
        toplevels,
        workspaces,
        at_previous,
        at_current,
        app,
        summoned_at,
    );
}

// A flash of focus.

/// `a` is `b` but for a focus of the known toplevel `id` since `start`, whose
/// promotion is to come.
spec fn flashing(a: MruView, b: MruView, id: Seq<char>, start: u64) -> bool {
    &&& a.well_formed()
    &&& a.order == b.order
    &&& b.activated.contains_key(id)
    &&& !b.activated[id]
    &&& a.activated == b.activated.insert(id, true)
    &&& a.pending.filter(not_of(id)) == b.pending
    &&& forall|i: int|
        0 <= i < a.pending.len() && (#[trigger] a.pending[i]).0 == id ==> a.pending[i].1 == start
            && !a.pending[i].2
}

/// What a filter leaves of the promotions is as before.
proof fn lemma_flash_filtered(
    pending: Seq<Promotion>,
    keep: spec_fn(Promotion) -> bool,
    id: Seq<char>,
    start: u64,
)
    requires
        forall|i: int|
            0 <= i < pending.len() && (#[trigger] pending[i]).0 == id ==> pending[i].1 == start
                && !pending[i].2,
    ensures
        forall|i: int|
            0 <= i < pending.filter(keep).len() && (#[trigger] pending.filter(keep)[i]).0 == id
                ==> pending.filter(keep)[i].1 == start && !pending.filter(keep)[i].2,
{
    let kept = pending.filter(keep);
    lemma_filter_contains(pending, keep);
    assert forall|i: int| 0 <= i < kept.len() && (#[trigger] kept[i]).0 == id implies kept[i].1
        == start && !kept[i].2 by {
        assert(kept.contains(kept[i]));
        let k = choose|k: int| 0 <= k < pending.len() && pending[k] == kept[i];
        assert(pending[k].0 == id);
    }
}

proof fn lemma_flashing_settled(a: MruView, b: MruView, id: Seq<char>, start: u64, now: u64)
    requires
        flashing(a, b, id, start),
        now - start < PROMOTION_DELAY_MS,
    ensures
        flashing(a.settled(now), b.settled(now), id, start),
{
    lemma_settled_well_formed(a, now);
    let made = a.pending.filter(due(now));
    lemma_filter_contains(a.pending, due(now));
    assert forall|i: int| 0 <= i < made.len() implies not_of(id)(#[trigger] made[i]) by {
        assert(made.contains(made[i]));
        let k = choose|k: int| 0 <= k < a.pending.len() && a.pending[k] == made[i];
        assert(due(now)(made[i]));
        assert(a.pending[k].0 == id ==> a.pending[k].1 == start);
    }
    lemma_filter_all(made, not_of(id));
    lemma_filters_commute(a.pending, due(now), not_of(id));
    lemma_filters_commute(a.pending, not_due(now), not_of(id));
    lemma_flash_filtered(a.pending, not_due(now), id, start);
}

/// Whether another toplevel appeared with focus is the same without the
/// promotions of `id`.
proof fn lemma_newly_focused_kept(a: MruView, b: MruView, id: Seq<char>, other: Seq<char>)
    requires
        a.pending.filter(not_of(id)) == b.pending,
        other != id,
    ensures
        a.newly_focused(other) == b.newly_focused(other),
{
    lemma_filter_contains(a.pending, not_of(id));
    if a.newly_focused(other) {
        let i = choose|i: int|
            0 <= i < a.pending.len() && (#[trigger] a.pending[i]).0 == other && a.pending[i].2;
        assert(a.pending.contains(a.pending[i]));
        assert(b.pending.contains(a.pending[i]));
        let k = choose|k: int| 0 <= k < b.pending.len() && b.pending[k] == a.pending[i];
        assert(b.pending[k].0 == other);
    }
    if b.newly_focused(other) {
        let i = choose|i: int|
            0 <= i < b.pending.len() && (#[trigger] b.pending[i]).0 == other && b.pending[i].2;
        assert(b.pending.contains(b.pending[i]));
        let k = choose|k: int| 0 <= k < a.pending.len() && a.pending[k] == b.pending[i];
        assert(a.pending[k].0 == other);
    }
}

proof fn lemma_flashing_after(a: MruView, b: MruView, id: Seq<char>, start: u64, event: Event)
    requires
        flashing(a, b, id, start),
        !about(event, id),
        within_delay(event, start),
    ensures
        flashing(after(a, event), after(b, event), id, start),
{
    lemma_after_well_formed(a, event);
    match event {
        Event::Report { id: r, activated, now } => {
            let s = a.settled(now);
            let t = b.settled(now);
            lemma_flashing_settled(a, b, id, start, now);
            lemma_newly_focused_kept(s, t, id, r);
            assert(s.focuses(r, activated) == t.focuses(r, activated));
            let x: Promotion = (r, now, !s.order.contains(r));
            s.pending.lemma_filter_push(x, not_of(id));
            lemma_filters_commute(s.pending, not_of(r), not_of(id));
            lemma_flash_filtered(s.pending, not_of(r), id, start);
            assert(s.activated.insert(r, activated) =~= t.activated.insert(r, activated).insert(
                id,
                true,
            ));
        },
        Event::Close { id: c } => {
            lemma_filters_commute(a.pending, not_of(c), not_of(id));
            lemma_flash_filtered(a.pending, not_of(c), id, start);
            assert(a.activated.remove(c) =~= b.activated.remove(c).insert(id, true));
        },
        Event::Pass { now } => lemma_flashing_settled(a, b, id, start, now),
    }
}

proof fn lemma_flashing_after_all(
    a: MruView,
    b: MruView,
    id: Seq<char>,
    start: u64,
    events: Seq<Event>,
)
    requires
        flashing(a, b, id, start),
        forall|k: int|
            0 <= k < events.len() ==> !about(#[trigger] events[k], id) && within_delay(
                events[k],
                start,
            ),
    ensures
        flashing(after_all(a, events), after_all(b, events), id, start),
    decreases events.len(),
{
    if events.len() > 0 {
        let front = events.drop_last();
        assert forall|k: int| 0 <= k < front.len() implies !about(#[trigger] front[k], id)
            && within_delay(front[k], start) by {
            assert(front[k] == events[k]);
        }
        lemma_flashing_after_all(a, b, id, start, front);
        assert(events[events.len() - 1] == events.last());
        lemma_flashing_after(after_all(a, front), after_all(b, front), id, start, events.last());
    }
}

/// A flash of focus on a known toplevel, one that is lost before the delay is
/// over, leaves everything as it was, but for the passing of time. Whatever else
/// happens meanwhile happens as if there were no flash.
pub proof fn flash_leaves_the_order(
    v: MruView,
    id: Seq<char>,
    start: u64,
    events: Seq<Event>,
    end: u64,
)
    requires
        v.well_formed(),
        v.order.contains(id),
        !v.has_focus(id),
        forall|k: int|
            0 <= k < events.len() ==> !about(#[trigger] events[k], id) && within_delay(
                events[k],
                start,
            ),
        end - start < PROMOTION_DELAY_MS,
    ensures
        after_all(v.noted(id, true, start), events).noted(id, false, end) == after_all(
            v.settled(start),
            events,
        ).settled(end),
        events.len() == 0 && v.pending.len() == 0 ==> after_all(
            v.noted(id, true, start),
            events,
        ).noted(id, false, end).order == v.order,
{
    let s = v.settled(start);
    let w = v.noted(id, true, start);
    let x: Promotion = (id, start, false);
    lemma_settled_well_formed(v, start);
    lemma_noted_well_formed(v, id, true, start);
    assert(s.order.contains(id));
    assert(w.pending == s.pending.push(x));
    lemma_no_promotion_without_focus(s, id);
    s.pending.lemma_filter_push(x, not_of(id));
    assert forall|i: int| 0 <= i < w.pending.len() && (#[trigger] w.pending[i]).0 == id implies
        w.pending[i].1 == start && !w.pending[i].2 by {
        if i < s.pending.len() {
            assert(s.has_focus(s.pending[i].0));
        }
    }
    assert(flashing(w, s, id, start));
    lemma_flashing_after_all(w, s, id, start, events);
    let a = after_all(w, events);
    let b = after_all(s, events);
    lemma_flashing_settled(a, b, id, start, end);
    let p = a.settled(end);
    let q = b.settled(end);
    assert(p.has_focus(id));
    assert(p.order.contains(id));
    assert(!p.newly_focused(id));
    assert(p.activated.insert(id, false) =~= q.activated);
    assert(a.noted(id, false, end) =~= q);
    if events.len() == 0 && v.pending.len() == 0 {
        nothing_due_nothing_changes(v, start);
        nothing_due_nothing_changes(v, end);
    }
}

/// A toplevel without focus has no promotion to come.
proof fn lemma_no_promotion_without_focus(v: MruView, id: Seq<char>)
    requires
        v.well_formed(),
        !v.has_focus(id),
    ensures
        v.pending.filter(not_of(id)) == v.pending,
{
    assert forall|i: int| 0 <= i < v.pending.len() implies not_of(id)(#[trigger] v.pending[i]) by {
        assert(v.has_focus(v.pending[i].0));
    }
    lemma_filter_all(v.pending, not_of(id));
}

// What is left of a toplevel.

/// Forgetting an unknown toplevel changes nothing.
proof fn lemma_unknown_is_forgotten(v: MruView, id: Seq<char>)
    requires
        v.well_formed(),
        !v.order.contains(id),
    ensures
        v.forgotten(id) == v,
{
    assert forall|i: int| 0 <= i < v.order.len() implies other_than(id)(#[trigger] v.order[i]) by {
        assert(v.order.contains(v.order[i]));
    }
    lemma_filter_all(v.order, other_than(id));
    lemma_no_promotion_without_focus(v, id);
    assert(v.activated.remove(id) =~= v.activated);
    assert(v.forgotten(id) =~= v);
}

/// A report on a toplevel that is then forgotten leaves no trace.
proof fn lemma_reported_and_forgotten(v: MruView, id: Seq<char>, activated: bool, now: u64)
    ensures
        v.reported(id, activated, now).forgotten(id) == v.forgotten(id),
{
    let w = v.reported(id, activated, now);
    v.order.lemma_filter_push(id, other_than(id));
    Seq::filter_distributes_over_add(seq![id], v.order, other_than(id));
    lemma_filter_none(seq![id], other_than(id));
    assert(Seq::<Seq<char>>::empty() + v.order.filter(other_than(id)) =~= v.order.filter(
        other_than(id),
    ));
    v.pending.lemma_filter_push((id, now, !v.order.contains(id)), not_of(id));
    Seq::filter_distributes_over_add(
        seq![id],
        v.order.filter(other_than(id)),
        other_than(id),
    );
    lemma_filter_twice(v.order, other_than(id));
    lemma_filter_twice(v.pending, not_of(id));
    assert(w.activated.remove(id) =~= v.activated.remove(id));
    assert(w.forgotten(id) =~= v.forgotten(id));
}

/// Time can pass before a toplevel is forgotten or after.
proof fn lemma_settled_and_forgotten(v: MruView, id: Seq<char>, now: u64)
    ensures
        v.settled(now).forgotten(id) == v.forgotten(id).settled(now),
{
    lemma_filters_commute(v.pending, not_of(id), due(now));
    lemma_filters_commute(v.pending, not_of(id), not_due(now));
    lemma_promotions_and_filter(v.order, v.pending.filter(due(now)), id);
    assert(v.settled(now).forgotten(id) =~= v.forgotten(id).settled(now));
}

/// A report on another toplevel can come before a toplevel is forgotten or
/// after.
proof fn lemma_other_report_and_forgotten(
    v: MruView,
    id: Seq<char>,
    other: Seq<char>,
    activated: bool,
    now: u64,
)
    requires
        other != id,
    ensures
        v.reported(other, activated, now).forgotten(id) == v.forgotten(id).reported(
            other,
            activated,
            now,
        ),
{
    let f = v.forgotten(id);
    let keep = other_than(id);
    lemma_filter_contains(v.order, keep);
    lemma_newly_focused_kept(v, f, id, other);
    assert(v.order.contains(other) == f.order.contains(other));
    assert(v.focuses(other, activated) == f.focuses(other, activated));
    v.order.lemma_filter_push(other, keep);
    Seq::filter_distributes_over_add(seq![other], v.order, keep);
    Seq::filter_distributes_over_add(seq![other], v.order.filter(other_than(other)), keep);
    assert(seq![other].filter(keep) == seq![other]) by {
        lemma_filter_all(seq![other], keep);
    }
    lemma_filters_commute(v.order, other_than(other), keep);
    v.pending.lemma_filter_push((other, now, !v.order.contains(other)), not_of(id));
    lemma_filters_commute(v.pending, not_of(other), not_of(id));
    assert(v.activated.insert(other, activated).remove(id) =~= v.activated.remove(id).insert(
        other,
        activated,
    ));
    assert(v.reported(other, activated, now).forgotten(id) =~= f.reported(other, activated, now));
}

/// An event that is not about a toplevel can come before it is forgotten or
/// after.
proof fn lemma_after_and_forgotten(v: MruView, event: Event, id: Seq<char>)
    requires
        !about(event, id),
    ensures
        after(v, event).forgotten(id) == after(v.forgotten(id), event),
{
    match event {
        Event::Report { id: r, activated, now } => {
            lemma_other_report_and_forgotten(v.settled(now), id, r, activated, now);
            lemma_settled_and_forgotten(v, id, now);
        },
        Event::Close { id: c } => {
            lemma_filters_commute(v.order, other_than(c), other_than(id));
            lemma_filters_commute(v.pending, not_of(c), not_of(id));
            assert(v.activated.remove(c).remove(id) =~= v.activated.remove(id).remove(c));
            assert(v.forgotten(c).forgotten(id) =~= v.forgotten(id).forgotten(c));
        },
        Event::Pass { now } => lemma_settled_and_forgotten(v, id, now),
    }
}

/// The toplevel `id` appeared with focus at `start`, and its promotion is to
/// come; `b` is `a` without it.
spec fn appearing(a: MruView, b: MruView, id: Seq<char>, start: u64) -> bool {
    &&& a.well_formed()
    &&& a.forgotten(id) == b
    &&& a.pending.contains((id, start, true))
}

proof fn lemma_appearing_after(a: MruView, b: MruView, id: Seq<char>, start: u64, event: Event)
    requires
        appearing(a, b, id, start),
        !about(event, id),
        within_delay(event, start),
    ensures
        appearing(after(a, event), after(b, event), id, start),
{
    let x: Promotion = (id, start, true);
    lemma_after_well_formed(a, event);
    lemma_after_and_forgotten(a, event, id);
    match event {
        Event::Report { id: r, activated, now } => {
            let s = a.settled(now);
            lemma_filter_contains(a.pending, not_due(now));
            assert(s.pending.contains(x));
            lemma_filter_contains(s.pending, not_of(r));
            if s.focuses(r, activated) {
                let k = choose|k: int| 0 <= k < s.pending.len() && s.pending[k] == x;
                assert(after(a, event).pending[k] == x);
            }
        },
        Event::Close { id: c } => lemma_filter_contains(a.pending, not_of(c)),
        Event::Pass { now } => lemma_filter_contains(a.pending, not_due(now)),
    }
}

proof fn lemma_appearing_after_all(
    a: MruView,
    b: MruView,
    id: Seq<char>,
    start: u64,
    events: Seq<Event>,
)
    requires
        appearing(a, b, id, start),
        forall|k: int|
            0 <= k < events.len() ==> !about(#[trigger] events[k], id) && within_delay(
                events[k],
                start,
            ),
    ensures
        appearing(after_all(a, events), after_all(b, events), id, start),
    decreases events.len(),
{
    if events.len() > 0 {
        let front = events.drop_last();
        assert forall|k: int| 0 <= k < front.len() implies !about(#[trigger] front[k], id)
            && within_delay(front[k], start) by {
            assert(front[k] == events[k]);
        }
        lemma_appearing_after_all(a, b, id, start, front);
        assert(events[events.len() - 1] == events.last());
        lemma_appearing_after(after_all(a, front), after_all(b, front), id, start, events.last());
    }
}

/// A flash of focus on a toplevel that appears with it: once the focus is lost,
/// all is as if the toplevel had appeared only then, without focus. It has the
/// least recent place, and the others are as they would be without it, whatever
/// happens to them meanwhile.
pub proof fn flash_of_a_new_toplevel_puts_it_last(
    v: MruView,
    id: Seq<char>,
    start: u64,
    events: Seq<Event>,
    end: u64,
)
    requires
        v.well_formed(),
        !v.order.contains(id),
        forall|k: int|
            0 <= k < events.len() ==> !about(#[trigger] events[k], id) && within_delay(
                events[k],
                start,
            ),
        end - start < PROMOTION_DELAY_MS,
    ensures
        after_all(v.noted(id, true, start), events).noted(id, false, end) == after_all(
            v.settled(start),
            events,
        ).noted(id, false, end),
        after_all(v.noted(id, true, start), events).noted(id, false, end).order == seq![id]
            + after_all(v.settled(start), events).settled(end).order,
        events.len() == 0 && !v.any_due(start) ==> after_all(v.noted(id, true, start), events).noted(
            id,
            false,
            end,
        ).order == seq![id] + v.settled(end).order,
{
    let s = v.settled(start);
    let w = v.noted(id, true, start);
    let x: Promotion = (id, start, true);
    lemma_settled_well_formed(v, start);
    lemma_noted_well_formed(v, id, true, start);
    assert(!s.order.contains(id));
    lemma_reported_and_forgotten(s, id, true, start);
    lemma_unknown_is_forgotten(s, id);
    assert(w.pending[s.pending.len() as int] == x);
    assert(appearing(w, s, id, start));
    lemma_appearing_after_all(w, s, id, start, events);
    let a = after_all(w, events);
    let b = after_all(s, events);
    let ends = Event::Pass { now: end };
    lemma_appearing_after(a, b, id, start, ends);
    let p = a.settled(end);
    let q = b.settled(end);
    let k = choose|k: int| 0 <= k < p.pending.len() && p.pending[k] == x;
    assert(p.pending[k].0 == id && p.pending[k].2);
    assert(p.newly_focused(id));
    assert(p.has_focus(p.pending[k].0));
    assert(p.order.contains(id));
    lemma_filter_contains(p.order, other_than(id));
    assert(!q.order.contains(id));
    lemma_filter_twice(p.pending, not_of(id));
    assert(p.activated.insert(id, false) =~= q.activated.insert(id, false));
    assert(a.noted(id, false, end) =~= b.noted(id, false, end));
    if !v.any_due(start) {
        nothing_due_nothing_changes(v, start);
    }
}

/// The events with the reports on `id` left out; only the time passes.
pub open spec fn without_reports_on(events: Seq<Event>, id: Seq<char>) -> Seq<Event> {
    events.map_values(
        |e: Event|
            match e {
                Event::Report { id: r, now, .. } => if r == id {
                    Event::Pass { now }
                } else {
                    e
                },
                _ => e,
            },
    )
}

/// A toplevel that is opened, reported on any number of times and closed leaves
/// no trace: all is as if only the time had passed for it, whatever happens to
/// others meanwhile. Where nothing else happens and no promotion is to come, all
/// is as it was.
pub proof fn opened_and_closed_leaves_no_trace(v: MruView, id: Seq<char>, events: Seq<Event>)
    requires
        v.well_formed(),
        !v.order.contains(id),
    ensures
        after_all(v, events).forgotten(id) == after_all(v, without_reports_on(events, id)),
        v.pending.len() == 0 && (forall|k: int|
            0 <= k < events.len() ==> about(#[trigger] events[k], id) || events[k] is Pass)
            ==> after_all(v, events).forgotten(id) == v,
    decreases events.len(),
{
    lemma_unknown_is_forgotten(v, id);
    if events.len() > 0 {
        let front = events.drop_last();
        let e = events.last();
        let quiet = without_reports_on(events, id);
        opened_and_closed_leaves_no_trace(v, id, front);
        assert(quiet.drop_last() =~= without_reports_on(front, id));
        let a = after_all(v, front);
        match e {
            Event::Report { id: r, activated, now } => {
                if r == id {
                    lemma_reported_and_forgotten(a.settled(now), id, activated, now);
                    lemma_settled_and_forgotten(a, id, now);
                } else {
                    lemma_after_and_forgotten(a, e, id);
                }
            },
            Event::Close { id: c } => {
                if c != id {
                    lemma_after_and_forgotten(a, e, id);
                }
            },
            Event::Pass { now } => lemma_after_and_forgotten(a, e, id),
        }
        if v.pending.len() == 0 && (forall|k: int|
            0 <= k < events.len() ==> about(#[trigger] events[k], id) || events[k] is Pass) {
            assert forall|k: int| 0 <= k < front.len() implies about(#[trigger] front[k], id)
                || front[k] is Pass by {
                assert(front[k] == events[k]);
            }
            assert(events[events.len() - 1] == e);
            match e {
                Event::Report { now, .. } => nothing_due_nothing_changes(v, now),
                Event::Close { .. } => {},
                Event::Pass { now } => nothing_due_nothing_changes(v, now),
            }
        }
    }
}

} // verus!
