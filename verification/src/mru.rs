//! The most-recently-used order of the toplevels.
//!
//! The compositor delivers the events of several toplevels in one batch, and a
//! toplevel whose own state event has not been processed yet still reports its
//! stale state. So a toplevel that claims to be activated counts as newly
//! focused only where its last report said otherwise.
//!
//! The compositor also flashes the activated state onto toplevels that nobody
//! switched to. So a newly focused toplevel is promoted to the most recent
//! place only once its focus has lasted for [`PROMOTION_DELAY_MS`]. One that
//! appears with focus has no earlier place to keep: it takes the most recent
//! place at once, and the least recent one where its focus does not last. Times
//! are in milliseconds, by any one clock.

use crate::sequences::{lemma_filter_contains, lemma_filter_no_duplicates};
use vstd::hash_map::StringHashMap;
use vstd::prelude::*;

verus! {

/// How long the focus of a toplevel has to last before it is promoted, in
/// milliseconds.
pub const PROMOTION_DELAY_MS: u64 = 300;

/// The identifiers of a list, each by its text.
pub open spec fn identifiers(ids: Seq<String>) -> Seq<Seq<char>> {
    ids.map_values(|s: String| s@)
}

/// Every identifier but `id`.
pub open spec fn other_than(id: Seq<char>) -> spec_fn(Seq<char>) -> bool {
    |x: Seq<char>| x != id
}

/// A promotion to come: of which toplevel, since when it has had focus, and
/// whether it was new then.
pub type Promotion = (Seq<char>, u64, bool);

/// The promotion is that of another toplevel than `id`.
pub open spec fn not_of(id: Seq<char>) -> spec_fn(Promotion) -> bool {
    |p: Promotion| p.0 != id
}

/// The focus has lasted long enough at the time `now`.
pub open spec fn due(now: u64) -> spec_fn(Promotion) -> bool {
    |p: Promotion| now - p.1 >= PROMOTION_DELAY_MS
}

/// The focus has not lasted long enough at the time `now`.
pub open spec fn not_due(now: u64) -> spec_fn(Promotion) -> bool {
    |p: Promotion| now - p.1 < PROMOTION_DELAY_MS
}

/// How long to wait from `now` on until a focus since `since` has lasted long
/// enough; never more than the whole delay.
pub open spec fn remaining(since: u64, now: u64) -> int {
    if now <= since {
        PROMOTION_DELAY_MS as int
    } else if now - since >= PROMOTION_DELAY_MS {
        0
    } else {
        PROMOTION_DELAY_MS - (now - since)
    }
}

/// The order with `id` moved to the most recent place.
pub open spec fn promoted(order: Seq<Seq<char>>, id: Seq<char>) -> Seq<Seq<char>> {
    order.filter(other_than(id)).push(id)
}

/// The order with `id` moved to the least recent place.
pub open spec fn demoted(order: Seq<Seq<char>>, id: Seq<char>) -> Seq<Seq<char>> {
    seq![id] + order.filter(other_than(id))
}

/// The order after several promotions, one after the other.
pub open spec fn promoted_all(order: Seq<Seq<char>>, promotions: Seq<Promotion>) -> Seq<Seq<char>>
    decreases promotions.len(),
{
    if promotions.len() == 0 {
        order
    } else {
        promoted(promoted_all(order, promotions.drop_last()), promotions.last().0)
    }
}

/// What an [`MruOrder`] holds: the identifiers, the most recently used one
/// last; for each identifier whether its last report said activated; and the
/// promotions to come, in the order in which the toplevels gained focus.
#[verifier::ext_equal]
pub struct MruView {
    pub order: Seq<Seq<char>>,
    pub activated: Map<Seq<char>, bool>,
    pub pending: Seq<Promotion>,
}

impl MruView {
    /// Nothing has been reported yet.
    pub open spec fn empty() -> MruView {
        MruView { order: Seq::empty(), activated: Map::empty(), pending: Seq::empty() }
    }

    /// Every identifier stands in the order once, those in the order are those
    /// with a last report, and every promotion to come is that of a toplevel
    /// whose last report said activated, at most one for each.
    pub open spec fn well_formed(self) -> bool {
        &&& self.order.no_duplicates()
        &&& forall|id: Seq<char>|
            #![trigger self.order.contains(id)]
            #![trigger self.activated.contains_key(id)]
            self.order.contains(id) <==> self.activated.contains_key(id)
        &&& forall|i: int|
            0 <= i < self.pending.len() ==> self.has_focus((#[trigger] self.pending[i]).0)
        &&& forall|i: int, j: int|
            0 <= i < j < self.pending.len() ==> (#[trigger] self.pending[i]).0
                != (#[trigger] self.pending[j]).0
    }

    /// The last report on `id` said activated.
    pub open spec fn has_focus(self, id: Seq<char>) -> bool {
        self.activated.contains_key(id) && self.activated[id]
    }

    /// A report on `id` would be a change of focus to it.
    pub open spec fn focuses(self, id: Seq<char>, activated: bool) -> bool {
        activated && !self.has_focus(id)
    }

    /// The toplevel `id` appeared with focus, and its promotion is still to come.
    pub open spec fn newly_focused(self, id: Seq<char>) -> bool {
        exists|i: int|
            0 <= i < self.pending.len() && (#[trigger] self.pending[i]).0 == id
                && self.pending[i].2
    }

    /// The promotions that are due at the time `now` are made.
    pub open spec fn settled(self, now: u64) -> MruView {
        MruView {
            order: promoted_all(self.order, self.pending.filter(due(now))),
            activated: self.activated,
            pending: self.pending.filter(not_due(now)),
        }
    }

    /// What a report on `id` at the time `now` adds. A toplevel that is new
    /// takes a place: the most recent one with focus, the least recent one
    /// without. A change of focus to it is a promotion to come. The loss of
    /// focus takes that promotion back, and where the toplevel was new with that
    /// focus, its place too: it goes to the least recent one.
    pub open spec fn reported(self, id: Seq<char>, activated: bool, now: u64) -> MruView {
        MruView {
            order: if self.order.contains(id) {
                if !activated && self.newly_focused(id) {
                    demoted(self.order, id)
                } else {
                    self.order
                }
            } else if self.focuses(id, activated) {
                self.order.push(id)
            } else {
                seq![id] + self.order
            },
            activated: self.activated.insert(id, activated),
            pending: if self.focuses(id, activated) {
                self.pending.push((id, now, !self.order.contains(id)))
            } else if activated {
                self.pending
            } else {
                self.pending.filter(not_of(id))
            },
        }
    }

    /// What a report on `id` at the time `now` leads to: the promotions that
    /// are due by then are made, and the report is taken in.
    pub open spec fn noted(self, id: Seq<char>, activated: bool, now: u64) -> MruView {
        self.settled(now).reported(id, activated, now)
    }

    /// The same without anything about `id`.
    pub open spec fn forgotten(self, id: Seq<char>) -> MruView {
        MruView {
            order: self.order.filter(other_than(id)),
            activated: self.activated.remove(id),
            pending: self.pending.filter(not_of(id)),
        }
    }

    /// How many identifiers have been used more recently than `id`; all of
    /// them where `id` is not in the order.
    pub open spec fn rank(self, id: Seq<char>) -> int {
        match self.order.index_of_last(id) {
            Some(p) => self.order.len() - 1 - p,
            None => self.order.len() as int,
        }
    }

    /// A promotion is due at the time `now`.
    pub open spec fn any_due(self, now: u64) -> bool {
        exists|i: int| 0 <= i < self.pending.len() && due(now)(#[trigger] self.pending[i])
    }

    /// `wait` is how long it takes from `now` on until the first promotion to
    /// come is due; there is no such time where none is to come.
    pub open spec fn is_wait(self, now: u64, wait: Option<u64>) -> bool {
        match wait {
            Some(w) => {
                &&& exists|i: int|
                    0 <= i < self.pending.len() && remaining((#[trigger] self.pending[i]).1, now)
                        == w
                &&& forall|i: int|
                    0 <= i < self.pending.len() ==> w <= remaining(
                        (#[trigger] self.pending[i]).1,
                        now,
                    )
            },
            None => self.pending.len() == 0,
        }
    }
}

/// A promotion to come.
struct Pending {
    id: String,
    since: u64,
    new: bool,
}

/// The promotions of a list, each by what it holds.
spec fn promotions(pending: Seq<Pending>) -> Seq<Promotion> {
    pending.map_values(|p: Pending| (p.id@, p.since, p.new))
}

/// The toplevels in the order in which they were last focused.
pub struct MruOrder {
    order: Vec<String>,
    activated_last: StringHashMap<bool>,
    pending: Vec<Pending>,
}

impl View for MruOrder {
    type V = MruView;

    closed spec fn view(&self) -> MruView {
        MruView {
            order: identifiers(self.order@),
            activated: self.activated_last@,
            pending: promotions(self.pending@),
        }
    }
}

/// Whether an order holds `id`.
fn holds(order: &Vec<String>, id: &String) -> (r: bool)
    ensures
        r == identifiers(order@).contains(id@),
{
    let mut i: usize = 0;
    while i < order.len()
        invariant
            i <= order.len(),
            forall|j: int| 0 <= j < i ==> identifiers(order@)[j] != id@,
        decreases order.len() - i,
    {
        if order[i] == *id {
            assert(identifiers(order@)[i as int] == id@);
            return true;
        }
        i += 1;
    }
    false
}

/// Takes `id` out of an order.
fn take_out(order: &mut Vec<String>, id: &String)
    ensures
        identifiers(final(order)@) == identifiers(old(order)@).filter(other_than(id@)),
{
    let ghost before = identifiers(order@);
    let ghost other = other_than(id@);
    let ghost mut seen: int = 0;
    let mut i: usize = 0;
    assert(before.take(0).filter(other) =~= Seq::<Seq<char>>::empty()) by {
        reveal(Seq::filter);
    }
    while i < order.len()
        invariant
            0 <= seen <= before.len(),
            i <= order.len(),
            other == other_than(id@),
            identifiers(order@).take(i as int) == before.take(seen).filter(other),
            identifiers(order@).skip(i as int) == before.skip(seen),
        decreases order.len() - i,
    {
        let ghost here = identifiers(order@);
        proof {
            assert(here.skip(i as int).len() == before.skip(seen).len());
            assert(here.skip(i as int)[0] == before.skip(seen)[0]);
            assert(before.take(seen + 1) =~= before.take(seen).push(before[seen]));
            before.take(seen).lemma_filter_push(before[seen], other);
        }
        if order[i] == *id {
            order.remove(i);
            proof {
                assert(identifiers(order@).take(i as int) =~= here.take(i as int));
                assert(identifiers(order@).skip(i as int) =~= here.skip(i as int).skip(1));
            }
        } else {
            proof {
                assert(here.take(i + 1) =~= here.take(i as int).push(here[i as int]));
                assert(here.skip(i + 1) =~= here.skip(i as int).skip(1));
            }
            i += 1;
        }
        proof {
            assert(before.skip(seen).skip(1) =~= before.skip(seen + 1));
            seen = seen + 1;
        }
    }
    proof {
        let now = identifiers(order@);
        assert(before.skip(seen).len() == now.skip(i as int).len());
        assert(before.take(seen) =~= before);
        assert(now.take(i as int) =~= now);
    }
}

/// The promotions of other toplevels than `id`.
fn promotions_of_others(pending: &Vec<Pending>, id: &String) -> (r: Vec<Pending>)
    ensures
        promotions(r@) == promotions(pending@).filter(not_of(id@)),
{
    let ghost all = promotions(pending@);
    let ghost keep = not_of(id@);
    let mut r: Vec<Pending> = Vec::new();
    let mut i: usize = 0;
    assert(promotions(r@) =~= all.take(0).filter(keep)) by {
        reveal(Seq::filter);
    }
    while i < pending.len()
        invariant
            i <= pending.len(),
            all == promotions(pending@),
            keep == not_of(id@),
            promotions(r@) == all.take(i as int).filter(keep),
        decreases pending.len() - i,
    {
        let p = &pending[i];
        let ghost before = promotions(r@);
        proof {
            assert(all.take(i + 1) =~= all.take(i as int).push(all[i as int]));
            all.take(i as int).lemma_filter_push(all[i as int], keep);
        }
        if p.id != *id {
            r.push(Pending { id: p.id.clone(), since: p.since, new: p.new });
            assert(promotions(r@) =~= before.push(all[i as int]));
        }
        i += 1;
    }
    assert(all.take(i as int) =~= all);
    r
}

/// Whether one of the promotions is that of a toplevel `id` that was new.
fn holds_new(pending: &Vec<Pending>, id: &String) -> (r: bool)
    ensures
        r == exists|i: int|
            0 <= i < promotions(pending@).len() && (#[trigger] promotions(pending@)[i]).0 == id@
                && promotions(pending@)[i].2,
{
    let mut i: usize = 0;
    while i < pending.len()
        invariant
            i <= pending.len(),
            forall|j: int|
                0 <= j < i ==> !((#[trigger] promotions(pending@)[j]).0 == id@ && promotions(
                    pending@,
                )[j].2),
        decreases pending.len() - i,
    {
        if pending[i].new && pending[i].id == *id {
            assert(promotions(pending@)[i as int].0 == id@);
            return true;
        }
        i += 1;
    }
    false
}

impl MruOrder {
    /// An order without any toplevel.
    pub fn new() -> (r: MruOrder)
        ensures
            r@ == MruView::empty(),
            r@.well_formed(),
    {
        let r = MruOrder {
            order: Vec::new(),
            activated_last: StringHashMap::new(),
            pending: Vec::new(),
        };
        assert(r@ =~= MruView::empty());
        r
    }

    /// Makes the promotions that are due at the time `now`, and tells whether
    /// there were any.
    pub fn settle(&mut self, now: u64) -> (r: bool)
        ensures
            final(self)@ == old(self)@.settled(now),
            old(self)@.well_formed() ==> final(self)@.well_formed(),
            r == old(self)@.any_due(now),
    {
        let ghost before = self@;
        let ghost all = promotions(self.pending@);
        let mut any = false;
        let mut rest: Vec<Pending> = Vec::new();
        let mut i: usize = 0;
        assert(all.take(0).filter(due(now)) =~= Seq::<Promotion>::empty() && promotions(rest@)
            =~= all.take(0).filter(not_due(now))) by {
            reveal(Seq::filter);
        }
        while i < self.pending.len()
            invariant
                i <= self.pending.len(),
                all == before.pending,
                all == promotions(self.pending@),
                before.activated == self.activated_last@,
                identifiers(self.order@) == promoted_all(
                    before.order,
                    all.take(i as int).filter(due(now)),
                ),
                promotions(rest@) == all.take(i as int).filter(not_due(now)),
                any <==> exists|j: int| 0 <= j < i && due(now)(#[trigger] before.pending[j]),
            decreases self.pending.len() - i,
        {
            let since: u64 = self.pending[i].since;
            let new = self.pending[i].new;
            let id = self.pending[i].id.clone();
            let ghost here = identifiers(self.order@);
            let ghost kept = promotions(rest@);
            proof {
                assert(all[i as int] == (id@, since, new));
                assert(all.take(i + 1) =~= all.take(i as int).push(all[i as int]));
                all.take(i as int).lemma_filter_push(all[i as int], due(now));
                all.take(i as int).lemma_filter_push(all[i as int], not_due(now));
            }
            if now >= since && now - since >= PROMOTION_DELAY_MS {
                let ghost id_text = id@;
                take_out(&mut self.order, &id);
                let ghost without = identifiers(self.order@);
                self.order.push(id);
                proof {
                    assert(due(now)(before.pending[i as int]));
                    let made = all.take(i as int).filter(due(now));
                    assert(made.push(all[i as int]).drop_last() =~= made);
                    assert(identifiers(self.order@) =~= without.push(id_text));
                    assert(identifiers(self.order@) == promoted(here, id_text));
                }
                any = true;
            } else {
                rest.push(Pending { id, since, new });
                assert(promotions(rest@) =~= kept.push(all[i as int]));
            }
            i += 1;
        }
        assert(all.take(i as int) =~= all);
        self.pending = rest;
        proof {
            assert(self@ =~= before.settled(now));
            if before.well_formed() {
                lemma_settled_well_formed(before, now);
            }
        }
        any
    }

    /// How long to wait from `now` on until the first promotion to come is due.
    pub fn wait(&self, now: u64) -> (r: Option<u64>)
        ensures
            self@.is_wait(now, r),
    {
        let mut least: Option<u64> = None;
        let mut i: usize = 0;
        while i < self.pending.len()
            invariant
                i <= self.pending.len(),
                match least {
                    Some(w) => {
                        &&& exists|j: int|
                            0 <= j < i && remaining((#[trigger] self@.pending[j]).1, now) == w
                        &&& forall|j: int|
                            0 <= j < i ==> w <= remaining((#[trigger] self@.pending[j]).1, now)
                    },
                    None => i == 0,
                },
            decreases self.pending.len() - i,
        {
            let since: u64 = self.pending[i].since;
            let left: u64 = if now <= since {
                PROMOTION_DELAY_MS
            } else if now - since >= PROMOTION_DELAY_MS {
                0
            } else {
                PROMOTION_DELAY_MS - (now - since)
            };
            assert(remaining(self@.pending[i as int].1, now) == left);
            least = match least {
                Some(w) => if left < w {
                    Some(left)
                } else {
                    Some(w)
                },
                None => Some(left),
            };
            i += 1;
        }
        least
    }

    /// Takes in a report on the toplevel `id` at the time `now`: whether it is
    /// activated.
    pub fn note(&mut self, id: &String, activated: bool, now: u64)
        ensures
            final(self)@ == old(self)@.noted(id@, activated, now),
            old(self)@.well_formed() ==> final(self)@.well_formed(),
    {
        self.settle(now);
        let ghost before = self@;
        let was = match self.activated_last.get(id.as_str()) {
            Some(b) => *b,
            None => false,
        };
        let focuses = activated && !was;
        self.activated_last.insert(id.clone(), activated);
        let new = !holds(&self.order, id);
        if new {
            if focuses {
                self.order.push(id.clone());
            } else {
                self.order.insert(0, id.clone());
            }
        } else if !activated && holds_new(&self.pending, id) {
            take_out(&mut self.order, id);
            self.order.insert(0, id.clone());
        }
        if focuses {
            self.pending.push(Pending { id: id.clone(), since: now, new });
        } else if !activated {
            self.pending = promotions_of_others(&self.pending, id);
        }
        proof {
            assert(self@ =~= before.reported(id@, activated, now));
            if before.well_formed() {
                lemma_reported_well_formed(before, id@, activated, now);
            }
        }
    }

    /// Drops the toplevel `id`, which has been closed.
    pub fn forget(&mut self, id: &String)
        ensures
            final(self)@ == old(self)@.forgotten(id@),
            old(self)@.well_formed() ==> final(self)@.well_formed(),
    {
        take_out(&mut self.order, id);
        self.activated_last.remove(id.as_str());
        self.pending = promotions_of_others(&self.pending, id);
        proof {
            assert(self@ =~= old(self)@.forgotten(id@));
            if old(self)@.well_formed() {
                lemma_forgotten_well_formed(old(self)@, id@);
            }
        }
    }

    /// How many toplevels have been used more recently than `id`.
    pub fn rank(&self, id: &String) -> (r: usize)
        ensures
            r == self@.rank(id@),
    {
        proof {
            self@.order.index_of_last_ensures(id@);
        }
        let mut i: usize = self.order.len();
        while i > 0
            invariant
                i <= self.order.len(),
                forall|j: int| i <= j < self.order.len() ==> self@.order[j] != id@,
                self@.order.index_of_last(id@) matches Some(p) ==> 0 <= p < self.order.len()
                    && self@.order[p] == id@ && forall|j: int|
                    p < j < self.order.len() ==> self@.order[j] != id@,
                self@.order.index_of_last(id@) is None ==> !self@.order.contains(id@),
            decreases i,
        {
            if self.order[i - 1] == *id {
                assert(self@.order[i - 1] == id@);
                return self.order.len() - i;
            }
            i -= 1;
        }
        self.order.len()
    }
}

/// A promotion keeps an order free of duplicates, and adds the promoted one
/// only.
pub proof fn lemma_promoted(order: Seq<Seq<char>>, id: Seq<char>)
    requires
        order.no_duplicates(),
    ensures
        promoted(order, id).no_duplicates(),
        forall|x: Seq<char>| #[trigger]
            promoted(order, id).contains(x) <==> order.contains(x) || x == id,
{
    let rest = order.filter(other_than(id));
    let r = promoted(order, id);
    lemma_filter_no_duplicates(order, other_than(id));
    lemma_filter_contains(order, other_than(id));
    assert forall|x: Seq<char>| #[trigger] r.contains(x) <==> order.contains(x) || x == id by {
        if rest.contains(x) {
            let k = choose|k: int| 0 <= k < rest.len() && rest[k] == x;
            assert(r[k] == x);
        }
        assert(r[rest.len() as int] == id);
        if r.contains(x) && x != id {
            let k = choose|k: int| 0 <= k < r.len() && r[k] == x;
            assert(rest[k] == x);
        }
    }
    assert forall|i: int, j: int| 0 <= i < r.len() && 0 <= j < r.len() && i != j implies r[i]
        != r[j] by {
        if i < rest.len() {
            assert(rest.contains(rest[i]));
        }
        if j < rest.len() {
            assert(rest.contains(rest[j]));
        }
    }
}

/// A demotion keeps an order free of duplicates, and adds the demoted one only.
proof fn lemma_demoted(order: Seq<Seq<char>>, id: Seq<char>)
    requires
        order.no_duplicates(),
    ensures
        demoted(order, id).no_duplicates(),
        forall|x: Seq<char>| #[trigger]
            demoted(order, id).contains(x) <==> order.contains(x) || x == id,
{
    let rest = order.filter(other_than(id));
    let r = demoted(order, id);
    lemma_filter_no_duplicates(order, other_than(id));
    lemma_filter_contains(order, other_than(id));
    assert forall|x: Seq<char>| #[trigger] r.contains(x) <==> order.contains(x) || x == id by {
        if rest.contains(x) {
            let k = choose|k: int| 0 <= k < rest.len() && rest[k] == x;
            assert(r[k + 1] == x);
        }
        assert(r[0] == id);
        if r.contains(x) && x != id {
            let k = choose|k: int| 0 <= k < r.len() && r[k] == x;
            assert(rest[k - 1] == x);
        }
    }
    assert forall|i: int, j: int| 0 <= i < r.len() && 0 <= j < r.len() && i != j implies r[i]
        != r[j] by {
        if i > 0 {
            assert(rest.contains(rest[i - 1]));
        }
        if j > 0 {
            assert(rest.contains(rest[j - 1]));
        }
    }
}

/// Promotions of identifiers that an order holds keep it free of duplicates,
/// and neither add nor take out any.
pub proof fn lemma_promoted_all(order: Seq<Seq<char>>, made: Seq<Promotion>)
    requires
        order.no_duplicates(),
        forall|i: int| 0 <= i < made.len() ==> order.contains((#[trigger] made[i]).0),
    ensures
        promoted_all(order, made).no_duplicates(),
        forall|x: Seq<char>| #[trigger] promoted_all(order, made).contains(x) <==> order.contains(x),
    decreases made.len(),
{
    if made.len() > 0 {
        let front = made.drop_last();
        assert forall|i: int| 0 <= i < front.len() implies order.contains(
            (#[trigger] front[i]).0,
        ) by {
            assert(front[i] == made[i]);
        }
        lemma_promoted_all(order, front);
        lemma_promoted(promoted_all(order, front), made.last().0);
        assert(order.contains(made[made.len() - 1].0));
    }
}

/// What a filter leaves of promotions of different toplevels is of different
/// toplevels.
proof fn lemma_filter_distinct(s: Seq<Promotion>, keep: spec_fn(Promotion) -> bool)
    requires
        forall|i: int, j: int|
            0 <= i < j < s.len() ==> (#[trigger] s[i]).0 != (#[trigger] s[j]).0,
    ensures
        forall|i: int, j: int|
            0 <= i < j < s.filter(keep).len() ==> (#[trigger] s.filter(keep)[i]).0 != (
            #[trigger] s.filter(keep)[j]).0,
    decreases s.len(),
{
    reveal(Seq::filter);
    if s.len() > 0 {
        let front = s.drop_last();
        lemma_filter_distinct(front, keep);
        lemma_filter_contains(front, keep);
        let f = front.filter(keep);
        assert forall|i: int| 0 <= i < f.len() implies (#[trigger] f[i]).0 != s.last().0 by {
            assert(f.contains(f[i]));
            let k = choose|k: int| 0 <= k < front.len() && front[k] == f[i];
            assert(s[k].0 != s[s.len() - 1].0);
        }
    }
}

/// Filtering the promotions to come keeps the facts about them.
proof fn lemma_filtered_pending(v: MruView, keep: spec_fn(Promotion) -> bool)
    requires
        v.well_formed(),
    ensures
        forall|i: int|
            0 <= i < v.pending.filter(keep).len() ==> v.has_focus(
                (#[trigger] v.pending.filter(keep)[i]).0,
            ) && keep(v.pending.filter(keep)[i]),
        forall|i: int, j: int|
            0 <= i < j < v.pending.filter(keep).len() ==> (#[trigger] v.pending.filter(keep)[i]).0
                != (#[trigger] v.pending.filter(keep)[j]).0,
{
    let f = v.pending.filter(keep);
    lemma_filter_distinct(v.pending, keep);
    lemma_filter_contains(v.pending, keep);
    assert forall|i: int| 0 <= i < f.len() implies v.has_focus((#[trigger] f[i]).0) && keep(
        f[i],
    ) by {
        assert(f.contains(f[i]));
        let k = choose|k: int| 0 <= k < v.pending.len() && v.pending[k] == f[i];
        assert(v.has_focus(v.pending[k].0));
    }
}

/// Making the promotions that are due keeps an order well formed, and neither
/// adds nor takes out any toplevel.
pub proof fn lemma_settled_well_formed(v: MruView, now: u64)
    requires
        v.well_formed(),
    ensures
        v.settled(now).well_formed(),
        forall|x: Seq<char>| #[trigger] v.settled(now).order.contains(x) <==> v.order.contains(x),
{
    let made = v.pending.filter(due(now));
    lemma_filtered_pending(v, due(now));
    lemma_filtered_pending(v, not_due(now));
    assert forall|i: int| 0 <= i < made.len() implies v.order.contains((#[trigger] made[i]).0) by {
        assert(v.has_focus(made[i].0));
    }
    lemma_promoted_all(v.order, made);
}

/// Taking in a report keeps an order well formed, and adds the toplevel that it
/// is about only.
pub proof fn lemma_reported_well_formed(v: MruView, id: Seq<char>, activated: bool, now: u64)
    requires
        v.well_formed(),
    ensures
        v.reported(id, activated, now).well_formed(),
        forall|x: Seq<char>| #[trigger]
            v.reported(id, activated, now).order.contains(x) <==> v.order.contains(x) || x == id,
{
    let w = v.reported(id, activated, now);
    lemma_demoted(v.order, id);
    assert forall|x: Seq<char>| #[trigger] w.order.contains(x) <==> v.order.contains(x) || x
        == id by {
        if !v.order.contains(id) {
            let shift: int = if v.focuses(id, activated) {
                0
            } else {
                1
            };
            if v.order.contains(x) {
                let k = choose|k: int| 0 <= k < v.order.len() && v.order[k] == x;
                assert(w.order[k + shift] == x);
            }
            assert(w.order[if shift == 0 { v.order.len() as int } else { 0 }] == id);
            if w.order.contains(x) && x != id {
                let k = choose|k: int| 0 <= k < w.order.len() && w.order[k] == x;
                assert(v.order[k - shift] == x);
            }
        }
    }
    assert(w.order.no_duplicates()) by {
        if !v.order.contains(id) {
            let shift: int = if v.focuses(id, activated) {
                0
            } else {
                1
            };
            assert forall|i: int, j: int|
                0 <= i < w.order.len() && 0 <= j < w.order.len() && i != j implies w.order[i]
                != w.order[j] by {
                if 0 <= i - shift < v.order.len() {
                    assert(v.order.contains(v.order[i - shift]));
                }
                if 0 <= j - shift < v.order.len() {
                    assert(v.order.contains(v.order[j - shift]));
                }
            }
        }
    }
    lemma_filtered_pending(v, not_of(id));
    assert forall|i: int| 0 <= i < w.pending.len() implies w.has_focus(
        (#[trigger] w.pending[i]).0,
    ) by {
        if i < v.pending.len() {
            assert(v.has_focus(v.pending[i].0));
        }
    }
    assert forall|i: int, j: int| 0 <= i < j < w.pending.len() implies (#[trigger] w.pending[i]).0
        != (#[trigger] w.pending[j]).0 by {
        assert(v.has_focus(v.pending[i].0));
    }
}

/// A report at a time keeps an order well formed, and adds the toplevel that it
/// is about only.
pub proof fn lemma_noted_well_formed(v: MruView, id: Seq<char>, activated: bool, now: u64)
    requires
        v.well_formed(),
    ensures
        v.noted(id, activated, now).well_formed(),
        forall|x: Seq<char>| #[trigger]
            v.noted(id, activated, now).order.contains(x) <==> v.order.contains(x) || x == id,
{
    lemma_settled_well_formed(v, now);
    lemma_reported_well_formed(v.settled(now), id, activated, now);
    assert forall|x: Seq<char>| #[trigger]
        v.noted(id, activated, now).order.contains(x) <==> v.order.contains(x) || x == id by {
        assert(v.settled(now).order.contains(x) <==> v.order.contains(x));
    }
}

/// Dropping a toplevel keeps an order well formed.
pub proof fn lemma_forgotten_well_formed(v: MruView, id: Seq<char>)
    requires
        v.well_formed(),
    ensures
        v.forgotten(id).well_formed(),
        !v.forgotten(id).order.contains(id),
{
    lemma_filter_no_duplicates(v.order, other_than(id));
    lemma_filter_contains(v.order, other_than(id));
    lemma_filtered_pending(v, not_of(id));
    let w = v.forgotten(id);
    assert forall|i: int| 0 <= i < w.pending.len() implies w.has_focus(
        (#[trigger] w.pending[i]).0,
    ) by {
        assert(v.has_focus(v.pending.filter(not_of(id))[i].0));
    }
}

} // verus!
