//! What the listener thread makes of the compositor's events, and of the
//! requests that the application sends it.

use crate::listing::{lemma_window_order, listed_windows, window_list, window_order};
use crate::mru::{MruOrder, MruView};
use crate::screen::{is_screen_height, screen_height};
use crate::window::{
    toplevel_views, window_views, OutputInfo, ToplevelInfo, ToplevelView, WindowInfo, WindowView,
    Workspace,
};
use vstd::prelude::*;

verus! {

/// A command from the application to the listener thread.
#[derive(Debug)]
pub enum WaylandRequest {
    /// Give keyboard focus to the toplevel with this identifier.
    Activate(String),
}

/// The items that the application receives from the listener: `Ready` once,
/// with the handle by which to send requests, then updates.
#[derive(Clone, Debug)]
pub enum WaylandEvent<H> {
    Ready(H),
    Windows(Vec<WindowInfo>),
    /// Logical height of the smallest connected monitor, in pixels.
    ScreenHeight(u32),
}

/// The updates that the listener thread sends.
#[derive(Debug)]
pub enum ThreadEvent {
    Windows(Vec<WindowInfo>),
    ScreenHeight(u32),
}

/// What the compositor has described so far.
pub struct Compositor {
    pub toplevels: Vec<ToplevelInfo>,
    pub workspaces: Vec<Workspace>,
    /// The outputs; `None` stands for one without information yet.
    pub outputs: Vec<Option<OutputInfo>>,
    /// How many seats there are.
    pub seats: usize,
}

/// One call to the compositor: give `toplevel` the focus of `seat`, each by
/// its position.
#[derive(Clone, Copy, Debug, PartialEq, Eq, Structural)]
pub struct Activation {
    pub toplevel: usize,
    pub seat: usize,
}

/// The toplevel at position `i` is the first with the identifier `id`.
pub open spec fn is_first_with(toplevels: Seq<ToplevelView>, id: Seq<char>, i: int) -> bool {
    &&& 0 <= i < toplevels.len()
    &&& toplevels[i].identifier == id
    &&& forall|j: int| 0 <= j < i ==> (#[trigger] toplevels[j]).identifier != id
}

/// The calls that give keyboard focus to the toplevel with the identifier `id`:
/// one for each seat, and none where no toplevel has the identifier or the
/// first that has it cannot be controlled.
pub open spec fn activations(
    toplevels: Seq<ToplevelView>,
    seats: usize,
    id: Seq<char>,
) -> Seq<Activation> {
    if exists|i: int| #[trigger] is_first_with(toplevels, id, i) && toplevels[i].controllable {
        let i = choose|i: int| #[trigger] is_first_with(toplevels, id, i);
        Seq::new(seats as nat, |k: int| Activation { toplevel: i as usize, seat: k as usize })
    } else {
        Seq::empty()
    }
}

/// The list of windows that belongs to a state.
pub open spec fn windows_of(compositor: Compositor, mru: MruView) -> Seq<WindowView> {
    listed_windows(toplevel_views(compositor.toplevels@), compositor.workspaces@, mru)
}

/// The event carries this list of windows.
pub open spec fn carries(event: ThreadEvent, windows: Seq<WindowView>) -> bool {
    event matches ThreadEvent::Windows(w) && window_views(w@) == windows
}

/// The event carries the list of windows that belongs to a state.
pub open spec fn carries_windows(event: ThreadEvent, compositor: Compositor, mru: MruView) -> bool {
    carries(event, windows_of(compositor, mru))
}

/// The toplevels without the first that is described like `closed`; all of them
/// where there is none.
pub open spec fn without(toplevels: Seq<ToplevelView>, closed: ToplevelView) -> Seq<ToplevelView> {
    toplevels.remove_value(closed)
}

/// Every toplevel with the identifier of `closed` is `closed` itself: it is
/// described like that, and it is the only one.
pub open spec fn alone_with_its_identifier(
    toplevels: Seq<ToplevelView>,
    closed: ToplevelView,
) -> bool {
    &&& forall|i: int|
        0 <= i < toplevels.len() && (#[trigger] toplevels[i]).identifier == closed.identifier
            ==> toplevels[i] == closed
    &&& forall|i: int, j: int|
        0 <= i < j < toplevels.len() && #[trigger] toplevels[i] == closed ==> #[trigger] toplevels[j]
            != closed
}

/// The event carries the height of the smallest monitor; there is no event
/// where no height is known.
pub open spec fn carries_height(event: Option<ThreadEvent>, compositor: Compositor) -> bool {
    match event {
        Some(e) => e matches ThreadEvent::ScreenHeight(h) && is_screen_height(
            compositor.outputs@,
            h as int,
        ) && forall|o: int| #[trigger] is_screen_height(compositor.outputs@, o) ==> h <= o,
        None => forall|o: int| !(#[trigger] is_screen_height(compositor.outputs@, o)),
    }
}

impl Compositor {
    /// The event that tells the height of the smallest monitor.
    pub fn emit_screen_height(&self) -> (r: Option<ThreadEvent>)
        ensures
            carries_height(r, *self),
    {
        match screen_height(&self.outputs) {
            Some(h) => Some(ThreadEvent::ScreenHeight(h)),
            None => None,
        }
    }

    /// An output has appeared.
    pub fn new_output(&self) -> (r: Option<ThreadEvent>)
        ensures
            carries_height(r, *self),
    {
        self.emit_screen_height()
    }

    /// An output has changed.
    pub fn update_output(&self) -> (r: Option<ThreadEvent>)
        ensures
            carries_height(r, *self),
    {
        self.emit_screen_height()
    }

    /// An output is gone.
    pub fn output_destroyed(&self) -> (r: Option<ThreadEvent>)
        ensures
            carries_height(r, *self),
    {
        self.emit_screen_height()
    }

    /// The position of the first toplevel with the identifier `id`.
    fn position(&self, id: &String) -> (r: Option<usize>)
        ensures
            match r {
                Some(i) => is_first_with(toplevel_views(self.toplevels@), id@, i as int),
                None => forall|i: int| !is_first_with(toplevel_views(self.toplevels@), id@, i),
            },
    {
        let ghost views = toplevel_views(self.toplevels@);
        let mut i: usize = 0;
        while i < self.toplevels.len()
            invariant
                i <= self.toplevels.len(),
                views == toplevel_views(self.toplevels@),
                forall|j: int| 0 <= j < i ==> (#[trigger] views[j]).identifier != id@,
            decreases self.toplevels.len() - i,
        {
            assert(views[i as int] == self.toplevels@[i as int]@);
            if self.toplevels[i].identifier == *id {
                return Some(i);
            }
            i += 1;
        }
        None
    }

    /// The calls that give focus to the toplevel with the given identifier:
    /// one for each seat, and none where there is no such toplevel or it
    /// cannot be controlled.
    pub fn activate_by_identifier(&self, identifier: &String) -> (r: Vec<Activation>)
        ensures
            r@ == activations(toplevel_views(self.toplevels@), self.seats, identifier@),
    {
        let mut r: Vec<Activation> = Vec::new();
        let ghost views = toplevel_views(self.toplevels@);
        if let Some(i) = self.position(identifier) {
            proof {
                let chosen = choose|k: int| #[trigger] is_first_with(views, identifier@, k);
                assert(views[chosen].identifier == identifier@);
                assert(views[i as int].identifier == identifier@);
                assert(chosen == i);
                assert(views[i as int].controllable == self.toplevels@[i as int].controllable);
            }
            if self.toplevels[i].controllable {
                let mut seat: usize = 0;
                while seat < self.seats
                    invariant
                        seat <= self.seats,
                        r.len() == seat,
                        forall|k: int|
                            0 <= k < seat ==> #[trigger] r@[k] == (Activation {
                                toplevel: i,
                                seat: k as usize,
                            }),
                    decreases self.seats - seat,
                {
                    r.push(Activation { toplevel: i, seat });
                    seat += 1;
                }
            } else {
                assert forall|k: int|
                    #[trigger] is_first_with(views, identifier@, k) implies !views[k].controllable by {
                    assert(views[k].identifier == identifier@);
                }
            }
        }
        assert(r@ =~= activations(views, self.seats, identifier@));
        r
    }

    /// What to do with an item of the request channel: the calls to make, after
    /// which the connection is flushed. `None` as the item stands for the end
    /// of the channel, after which there is nothing to do.
    pub fn handle_request(&self, item: Option<WaylandRequest>) -> (r: Option<Vec<Activation>>)
        ensures
            match item {
                Some(WaylandRequest::Activate(id)) => r matches Some(calls) && calls@
                    == activations(toplevel_views(self.toplevels@), self.seats, id@),
                None => r is None,
            },
    {
        match item {
            Some(WaylandRequest::Activate(id)) => Some(self.activate_by_identifier(&id)),
            None => None,
        }
    }
}

/// The toplevels without the first that is described like `closed`.
fn toplevels_without(toplevels: &Vec<ToplevelInfo>, closed: &ToplevelInfo) -> (r: Vec<ToplevelInfo>)
    ensures
        toplevel_views(r@) == without(toplevel_views(toplevels@), closed@),
{
    let ghost all = toplevel_views(toplevels@);
    let mut r: Vec<ToplevelInfo> = Vec::new();
    let mut found = false;
    let ghost mut at: int = 0;
    let mut i: usize = 0;
    while i < toplevels.len()
        invariant
            i <= toplevels.len(),
            all == toplevel_views(toplevels@),
            found ==> 0 <= at < i && all[at] == closed@ && toplevel_views(r@) == all.take(
                i as int,
            ).remove(at) && forall|j: int| 0 <= j < at ==> all[j] != closed@,
            !found ==> toplevel_views(r@) == all.take(i as int) && forall|j: int|
                0 <= j < i ==> all[j] != closed@,
        decreases toplevels.len() - i,
    {
        let t = &toplevels[i];
        let ghost before = toplevel_views(r@);
        assert(all[i as int] == t@);
        assert(all.take(i + 1) =~= all.take(i as int).push(t@));
        if !found && t.same(closed) {
            found = true;
            proof {
                at = i as int;
                assert(all.take(i + 1).remove(at) =~= all.take(i as int));
            }
        } else {
            r.push(t.duplicate());
            proof {
                assert(toplevel_views(r@) =~= before.push(t@));
                if found {
                    assert(all.take(i + 1).remove(at) =~= all.take(i as int).remove(at).push(t@));
                }
            }
        }
        i += 1;
    }
    proof {
        assert(all.take(i as int) =~= all);
        all.index_of_first_ensures(closed@);
        if found {
            assert(all.contains(closed@));
            assert(all.index_of_first(closed@) == Some(at));
        }
    }
    r
}

/// A toplevel that is alone with its identifier leaves no window with that
/// identifier behind.
proof fn lemma_closed_is_not_listed(
    toplevels: Seq<ToplevelView>,
    workspaces: Seq<Workspace>,
    mru: MruView,
    closed: ToplevelView,
)
    requires
        alone_with_its_identifier(toplevels, closed),
    ensures
        forall|k: int|
            0 <= k < listed_windows(without(toplevels, closed), workspaces, mru).len() ==> (
            #[trigger] listed_windows(without(toplevels, closed), workspaces, mru)[k]).identifier
                != closed.identifier,
{
    let rest = without(toplevels, closed);
    let listed = listed_windows(rest, workspaces, mru);
    let order = window_order(rest, workspaces, mru);
    toplevels.index_of_first_ensures(closed);
    lemma_window_order(rest, workspaces, mru);
    assert forall|k: int| 0 <= k < listed.len() implies (#[trigger] listed[k]).identifier
        != closed.identifier by {
        assert(order.contains(order[k]));
        let i = order[k];
        assert(listed[k] == rest[i].window());
        match toplevels.index_of_first(closed) {
            Some(p) => {
                let j = if i < p { i } else { i + 1 };
                assert(rest[i] == toplevels[j]);
                assert(toplevels[p] == closed);
                assert(toplevels[j] != closed);
            },
            None => {
                assert(toplevels.contains(toplevels[i]));
            },
        }
    }
}

/// What the listener keeps between events. Times are in milliseconds, by any
/// one clock.
pub struct WaylandState {
    mru: MruOrder,
}

impl View for WaylandState {
    type V = MruView;

    closed spec fn view(&self) -> MruView {
        self.mru@
    }
}

impl WaylandState {
    /// The state before the first event.
    pub fn new() -> (r: WaylandState)
        ensures
            r@ == MruView::empty(),
            r@.well_formed(),
    {
        WaylandState { mru: MruOrder::new() }
    }

    /// Takes in what is known of a toplevel at the time `now`; there is nothing
    /// to take in where nothing is known of it yet.
    pub fn note_toplevel_update(&mut self, info: Option<&ToplevelInfo>, now: u64)
        ensures
            final(self)@ == match info {
                Some(t) => old(self)@.noted(t@.identifier, t@.activated(), now),
                None => old(self)@,
            },
            old(self)@.well_formed() ==> final(self)@.well_formed(),
    {
        if let Some(info) = info {
            self.mru.note(&info.identifier, info.activated(), now);
        }
    }

    /// The event that tells which windows there are.
    pub fn emit_window_list(&self, compositor: &Compositor) -> (r: ThreadEvent)
        ensures
            carries_windows(r, *compositor, self@),
    {
        ThreadEvent::Windows(window_list(&compositor.toplevels, &compositor.workspaces, &self.mru))
    }

    /// A toplevel has appeared.
    pub fn new_toplevel(
        &mut self,
        info: Option<&ToplevelInfo>,
        compositor: &Compositor,
        now: u64,
    ) -> (r: ThreadEvent)
        ensures
            final(self)@ == match info {
                Some(t) => old(self)@.noted(t@.identifier, t@.activated(), now),
                None => old(self)@,
            },
            old(self)@.well_formed() ==> final(self)@.well_formed(),
            carries_windows(r, *compositor, final(self)@),
    {
        self.note_toplevel_update(info, now);
        self.emit_window_list(compositor)
    }

    /// A toplevel has changed.
    pub fn update_toplevel(
        &mut self,
        info: Option<&ToplevelInfo>,
        compositor: &Compositor,
        now: u64,
    ) -> (r: ThreadEvent)
        ensures
            final(self)@ == match info {
                Some(t) => old(self)@.noted(t@.identifier, t@.activated(), now),
                None => old(self)@,
            },
            old(self)@.well_formed() ==> final(self)@.well_formed(),
            carries_windows(r, *compositor, final(self)@),
    {
        self.note_toplevel_update(info, now);
        self.emit_window_list(compositor)
    }

    /// A toplevel has been closed. Its window is not listed any more, though
    /// the compositor's description may still hold it.
    pub fn toplevel_closed(
        &mut self,
        info: Option<&ToplevelInfo>,
        compositor: &Compositor,
    ) -> (r: ThreadEvent)
        ensures
            final(self)@ == match info {
                Some(t) => old(self)@.forgotten(t@.identifier),
                None => old(self)@,
            },
            old(self)@.well_formed() ==> final(self)@.well_formed(),
            match info {
                Some(t) => carries(
                    r,
                    listed_windows(
                        without(toplevel_views(compositor.toplevels@), t@),
                        compositor.workspaces@,
                        final(self)@,
                    ),
                ),
                None => carries_windows(r, *compositor, final(self)@),
            },
            info matches Some(t) ==> alone_with_its_identifier(
                toplevel_views(compositor.toplevels@),
                t@,
            ) ==> (r matches ThreadEvent::Windows(w) && forall|k: int|
                0 <= k < w@.len() ==> (#[trigger] window_views(w@)[k]).identifier
                    != t@.identifier),
    {
        match info {
            Some(info) => {
                self.mru.forget(&info.identifier);
                let open = toplevels_without(&compositor.toplevels, info);
                let windows = window_list(&open, &compositor.workspaces, &self.mru);
                proof {
                    let views = toplevel_views(compositor.toplevels@);
                    if alone_with_its_identifier(views, info@) {
                        lemma_closed_is_not_listed(
                            views,
                            compositor.workspaces@,
                            self.mru@,
                            info@,
                        );
                    }
                }
                ThreadEvent::Windows(windows)
            },
            None => self.emit_window_list(compositor),
        }
    }

    /// Makes the promotions that are due at the time `now`. Where there are
    /// any, the event tells which windows there are.
    pub fn settle(&mut self, compositor: &Compositor, now: u64) -> (r: Option<ThreadEvent>)
        ensures
            final(self)@ == old(self)@.settled(now),
            old(self)@.well_formed() ==> final(self)@.well_formed(),
            match r {
                Some(event) => old(self)@.any_due(now) && carries_windows(
                    event,
                    *compositor,
                    final(self)@,
                ),
                None => !old(self)@.any_due(now),
            },
    {
        if self.mru.settle(now) {
            Some(self.emit_window_list(compositor))
        } else {
            None
        }
    }

    /// How long to wait from `now` on for an event before the promotions are to
    /// be settled; there is no limit where none is to come.
    pub fn wait(&self, now: u64) -> (r: Option<u64>)
        ensures
            self@.is_wait(now, r),
    {
        self.mru.wait(now)
    }

    /// A batch of workspace changes is complete.
    pub fn done(&self, compositor: &Compositor) -> (r: ThreadEvent)
        ensures
            carries_windows(r, *compositor, self@),
    {
        self.emit_window_list(compositor)
    }
}

/// The item that the application receives for what came out of the thread's
/// channel; `None` in, the end of the channel, is `None` out, the end of the
/// items.
pub fn forward_event<H>(received: Option<ThreadEvent>) -> (r: Option<WaylandEvent<H>>)
    ensures
        r == match received {
            Some(ThreadEvent::Windows(windows)) => Some(WaylandEvent::<H>::Windows(windows)),
            Some(ThreadEvent::ScreenHeight(h)) => Some(WaylandEvent::<H>::ScreenHeight(h)),
            None => None,
        },
{
    match received {
        Some(ThreadEvent::Windows(windows)) => Some(WaylandEvent::Windows(windows)),
        Some(ThreadEvent::ScreenHeight(h)) => Some(WaylandEvent::ScreenHeight(h)),
        None => None,
    }
}

} // verus!
