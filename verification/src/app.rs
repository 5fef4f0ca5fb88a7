//! The application: what it keeps, how each message changes it, what effects
//! that has, and what the overlay shows.

use crate::icon::{icon_name, icon_name_for, icon_source, icon_view, IconSource, IconView};
use crate::input::{input_message, message_of_input, InputEvent, Modifiers};
use crate::wayland::WaylandRequest;
use crate::window::{window_views, WindowInfo, WindowView};
use freedesktop_desktop_entry::DesktopEntry;
use vstd::prelude::*;

verus! {

/// How long after a summon the list is scrolled to the highlight, in
/// milliseconds. Before the first drawing of the overlay there is no list to
/// scroll.
pub const SYNC_SCROLL_DELAY_MS: u64 = 50;

/// How long after a commit the committed window stays the first of the list, in
/// milliseconds. By then the listener has taken in the change of focus.
pub const PIN_MS: u64 = 1000;

/// What the application is told. `H` is the handle by which requests are sent
/// to the listener thread.
#[derive(Clone, Debug)]
pub enum Message<H> {
    /// The handle for sending requests; arrives once.
    WaylandReady(H),
    WindowsUpdated(Vec<WindowInfo>),
    /// Logical height of the smallest connected monitor, in pixels.
    ScreenHeight(u32),
    /// Commit the selection: activate the highlighted window, then hide.
    Confirm,
    /// Dismiss the overlay without switching.
    Cancel,
    /// Forward summon-or-cycle. If hidden, summon with the previous window
    /// (the second of the list) highlighted; if shown, advance the highlight
    /// by one.
    CycleNext,
    /// Backward summon-or-cycle. If hidden, summon with the least recently
    /// used window highlighted; if shown, move the highlight back by one.
    CyclePrev,
    /// Scroll the list to the highlight, some time after a summon.
    SyncScroll,
    /// These modifiers are held. The first such message after a summon comes
    /// when the overlay gains keyboard focus: these are the modifiers of the
    /// binding that summoned it, and releasing any of them commits.
    ModifiersHeld(Modifiers),
}

/// What is to be done with the overlay.
#[derive(Clone, Copy, Debug, PartialEq, Eq, Structural)]
pub enum Task {
    /// Nothing.
    Idle,
    /// Create the overlay's surface, and where a delay is given, send
    /// [`Message::SyncScroll`] after so many milliseconds.
    Summon { sync_scroll_after: Option<u64> },
    /// Destroy the overlay's surface.
    Hide,
    /// Scroll the list to the fraction `index / last` of its length: zero is
    /// the top, one the bottom.
    SnapTo { index: usize, last: usize },
}

/// What a message leads to outside the application's own state: a request to
/// send to the listener thread, and then a task.
#[derive(Debug)]
pub struct Effects {
    pub request: Option<WaylandRequest>,
    pub task: Task,
}

/// The identifier of the window that a request asks to activate.
pub open spec fn requested(request: Option<WaylandRequest>) -> Option<Seq<char>> {
    match request {
        Some(WaylandRequest::Activate(id)) => Some(id@),
        None => None,
    }
}

/// What an [`AppModel`] holds.
#[verifier::ext_equal]
#[verifier::reject_recursive_types(H)]
pub struct AppView<H> {
    pub windows: Seq<WindowView>,
    pub entries: Seq<DesktopEntry>,
    pub shown: bool,
    pub highlighted: int,
    pub wayland: Option<H>,
    pub screen_height: Option<u32>,
    /// The modifiers that were held when the overlay first gained keyboard
    /// focus, once it has, since the last summon.
    pub held: Option<Modifiers>,
    /// Commit at once where the overlay gains keyboard focus and no modifier is
    /// held.
    pub instant_commit: bool,
    /// The window that was last committed, by its identifier, and when.
    pub committed: Option<(Seq<char>, u64)>,
}

/// The list with the window at position `i` moved to the top, the others
/// keeping their order.
pub open spec fn raised(windows: Seq<WindowView>, i: int) -> Seq<WindowView> {
    seq![windows[i]] + windows.remove(i)
}

/// The identifiers of the windows of a list.
pub open spec fn window_identifiers(windows: Seq<WindowView>) -> Seq<Seq<char>> {
    windows.map_values(|w: WindowView| w.identifier)
}

/// The list with the window `id` moved to the top, where it holds one.
pub open spec fn pinned(windows: Seq<WindowView>, id: Seq<char>) -> Seq<WindowView> {
    match window_identifiers(windows).index_of_first(id) {
        Some(i) => raised(windows, i),
        None => windows,
    }
}

/// The last position of a list; zero for an empty one.
pub open spec fn last_position(len: nat) -> int {
    if len == 0 {
        0
    } else {
        len - 1
    }
}

/// The position `i`, or the last one of the list where `i` is beyond it.
pub open spec fn within(i: int, len: nat) -> int {
    if i <= last_position(len) {
        i
    } else {
        last_position(len)
    }
}

impl<H> AppView<H> {
    /// The highlight is on a window of the list, or on zero where there is none,
    /// and the positions of the list are machine numbers.
    pub open spec fn well_formed(self) -> bool {
        &&& 0 <= self.highlighted <= last_position(self.windows.len())
        &&& self.windows.len() <= usize::MAX
    }

    /// The application at its start, with these desktop entries.
    pub open spec fn initial(entries: Seq<DesktopEntry>, instant_commit: bool) -> AppView<H> {
        AppView {
            windows: Seq::empty(),
            entries,
            shown: false,
            highlighted: 0,
            wayland: None,
            screen_height: None,
            held: None,
            instant_commit,
            committed: None,
        }
    }

    /// The overlay is shown, with the highlight at position `i` or as near as
    /// the list allows.
    pub open spec fn summoned(self, i: int) -> AppView<H> {
        AppView {
            shown: true,
            highlighted: within(i, self.windows.len()),
            held: None,
            ..self
        }
    }

    /// The highlight has moved forward by `n` positions, round the list.
    pub open spec fn cycled(self, n: int) -> AppView<H> {
        if self.windows.len() == 0 {
            self
        } else {
            AppView { highlighted: (self.highlighted + n) % (self.windows.len() as int), ..self }
        }
    }

    /// The message commits the selection: it asks for that, or it tells that
    /// the overlay has gained keyboard focus with no modifier held, where that
    /// is to commit at once.
    pub open spec fn commits(self, message: Message<H>) -> bool {
        self.shown && match message {
            Message::Confirm => true,
            Message::ModifiersHeld(m) => self.instant_commit && self.held is None && m.none_held(),
            _ => false,
        }
    }

    /// The overlay is hidden after a commit at the time `now`. Where a window
    /// is requested, it is moved to the top of the list at once: the listener
    /// tells of the change of focus only later.
    pub open spec fn after_commit(self, now: u64) -> AppView<H> {
        match self.activation() {
            Some(id) => AppView {
                shown: false,
                windows: raised(self.windows, self.highlighted),
                committed: Some((id, now)),
                ..self
            },
            None => AppView { shown: false, ..self },
        }
    }

    /// How a list that arrives at the time `now` is arranged: a window that was
    /// committed less than [`PIN_MS`] ago comes first.
    pub open spec fn arranged(self, windows: Seq<WindowView>, now: u64) -> Seq<WindowView> {
        match self.committed {
            Some(c) => if now - c.1 < PIN_MS {
                pinned(windows, c.0)
            } else {
                windows
            },
            None => windows,
        }
    }

    /// The state after a message at the time `now`.
    pub open spec fn updated(self, message: Message<H>, now: u64) -> AppView<H> {
        match message {
            Message::WaylandReady(handle) => AppView { wayland: Some(handle), ..self },
            Message::WindowsUpdated(windows) => AppView {
                windows: self.arranged(window_views(windows@), now),
                highlighted: within(self.highlighted, windows@.len()),
                ..self
            },
            Message::ScreenHeight(h) => AppView { screen_height: Some(h), ..self },
            Message::Confirm => if self.shown {
                self.after_commit(now)
            } else {
                self
            },
            Message::Cancel => AppView { shown: false, ..self },
            Message::CycleNext => if self.shown {
                self.cycled(1)
            } else {
                self.summoned(1)
            },
            Message::CyclePrev => if self.shown {
                self.cycled(-1)
            } else {
                self.summoned(last_position(self.windows.len()))
            },
            Message::SyncScroll => self,
            Message::ModifiersHeld(m) => if !self.shown || self.held is Some {
                self
            } else if self.commits(message) {
                AppView { held: Some(m), ..self }.after_commit(now)
            } else {
                AppView { held: Some(m), ..self }
            },
        }
    }

    /// The task that scrolls to the highlight; a list of one window or none
    /// cannot scroll.
    pub open spec fn scroll(self) -> Task {
        if self.windows.len() <= 1 {
            Task::Idle
        } else {
            Task::SnapTo {
                index: self.highlighted as usize,
                last: last_position(self.windows.len()) as usize,
            }
        }
    }

    /// The identifier of the highlighted window, where there is one and a
    /// request can be sent.
    pub open spec fn activation(self) -> Option<Seq<char>> {
        if self.wayland is Some && 0 <= self.highlighted < self.windows.len() {
            Some(self.windows[self.highlighted].identifier)
        } else {
            None
        }
    }

    /// The task that a message leads to.
    pub open spec fn task(self, message: Message<H>) -> Task {
        match message {
            Message::Confirm | Message::ModifiersHeld(_) => if self.commits(message) {
                Task::Hide
            } else {
                Task::Idle
            },
            Message::Cancel => if self.shown {
                Task::Hide
            } else {
                Task::Idle
            },
            Message::CycleNext => if self.shown {
                self.cycled(1).scroll()
            } else {
                Task::Summon { sync_scroll_after: None }
            },
            Message::CyclePrev => if self.shown {
                self.cycled(-1).scroll()
            } else {
                Task::Summon { sync_scroll_after: Some(SYNC_SCROLL_DELAY_MS) }
            },
            Message::SyncScroll => self.scroll(),
            _ => Task::Idle,
        }
    }

    /// The identifier that a message leads to a request for.
    pub open spec fn request(self, message: Message<H>) -> Option<Seq<char>> {
        if self.commits(message) {
            self.activation()
        } else {
            None
        }
    }
}

/// The text of a window's row.
pub open spec fn label(window: WindowView) -> Seq<char> {
    window.title + " — "@ + window.app_id
}

/// A row of the list.
#[derive(Clone, Debug)]
pub struct WindowRow {
    pub icon: IconSource,
    pub label: String,
    pub highlighted: bool,
}

/// What a [`WindowRow`] shows.
pub struct RowView {
    pub icon: IconView,
    pub label: Seq<char>,
    pub highlighted: bool,
}

impl View for WindowRow {
    type V = RowView;

    open spec fn view(&self) -> RowView {
        RowView { icon: self.icon@, label: self.label@, highlighted: self.highlighted }
    }
}

/// The row for a window.
pub open spec fn row(entries: Seq<DesktopEntry>, window: WindowView, highlighted: bool) -> RowView {
    RowView {
        icon: icon_view(icon_name(entries, window.app_id)),
        label: label(window),
        highlighted,
    }
}

/// What the overlay lists.
#[derive(Clone, Debug)]
pub enum ListContent {
    /// A text in place of a list.
    Placeholder(String),
    Rows(Vec<WindowRow>),
}

/// What the overlay shows.
#[derive(Clone, Debug)]
pub struct OverlayContent {
    pub header: String,
    pub list: ListContent,
}

/// A window that was committed, and when.
struct Commit {
    identifier: String,
    at: u64,
}

/// What a [`Commit`] tells.
spec fn commit_view(commit: Option<Commit>) -> Option<(Seq<char>, u64)> {
    match commit {
        Some(c) => Some((c.identifier@, c.at)),
        None => None,
    }
}

/// The application's state. `H` is the handle by which requests are sent to
/// the listener thread.
pub struct AppModel<H> {
    windows: Vec<WindowInfo>,
    desktop_entries: Vec<DesktopEntry>,
    shown: bool,
    highlighted_index: usize,
    wayland: Option<H>,
    screen_height: Option<u32>,
    held: Option<Modifiers>,
    instant_commit: bool,
    committed: Option<Commit>,
}

impl<H> View for AppModel<H> {
    type V = AppView<H>;

    closed spec fn view(&self) -> AppView<H> {
        AppView {
            windows: window_views(self.windows@),
            entries: self.desktop_entries@,
            shown: self.shown,
            highlighted: self.highlighted_index as int,
            wayland: self.wayland,
            screen_height: self.screen_height,
            held: self.held,
            instant_commit: self.instant_commit,
            committed: commit_view(self.committed),
        }
    }
}

/// Moves the window at position `i` to the top of the list.
fn raise(windows: &mut Vec<WindowInfo>, i: usize)
    requires
        i < old(windows)@.len(),
    ensures
        window_views(final(windows)@) == raised(window_views(old(windows)@), i as int),
        final(windows)@.len() == old(windows)@.len(),
{
    let ghost before = window_views(windows@);
    let w = windows.remove(i);
    windows.insert(0, w);
    assert(window_views(windows@) =~= raised(before, i as int));
}

/// Moves the window `id` to the top of the list, where it holds one.
fn pin(windows: &mut Vec<WindowInfo>, id: &String)
    ensures
        window_views(final(windows)@) == pinned(window_views(old(windows)@), id@),
        final(windows)@.len() == old(windows)@.len(),
{
    let ghost before = windows@;
    let ghost ids = window_identifiers(window_views(before));
    proof {
        ids.index_of_first_ensures(id@);
    }
    let mut i: usize = 0;
    while i < windows.len()
        invariant
            i <= windows.len(),
            windows@ == before,
            before == old(windows)@,
            ids == window_identifiers(window_views(before)),
            forall|j: int| 0 <= j < i ==> ids[j] != id@,
        decreases windows.len() - i,
    {
        if windows[i].identifier == *id {
            assert(ids[i as int] == id@);
            assert(ids.index_of_first(id@) == Some(i as int)) by {
                ids.index_of_first_ensures(id@);
                assert(ids.contains(id@));
            }
            raise(windows, i);
            return;
        }
        i += 1;
    }
}

impl<H> AppModel<H> {
    /// The application at its start: hidden, without windows. With
    /// `instant_commit`, an overlay that gains keyboard focus while no modifier
    /// is held commits at once.
    pub fn init(desktop_entries: Vec<DesktopEntry>, instant_commit: bool) -> (r: AppModel<H>)
        ensures
            r@ == AppView::<H>::initial(desktop_entries@, instant_commit),
            r@.well_formed(),
    {
        let r = AppModel {
            windows: Vec::new(),
            desktop_entries,
            shown: false,
            highlighted_index: 0,
            wayland: None,
            screen_height: None,
            held: None,
            instant_commit,
            committed: None,
        };
        assert(r@ =~= AppView::<H>::initial(desktop_entries@, instant_commit));
        r
    }

    /// The last position of the list; zero for an empty one.
    fn last_index(&self) -> (r: usize)
        ensures
            r == last_position(self@.windows.len()),
    {
        if self.windows.len() == 0 {
            0
        } else {
            self.windows.len() - 1
        }
    }

    /// Takes in a message at the time `now`, in milliseconds by any one clock,
    /// and says what is to be done outside.
    pub fn update(&mut self, message: Message<H>, now: u64) -> (r: Effects)
        requires
            old(self)@.well_formed(),
        ensures
            final(self)@ == old(self)@.updated(message, now),
            final(self)@.well_formed(),
            r.task == old(self)@.task(message),
            requested(r.request) == old(self)@.request(message),
    {
        let ghost before = self@;
        let mut request: Option<WaylandRequest> = None;
        let mut task = Task::Idle;
        match message {
            Message::WaylandReady(handle) => {
                self.wayland = Some(handle);
            },
            Message::WindowsUpdated(mut windows) => {
                if let Some(commit) = &self.committed {
                    if now < commit.at || now - commit.at < PIN_MS {
                        pin(&mut windows, &commit.identifier);
                    }
                }
                self.windows = windows;
                let last: usize = self.last_index();
                if self.highlighted_index > last {
                    self.highlighted_index = last;
                }
            },
            Message::ScreenHeight(h) => {
                self.screen_height = Some(h);
            },
            Message::Confirm => {
                if self.shown {
                    request = self.commit(now);
                    task = Task::Hide;
                }
            },
            Message::Cancel => {
                if self.shown {
                    self.shown = false;
                    task = Task::Hide;
                }
            },
            Message::ModifiersHeld(m) => {
                if self.shown && self.held.is_none() {
                    self.held = Some(m);
                    if self.instant_commit && m.is_empty() {
                        request = self.commit(now);
                        task = Task::Hide;
                    }
                }
            },
            Message::SyncScroll => {
                task = self.scroll_to_highlighted();
            },
            Message::CycleNext => {
                if !self.shown {
                    task = self.summon_with_highlight(1, false);
                } else if self.windows.len() > 0 {
                    self.highlighted_index = (self.highlighted_index + 1) % self.windows.len();
                    task = self.scroll_to_highlighted();
                }
            },
            Message::CyclePrev => {
                if !self.shown {
                    let last: usize = self.last_index();
                    task = self.summon_with_highlight(last, true);
                } else if self.windows.len() > 0 {
                    let len: usize = self.windows.len();
                    proof {
                        lemma_step_back(self.highlighted_index as int, len as int);
                    }
                    self.highlighted_index = if self.highlighted_index == 0 {
                        len - 1
                    } else {
                        self.highlighted_index - 1
                    };
                    task = self.scroll_to_highlighted();
                }
            },
        }
        assert(self@ =~= before.updated(message, now));
        assert(self@.windows.len() == self.windows.len());
        Effects { request, task }
    }

    /// Shows the overlay with the highlight at position `idx`, or as near as
    /// the list allows.
    fn summon_with_highlight(&mut self, idx: usize, scroll_on_summon: bool) -> (r: Task)
        ensures
            final(self)@ == old(self)@.summoned(idx as int),
            r == (Task::Summon {
                sync_scroll_after: if scroll_on_summon { Some(SYNC_SCROLL_DELAY_MS) } else { None },
            }),
    {
        let last: usize = self.last_index();
        self.shown = true;
        self.held = None;
        self.highlighted_index = if idx <= last {
            idx
        } else {
            last
        };
        assert(self@ =~= old(self)@.summoned(idx as int));
        Task::Summon {
            sync_scroll_after: if scroll_on_summon {
                Some(SYNC_SCROLL_DELAY_MS)
            } else {
                None
            },
        }
    }

    /// Hides the overlay after a commit, with the request to activate the
    /// highlighted window. That window is moved to the top of the list.
    fn commit(&mut self, now: u64) -> (r: Option<WaylandRequest>)
        ensures
            final(self)@ == old(self)@.after_commit(now),
            requested(r) == old(self)@.activation(),
    {
        let request = self.activate_highlighted();
        self.shown = false;
        if request.is_some() {
            let i: usize = self.highlighted_index;
            self.committed = Some(
                Commit { identifier: self.windows[i].identifier.clone(), at: now },
            );
            raise(&mut self.windows, i);
        }
        assert(self@ =~= old(self)@.after_commit(now));
        request
    }

    /// The message for an input event, by the modifiers that were held when the
    /// overlay first gained keyboard focus.
    pub fn input_message(&self, event: InputEvent) -> (r: Option<Message<H>>)
        ensures
            r == message_of_input::<H>(event, self@.held),
    {
        input_message(event, self.held)
    }

    /// The request to activate the highlighted window.
    fn activate_highlighted(&self) -> (r: Option<WaylandRequest>)
        ensures
            requested(r) == self@.activation(),
    {
        if self.wayland.is_some() && self.highlighted_index < self.windows.len() {
            Some(WaylandRequest::Activate(self.windows[self.highlighted_index].identifier.clone()))
        } else {
            None
        }
    }

    /// The task that scrolls to the highlight.
    fn scroll_to_highlighted(&self) -> (r: Task)
        ensures
            r == self@.scroll(),
    {
        if self.windows.len() <= 1 {
            Task::Idle
        } else {
            Task::SnapTo { index: self.highlighted_index, last: self.windows.len() - 1 }
        }
    }

    /// Resolves an application ID to the name or the path of an icon.
    pub fn icon_name_for(&self, app_id: &str) -> (r: String)
        ensures
            r@ == icon_name(self@.entries, app_id@),
    {
        icon_name_for(&self.desktop_entries, app_id)
    }

    /// The row for a window.
    pub fn window_row(&self, window: &WindowInfo, highlighted: bool) -> (r: WindowRow)
        ensures
            r@ == row(self@.entries, window@, highlighted),
    {
        let icon = icon_source(self.icon_name_for(window.app_id.as_str()));
        let mut label = window.title.clone();
        label.append(" — ");
        label.append(window.app_id.as_str());
        WindowRow { icon, label, highlighted }
    }

    /// What a surface shows: the overlay where it is the application's own
    /// surface, and nothing where it is not.
    pub fn view_window(&self, own_surface: bool) -> (r: Option<OverlayContent>)
        ensures
            r is Some <==> own_surface,
            r matches Some(content) ==> {
                &&& content.header@ == "Open windows on this workspace"@
                &&& self@.windows.len() == 0 ==> (content.list matches ListContent::Placeholder(text)
                    && text@ == "(none yet — waiting for Wayland events)"@)
                &&& self@.windows.len() > 0 ==> (content.list matches ListContent::Rows(rows)
                    && rows@.len() == self@.windows.len() && forall|i: int|
                    0 <= i < rows@.len() ==> (#[trigger] rows@[i])@ == row(
                        self@.entries,
                        self@.windows[i],
                        i == self@.highlighted,
                    ))
            },
    {
        if !own_surface {
            return None;
        }
        let list = if self.windows.len() == 0 {
            ListContent::Placeholder("(none yet — waiting for Wayland events)".to_owned())
        } else {
            let mut rows: Vec<WindowRow> = Vec::new();
            let mut i: usize = 0;
            while i < self.windows.len()
                invariant
                    i <= self.windows.len(),
                    rows.len() == i,
                    forall|j: int|
                        0 <= j < i ==> (#[trigger] rows@[j])@ == row(
                            self@.entries,
                            self@.windows[j],
                            j == self@.highlighted,
                        ),
                decreases self.windows.len() - i,
            {
                rows.push(self.window_row(&self.windows[i], i == self.highlighted_index));
                i += 1;
            }
            ListContent::Rows(rows)
        };
        Some(OverlayContent { header: "Open windows on this workspace".to_owned(), list })
    }

    /// The handle for sending requests, once it has arrived.
    pub fn wayland(&self) -> (r: Option<&H>)
        ensures
            match r {
                Some(handle) => self@.wayland == Some(*handle),
                None => self@.wayland is None,
            },
    {
        match &self.wayland {
            Some(handle) => Some(handle),
            None => None,
        }
    }

    /// The logical height of the smallest monitor, once it is known.
    pub fn screen_height(&self) -> (r: Option<u32>)
        ensures
            r == self@.screen_height,
    {
        self.screen_height
    }
}

/// One step back, round a list of `len` positions.
proof fn lemma_step_back(i: int, len: int)
    requires
        0 <= i < len,
    ensures
        (i + -1) % len == (if i == 0 { len - 1 } else { i - 1 }),
{
    if i == 0 {
        vstd::arithmetic::div_mod::lemma_fundamental_div_mod_converse(-1, len, -1, len - 1);
    } else {
        vstd::arithmetic::div_mod::lemma_small_mod((i - 1) as nat, len as nat);
    }
}

} // verus!
