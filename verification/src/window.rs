//! What the compositor reports, as plain values.

use vstd::prelude::*;

verus! {

/// A window as the overlay lists it.
#[derive(Clone, Debug)]
pub struct WindowInfo {
    pub title: String,
    pub app_id: String,
    pub identifier: String,
}

/// The text that a [`WindowInfo`] holds.
pub struct WindowView {
    pub title: Seq<char>,
    pub app_id: Seq<char>,
    pub identifier: Seq<char>,
}

impl View for WindowInfo {
    type V = WindowView;

    open spec fn view(&self) -> WindowView {
        WindowView { title: self.title@, app_id: self.app_id@, identifier: self.identifier@ }
    }
}

/// The windows of a list, each by its text.
pub open spec fn window_views(windows: Seq<WindowInfo>) -> Seq<WindowView> {
    windows.map_values(|w: WindowInfo| w@)
}

/// A state flag that the compositor sets on a toplevel.
#[derive(Clone, Copy, Debug, PartialEq, Eq, Structural)]
pub enum ToplevelState {
    Maximized,
    Minimized,
    Activated,
    Fullscreen,
    Sticky,
}

/// A toplevel as the compositor last described it.
///
/// `workspace` holds the handles of the workspaces it is on; it is empty where
/// the compositor's protocol is too old to tell. `controllable` says whether
/// the toplevel has the extended handle through which it can be activated.
pub struct ToplevelInfo {
    pub title: String,
    pub app_id: String,
    pub identifier: String,
    pub state: Vec<ToplevelState>,
    pub workspace: Vec<u64>,
    pub controllable: bool,
}

/// What a [`ToplevelInfo`] holds.
pub struct ToplevelView {
    pub title: Seq<char>,
    pub app_id: Seq<char>,
    pub identifier: Seq<char>,
    pub state: Seq<ToplevelState>,
    pub workspace: Seq<u64>,
    pub controllable: bool,
}

impl View for ToplevelInfo {
    type V = ToplevelView;

    open spec fn view(&self) -> ToplevelView {
        ToplevelView {
            title: self.title@,
            app_id: self.app_id@,
            identifier: self.identifier@,
            state: self.state@,
            workspace: self.workspace@,
            controllable: self.controllable,
        }
    }
}

impl ToplevelView {
    /// The window that stands for this toplevel in the overlay.
    pub open spec fn window(self) -> WindowView {
        WindowView { title: self.title, app_id: self.app_id, identifier: self.identifier }
    }

    /// The toplevel has keyboard focus, as far as the compositor has said.
    pub open spec fn activated(self) -> bool {
        self.state.contains(ToplevelState::Activated)
    }
}

/// The toplevels of a list, each by what it holds.
pub open spec fn toplevel_views(toplevels: Seq<ToplevelInfo>) -> Seq<ToplevelView> {
    toplevels.map_values(|t: ToplevelInfo| t@)
}

impl ToplevelInfo {
    /// Whether the toplevel's state holds [`ToplevelState::Activated`].
    pub fn activated(&self) -> (r: bool)
        ensures
            r == self@.activated(),
    {
        let mut i: usize = 0;
        while i < self.state.len()
            invariant
                i <= self.state.len(),
                forall|j: int| 0 <= j < i ==> self.state@[j] != ToplevelState::Activated,
            decreases self.state.len() - i,
        {
            if self.state[i] == ToplevelState::Activated {
                assert(self.state@[i as int] == ToplevelState::Activated);
                return true;
            }
            i += 1;
        }
        false
    }

    /// The window that stands for this toplevel in the overlay.
    pub fn window(&self) -> (r: WindowInfo)
        ensures
            r@ == self@.window(),
    {
        WindowInfo {
            title: self.title.clone(),
            app_id: self.app_id.clone(),
            identifier: self.identifier.clone(),
        }
    }
}

/// Whether two lists of state flags are the same.
fn same_states(a: &Vec<ToplevelState>, b: &Vec<ToplevelState>) -> (r: bool)
    ensures
        r == (a@ == b@),
{
    if a.len() != b.len() {
        return false;
    }
    let mut i: usize = 0;
    while i < a.len()
        invariant
            i <= a.len(),
            a.len() == b.len(),
            forall|j: int| 0 <= j < i ==> a@[j] == b@[j],
        decreases a.len() - i,
    {
        if a[i] != b[i] {
            assert(a@[i as int] != b@[i as int]);
            return false;
        }
        i += 1;
    }
    assert(a@ =~= b@);
    true
}

/// Whether two lists of workspaces are the same.
fn same_workspaces(a: &Vec<u64>, b: &Vec<u64>) -> (r: bool)
    ensures
        r == (a@ == b@),
{
    if a.len() != b.len() {
        return false;
    }
    let mut i: usize = 0;
    while i < a.len()
        invariant
            i <= a.len(),
            a.len() == b.len(),
            forall|j: int| 0 <= j < i ==> a@[j] == b@[j],
        decreases a.len() - i,
    {
        if a[i] != b[i] {
            assert(a@[i as int] != b@[i as int]);
            return false;
        }
        i += 1;
    }
    assert(a@ =~= b@);
    true
}

impl ToplevelInfo {
    /// Whether two toplevels are described alike.
    pub fn same(&self, other: &ToplevelInfo) -> (r: bool)
        ensures
            r == (self@ == other@),
    {
        self.title == other.title && self.app_id == other.app_id && self.identifier
            == other.identifier && same_states(&self.state, &other.state) && same_workspaces(
            &self.workspace,
            &other.workspace,
        ) && self.controllable == other.controllable
    }

    /// The same description once more.
    pub fn duplicate(&self) -> (r: ToplevelInfo)
        ensures
            r@ == self@,
    {
        let r = ToplevelInfo {
            title: self.title.clone(),
            app_id: self.app_id.clone(),
            identifier: self.identifier.clone(),
            state: self.state.clone(),
            workspace: self.workspace.clone(),
            controllable: self.controllable,
        };
        assert(r.state@ =~= self.state@);
        assert(r.workspace@ =~= self.workspace@);
        r
    }
}

/// A workspace: its handle, and whether it is shown at present.
#[derive(Clone, Copy, Debug)]
pub struct Workspace {
    pub handle: u64,
    pub active: bool,
}

/// A video mode of an output.
#[derive(Clone, Copy, Debug)]
pub struct Mode {
    pub dimensions: (i32, i32),
    pub current: bool,
}

/// A monitor: its size in logical pixels where the compositor gives one, its
/// video modes, and its scale factor.
pub struct OutputInfo {
    pub logical_size: Option<(i32, i32)>,
    pub modes: Vec<Mode>,
    pub scale_factor: i32,
}

} // verus!
