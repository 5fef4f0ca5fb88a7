use cosmic_switch_less::listing::window_list;
use cosmic_switch_less::mru::MruOrder;
use cosmic_switch_less::screen::screen_height;
use cosmic_switch_less::thread::{after_stage, Next, Stage};
use cosmic_switch_less::wayland::{
    forward_event, Activation, Compositor, ThreadEvent, WaylandEvent, WaylandRequest, WaylandState,
};
use cosmic_switch_less::window::{Mode, OutputInfo, ToplevelInfo, ToplevelState, Workspace};

fn toplevel(id: &str, workspace: &[u64]) -> ToplevelInfo {
    ToplevelInfo {
        title: format!("title of {id}"),
        app_id: format!("app of {id}"),
        identifier: id.to_string(),
        state: Vec::new(),
        workspace: workspace.to_vec(),
        controllable: true,
    }
}

fn focused(id: &str, workspace: &[u64]) -> ToplevelInfo {
    let mut t = toplevel(id, workspace);
    t.state = vec![ToplevelState::Maximized, ToplevelState::Activated];
    t
}

fn compositor(toplevels: Vec<ToplevelInfo>) -> Compositor {
    Compositor {
        toplevels,
        workspaces: vec![
            Workspace { handle: 1, active: true },
            Workspace { handle: 2, active: false },
        ],
        outputs: Vec::new(),
        seats: 1,
    }
}

fn listed(event: ThreadEvent) -> Vec<String> {
    match event {
        ThreadEvent::Windows(windows) => windows.into_iter().map(|w| w.identifier).collect(),
        ThreadEvent::ScreenHeight(_) => panic!("not a list"),
    }
}

#[test]
fn activated_is_read_off_the_state() {
    assert!(focused("a", &[]).activated());
    let mut t = toplevel("a", &[]);
    assert!(!t.activated());
    t.state = vec![ToplevelState::Minimized, ToplevelState::Fullscreen, ToplevelState::Sticky];
    assert!(!t.activated());
}

#[test]
fn window_carries_the_text_of_its_toplevel() {
    let w = toplevel("a", &[]).window();
    assert_eq!(w.title, "title of a");
    assert_eq!(w.app_id, "app of a");
    assert_eq!(w.identifier, "a");
}

#[test]
fn only_windows_of_active_workspaces_are_listed() {
    let c = compositor(vec![
        toplevel("here", &[1]),
        toplevel("elsewhere", &[2]),
        toplevel("both", &[2, 1]),
        toplevel("gone", &[7]),
        toplevel("unknown", &[]),
    ]);
    let windows = window_list(&c.toplevels, &c.workspaces, &MruOrder::new());
    let ids: Vec<&str> = windows.iter().map(|w| w.identifier.as_str()).collect();
    assert_eq!(ids, vec!["here", "both", "unknown"]);
}

#[test]
fn windows_are_listed_most_recent_first() {
    let c = compositor(vec![
        toplevel("a", &[1]),
        toplevel("new1", &[1]),
        toplevel("b", &[1]),
        toplevel("c", &[1]),
        toplevel("new2", &[1]),
    ]);
    let mut order = MruOrder::new();
    order.note(&"a".to_string(), true, 0);
    order.note(&"c".to_string(), true, 0);
    order.note(&"b".to_string(), true, 0);
    let windows = window_list(&c.toplevels, &c.workspaces, &order);
    let ids: Vec<&str> = windows.iter().map(|w| w.identifier.as_str()).collect();
    assert_eq!(ids, vec!["b", "c", "a", "new1", "new2"]);
    assert_eq!(windows[0].title, "title of b");
}

#[test]
fn previous_window_is_second_in_the_list() {
    let mut state = WaylandState::new();
    let c = compositor(vec![focused("a", &[1]), toplevel("b", &[1]), toplevel("c", &[1])]);
    state.new_toplevel(Some(&c.toplevels[0]), &c, 0);
    state.new_toplevel(Some(&c.toplevels[1]), &c, 0);
    let event = state.new_toplevel(Some(&c.toplevels[2]), &c, 0);
    assert_eq!(listed(event), vec!["a", "b", "c"]);
    let c = compositor(vec![focused("a", &[1]), toplevel("b", &[1]), focused("c", &[1])]);
    let event = state.update_toplevel(Some(&c.toplevels[2]), &c, 1000);
    assert_eq!(listed(event), vec!["a", "b", "c"]);
    assert_eq!(state.wait(1010), Some(290));
    assert!(state.settle(&c, 1299).is_none());
    assert_eq!(listed(state.settle(&c, 1300).unwrap()), vec!["c", "a", "b"]);
    assert_eq!(state.wait(1300), None);
    // A stale report changes nothing.
    let event = state.update_toplevel(Some(&c.toplevels[0]), &c, 1400);
    assert_eq!(listed(event), vec!["c", "a", "b"]);
    assert!(state.settle(&c, 9000).is_none());
    // Nor does an event of which nothing is known.
    let event = state.update_toplevel(None, &c, 9000);
    assert_eq!(listed(event), vec!["c", "a", "b"]);
}

#[test]
fn closed_toplevel_is_not_listed() {
    let mut state = WaylandState::new();
    // The description still holds a toplevel while it is being closed.
    let c = compositor(vec![focused("a", &[1]), focused("b", &[1]), toplevel("c", &[])]);
    state.note_toplevel_update(Some(&c.toplevels[0]), 0);
    state.note_toplevel_update(Some(&c.toplevels[1]), 0);
    state.note_toplevel_update(Some(&c.toplevels[2]), 0);
    assert_eq!(listed(state.emit_window_list(&c)), vec!["b", "a", "c"]);
    let event = state.toplevel_closed(Some(&c.toplevels[1]), &c);
    assert_eq!(listed(event), vec!["a", "c"]);
    let c = compositor(vec![focused("a", &[1]), toplevel("c", &[])]);
    let event = state.toplevel_closed(None, &c);
    assert_eq!(listed(event), vec!["a", "c"]);
    assert_eq!(listed(state.done(&c)), vec!["a", "c"]);
}

#[test]
fn closing_drops_one_toplevel_only() {
    let mut state = WaylandState::new();
    // Two that share an identifier, and a third that looks like the second.
    let mut c = compositor(vec![toplevel("a", &[1]), toplevel("a", &[1]), toplevel("a", &[1])]);
    c.toplevels[0].title = "first".to_string();
    let windows = match state.toplevel_closed(Some(&c.toplevels[1]), &c) {
        ThreadEvent::Windows(windows) => windows,
        ThreadEvent::ScreenHeight(_) => panic!("not a list"),
    };
    let titles: Vec<&str> = windows.iter().map(|w| w.title.as_str()).collect();
    assert_eq!(titles, vec!["first", "title of a"]);
    // One that the description does not hold any more.
    let event = state.toplevel_closed(Some(&toplevel("gone", &[1])), &c);
    assert_eq!(listed(event), vec!["a", "a", "a"]);
}

#[test]
fn toplevels_are_compared_by_all_they_hold() {
    let t = focused("a", &[1, 2]);
    assert!(t.same(&focused("a", &[1, 2])));
    assert!(t.same(&t.duplicate()));
    assert!(!t.same(&focused("b", &[1, 2])));
    assert!(!t.same(&focused("a", &[1, 3])));
    assert!(!t.same(&focused("a", &[1])));
    assert!(!t.same(&toplevel("a", &[1, 2])));
    let mut other = t.duplicate();
    other.state[0] = ToplevelState::Sticky;
    assert!(!t.same(&other));
    let mut other = t.duplicate();
    other.title = "other".to_string();
    assert!(!t.same(&other));
    let mut other = t.duplicate();
    other.app_id = "other".to_string();
    assert!(!t.same(&other));
    let mut other = t.duplicate();
    other.controllable = false;
    assert!(!t.same(&other));
}

#[test]
fn workspace_change_lists_other_windows() {
    let state = WaylandState::new();
    let mut c = compositor(vec![toplevel("a", &[1]), toplevel("b", &[2])]);
    assert_eq!(listed(state.done(&c)), vec!["a"]);
    c.workspaces =
        vec![Workspace { handle: 1, active: false }, Workspace { handle: 2, active: true }];
    assert_eq!(listed(state.done(&c)), vec!["b"]);
}

fn output(logical: Option<(i32, i32)>, modes: Vec<Mode>, scale: i32) -> Option<OutputInfo> {
    Some(OutputInfo { logical_size: logical, modes, scale_factor: scale })
}

fn mode(height: i32, current: bool) -> Mode {
    Mode { dimensions: (1920, height), current }
}

#[test]
fn smallest_monitor_counts() {
    let outputs = vec![
        output(Some((2560, 1440)), Vec::new(), 1),
        None,
        output(Some((1920, 1080)), Vec::new(), 1),
        output(Some((3840, 2160)), Vec::new(), 1),
    ];
    assert_eq!(screen_height(&outputs), Some(1080));
}

#[test]
fn current_mode_stands_in_for_the_logical_size() {
    let modes = vec![mode(600, false), mode(2160, true), mode(480, true)];
    assert_eq!(screen_height(&vec![output(None, modes.clone(), 2)]), Some(1080));
    assert_eq!(screen_height(&vec![output(None, modes.clone(), 0)]), Some(2160));
    assert_eq!(screen_height(&vec![output(None, modes.clone(), -3)]), Some(2160));
    assert_eq!(screen_height(&vec![output(None, modes.clone(), 7)]), Some(308));
    // Where there is a logical size, the modes do not matter.
    assert_eq!(screen_height(&vec![output(Some((1, 900)), modes, 2)]), Some(900));
}

#[test]
fn unknown_heights_do_not_count() {
    assert_eq!(screen_height(&Vec::new()), None);
    assert_eq!(screen_height(&vec![None]), None);
    assert_eq!(screen_height(&vec![output(None, Vec::new(), 1)]), None);
    assert_eq!(screen_height(&vec![output(None, vec![mode(900, false)], 1)]), None);
    assert_eq!(screen_height(&vec![output(Some((1, 0)), vec![mode(900, true)], 1)]), None);
    assert_eq!(screen_height(&vec![output(Some((1, -5)), Vec::new(), 1)]), None);
    assert_eq!(screen_height(&vec![output(None, vec![mode(-900, true)], 1)]), None);
    assert_eq!(screen_height(&vec![output(None, vec![mode(1, true)], 2)]), None);
    let outputs = vec![output(Some((1, 0)), Vec::new(), 1), output(Some((1, 700)), Vec::new(), 1)];
    assert_eq!(screen_height(&outputs), Some(700));
}

#[test]
fn output_events_tell_the_height() {
    let mut c = compositor(Vec::new());
    assert!(c.new_output().is_none());
    assert!(c.emit_screen_height().is_none());
    c.outputs = vec![output(Some((1920, 1080)), Vec::new(), 1)];
    assert!(matches!(c.new_output(), Some(ThreadEvent::ScreenHeight(1080))));
    assert!(matches!(c.update_output(), Some(ThreadEvent::ScreenHeight(1080))));
    assert!(matches!(c.output_destroyed(), Some(ThreadEvent::ScreenHeight(1080))));
}

#[test]
fn request_activates_on_every_seat() {
    let mut c = compositor(vec![toplevel("a", &[]), toplevel("b", &[2]), toplevel("b", &[1])]);
    c.seats = 2;
    assert_eq!(
        c.activate_by_identifier(&"b".to_string()),
        vec![Activation { toplevel: 1, seat: 0 }, Activation { toplevel: 1, seat: 1 }]
    );
    let calls = c.handle_request(Some(WaylandRequest::Activate("a".to_string())));
    assert_eq!(
        calls,
        Some(vec![Activation { toplevel: 0, seat: 0 }, Activation { toplevel: 0, seat: 1 }])
    );
}

#[test]
fn request_for_what_cannot_be_activated_does_nothing() {
    let mut c = compositor(vec![toplevel("a", &[]), toplevel("b", &[])]);
    c.toplevels[1].controllable = false;
    assert_eq!(c.activate_by_identifier(&"c".to_string()), vec![]);
    assert_eq!(c.activate_by_identifier(&"b".to_string()), vec![]);
    let calls = c.handle_request(Some(WaylandRequest::Activate("b".to_string())));
    assert_eq!(calls, Some(vec![]));
    assert_eq!(c.handle_request(None), None);
    c.seats = 0;
    assert_eq!(c.activate_by_identifier(&"a".to_string()), vec![]);
}

#[test]
fn updates_are_forwarded() {
    let windows = vec![toplevel("a", &[]).window()];
    match forward_event::<u8>(Some(ThreadEvent::Windows(windows))) {
        Some(WaylandEvent::Windows(w)) => assert_eq!(w[0].identifier, "a"),
        _ => panic!("not the list"),
    }
    assert!(matches!(
        forward_event::<u8>(Some(ThreadEvent::ScreenHeight(900))),
        Some(WaylandEvent::ScreenHeight(900))
    ));
    assert!(forward_event::<u8>(None).is_none());
}

#[test]
fn thread_goes_through_its_steps() {
    let mut stage = Stage::Connect;
    let mut seen = vec![stage];
    for _ in 0..6 {
        match after_stage(stage, Ok(())) {
            Next::Perform(next) => stage = next,
            Next::Stop(_) => panic!("stopped"),
        }
        seen.push(stage);
    }
    assert_eq!(
        seen,
        vec![
            Stage::Connect,
            Stage::InitRegistry,
            Stage::CreateLoop,
            Stage::InsertRequests,
            Stage::InsertSource,
            Stage::Dispatch,
            Stage::Dispatch,
        ]
    );
}

fn failure(stage: Stage) -> Option<String> {
    match after_stage(stage, Err("why".to_string())) {
        Next::Perform(_) => panic!("went on"),
        Next::Stop(message) => message,
    }
}

#[test]
fn thread_ends_with_a_report() {
    assert_eq!(failure(Stage::Connect).unwrap(), "wayland: failed to connect: why");
    assert_eq!(failure(Stage::InitRegistry).unwrap(), "wayland: failed to init registry: why");
    assert_eq!(failure(Stage::CreateLoop).unwrap(), "wayland: failed to create event loop: why");
    assert_eq!(
        failure(Stage::InsertRequests).unwrap(),
        "wayland: failed to insert request channel into event loop: why"
    );
    assert_eq!(
        failure(Stage::InsertSource).unwrap(),
        "wayland: failed to insert wayland source into event loop: why"
    );
    assert_eq!(failure(Stage::Dispatch), None);
}
