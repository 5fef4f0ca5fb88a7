use cosmic_switch_less::app::{
    AppModel, Effects, ListContent, Message, Task, WindowRow, PIN_MS, SYNC_SCROLL_DELAY_MS,
};
use cosmic_switch_less::icon::{icon_name_given, icon_or_default, icon_source, IconSource};
use cosmic_switch_less::input::{
    input_message, signal_message, wayland_message, InputEvent, Key, Modifiers, Signal,
};
use cosmic_switch_less::wayland::{WaylandEvent, WaylandRequest};
use cosmic_switch_less::window::WindowInfo;
use freedesktop_desktop_entry::DesktopEntry;

fn window(id: &str) -> WindowInfo {
    WindowInfo {
        title: format!("title of {id}"),
        app_id: format!("app of {id}"),
        identifier: id.to_string(),
    }
}

fn windows(n: usize) -> Vec<WindowInfo> {
    (0..n).map(|i| window(&i.to_string())).collect()
}

fn app(n: usize) -> AppModel<u32> {
    let mut app = AppModel::init(Vec::new(), false);
    app.update(Message::WaylandReady(7), 0);
    app.update(Message::WindowsUpdated(windows(n)), 0);
    app
}

fn rows(app: &AppModel<u32>) -> Vec<WindowRow> {
    match app.view_window(true).unwrap().list {
        ListContent::Rows(rows) => rows,
        ListContent::Placeholder(_) => Vec::new(),
    }
}

fn highlight(app: &AppModel<u32>) -> Vec<usize> {
    let rows = rows(app);
    (0..rows.len()).filter(|i| rows[*i].highlighted).collect()
}

fn request(effects: &Effects) -> Option<&str> {
    match &effects.request {
        Some(WaylandRequest::Activate(id)) => Some(id.as_str()),
        None => None,
    }
}

#[test]
fn starts_hidden_and_empty() {
    let mut app: AppModel<u32> = AppModel::init(Vec::new(), false);
    assert!(app.wayland().is_none());
    assert_eq!(app.screen_height(), None);
    assert_eq!(app.update(Message::Confirm, 0).task, Task::Idle);
    assert_eq!(app.update(Message::Cancel, 0).task, Task::Idle);
    assert_eq!(app.update(Message::SyncScroll, 0).task, Task::Idle);
    let content = app.view_window(true).unwrap();
    assert_eq!(content.header, "Open windows on this workspace");
    match content.list {
        ListContent::Placeholder(text) => {
            assert_eq!(text, "(none yet — waiting for Wayland events)");
        }
        ListContent::Rows(_) => panic!("rows without windows"),
    }
    assert!(app.view_window(false).is_none());
}

#[test]
fn handle_and_height_are_kept() {
    let mut app: AppModel<u32> = AppModel::init(Vec::new(), false);
    assert_eq!(app.update(Message::WaylandReady(7), 0).task, Task::Idle);
    assert_eq!(app.wayland(), Some(&7));
    assert_eq!(app.update(Message::ScreenHeight(1080), 0).task, Task::Idle);
    assert_eq!(app.screen_height(), Some(1080));
}

#[test]
fn forward_summon_highlights_the_previous_window() {
    let mut app = app(3);
    let effects = app.update(Message::CycleNext, 0);
    assert_eq!(effects.task, Task::Summon { sync_scroll_after: None });
    assert!(effects.request.is_none());
    assert_eq!(highlight(&app), vec![1]);
}

#[test]
fn backward_summon_highlights_the_least_recent_window() {
    let mut app = app(3);
    let effects = app.update(Message::CyclePrev, 0);
    assert_eq!(effects.task, Task::Summon { sync_scroll_after: Some(SYNC_SCROLL_DELAY_MS) });
    assert_eq!(SYNC_SCROLL_DELAY_MS, 50);
    assert_eq!(highlight(&app), vec![2]);
    assert_eq!(app.update(Message::SyncScroll, 0).task, Task::SnapTo { index: 2, last: 2 });
}

#[test]
fn cycling_goes_round_and_scrolls() {
    let mut app = app(3);
    app.update(Message::CycleNext, 0);
    assert_eq!(app.update(Message::CycleNext, 0).task, Task::SnapTo { index: 2, last: 2 });
    assert_eq!(app.update(Message::CycleNext, 0).task, Task::SnapTo { index: 0, last: 2 });
    assert_eq!(highlight(&app), vec![0]);
    assert_eq!(app.update(Message::CyclePrev, 0).task, Task::SnapTo { index: 2, last: 2 });
    assert_eq!(app.update(Message::CyclePrev, 0).task, Task::SnapTo { index: 1, last: 2 });
    assert_eq!(highlight(&app), vec![1]);
}

#[test]
fn forward_and_back_cancel_out() {
    for n in 1..5 {
        let mut app = app(n);
        app.update(Message::CycleNext, 0);
        for _ in 0..n {
            let before = highlight(&app);
            app.update(Message::CycleNext, 0);
            app.update(Message::CyclePrev, 0);
            assert_eq!(highlight(&app), before);
            app.update(Message::CycleNext, 0);
        }
        // That was one full round.
        assert_eq!(highlight(&app), vec![1.min(n - 1)]);
    }
}

#[test]
fn short_lists_do_not_cycle() {
    for n in 0..2 {
        let mut app = app(n);
        assert_eq!(
            app.update(Message::CycleNext, 0).task,
            Task::Summon { sync_scroll_after: None }
        );
        assert_eq!(app.update(Message::CycleNext, 0).task, Task::Idle);
        assert_eq!(app.update(Message::CyclePrev, 0).task, Task::Idle);
        assert_eq!(app.update(Message::SyncScroll, 0).task, Task::Idle);
        assert_eq!(highlight(&app), (0..n).collect::<Vec<usize>>());
    }
}

#[test]
fn commit_asks_for_the_highlighted_window() {
    let mut app = app(3);
    app.update(Message::CycleNext, 0);
    let effects = app.update(Message::Confirm, 0);
    assert_eq!(request(&effects), Some("1"));
    assert_eq!(effects.task, Task::Hide);
    // It is hidden now.
    let effects = app.update(Message::Confirm, 0);
    assert_eq!(request(&effects), None);
    assert_eq!(effects.task, Task::Idle);
}

#[test]
fn commit_without_handle_or_window_only_hides() {
    let mut without_handle: AppModel<u32> = AppModel::init(Vec::new(), false);
    without_handle.update(Message::WindowsUpdated(windows(2)), 0);
    without_handle.update(Message::CycleNext, 0);
    let effects = without_handle.update(Message::Confirm, 0);
    assert_eq!(request(&effects), None);
    assert_eq!(effects.task, Task::Hide);
    let mut without_window = app(0);
    without_window.update(Message::CycleNext, 0);
    let effects = without_window.update(Message::Confirm, 0);
    assert_eq!(request(&effects), None);
    assert_eq!(effects.task, Task::Hide);
}

#[test]
fn cancel_hides_without_switching() {
    let mut app = app(3);
    app.update(Message::CycleNext, 0);
    let effects = app.update(Message::Cancel, 0);
    assert_eq!(request(&effects), None);
    assert_eq!(effects.task, Task::Hide);
    assert_eq!(app.update(Message::Cancel, 0).task, Task::Idle);
}

#[test]
fn summon_after_hiding_starts_over() {
    let mut app = app(4);
    app.update(Message::CycleNext, 0);
    app.update(Message::CycleNext, 0);
    app.update(Message::CycleNext, 0);
    assert_eq!(highlight(&app), vec![3]);
    app.update(Message::Confirm, 0);
    app.update(Message::CycleNext, 0);
    assert_eq!(highlight(&app), vec![1]);
    app.update(Message::Cancel, 0);
    app.update(Message::CyclePrev, 0);
    assert_eq!(highlight(&app), vec![3]);
}

#[test]
fn shrinking_list_pulls_the_highlight_in() {
    let mut app = app(4);
    app.update(Message::CyclePrev, 0);
    assert_eq!(app.update(Message::WindowsUpdated(windows(2)), 0).task, Task::Idle);
    assert_eq!(highlight(&app), vec![1]);
    app.update(Message::WindowsUpdated(windows(0)), 0);
    app.update(Message::WindowsUpdated(windows(5)), 0);
    assert_eq!(highlight(&app), vec![0]);
}

#[test]
fn update_while_hidden_is_shown_next() {
    let mut app = app(1);
    app.update(Message::WindowsUpdated(vec![window("x"), window("y")]), 0);
    app.update(Message::CycleNext, 0);
    let rows = rows(&app);
    assert_eq!(rows.len(), 2);
    assert_eq!(rows[1].label, "title of y — app of y");
    assert!(rows[1].highlighted);
}

fn entry(path: &str, text: &str) -> DesktopEntry {
    DesktopEntry::from_str(path, text, None::<&[String]>).unwrap()
}

#[test]
fn icon_comes_from_the_matching_entry() {
    let entries = vec![
        entry(
            "/usr/share/applications/org.example.Editor.desktop",
            "[Desktop Entry]\nName=Editor\nIcon=editor-icon\n",
        ),
        entry(
            "/usr/share/applications/term.desktop",
            "[Desktop Entry]\nName=Terminal\nStartupWMClass=Term\nIcon=/opt/term/icon.png\n",
        ),
        entry("/usr/share/applications/plain.desktop", "[Desktop Entry]\nName=Plain\n"),
    ];
    let app: AppModel<u32> = AppModel::init(entries, false);
    assert_eq!(app.icon_name_for("org.example.Editor"), "editor-icon");
    assert_eq!(app.icon_name_for("ORG.EXAMPLE.EDITOR"), "editor-icon");
    assert_eq!(app.icon_name_for("editor"), "editor-icon");
    assert_eq!(app.icon_name_for("term"), "/opt/term/icon.png");
    // An entry without an icon, and no entry.
    assert_eq!(app.icon_name_for("plain"), "application-x-executable");
    assert_eq!(app.icon_name_for("com.example.Unknown"), "application-x-executable");
    let mut w = window("0");
    w.app_id = "term".to_string();
    let row = app.window_row(&w, true);
    assert_eq!(row.label, "title of 0 — term");
    assert!(row.highlighted);
    assert!(matches!(row.icon, IconSource::Path(p) if p == "/opt/term/icon.png"));
    w.app_id = "editor".to_string();
    assert!(matches!(app.window_row(&w, false).icon, IconSource::Name(n) if n == "editor-icon"));
}

#[test]
fn names_are_searched_untranslated() {
    let app: AppModel<u32> = AppModel::init(
        vec![entry(
            "/usr/share/applications/x.desktop",
            "[Desktop Entry]\nName=Files\nX-Ubuntu-Gettext-Domain=files\nIcon=files-icon\n",
        )],
        false,
    );
    assert_eq!(app.icon_name_for("files"), "files-icon");
    assert_eq!(app.icon_name_for("documents"), "application-x-executable");
}

#[test]
fn icon_of_a_given_entry() {
    let with = entry("/a.desktop", "[Desktop Entry]\nIcon=some\n");
    let without = entry("/a.desktop", "[Desktop Entry]\nName=some\n");
    assert_eq!(icon_name_given(Some(&with), "id"), "some");
    assert_eq!(icon_name_given(Some(&without), "id"), "application-x-executable");
    assert_eq!(icon_name_given(None, "Icon.Icon"), "application-x-executable");
    assert_eq!(icon_or_default(Some("x")), "x");
    assert_eq!(icon_or_default(None), "application-x-executable");
}

#[test]
fn icon_with_a_slash_is_a_path() {
    assert!(matches!(icon_source("/a/b.png".to_string()), IconSource::Path(p) if p == "/a/b.png"));
    assert!(matches!(icon_source("b/c".to_string()), IconSource::Path(_)));
    assert!(matches!(icon_source("é/".to_string()), IconSource::Path(_)));
    assert!(matches!(icon_source("firefox".to_string()), IconSource::Name(n) if n == "firefox"));
    assert!(matches!(icon_source(String::new()), IconSource::Name(_)));
}

fn modifiers(keys: &[Key]) -> Modifiers {
    Modifiers {
        alt: keys.contains(&Key::Alt),
        shift: keys.contains(&Key::Shift),
        ctrl: keys.contains(&Key::Ctrl),
        logo: keys.contains(&Key::Super),
    }
}

fn pressed(key: Key, shift: bool) -> Option<Message<u32>> {
    input_message(InputEvent::KeyPressed { key, shift }, None)
}

fn released(key: Key, held: Option<Modifiers>) -> Option<Message<u32>> {
    input_message(InputEvent::KeyReleased { key }, held)
}

const KEYS: [Key; 8] = [
    Key::Tab,
    Key::Enter,
    Key::Escape,
    Key::Alt,
    Key::Shift,
    Key::Ctrl,
    Key::Super,
    Key::Other,
];

#[test]
fn keys_lead_to_messages() {
    assert!(matches!(pressed(Key::Tab, false), Some(Message::CycleNext)));
    assert!(matches!(pressed(Key::Tab, true), Some(Message::CyclePrev)));
    for shift in [false, true] {
        assert!(matches!(pressed(Key::Enter, shift), Some(Message::Confirm)));
        assert!(matches!(pressed(Key::Escape, shift), Some(Message::Cancel)));
        for key in [Key::Alt, Key::Shift, Key::Ctrl, Key::Super, Key::Other] {
            assert!(pressed(key, shift).is_none());
        }
    }
    assert!(input_message::<u32>(InputEvent::Other, None).is_none());
    let held = modifiers(&[Key::Ctrl]);
    assert!(matches!(
        input_message::<u32>(InputEvent::ModifiersChanged(held), None),
        Some(Message::ModifiersHeld(m)) if m == held
    ));
}

#[test]
fn releasing_a_held_modifier_commits() {
    for held in [Key::Alt, Key::Shift, Key::Ctrl, Key::Super] {
        for key in KEYS {
            let message = released(key, Some(modifiers(&[held])));
            if key == held || key == Key::Alt {
                assert!(matches!(message, Some(Message::Confirm)));
            } else {
                assert!(message.is_none());
            }
        }
    }
    for key in KEYS {
        assert_eq!(released(key, None).is_some(), key == Key::Alt);
    }
    assert!(modifiers(&[]).is_empty());
    assert!(!modifiers(&[Key::Super]).is_empty());
    assert!(modifiers(&[Key::Super]).contains(Key::Super));
}

#[test]
fn modifiers_are_those_at_first_focus() {
    let mut app = app(3);
    app.update(Message::CycleNext, 0);
    let effects = app.update(Message::ModifiersHeld(modifiers(&[Key::Shift])), 0);
    assert_eq!(effects.task, Task::Idle);
    app.update(Message::ModifiersHeld(modifiers(&[Key::Shift, Key::Ctrl])), 0);
    assert!(app.input_message(InputEvent::KeyReleased { key: Key::Ctrl }).is_none());
    let message = app.input_message(InputEvent::KeyReleased { key: Key::Shift }).unwrap();
    let effects = app.update(message, 0);
    assert_eq!(request(&effects), Some("1"));
    // The next summon forgets them.
    app.update(Message::CycleNext, 0);
    assert!(app.input_message(InputEvent::KeyReleased { key: Key::Shift }).is_none());
}

#[test]
fn fast_tap_commits_only_where_asked() {
    let none = modifiers(&[]);
    let mut waiting = app(3);
    waiting.update(Message::CycleNext, 0);
    let effects = waiting.update(Message::ModifiersHeld(none), 0);
    assert_eq!(effects.task, Task::Idle);
    assert_eq!(request(&effects), None);
    assert_eq!(waiting.update(Message::Confirm, 0).task, Task::Hide);

    let mut instant: AppModel<u32> = AppModel::init(Vec::new(), true);
    instant.update(Message::WaylandReady(7), 0);
    instant.update(Message::WindowsUpdated(windows(3)), 0);
    // Nothing is shown yet.
    assert_eq!(instant.update(Message::ModifiersHeld(none), 0).task, Task::Idle);
    instant.update(Message::CycleNext, 0);
    let effects = instant.update(Message::ModifiersHeld(none), 0);
    assert_eq!(effects.task, Task::Hide);
    assert_eq!(request(&effects), Some("1"));
    assert_eq!(rows(&instant)[0].label, "title of 1 — app of 1");
    // With a modifier held, it waits for the release, whatever comes later.
    instant.update(Message::CycleNext, 0);
    assert_eq!(instant.update(Message::ModifiersHeld(modifiers(&[Key::Alt])), 0).task, Task::Idle);
    assert_eq!(instant.update(Message::ModifiersHeld(none), 0).task, Task::Idle);
}

fn order(app: &AppModel<u32>) -> Vec<String> {
    rows(app).into_iter().map(|r| r.label[9..10].to_string()).collect()
}

#[test]
fn committed_window_moves_to_the_top() {
    let mut app = app(4);
    app.update(Message::CycleNext, 0);
    app.update(Message::CycleNext, 0);
    app.update(Message::Confirm, 5000);
    assert_eq!(order(&app), vec!["2", "0", "1", "3"]);
    // Switching back at once goes to the window that was current.
    app.update(Message::CycleNext, 5010);
    let effects = app.update(Message::Confirm, 5020);
    assert_eq!(request(&effects), Some("0"));
    assert_eq!(order(&app), vec!["0", "2", "1", "3"]);
}

#[test]
fn committed_window_stays_first_for_a_second() {
    assert_eq!(PIN_MS, 1000);
    let mut app = app(4);
    app.update(Message::CycleNext, 0);
    app.update(Message::CycleNext, 0);
    app.update(Message::Confirm, 5000);
    app.update(Message::WindowsUpdated(windows(4)), 5999);
    assert_eq!(order(&app), vec!["2", "0", "1", "3"]);
    // A list without the window is shown as it comes.
    app.update(Message::WindowsUpdated(windows(2)), 5999);
    assert_eq!(order(&app), vec!["0", "1"]);
    app.update(Message::WindowsUpdated(windows(4)), 6000);
    assert_eq!(order(&app), vec!["0", "1", "2", "3"]);
}

#[test]
fn switching_back_works_over_an_old_list() {
    let mut app = app(4);
    app.update(Message::CycleNext, 0);
    app.update(Message::CycleNext, 0);
    app.update(Message::Confirm, 5000);
    app.update(Message::WindowsUpdated(windows(4)), 5100);
    app.update(Message::CycleNext, 5200);
    let effects = app.update(Message::Confirm, 5300);
    assert_eq!(request(&effects), Some("0"));
}

#[test]
fn cancelled_window_stays_in_its_place() {
    let mut app = app(3);
    app.update(Message::CyclePrev, 0);
    app.update(Message::Cancel, 0);
    app.update(Message::WindowsUpdated(windows(3)), 1);
    assert_eq!(order(&app), vec!["0", "1", "2"]);
}

#[test]
fn signals_lead_to_messages() {
    assert!(matches!(signal_message::<u32>(Some(Signal::User1)), Some(Message::CycleNext)));
    assert!(matches!(signal_message::<u32>(Some(Signal::User2)), Some(Message::CyclePrev)));
    assert!(signal_message::<u32>(None).is_none());
}

#[test]
fn listener_items_lead_to_messages() {
    assert!(matches!(wayland_message(WaylandEvent::Ready(3u32)), Message::WaylandReady(3)));
    assert!(matches!(
        wayland_message::<u32>(WaylandEvent::ScreenHeight(9)),
        Message::ScreenHeight(9)
    ));
    match wayland_message::<u32>(WaylandEvent::Windows(windows(2))) {
        Message::WindowsUpdated(w) => assert_eq!(w[1].identifier, "1"),
        _ => panic!("not the list"),
    }
}

#[test]
fn releasing_alt_or_pressing_enter_switches() {
    for message in [released(Key::Alt, None), pressed(Key::Enter, false), pressed(Key::Enter, true)] {
        let mut app = app(3);
        app.update(Message::CycleNext, 0);
        let effects = app.update(message.unwrap(), 0);
        assert_eq!(request(&effects), Some("1"));
        assert_eq!(effects.task, Task::Hide);
    }
}

#[test]
fn escape_hides_without_a_request() {
    let mut app = app(3);
    app.update(Message::CycleNext, 0);
    let effects = app.update(pressed(Key::Escape, false).unwrap(), 0);
    assert_eq!(request(&effects), None);
    assert_eq!(effects.task, Task::Hide);
}

#[test]
fn signals_summon_and_then_cycle() {
    let mut app = app(4);
    app.update(signal_message(Some(Signal::User1)).unwrap(), 0);
    assert_eq!(highlight(&app), vec![1]);
    app.update(signal_message(Some(Signal::User1)).unwrap(), 0);
    assert_eq!(highlight(&app), vec![2]);
    app.update(Message::Cancel, 0);
    app.update(signal_message(Some(Signal::User2)).unwrap(), 0);
    assert_eq!(highlight(&app), vec![3]);
    app.update(signal_message(Some(Signal::User2)).unwrap(), 0);
    assert_eq!(highlight(&app), vec![2]);
}
