use jamespy_tui::app::{
    poll_timeout, tick_due, Action, App, InputEvent, Key, KeyBindings, Mouse,
};

#[test]
fn new_app_starts_on_first_tab() {
    let app = App::new("client");
    assert_eq!(app.title, "client");
    assert!(!app.should_quit);
    assert_eq!(app.tabs.titles, vec!["Events", "Placeholder", "Placeholder"]);
    assert_eq!(app.tabs.index, 0);
    assert_eq!(app.vertical_scroll, 0);
}

#[test]
fn q_quits() {
    let mut app = App::new("t");
    app.on_key('x');
    assert!(!app.should_quit);
    app.on_key('q');
    assert!(app.should_quit);
}

#[test]
fn j_and_k_move_the_scroll_counter() {
    let mut app = App::new("t");
    app.on_key('k');
    assert_eq!(app.vertical_scroll, 0);
    app.on_key('j');
    app.on_key('j');
    assert_eq!(app.vertical_scroll, 2);
    app.on_key('k');
    assert_eq!(app.vertical_scroll, 1);
    app.vertical_scroll = usize::MAX;
    app.scroll_up();
    assert_eq!(app.vertical_scroll, usize::MAX);
}

#[test]
fn arrows_change_tab() {
    let mut app = App::new("t");
    app.on_left();
    assert_eq!(app.tabs.index, 2);
    app.on_right();
    assert_eq!(app.tabs.index, 0);
    app.on_right();
    assert_eq!(app.tabs.index, 1);
}

#[test]
fn bindings_are_configurable() {
    let mut app = App::new("t");
    app.keys = KeyBindings {
        quit: 'x',
        scroll_up: 'k',
        scroll_down: 'j',
        previous_tab: Key::Char('h'),
        next_tab: Key::Char('l'),
    };
    app.on_key('l');
    assert_eq!(app.tabs.index, 1);
    app.on_key('h');
    app.on_key('h');
    assert_eq!(app.tabs.index, 2);
    let right = InputEvent::Key { key: Key::Right, pressed: true };
    assert_eq!(app.keys.action_for_event(right), Action::Nothing);
    app.on_key('q');
    assert!(!app.should_quit);
    app.on_key('k');
    assert_eq!(app.vertical_scroll, 1);
    app.on_key('x');
    assert!(app.should_quit);
}

#[test]
fn event_actions() {
    let keys = KeyBindings::standard();
    let press = |key| InputEvent::Key { key, pressed: true };
    assert_eq!(keys.action_for_event(press(Key::Char('q'))), Action::Quit);
    assert_eq!(keys.action_for_event(press(Key::Char('j'))), Action::ScrollUp);
    assert_eq!(keys.action_for_event(press(Key::Char('k'))), Action::ScrollDown);
    assert_eq!(keys.action_for_event(press(Key::Left)), Action::PreviousTab);
    assert_eq!(keys.action_for_event(press(Key::Right)), Action::NextTab);
    assert_eq!(keys.action_for_event(press(Key::Other)), Action::Nothing);
    let release = InputEvent::Key { key: Key::Char('q'), pressed: false };
    assert_eq!(keys.action_for_event(release), Action::Nothing);
    assert_eq!(keys.action_for_event(InputEvent::Mouse(Mouse::WheelUp)), Action::Nothing);
    assert_eq!(keys.action_for_event(InputEvent::Other), Action::Nothing);
}

#[test]
fn timeout_and_tick() {
    assert_eq!(poll_timeout(25, 10), 15);
    assert_eq!(poll_timeout(25, 25), 0);
    assert_eq!(poll_timeout(25, 40), 0);
    assert!(!tick_due(25, 24));
    assert!(tick_due(25, 25));
}

#[test]
fn step_quits_and_resets_tick() {
    let mut app = App::new("t");
    let out = app.step(None, 10, 25);
    assert!(!out.quit && !out.reset_tick);
    let out = app.step(Some(InputEvent::Key { key: Key::Right, pressed: true }), 30, 25);
    assert!(!out.quit && out.reset_tick);
    assert_eq!(app.tabs.index, 1);
    let out = app.step(Some(InputEvent::Key { key: Key::Char('q'), pressed: true }), 0, 25);
    assert!(out.quit);
}
