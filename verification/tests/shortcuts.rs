use cmd_core::app_state::AppState;
use cmd_core::shortcuts::{handle, shortcut_actions_of, ShortcutAction, ShortcutKeys};
use cmd_core::ui::{AgentFilterMode, ViewMode};

fn no_keys() -> ShortcutKeys {
    ShortcutKeys {
        arrow_down: false,
        arrow_up: false,
        arrow_left: false,
        arrow_right: false,
        page_down: false,
        page_up: false,
        j: false,
        k: false,
        f: false,
        g: false,
        t: false,
        w: false,
        digits: [false; 9],
        ctrl: false,
        command: false,
        shift: false,
    }
}

#[test]
fn no_key_consumes_nothing() {
    let mut app = AppState::new();
    assert!(!handle(&mut app, &no_keys()));
    assert!(shortcut_actions_of(&no_keys()).is_empty());
}

#[test]
fn command_t_opens_a_session_in_a_vertical_split() {
    let mut app = AppState::new();
    let mut keys = no_keys();
    keys.t = true;
    keys.command = true;
    assert!(handle(&mut app, &keys));
    assert_eq!(app.terminal_sessions().len(), 2);
    assert_eq!(app.terminal_sessions()[1].title, "shell-2");
    assert_eq!(app.ui.selected_terminal_idx, 1);
}

#[test]
fn command_w_closes_the_selected_session_but_not_the_last() {
    let mut app = AppState::new_with_sessions(2);
    let mut keys = no_keys();
    keys.w = true;
    keys.command = true;
    assert!(handle(&mut app, &keys));
    assert_eq!(app.terminal_sessions().len(), 1);
    assert!(handle(&mut app, &keys));
    assert_eq!(app.terminal_sessions().len(), 1);
}

#[test]
fn command_digit_focuses_that_session_in_focus_view() {
    let mut app = AppState::new_with_sessions(3);
    let mut keys = no_keys();
    keys.digits[1] = true;
    keys.command = true;
    assert!(handle(&mut app, &keys));
    assert_eq!(app.ui.selected_terminal_idx, 1);
    assert_eq!(app.ui.view_mode, ViewMode::Focus);
    let mut keys = no_keys();
    keys.digits[1] = true;
    assert!(!handle(&mut app, &keys));
}

#[test]
fn f_cycles_the_filter_only_without_modifiers() {
    let mut app = AppState::new();
    let mut keys = no_keys();
    keys.f = true;
    keys.ctrl = true;
    assert!(!handle(&mut app, &keys));
    keys.ctrl = false;
    assert!(handle(&mut app, &keys));
    assert_eq!(app.ui.filter_mode, AgentFilterMode::Busy);
}

#[test]
fn actions_come_in_binding_order() {
    let mut keys = no_keys();
    keys.g = true;
    keys.j = true;
    keys.command = true;
    keys.digits[2] = true;
    let actions = shortcut_actions_of(&keys);
    assert_eq!(actions.len(), 3);
    assert!(matches!(actions[0], ShortcutAction::SelectNextAgent));
    assert!(matches!(actions[1], ShortcutAction::SelectTerminal(2)));
    assert!(matches!(actions[2], ShortcutAction::ToggleView));
}

#[test]
fn command_g_toggles_the_view() {
    let mut app = AppState::new();
    let mut keys = no_keys();
    keys.g = true;
    keys.command = true;
    let before = app.ui.view_mode;
    assert!(handle(&mut app, &keys));
    assert_ne!(app.ui.view_mode, before);
}
