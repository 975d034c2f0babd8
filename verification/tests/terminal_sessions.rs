use cmd_core::terminal::TerminalSize;
use cmd_core::terminals::TerminalManager;

#[test]
fn seed_history_should_copy_persisted_commands_into_new_sessions() {
    let mut manager = TerminalManager::new(2);

    manager.seed_history(vec![
        "git status".to_string(),
        "cargo test".to_string(),
        "cargo run -p desktop".to_string(),
    ]);

    let first = manager.sessions[0]
        .history
        .iter()
        .cloned()
        .collect::<Vec<_>>();
    let second = manager.sessions[1]
        .history
        .iter()
        .cloned()
        .collect::<Vec<_>>();

    assert_eq!(first, second);
    assert_eq!(
        first,
        vec![
            "git status".to_string(),
            "cargo test".to_string(),
            "cargo run -p desktop".to_string(),
        ]
    );
}

#[test]
fn new_manager_lays_sessions_side_by_side_focusing_the_last() {
    let m = TerminalManager::new(3);
    assert_eq!(m.sessions.len(), 3);
    assert_eq!(m.pane_tree.session_ids(), vec![0, 1, 2]);
    assert_eq!(m.active_session_id(), 2);
    assert_eq!(m.sessions[0].title, "shell-1");
}

#[test]
fn added_sessions_inherit_the_first_sessions_history() {
    let mut m = TerminalManager::new(1);
    m.append_history(0, "ls".to_string());
    assert_eq!(m.add_session("shell-2".to_string()), Some(1));
    assert_eq!(m.sessions[1].history.len(), 1);
    assert_eq!(m.sessions[1].history[0], "ls");
}

#[test]
fn directory_visits_skip_blank_paths() {
    let mut m = TerminalManager::new(1);
    m.record_directory_visit("  ".to_string());
    m.record_directory_visit("/tmp".to_string());
    assert_eq!(m.directory_history.len(), 1);
}

#[test]
fn viewport_size_reports_changes_only() {
    let mut m = TerminalManager::new(1);
    let size = TerminalSize { cols: 80, rows: 24 };
    assert!(m.set_viewport_size(0, size));
    assert!(!m.set_viewport_size(0, size));
    assert!(!m.set_viewport_size(4, size));
}
