use cmd_core::view_terminals::{TerminalManager, TerminalState};

#[test]
fn viewer_manager_clamps_its_session_count() {
    assert_eq!(TerminalManager::new(0).sessions.len(), 1);
    assert_eq!(TerminalManager::new(3).sessions.len(), 3);
    assert_eq!(TerminalManager::new(100).sessions.len(), 32);
    let m = TerminalManager::new(2);
    assert_eq!(m.sessions[1].title, "shell-2");
    assert_eq!(m.sessions[1].status, "starting");
    assert_eq!(TerminalManager::default().sessions.len(), 0);
    assert_eq!(TerminalState::default().title, "shell-1");
}

#[test]
fn viewer_sessions_can_be_added_until_the_limit_and_removed_but_not_the_last() {
    let mut m = TerminalManager::new(31);
    assert_eq!(m.add_session("extra".to_string()), Some(31));
    assert_eq!(m.add_session("more".to_string()), None);
    assert_eq!(m.sessions[31].title, "extra");
    let mut one = TerminalManager::new(1);
    assert!(!one.remove_session(0));
    assert!(m.remove_session(0));
    assert_eq!(m.sessions.len(), 31);
    assert_eq!(m.sessions[0].title, "shell-2");
    assert!(!m.remove_session(40));
}

#[test]
fn viewer_transcript_keeps_the_last_four_hundred_lines_and_times_context_lines() {
    let mut m = TerminalManager::new(1);
    for i in 0..405 {
        m.append_line(0, format!("line {i}"));
    }
    assert_eq!(m.sessions[0].lines.len(), 400);
    assert_eq!(m.sessions[0].lines[0], "line 5");
    m.append_context_line(0, "/tmp git:(main)".to_string());
    m.append_line(0, "$ ls".to_string());
    m.finalize_context_line(0, "1.5000");
    assert_eq!(m.sessions[0].lines[398], "/tmp git:(main) (1.5000s)");
    assert!(m.sessions[0].pending_context_line.is_none());
    m.clear_lines(0);
    assert!(m.sessions[0].lines.is_empty());
}

#[test]
fn viewer_history_suggests_the_latest_match() {
    let mut m = TerminalManager::new(1);
    m.append_history(0, "git status".to_string());
    m.append_history(0, "git push".to_string());
    m.append_history(0, "git status".to_string());
    assert_eq!(m.get_suggestion(0, "git"), Some("git status".to_string()));
    assert_eq!(m.get_suggestion(0, "git p"), Some("git push".to_string()));
    assert_eq!(m.get_suggestion(0, ""), None);
    assert_eq!(m.get_suggestion(3, "git"), None);
    assert_eq!(m.sessions[0].history.len(), 2);
}
