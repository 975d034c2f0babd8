use cmd_core::app_state::AppState;
use cmd_core::registry::{Agent, Event};
use cmd_core::ui::AgentFilterMode;
use std::collections::VecDeque;

fn agent(id: &str, status: &str, project: &str) -> Agent {
    Agent {
        id: id.to_string(),
        instance_name: format!("{id}.rai"),
        role: "worker".to_string(),
        project: project.to_string(),
        branch: "main".to_string(),
        status: status.to_string(),
        capabilities: Vec::new(),
        port: 0,
        addresses: Vec::new(),
        metadata: Vec::new(),
        last_seen_ms: 0,
        tokens: 0,
        activity: VecDeque::new(),
    }
}

fn event(agent_id: &str, payload: &str) -> Event {
    Event {
        timestamp_ms: 0,
        agent_id: agent_id.to_string(),
        kind: "UPDATED".to_string(),
        component: "mesh".to_string(),
        level: "info".to_string(),
        payload: payload.to_string(),
    }
}

fn populated() -> AppState {
    let mut app = AppState::new();
    app.update_agent(agent("alpha", "busy", "Docs"), 0);
    app.update_agent(agent("beta", "offline", "api"), 0);
    app.update_agent(agent("gamma", "idle", "docs-site"), 0);
    app
}

#[test]
fn filters_select_agents_by_status() {
    let mut app = populated();
    assert_eq!(app.visible_agent_ids(), vec!["alpha", "beta", "gamma"]);
    app.cycle_filter_mode();
    assert_eq!(app.ui.filter_mode, AgentFilterMode::Busy);
    assert_eq!(app.visible_agent_ids(), vec!["alpha"]);
    app.cycle_filter_mode();
    assert_eq!(app.visible_agent_ids(), vec!["alpha", "gamma"]);
    app.cycle_filter_mode();
    assert_eq!(app.visible_agent_ids(), vec!["beta"]);
    assert_eq!(app.filter_label(), "offline");
}

#[test]
fn search_matches_fields_ignoring_ascii_case() {
    let mut app = populated();
    app.set_search_query("DOCS");
    assert_eq!(app.visible_agent_ids(), vec!["alpha", "gamma"]);
    app.set_search_query("   ");
    assert_eq!(app.visible_agent_count(), 3);
    app.set_search_query("rai");
    assert_eq!(app.visible_agent_count(), 3);
    app.set_search_query("zzz");
    assert_eq!(app.visible_agent_count(), 0);
    assert_eq!(app.get_selected_agent_id(), None);
}

#[test]
fn selection_is_clamped_when_the_visible_list_shrinks() {
    let mut app = populated();
    app.select_last();
    assert_eq!(app.ui.selected_agent_idx, 2);
    app.set_search_query("alpha");
    assert_eq!(app.ui.selected_agent_idx, 0);
    assert_eq!(app.get_selected_agent_id().as_deref(), Some("alpha"));
    assert_eq!(app.get_selected_agent().map(|a| a.project.as_str()), Some("Docs"));
}

#[test]
fn grid_pages_follow_the_selection() {
    let mut app = AppState::new();
    for i in 0..7 {
        app.update_agent(agent(&format!("a{i}"), "idle", "p"), 0);
    }
    assert_eq!(app.grid_page_count(3), 3);
    assert_eq!(app.grid_page_count(0), 1);
    app.select_visible_index(4);
    assert_eq!(app.current_grid_page(3), 1);
    assert_eq!(app.visible_agents_page(3), vec!["a3", "a4", "a5"]);
    app.select_visible_index(40);
    assert_eq!(app.ui.selected_agent_idx, 6);
    assert_eq!(app.visible_agents_page(3), vec!["a6"]);
    assert!(app.visible_agents_page(0).is_empty());
}

#[test]
fn recent_events_filter_by_agent_and_limit() {
    let mut app = populated();
    app.add_event(event("alpha", "1"));
    app.add_event(event("beta", "2"));
    app.add_event(event("alpha", "3"));
    let all: Vec<&str> = app.get_recent_events(None, 2).iter().map(|e| e.payload.as_str()).collect();
    assert_eq!(all, vec!["3", "2"]);
    let alpha: Vec<&str> = app
        .get_recent_events(Some("alpha"), 10)
        .iter()
        .map(|e| e.payload.as_str())
        .collect();
    assert_eq!(alpha, vec!["3", "1"]);
}

#[test]
fn web_snapshot_publishes_recent_state() {
    let mut app = populated();
    for i in 0..25 {
        app.add_event(event("alpha", &i.to_string()));
    }
    for i in 0..60 {
        app.append_terminal_line(0, format!("line {i}"));
    }
    let snap = app.web_snapshot(1234);
    assert_eq!(snap.agents.len(), 3);
    assert_eq!(snap.events.len(), 20);
    assert_eq!(snap.events[0].payload, "24");
    assert_eq!(snap.terminals.len(), 1);
    assert_eq!(snap.terminals[0].recent_lines.len(), 50);
    assert_eq!(snap.terminals[0].recent_lines[0], "line 10");
    assert_eq!(snap.total_events_received, 25);
    assert_eq!(snap.timestamp_ms, 1234);
}

#[test]
fn terminal_cwd_reports_changes_and_recent_lines_are_the_last_ones() {
    let mut app = AppState::new();
    assert!(app.set_terminal_cwd(0, "/tmp".to_string()));
    assert!(!app.set_terminal_cwd(0, "/tmp".to_string()));
    assert!(!app.set_terminal_cwd(3, "/tmp".to_string()));
    app.append_terminal_line(0, "a".to_string());
    app.append_terminal_line(0, "b".to_string());
    app.append_terminal_line(0, "c".to_string());
    assert_eq!(app.recent_terminal_lines(0, 2), vec!["b", "c"]);
    assert!(app.recent_terminal_lines(5, 2).is_empty());
}

#[test]
fn terminal_sessions_can_be_split_selected_and_removed() {
    let mut app = AppState::new();
    assert_eq!(app.add_terminal_session("shell-2".to_string()), Some(1));
    assert_eq!(app.ui.selected_terminal_idx, 1);
    app.select_terminal_index(9);
    assert_eq!(app.ui.selected_terminal_idx, 1);
    assert!(app.focus_next_terminal());
    assert_eq!(app.ui.selected_terminal_idx, 0);
    assert!(app.remove_terminal_session(0));
    assert_eq!(app.terminal_sessions().len(), 1);
    assert!(!app.remove_terminal_session(0));
    assert_eq!(app.selected_terminal().map(|t| t.title.as_str()), Some("shell-2"));
}
