use cmd_core::registry::Agent;
use cmd_core::listener::EventRecord;
use cmd_core::tui::{dashboard_record_effect, log_focus_body, log_focus_line, log_focus_title, AppState};
use std::collections::VecDeque;

fn agent(id: &str) -> Agent {
    Agent {
        id: id.to_string(),
        instance_name: id.to_string(),
        role: "worker".to_string(),
        project: "view".to_string(),
        branch: "main".to_string(),
        status: "idle".to_string(),
        capabilities: Vec::new(),
        port: 0,
        addresses: Vec::new(),
        metadata: Vec::new(),
        last_seen_ms: 0,
        tokens: 0,
        activity: VecDeque::new(),
    }
}

fn dashboard(n: usize) -> AppState {
    let mut s = AppState::new();
    for i in 0..n {
        s.update_agent(agent(&format!("agent-{i:02}")), 0);
    }
    s
}

#[test]
fn selection_wraps_in_both_directions() {
    let mut s = dashboard(3);
    s.select_previous();
    assert_eq!(s.selected_agent_idx, 2);
    s.select_next();
    assert_eq!(s.selected_agent_idx, 0);
    s.select_next();
    s.select_next();
    assert_eq!(s.get_selected_agent_id().as_deref(), Some("agent-02"));
}

#[test]
fn selection_on_an_empty_dashboard_stays_at_zero() {
    let mut s = AppState::new();
    s.select_next();
    assert_eq!(s.selected_agent_idx, 0);
    s.select_previous();
    assert_eq!(s.selected_agent_idx, 0);
    s.select_last();
    assert_eq!(s.selected_agent_idx, 0);
    assert_eq!(s.get_selected_agent_id(), None);
}

#[test]
fn paging_moves_by_five_within_the_list() {
    let mut s = dashboard(12);
    s.select_next_page();
    assert_eq!(s.selected_agent_idx, 5);
    s.select_next_page();
    assert_eq!(s.selected_agent_idx, 10);
    s.select_next_page();
    assert_eq!(s.selected_agent_idx, 11);
    s.select_previous_page();
    assert_eq!(s.selected_agent_idx, 6);
    s.select_previous_page();
    s.select_previous_page();
    assert_eq!(s.selected_agent_idx, 0);
    s.select_last();
    assert_eq!(s.selected_agent_idx, 11);
    s.select_first();
    assert_eq!(s.selected_agent_idx, 0);
}

#[test]
fn events_of_one_agent_are_listed_newest_first() {
    let mut s = dashboard(2);
    for (i, id) in ["agent-00", "agent-01", "agent-00"].iter().enumerate() {
        s.add_event(cmd_core::registry::Event {
            timestamp_ms: i as i64,
            agent_id: id.to_string(),
            kind: "UPDATED".to_string(),
            component: "mesh".to_string(),
            level: "info".to_string(),
            payload: format!("e{i}"),
        });
    }
    let events = s.get_events_for_agent("agent-00");
    let payloads: Vec<&str> = events.iter().map(|e| e.payload.as_str()).collect();
    assert_eq!(payloads, vec!["e2", "e0"]);
    assert!(s.get_events_for_agent("nobody").is_empty());
    s.tick_activity();
    assert_eq!(s.registry.agents[0].activity.len(), 50);
}

fn record(kind: &str, metadata: &[(&str, &str)], reason: Option<&str>) -> EventRecord {
    let mut current = agent("worker-1");
    current.metadata = metadata.iter().map(|(k, v)| (k.to_string(), v.to_string())).collect();
    EventRecord {
        kind: kind.to_string(),
        origin: "lan".to_string(),
        reason: reason.map(|r| r.to_string()),
        previous: None,
        current: Some(current),
    }
}

fn fields(events: &[cmd_core::registry::Event]) -> Vec<(String, String, String, String)> {
    events
        .iter()
        .map(|e| (e.kind.clone(), e.component.clone(), e.level.clone(), e.payload.clone()))
        .collect()
}

fn tuple(k: &str, c: &str, l: &str, p: &str) -> (String, String, String, String) {
    (k.to_string(), c.to_string(), l.to_string(), p.to_string())
}

#[test]
fn dashboard_structured_log_line_comes_from_rai_metadata() {
    let r = record("updated", &[("rai_component", "planner"), ("rai_level", "warn"), ("action", "ignored")], None);
    let (events, agent) = dashboard_record_effect(&r, 42).expect("an agent update");
    assert_eq!(fields(&events), vec![tuple("UPDATED", "planner", "warn", "No log message")]);
    assert_eq!(events[0].timestamp_ms, 42);
    assert_eq!(events[0].agent_id, "worker-1");
    assert_eq!(agent.status, "idle");
}

#[test]
fn dashboard_older_keys_give_one_event_each() {
    let r = record("joined", &[("wasp_log", "scan done"), ("action", "edit main.rs")], None);
    let (events, _) = dashboard_record_effect(&r, 7).expect("an agent join");
    assert_eq!(
        fields(&events),
        vec![tuple("ACTION", "ACTION", "info", "edit main.rs"), tuple("WASP", "WASP", "info", "scan done")]
    );
}

#[test]
fn dashboard_plain_update_is_a_mesh_event() {
    let r = record("joined", &[], None);
    let (events, _) = dashboard_record_effect(&r, 7).expect("an agent join");
    assert_eq!(fields(&events), vec![tuple("JOINED", "MESH", "info", "Agent joined via lan")]);
}

#[test]
fn dashboard_leaving_agent_goes_offline() {
    let r = record("left", &[("action", "x")], Some("shutdown"));
    let (events, agent) = dashboard_record_effect(&r, 9).expect("an agent leave");
    assert_eq!(fields(&events), vec![tuple("LEFT", "MESH", "info", "Agent left mesh (reason: shutdown)")]);
    assert_eq!(agent.status, "Offline");
    let r = record("left", &[], None);
    let (events, _) = dashboard_record_effect(&r, 9).unwrap();
    assert_eq!(events[0].payload, "Agent left mesh (reason: unknown)");
    assert!(dashboard_record_effect(&record("pinged", &[], None), 9).is_none());
    let mut r = record("joined", &[], None);
    r.current = None;
    assert!(dashboard_record_effect(&r, 9).is_none());
}

#[test]
fn log_panel_texts() {
    assert_eq!(log_focus_title(Some("agent-01")), " [ Log Focus: agent-01 ] ");
    assert_eq!(log_focus_title(None), " [ Log Focus: N/A ] ");
    assert_eq!(log_focus_line("12:00:01", "UPDATED", "ready"), "[12:00:01] UPDATED: ready");
    assert_eq!(log_focus_body(None, &vec!["x".to_string()]), "No agent selected.");
    assert_eq!(
        log_focus_body(Some("agent-01"), &Vec::new()),
        "No recent activity recorded for agent 'agent-01'."
    );
    let lines = vec!["a".to_string(), "b".to_string(), "c".to_string()];
    assert_eq!(log_focus_body(Some("agent-01"), &lines), "a\nb\nc");
    assert_eq!(log_focus_body(Some("agent-01"), &vec!["only".to_string()]), "only");
}
