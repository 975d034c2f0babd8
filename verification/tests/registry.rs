use cmd_core::registry::{Agent, AgentRegistry, AgentStatusSummary, Event, EventLevelSummary};
use std::collections::VecDeque;

fn agent(id: &str, status: &str, metadata: &[(&str, &str)]) -> Agent {
    Agent {
        id: id.to_string(),
        instance_name: format!("{id}.rai"),
        role: "worker".to_string(),
        project: "view".to_string(),
        branch: "main".to_string(),
        status: status.to_string(),
        capabilities: Vec::new(),
        port: 0,
        addresses: Vec::new(),
        metadata: metadata
            .iter()
            .map(|(k, v)| ((*k).to_string(), (*v).to_string()))
            .collect(),
        last_seen_ms: 0,
        tokens: 0,
        activity: VecDeque::new(),
    }
}

fn event(agent_id: &str, level: &str) -> Event {
    Event {
        timestamp_ms: 0,
        agent_id: agent_id.to_string(),
        kind: "UPDATED".to_string(),
        component: "mesh".to_string(),
        level: level.to_string(),
        payload: "p".to_string(),
    }
}

#[test]
fn update_agent_keeps_agents_ordered_by_id() {
    let mut reg = AgentRegistry::new();
    reg.update_agent(agent("b", "busy", &[]), 1);
    reg.update_agent(agent("a", "idle", &[]), 2);
    reg.update_agent(agent("c", "idle", &[]), 3);
    let ids: Vec<&str> = reg.agents.iter().map(|a| a.id.as_str()).collect();
    assert_eq!(ids, vec!["a", "b", "c"]);
    assert_eq!(reg.agents[0].last_seen_ms, 2);
}

#[test]
fn update_agent_starts_a_zero_activity_window_for_new_agents() {
    let mut reg = AgentRegistry::new();
    reg.update_agent(agent("a", "idle", &[]), 0);
    assert_eq!(reg.agents[0].activity.len(), 50);
    assert!(reg.agents[0].activity.iter().all(|v| *v == 0));
}

#[test]
fn update_agent_reads_tokens_from_metadata_and_keeps_known_counts() {
    let mut reg = AgentRegistry::new();
    reg.update_agent(agent("a", "idle", &[("tokens", "12,500")]), 0);
    assert_eq!(reg.agents[0].tokens, 12_500);
    reg.update_agent(agent("a", "idle", &[]), 0);
    assert_eq!(reg.agents[0].tokens, 12_500);
    reg.update_agent(agent("a", "idle", &[("tokens", "many")]), 0);
    assert_eq!(reg.agents[0].tokens, 12_500);
    reg.update_agent(agent("a", "idle", &[("tokens", "7")]), 0);
    assert_eq!(reg.agents[0].tokens, 7);
    assert_eq!(reg.agents.len(), 1);
}

#[test]
fn add_event_counts_activity_and_keeps_newest_first() {
    let mut reg = AgentRegistry::new();
    reg.update_agent(agent("a", "idle", &[]), 0);
    reg.add_event(event("a", "info"));
    reg.add_event(event("z", "warn"));
    assert_eq!(reg.total_events_received, 2);
    assert_eq!(reg.events[0].agent_id, "z");
    assert_eq!(reg.events[1].agent_id, "a");
    assert_eq!(*reg.agents[0].activity.back().unwrap(), 1);
}

#[test]
fn add_event_keeps_at_most_one_hundred_events() {
    let mut reg = AgentRegistry::new();
    for i in 0..105 {
        reg.add_event(event(&format!("agent-{i}"), "info"));
    }
    assert_eq!(reg.events.len(), 100);
    assert_eq!(reg.total_events_received, 105);
    assert_eq!(reg.events[0].agent_id, "agent-104");
    assert_eq!(reg.events[99].agent_id, "agent-5");
}

#[test]
fn tick_activity_shifts_the_window() {
    let mut reg = AgentRegistry::new();
    reg.update_agent(agent("a", "idle", &[]), 0);
    reg.add_event(event("a", "info"));
    reg.tick_activity();
    let act = &reg.agents[0].activity;
    assert_eq!(act.len(), 50);
    assert_eq!(act[48], 1);
    assert_eq!(act[49], 0);
}

#[test]
fn summaries_count_by_status_and_level() {
    let mut reg = AgentRegistry::new();
    reg.update_agent(agent("a", "BUSY", &[]), 0);
    reg.update_agent(agent("b", "offline", &[]), 0);
    reg.update_agent(agent("c", "idle", &[]), 0);
    assert_eq!(
        reg.get_status_summary(),
        AgentStatusSummary { total: 3, online: 2, busy: 1, offline: 1 }
    );
    reg.add_event(event("a", "warn"));
    reg.add_event(event("a", "Error"));
    reg.add_event(event("a", "success"));
    reg.add_event(event("a", "debug"));
    assert_eq!(
        reg.get_event_summary(),
        EventLevelSummary { info: 1, warn: 1, error: 1, success: 1 }
    );
}

#[test]
fn metadata_keys_unique_spots_a_repeated_key() {
    let pair = |k: &str, v: &str| (k.to_string(), v.to_string());
    assert!(cmd_core::registry::metadata_keys_unique(&vec![]));
    assert!(cmd_core::registry::metadata_keys_unique(&vec![pair("a", "1"), pair("b", "1")]));
    assert!(!cmd_core::registry::metadata_keys_unique(&vec![pair("a", "1"), pair("b", "2"), pair("a", "3")]));
}
