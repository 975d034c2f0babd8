use cmd_core::listener::{
    build_event_from_agent_record, build_left_event, camp_watch_command_config, demo_agents, demo_events,
    demo_file_name, demo_mode_from_value, watch_record_effect, EventRecord,
};
use cmd_core::registry::Agent;
use std::collections::VecDeque;

fn test_agent(metadata: &[(&str, &str)]) -> Agent {
    Agent {
        id: "agent-1".to_string(),
        instance_name: "agent-1".to_string(),
        role: "executor".to_string(),
        project: "view".to_string(),
        branch: "main".to_string(),
        status: "busy".to_string(),
        capabilities: Vec::new(),
        port: 0,
        addresses: Vec::new(),
        metadata: metadata
            .iter()
            .map(|(key, value)| ((*key).to_string(), (*value).to_string()))
            .collect(),
        last_seen_ms: 0,
        tokens: 0,
        activity: VecDeque::from(vec![0; 50]),
    }
}

fn test_record() -> EventRecord {
    EventRecord {
        kind: "updated".to_string(),
        origin: "camp".to_string(),
        reason: None,
        previous: None,
        current: None,
    }
}

#[test]
fn build_event_from_agent_record_should_use_rai_component_and_level_metadata() {
    let record = test_record();
    let agent = test_agent(&[
        ("rai_component", "tick"),
        ("rai_level", "warn"),
        ("log", "Queue is backing up"),
    ]);

    let event = build_event_from_agent_record(&record, &agent, 0);

    assert_eq!(event.component, "tick");
    assert_eq!(event.level, "warn");
    assert_eq!(event.payload, "Queue is backing up");
}

#[test]
fn build_event_from_agent_record_should_default_missing_level_to_info() {
    let record = test_record();
    let agent = test_agent(&[("rai_component", "garc"), ("log", "Dispatch ready")]);

    let event = build_event_from_agent_record(&record, &agent, 0);

    assert_eq!(event.component, "garc");
    assert_eq!(event.level, "info");
}

#[test]
fn camp_watch_command_config_should_avoid_json_flag_and_silence_stderr() {
    let config = camp_watch_command_config();

    assert_eq!(config.args, &["watch"]);
    assert!(config.silence_stderr);
}

#[test]
fn demo_mode_from_value_should_accept_common_truthy_inputs() {
    assert!(demo_mode_from_value("1"));
    assert!(demo_mode_from_value("true"));
    assert!(demo_mode_from_value("YES"));
    assert!(demo_mode_from_value("demo"));
    assert!(!demo_mode_from_value("0"));
    assert!(!demo_mode_from_value("off"));
}

#[test]
fn demo_dataset_should_cover_multiple_agents_and_levels() {
    let agents = demo_agents(2, 0);
    let events = demo_events(3, 0);

    assert_eq!(agents.len(), 6);
    assert!(agents
        .iter()
        .any(|agent| agent.status.eq_ignore_ascii_case("busy")));
    assert!(agents
        .iter()
        .any(|agent| agent.status.eq_ignore_ascii_case("offline")));
    assert!(agents.iter().all(|agent| !agent.activity.is_empty()));
    assert_eq!(events.len(), 5);
    assert!(events.iter().all(|event| event.component == "shell"));
    assert!(events.iter().any(|event| event.level == "success"));
}

#[test]
fn build_event_uses_defaults_and_upper_cases_the_kind() {
    let record = test_record();
    let agent = test_agent(&[]);
    let event = build_event_from_agent_record(&record, &agent, 42);
    assert_eq!(event.timestamp_ms, 42);
    assert_eq!(event.agent_id, "agent-1");
    assert_eq!(event.kind, "UPDATED");
    assert_eq!(event.component, "mesh");
    assert_eq!(event.level, "info");
    assert_eq!(event.payload, "Agent updated via camp");
}

#[test]
fn metadata_keys_take_their_last_value() {
    let record = test_record();
    let agent = test_agent(&[("rai_level", "warn"), ("rai_level", "error")]);
    let event = build_event_from_agent_record(&record, &agent, 0);
    assert_eq!(event.level, "error");
}

#[test]
fn left_event_reports_the_reason_or_unknown() {
    let mut record = test_record();
    let event = build_left_event(&record, "agent-9".to_string(), 5);
    assert_eq!(event.kind, "LEFT");
    assert_eq!(event.component, "mesh");
    assert_eq!(event.agent_id, "agent-9");
    assert_eq!(event.payload, "Agent left mesh (reason: unknown)");
    record.reason = Some("timeout".to_string());
    let event = build_left_event(&record, "agent-9".to_string(), 5);
    assert_eq!(event.payload, "Agent left mesh (reason: timeout)");
}

#[test]
fn watch_records_turn_into_events_and_agents() {
    let mut record = test_record();
    assert!(watch_record_effect(&record, 0).is_none());

    record.current = Some(test_agent(&[("log", "hello")]));
    let (event, agent) = watch_record_effect(&record, 1).expect("update");
    assert_eq!(event.kind, "UPDATED");
    assert_eq!(event.payload, "hello");
    assert_eq!(agent.status, "busy");

    record.kind = "joined".to_string();
    let (event, _) = watch_record_effect(&record, 1).expect("join");
    assert_eq!(event.kind, "JOINED");

    record.kind = "left".to_string();
    let (event, agent) = watch_record_effect(&record, 1).expect("leave");
    assert_eq!(event.kind, "LEFT");
    assert_eq!(agent.status, "Offline");
    assert_eq!(agent.id, "agent-1");

    record.kind = "renamed".to_string();
    assert!(watch_record_effect(&record, 1).is_none());
}

#[test]
fn demo_mode_ignores_whitespace_and_rejects_other_words() {
    assert!(demo_mode_from_value("  On \n"));
    assert!(!demo_mode_from_value(""));
    assert!(!demo_mode_from_value("yes please"));
}

#[test]
fn demo_agents_follow_the_script() {
    let agents = demo_agents(2, 77);
    let first = &agents[0];
    assert_eq!(first.id, "agentic-coding");
    assert_eq!(first.instance_name, "agentic-coding.rai");
    assert_eq!(first.tokens, 24_000 + 2 * 750);
    assert_eq!(first.port, 4100);
    assert_eq!(first.addresses, vec!["127.0.0.1:4100".to_string()]);
    assert_eq!(first.capabilities[2], "tool-1");
    assert_eq!(first.last_seen_ms, 77);
    assert_eq!(first.activity.len(), 50);
    let meta: Vec<(String, String)> = first.metadata.clone();
    assert!(meta.contains(&("model".to_string(), "gpt-5.4".to_string())));
    assert!(meta.contains(&("messages".to_string(), "14".to_string())));
    assert!(meta.contains(&(
        "last_file".to_string(),
        "/Users/demo/projects/agentic-coding/Cargo.toml".to_string()
    )));
    let offline = &agents[3];
    assert_eq!(offline.status, "offline");
    assert!(offline.activity.iter().all(|v| *v == 0));
    // phase = (2 + 0 + 1 * 3) % 11 = 5: the middle band.
    assert_eq!(agents[1].activity[0], 3);
    assert_eq!(agents[5].capabilities[2], "tool-6");
}

#[test]
fn demo_events_cycle_through_each_script() {
    let events = demo_events(0, 9);
    assert_eq!(events[0].agent_id, "agentic-coding");
    assert_eq!(events[0].payload, "$ cargo test --workspace");
    assert_eq!(events[1].payload, "Preview server listening on :3000");
    assert_eq!(events[4].level, "success");
    assert_eq!(events[4].payload, "Desktop preview rendered successfully");
    assert!(events.iter().all(|e| e.kind == "UPDATED" && e.timestamp_ms == 9));
}

#[test]
fn demo_file_names_wrap_around() {
    assert_eq!(demo_file_name(0, 0), "src/main.rs");
    assert_eq!(demo_file_name(5, 6), "src/session.rs");
    assert_eq!(demo_file_name(4, 3), "src/theme.rs");
}
