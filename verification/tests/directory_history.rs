use cmd_core::history::{
    appended_entries, best_directory_jump_match, cd_target_from_command,
    directory_jump_history_from_entries, entries_with_commands, history_file_lines,
    history_file_text, history_from_entries, normalize_path, resolve_cd_target, HistoryEntry,
    RAW_HISTORY_LIMIT,
};
use std::collections::VecDeque;

fn entry(command: &str, cwd: Option<&str>) -> HistoryEntry {
    HistoryEntry {
        command: command.to_string(),
        cwd: cwd.map(|c| c.to_string()),
        timestamp_unix_ms: Some(1),
    }
}

#[test]
fn directory_jumps_should_resolve_relative_cd_commands_against_cwd() {
    let entries = vec![HistoryEntry {
        command: "cd ../project-b".to_string(),
        cwd: Some("/Users/me/work/project-a".to_string()),
        timestamp_unix_ms: Some(1),
    }];

    let jumps = directory_jump_history_from_entries(&entries, None);

    assert_eq!(
        jumps.into_iter().collect::<Vec<_>>(),
        vec!["/Users/me/work/project-b".to_string()]
    );
}

#[test]
fn best_directory_jump_should_prefer_frequency_then_recency() {
    let history = VecDeque::from(vec![
        "/tmp/alpha".to_string(),
        "/tmp/visual-alpha".to_string(),
        "/tmp/visual-alpha".to_string(),
        "/tmp/visual-beta".to_string(),
    ]);

    let suggestion = best_directory_jump_match(&history, "vi");

    assert_eq!(suggestion.as_deref(), Some("/tmp/visual-alpha"));
}

#[test]
fn best_directory_jump_prefers_final_component_prefix_then_recency() {
    let history = VecDeque::from(vec![
        "/a/vi-old".to_string(),
        "/vi/deep/x".to_string(),
        "/b/vi-new".to_string(),
    ]);
    assert_eq!(
        best_directory_jump_match(&history, " vi ").as_deref(),
        Some("/b/vi-new")
    );
    assert_eq!(best_directory_jump_match(&history, "   "), None);
    assert_eq!(best_directory_jump_match(&history, "zzz"), None);
    assert_eq!(
        best_directory_jump_match(&history, "deep").as_deref(),
        Some("/vi/deep/x")
    );
}

#[test]
fn normalize_path_drops_dots_and_resolves_parents() {
    assert_eq!(normalize_path("/a/./b/../c//d/"), "/a/c/d");
    assert_eq!(normalize_path("/../x"), "/x");
    assert_eq!(normalize_path("a/../../b"), "b");
    assert_eq!(normalize_path("/"), "/");
    assert_eq!(normalize_path(""), "");
}

#[test]
fn cd_targets_skip_empty_and_dash() {
    assert_eq!(cd_target_from_command("cd  /tmp  ").as_deref(), Some("/tmp"));
    assert_eq!(cd_target_from_command("cd -"), None);
    assert_eq!(cd_target_from_command("cd "), None);
    assert_eq!(cd_target_from_command("ls /tmp"), None);
}

#[test]
fn resolve_cd_target_handles_home_quotes_and_builtin() {
    assert_eq!(
        resolve_cd_target(None, "~/code", Some("/home/me")).as_deref(),
        Some("/home/me/code")
    );
    assert_eq!(resolve_cd_target(None, "~/code", None), None);
    assert_eq!(
        resolve_cd_target(None, "~", Some("/home/me/")).as_deref(),
        Some("/home/me")
    );
    assert_eq!(
        resolve_cd_target(Some("/w"), "'my dir'", None).as_deref(),
        Some("/w/my dir")
    );
    assert_eq!(
        resolve_cd_target(Some("/w"), "builtin ..", None).as_deref(),
        Some("/")
    );
    assert_eq!(resolve_cd_target(None, "rel", None), None);
    assert_eq!(resolve_cd_target(Some("/w"), "''", None), None);
}

#[test]
fn directory_jumps_keep_order_and_skip_non_cd_commands() {
    let entries = vec![
        entry("ls", Some("/x")),
        entry("cd /tmp", None),
        entry("cd sub", Some("/tmp")),
        entry("cd ~", Some("/tmp")),
    ];
    let jumps = directory_jump_history_from_entries(&entries, Some("/home/me"));
    assert_eq!(
        jumps.into_iter().collect::<Vec<_>>(),
        vec![
            "/tmp".to_string(),
            "/tmp/sub".to_string(),
            "/home/me".to_string()
        ]
    );
}

#[test]
fn command_history_keeps_recent_unique_commands_in_recency_order() {
    let entries = vec![
        entry("ls", None),
        entry("cd /tmp", None),
        entry("ls", None),
        entry("   ", None),
        entry("git status", None),
    ];
    let history = history_from_entries(&entries);
    assert_eq!(
        history.into_iter().collect::<Vec<_>>(),
        vec![
            "cd /tmp".to_string(),
            "ls".to_string(),
            "git status".to_string()
        ]
    );
}

#[test]
fn command_history_keeps_the_last_fifty_commands() {
    let entries: Vec<HistoryEntry> = (0..60).map(|i| entry(&format!("c{i}"), None)).collect();
    let history = history_from_entries(&entries);
    assert_eq!(history.len(), 50);
    assert_eq!(history.front().map(String::as_str), Some("c10"));
    assert_eq!(history.back().map(String::as_str), Some("c59"));
}

#[test]
fn history_file_lines_skip_blank_lines_and_carriage_returns() {
    let lines = history_file_lines("{\"a\":1}\r\n\n   \n{\"b\":2}");
    assert_eq!(lines, vec!["{\"a\":1}".to_string(), "{\"b\":2}".to_string()]);
    assert!(history_file_lines("").is_empty());
}

#[test]
fn history_records_with_blank_commands_are_dropped() {
    let parsed = vec![entry("ls", None), entry("  ", None), entry("pwd", Some("/"))];
    let kept = entries_with_commands(&parsed);
    let commands: Vec<&str> = kept.iter().map(|e| e.command.as_str()).collect();
    assert_eq!(commands, vec!["ls", "pwd"]);
    assert_eq!(kept[1].cwd.as_deref(), Some("/"));
}

#[test]
fn appended_entries_keep_the_newest_records() {
    let many: Vec<HistoryEntry> = (0..RAW_HISTORY_LIMIT).map(|i| entry(&format!("c{i}"), None)).collect();
    let out = appended_entries(many, "new", Some("/w"), Some(7));
    assert_eq!(out.len(), RAW_HISTORY_LIMIT);
    assert_eq!(out[0].command, "c1");
    assert_eq!(out[RAW_HISTORY_LIMIT - 1].command, "new");
    assert_eq!(out[RAW_HISTORY_LIMIT - 1].cwd.as_deref(), Some("/w"));
    assert_eq!(out[RAW_HISTORY_LIMIT - 1].timestamp_unix_ms, Some(7));
    let few = appended_entries(vec![entry("a", None)], "b", None, None);
    assert_eq!(few.len(), 2);
}

#[test]
fn history_file_text_ends_each_record_with_a_newline() {
    assert_eq!(
        history_file_text(&vec!["{}".to_string(), "[]".to_string()]),
        "{}\n[]\n"
    );
    assert_eq!(history_file_text(&Vec::new()), "");
}

#[test]
fn history_file_path_prefers_the_setting_then_home() {
    assert_eq!(
        cmd_core::history::history_file_path(Some("/tmp/h.jsonl"), Some("/home/me")).as_deref(),
        Some("/tmp/h.jsonl")
    );
    assert_eq!(
        cmd_core::history::history_file_path(None, Some("/home/me")).as_deref(),
        Some("/home/me/.view/shell-history.jsonl")
    );
    assert_eq!(
        cmd_core::history::history_file_path(None, Some("/home/me/")).as_deref(),
        Some("/home/me/.view/shell-history.jsonl")
    );
    assert_eq!(cmd_core::history::history_file_path(None, None), None);
}
