use cmd_core::desktop::{
    active_search_result, chunk_string, command_text, command_token_style, context_token_style,
    output_token_style, shell_input_should_submit, shorten_context_line, get_terminal_wrapped_lines,
    transcript_block_fill, trim_line, truncate_path, update_selected_blocks, whitespace_tokens,
    session_sync_actions, transcript_chunk_kind, BlockFill, ChunkKind, FindBar, FooterPickers,
    SettingsModal, SettingsSection, TokenStyle,
};
use cmd_core::search::{
    find_match_ranges, next_search_index, transcript_layout, TranscriptRow, selected_search_scope, terminal_transcript_blocks,
    transcript_line_block_indexes, transcript_search_matches,
};
use cmd_core::shell::{
    format_command_context_line, history_entry_for_offset, history_step_back,
    history_step_forward, shell_quote_path, terminal_suggestion_suffix,
};
use cmd_core::transcript::{
    build_physical_rows, command_block_has_error, command_clears_transcript,
    is_context_block_start, is_error_output_line, is_legacy_context_block_start,
    selection_text_from_physical_rows, should_extend_error_block_to_bottom,
    should_render_block_separator, wrapped_row_count, PhysicalRow,
};
use std::collections::BTreeSet;
use cmd_core::engine::Action;
use cmd_core::terminal::TerminalSize;

#[test]
fn string_helpers_should_trim_without_panicking() {
    assert_eq!(trim_line("abcdef", 4), "abc…");
    assert_eq!(truncate_path("/a/very/long/path/file.rs", 10), "…/file.rs");
}

#[test]
fn terminal_suggestion_suffix_should_render_only_remaining_text() {
    assert_eq!(
        terminal_suggestion_suffix("cd ", Some("cd ..")),
        Some("..".to_string())
    );
}

#[test]
fn terminal_suggestion_suffix_should_ignore_exact_matches() {
    assert_eq!(terminal_suggestion_suffix("cd ..", Some("cd ..")), None);
}

#[test]
fn command_clears_transcript_should_match_clear_aliases() {
    assert!(command_clears_transcript("clear"));
    assert!(command_clears_transcript(" cls "));
    assert!(!command_clears_transcript("clear now"));
}

#[test]
fn command_block_has_error_should_detect_failed_command_output() {
    let lines = vec![
        "$ cd vivisual_interception_event_window",
        "~ (0.0006s)",
        "cd: no such file or directory: vivisual_interception_event_window",
        "$ cd visual_interception_event_window",
    ];

    assert!(command_block_has_error(&lines, 0));
    assert!(!command_block_has_error(&lines, 3));
}

#[test]
fn should_render_block_separator_should_render_between_all_transcript_blocks() {
    assert!(should_render_block_separator(false, false));
    assert!(should_render_block_separator(true, false));
    assert!(should_render_block_separator(false, true));
}

#[test]
fn should_extend_error_block_to_bottom_should_only_apply_to_final_error_block() {
    assert!(should_extend_error_block_to_bottom(true, true));
    assert!(!should_extend_error_block_to_bottom(true, false));
    assert!(!should_extend_error_block_to_bottom(false, true));
}

#[test]
fn transcript_block_fill_color_should_prefer_selection_without_changing_error_text_rules() {
    assert_eq!(transcript_block_fill(true, true), BlockFill::Selected);
    assert_eq!(transcript_block_fill(true, false), BlockFill::Error);
}

#[test]
fn find_match_ranges_should_support_case_sensitive_toggle() {
    assert_eq!(find_match_ranges("ls0 LS0", "ls0", false).len(), 2);
    assert_eq!(find_match_ranges("ls0 LS0", "ls0", true).len(), 1);
}

#[test]
fn transcript_search_matches_should_scope_to_selected_blocks_only() {
    let lines = vec![
        "/tmp/project git:(main)",
        "$ ls0",
        "zsh: command not found: ls0",
        "/tmp/project git:(main)",
        "$ echo ls0",
        "ls0",
    ];

    let all_matches = transcript_search_matches(&lines, &BTreeSet::new(), "ls0", false);
    assert_eq!(all_matches.len(), 4);

    let selected_matches =
        transcript_search_matches(&lines, &BTreeSet::from([1usize]), "ls0", false);
    assert_eq!(selected_matches.len(), 2);
    assert!(selected_matches
        .iter()
        .all(|result| result.block_index == Some(1)));
}

#[test]
fn next_search_index_should_wrap_in_both_directions() {
    assert_eq!(next_search_index(None, 3, false), Some(0));
    assert_eq!(next_search_index(Some(2), 3, false), Some(0));
    assert_eq!(next_search_index(None, 3, true), Some(2));
    assert_eq!(next_search_index(Some(0), 3, true), Some(2));
    assert_eq!(next_search_index(Some(1), 0, false), None);
}

#[test]
fn selected_search_scope_should_only_apply_when_toggle_is_enabled() {
    let selected = BTreeSet::from([1usize, 3usize]);

    assert!(selected_search_scope(&selected, false).is_empty());
    assert_eq!(selected_search_scope(&selected, true), selected);
}

#[test]
fn shell_input_should_submit_when_enter_makes_text_edit_lose_focus() {
    assert!(shell_input_should_submit(false, false, false, true, true));
    assert!(shell_input_should_submit(false, false, true, false, true));
    assert!(!shell_input_should_submit(true, false, false, true, true));
    assert!(!shell_input_should_submit(false, true, false, true, true));
    assert!(!shell_input_should_submit(false, false, false, false, true));
}

#[test]
fn terminal_transcript_blocks_should_detect_each_command_group() {
    let lines = vec![
        "/tmp/project git:(main)",
        "$ ls",
        "Cargo.toml",
        "/tmp/project git:(main)",
        "$ bad",
        "zsh: command not found: bad",
        "plain trailing line",
    ];

    let blocks = terminal_transcript_blocks(&lines);

    assert_eq!(blocks.len(), 2);
    assert_eq!(blocks[0].start, 0);
    assert_eq!(blocks[0].end, 3);
    assert!(!blocks[0].has_error);
    assert_eq!(blocks[1].start, 3);
    assert_eq!(blocks[1].end, 7);
    assert!(blocks[1].has_error);
}

#[test]
fn wrapped_row_count_should_track_physical_rows_without_changing_logical_line_count() {
    let line = "abcdefghijklmnopqrstuvwxyz";
    assert_eq!(wrapped_row_count(line, 10), 3);
    assert_eq!(wrapped_row_count(line, 26), 1);
}

#[test]
fn selection_text_from_physical_rows_should_preserve_single_logical_line() {
    let lines = vec!["abcdefghijklmnopqrstuvwxyz"];
    let rows = build_physical_rows(&lines, 10);

    assert_eq!(
        selection_text_from_physical_rows(&lines, &rows, 0..=2),
        "abcdefghijklmnopqrstuvwxyz"
    );
}

#[test]
fn selection_text_from_physical_rows_should_insert_newlines_between_logical_lines_only() {
    let lines = vec!["abcdefghijklmno", "pqrstuvwxyz"];
    let rows = build_physical_rows(&lines, 5);

    assert_eq!(
        selection_text_from_physical_rows(&lines, &rows, 1..=4),
        "fghijklmno\npqrstuvwxy"
    );
}

#[test]
fn format_command_context_line_should_include_git_details_when_present() {
    assert_eq!(
        format_command_context_line(
            "/tmp/project",
            Some("main"),
            Some("4 files changed, 10 insertions(+)")
        ),
        "/tmp/project git:(main) 4 files changed, 10 insertions(+)"
    );
}

#[test]
fn context_block_detection_should_handle_current_and_legacy_layouts() {
    let current = vec!["/tmp/project git:(main)", "$ ls"];
    let legacy = vec!["", "/tmp/project git:(main)", "$ ls"];

    assert!(is_context_block_start(&current, 0));
    assert!(is_legacy_context_block_start(&legacy, 0));
}

#[test]
fn history_entry_for_offset_should_return_most_recent_first() {
    let history = std::collections::VecDeque::from(vec!["ls".to_string(), "cd ..".to_string()]);

    assert_eq!(
        history_entry_for_offset(&history, 1).as_deref(),
        Some("cd ..")
    );
    assert_eq!(history_entry_for_offset(&history, 2).as_deref(), Some("ls"));
}

#[test]
fn shell_quote_path_should_escape_single_quotes() {
    assert_eq!(shell_quote_path("/tmp/it's-here"), "'/tmp/it'\\''s-here'");
}

#[test]
fn update_selected_blocks_should_toggle_and_support_shift_multi_select() {
    let mut selected = BTreeSet::new();
    update_selected_blocks(&mut selected, 2, false);
    assert_eq!(selected, BTreeSet::from([2]));

    update_selected_blocks(&mut selected, 2, false);
    assert!(selected.is_empty());

    update_selected_blocks(&mut selected, 2, false);
    update_selected_blocks(&mut selected, 3, true);
    assert_eq!(selected, BTreeSet::from([2, 3]));
}

#[test]
fn shift_click_on_a_selected_block_deselects_it_and_plain_click_replaces_selection() {
    let mut selected = BTreeSet::from([1usize, 4usize]);
    update_selected_blocks(&mut selected, 4, true);
    assert_eq!(selected, BTreeSet::from([1]));
    update_selected_blocks(&mut selected, 7, false);
    assert_eq!(selected, BTreeSet::from([7]));
}

#[test]
fn physical_rows_split_lines_and_keep_empty_lines() {
    let rows = build_physical_rows(&["abcde", "", "xy"], 2);
    let got: Vec<(usize, usize, usize)> = rows
        .iter()
        .map(|r: &PhysicalRow| (r.logical_line_index, r.start_char, r.end_char))
        .collect();
    assert_eq!(
        got,
        vec![(0, 0, 2), (0, 2, 4), (0, 4, 5), (1, 0, 0), (2, 0, 2)]
    );
    assert_eq!(build_physical_rows(&["abc"], 0).len(), 3);
}

#[test]
fn wrapped_row_count_counts_an_empty_line_as_one_row() {
    assert_eq!(wrapped_row_count("", 10), 1);
    assert_eq!(wrapped_row_count("abc", 0), 3);
    assert_eq!(wrapped_row_count("abcd", 3), 2);
}

#[test]
fn selection_skips_rows_that_do_not_exist() {
    let lines = vec!["ab", "cd"];
    let rows = build_physical_rows(&lines, 5);
    assert_eq!(selection_text_from_physical_rows(&lines, &rows, 0..=9), "ab\ncd");
    assert_eq!(selection_text_from_physical_rows(&lines, &rows, 3..=1), "");
}

#[test]
fn error_lines_are_recognised_case_insensitively() {
    assert!(is_error_output_line("ERROR: boom"));
    assert!(is_error_output_line("Permission Denied"));
    assert!(is_error_output_line("zsh: bad"));
    assert!(!is_error_output_line("all good"));
    assert!(!is_error_output_line(" zsh: indented"));
}

#[test]
fn line_block_indexes_mark_blocks_and_skip_blank_lines_after_them() {
    let lines = vec!["intro", "$ ls", "a", "", "  ", "$ pwd", "/x"];
    let indexes = transcript_line_block_indexes(&lines);
    assert_eq!(
        indexes,
        vec![None, Some(0), Some(0), Some(0), Some(0), Some(1), Some(1)]
    );
}

#[test]
fn find_match_ranges_reports_non_overlapping_byte_ranges() {
    let ranges = find_match_ranges("aaaa", "aa", true);
    let got: Vec<(usize, usize)> = ranges.iter().map(|r| (r.start, r.end)).collect();
    assert_eq!(got, vec![(0, 2), (2, 4)]);
    assert!(find_match_ranges("abc", "", true).is_empty());
    let unicode = find_match_ranges("éA", "a", false);
    let got: Vec<(usize, usize)> = unicode.iter().map(|r| (r.start, r.end)).collect();
    assert_eq!(got, vec![(2, 3)]);
}

#[test]
fn next_search_index_steps_back_from_the_middle() {
    assert_eq!(next_search_index(Some(2), 3, true), Some(1));
    assert_eq!(next_search_index(Some(0), 3, false), Some(1));
}

#[test]
fn active_search_result_restarts_when_out_of_range() {
    assert_eq!(active_search_result(None, 3), Some(0));
    assert_eq!(active_search_result(Some(5), 3), Some(0));
    assert_eq!(active_search_result(Some(1), 3), Some(1));
    assert_eq!(active_search_result(Some(1), 0), None);
}

#[test]
fn shortened_context_lines_keep_only_the_last_directory() {
    assert_eq!(
        shorten_context_line("/Volumes/x/learn/visual_window git:(main)"),
        "../visual_window git:(main)"
    );
    assert_eq!(shorten_context_line("/tmp"), "../tmp");
    assert_eq!(shorten_context_line("relative path"), "relative path");
    assert_eq!(shorten_context_line("/ x"), "..// x");
}

#[test]
fn wrapped_lines_cut_long_lines_into_columns() {
    assert_eq!(
        get_terminal_wrapped_lines("abcdefg", 3),
        vec!["abc".to_string(), "def".to_string(), "g".to_string()]
    );
    assert_eq!(get_terminal_wrapped_lines("", 3), vec![String::new()]);
    assert_eq!(get_terminal_wrapped_lines("ab", 0), vec!["a".to_string(), "b".to_string()]);
}

#[test]
fn chunk_string_cuts_into_fixed_size_pieces() {
    assert_eq!(
        chunk_string("docs-architecture.md  target", 9),
        vec![
            "docs-arch".to_string(),
            "itecture.".to_string(),
            "md  targe".to_string(),
            "t".to_string()
        ]
    );
    assert!(chunk_string("", 3).is_empty());
}

#[test]
fn whitespace_tokens_alternate_between_runs() {
    assert_eq!(
        whitespace_tokens("git  status -s"),
        vec![
            "git".to_string(),
            "  ".to_string(),
            "status".to_string(),
            " ".to_string(),
            "-s".to_string()
        ]
    );
    assert!(whitespace_tokens("").is_empty());
}

#[test]
fn token_styles_follow_their_rules() {
    assert_eq!(context_token_style("../proj", false), TokenStyle::Path);
    assert_eq!(context_token_style("git:(main)", false), TokenStyle::Branch);
    assert_eq!(context_token_style("+3", false), TokenStyle::Positive);
    assert_eq!(context_token_style("-1", false), TokenStyle::Negative);
    assert_eq!(context_token_style("files", false), TokenStyle::Muted);
    assert_eq!(context_token_style("  ", true), TokenStyle::Primary);
    assert_eq!(command_token_style("git", false, false), (TokenStyle::Command, true));
    assert_eq!(command_token_style("./x", false, false), (TokenStyle::Directory, false));
    assert_eq!(command_token_style("-la", false, false), (TokenStyle::Muted, false));
    assert_eq!(command_token_style("foo", false, true), (TokenStyle::Error, false));
    assert_eq!(command_token_style("foo", false, false), (TokenStyle::Primary, false));
    assert_eq!(command_text("$ ls -la"), "ls -la");
    assert_eq!(command_text("ls"), "ls");
    assert_eq!(output_token_style("..", "a ..", false), TokenStyle::Directory);
    assert_eq!(output_token_style("x", "error: x", false), TokenStyle::Error);
    assert_eq!(output_token_style("src", "src", true), TokenStyle::Directory);
    assert_eq!(output_token_style("src", "src", false), TokenStyle::Primary);
}

#[test]
fn truncate_path_handles_root_single_and_long_components() {
    assert_eq!(truncate_path("/", 10), "/");
    assert_eq!(truncate_path("/abc", 10), "/abc");
    assert_eq!(truncate_path("/abcdefgh", 4), "/abc…");
    assert_eq!(truncate_path("/a/abcdefgh", 6), "…/abc…");
    assert_eq!(trim_line("abc", 3), "abc");
    assert_eq!(trim_line("abc", 0), "…");
}

#[test]
fn history_steps_walk_back_and_forward() {
    let history = std::collections::VecDeque::from(vec!["ls".to_string(), "pwd".to_string()]);
    let (o1, e1) = history_step_back(&history, 0);
    assert_eq!((o1, e1.as_deref()), (1, Some("pwd")));
    let (o2, e2) = history_step_back(&history, o1);
    assert_eq!((o2, e2.as_deref()), (2, Some("ls")));
    let (o3, e3) = history_step_back(&history, o2);
    assert_eq!((o3, e3.as_deref()), (2, Some("ls")));
    let (o4, e4) = history_step_forward(&history, o3);
    assert_eq!((o4, e4.as_deref()), (1, Some("pwd")));
    let (o5, e5) = history_step_forward(&history, o4);
    assert_eq!((o5, e5.as_deref()), (0, Some("")));
    assert_eq!(history_step_forward(&history, 0), (0, None));
}

#[test]
fn suggestion_suffix_needs_a_longer_matching_suggestion() {
    assert_eq!(terminal_suggestion_suffix("git", Some("ls")), None);
    assert_eq!(terminal_suggestion_suffix("git", None), None);
    assert_eq!(
        format_command_context_line("/tmp", None, None),
        "/tmp"
    );
    assert_eq!(
        format_command_context_line("/tmp", Some("dev"), None),
        "/tmp git:(dev)"
    );
}

fn describe(actions: &[Action]) -> Vec<String> {
    actions
        .iter()
        .map(|a| match a {
            Action::SpawnTerminal { cwd } => format!("spawn {cwd}"),
            Action::ResizeTerminal { session_id, size } => format!("resize {session_id} {}x{}", size.cols, size.rows),
            Action::SubmitCommand { .. } => "submit".to_string(),
            Action::PersistHistory { .. } => "persist".to_string(),
        })
        .collect()
}

#[test]
fn new_sessions_get_a_shell_in_the_selected_directory_and_the_known_size() {
    let old = TerminalSize { cols: 80, rows: 24 };
    let new = TerminalSize { cols: 100, rows: 30 };
    let (actions, last) = session_sync_actions(1, 3, Some("/work"), "/", Some(old), new);
    assert_eq!(
        describe(&actions),
        vec![
            "spawn /work", "resize 1 80x24", "spawn /work", "resize 2 80x24",
            "resize 0 100x30", "resize 1 100x30", "resize 2 100x30",
        ]
    );
    assert_eq!(last, Some(new));
}

#[test]
fn unchanged_size_and_no_new_session_send_nothing() {
    let size = TerminalSize { cols: 80, rows: 24 };
    let (actions, last) = session_sync_actions(2, 2, Some("/work"), "/", Some(size), size);
    assert!(actions.is_empty());
    assert_eq!(last, Some(size));
    let (actions, _) = session_sync_actions(0, 1, Some(""), "/home", None, size);
    assert_eq!(describe(&actions), vec!["spawn /home", "resize 0 80x24"]);
    let (actions, _) = session_sync_actions(3, 1, None, "/tmp", Some(size), size);
    assert!(actions.is_empty());
}

#[test]
fn transcript_layout_groups_blocks_and_marks_errors_and_selection() {
    let lines = [
        "boot",
        "/w git:(main)",
        "$ ls",
        "a.txt",
        "",
        "",
        "$ cat nope",
        "cat: nope: No such file or directory",
    ];
    let rows = transcript_layout(&lines, &BTreeSet::from([1usize]));
    assert_eq!(
        rows,
        vec![
            TranscriptRow::Line { index: 0 },
            TranscriptRow::Block {
                index: 0,
                start: 1,
                end: 6,
                has_error: false,
                selected: false,
                extend_to_bottom: false,
                previous_error: false,
                previous_selected: false,
            },
            TranscriptRow::Block {
                index: 1,
                start: 6,
                end: 8,
                has_error: true,
                selected: true,
                extend_to_bottom: true,
                previous_error: false,
                previous_selected: false,
            },
        ]
    );
}

#[test]
fn transcript_layout_carries_the_previous_block_state() {
    let lines = ["$ a", "zsh: command not found: a", "", "$ b"];
    let rows = transcript_layout(&lines, &BTreeSet::from([0usize]));
    assert_eq!(
        rows,
        vec![
            TranscriptRow::Block {
                index: 0,
                start: 0,
                end: 3,
                has_error: true,
                selected: true,
                extend_to_bottom: false,
                previous_error: false,
                previous_selected: false,
            },
            TranscriptRow::Block {
                index: 1,
                start: 3,
                end: 4,
                has_error: false,
                selected: false,
                extend_to_bottom: false,
                previous_error: true,
                previous_selected: true,
            },
        ]
    );
    assert!(transcript_layout(&[], &BTreeSet::new()).is_empty());
}

#[test]
fn chunk_kinds_follow_the_line_and_the_block() {
    assert_eq!(transcript_chunk_kind("/w git:(main)", true), ChunkKind::Context);
    assert_eq!(transcript_chunk_kind("$ ls", true), ChunkKind::Command);
    assert_eq!(transcript_chunk_kind("~ (12ms)", true), ChunkKind::Muted);
    assert_eq!(transcript_chunk_kind("a.txt", true), ChunkKind::Output);
    assert_eq!(transcript_chunk_kind("/w git:(main)", false), ChunkKind::Output);
    assert_eq!(transcript_chunk_kind("$ ls", false), ChunkKind::Output);
    assert_eq!(transcript_chunk_kind("~ (12ms)", false), ChunkKind::Muted);
}

#[test]
fn find_bar_forgets_the_active_result_when_the_search_changes() {
    let mut find = FindBar::new();
    assert!(!find.open);
    find.escape();
    assert!(!find.open);
    find.open();
    find.set_query("ls".to_string());
    find.sync_results(3);
    assert_eq!(find.active_result, Some(0));
    assert_eq!(find.result_label(3), "1/3");
    find.step(3, true);
    assert_eq!(find.active_result, Some(2));
    assert_eq!(find.result_label(3), "3/3");
    find.step(3, false);
    assert_eq!(find.active_result, Some(0));
    find.step(3, false);
    find.sync_results(1);
    assert_eq!(find.active_result, Some(0));
    find.toggle_case_sensitive();
    assert!(find.case_sensitive);
    assert_eq!(find.active_result, None);
    find.sync_results(0);
    assert_eq!(find.result_label(0), "0/0");
    find.toggle_selected_only();
    assert!(find.selected_only);
    find.escape();
    assert!(!find.open);
    assert!(find.query.is_empty());
    assert!(find.case_sensitive && find.selected_only);
    find.sync_results(12);
    find.step(12, true);
    assert_eq!(find.result_label(12), "12/12");
}

#[test]
fn footer_pickers_show_one_at_a_time() {
    let mut pickers = FooterPickers::new();
    assert!(pickers.completion_requested(true));
    assert!(!pickers.completion_requested(false));
    assert!(pickers.input_takes_focus(false, false, ""));
    assert!(!pickers.input_takes_focus(true, false, ""));
    assert!(!pickers.input_takes_focus(false, false, "ls"));
    pickers.open_directory_picker();
    pickers.directory_query.push_str("src");
    assert!(!pickers.completion_requested(true));
    pickers.branch_query.push_str("old");
    pickers.open_branch_picker();
    assert!(pickers.branch_open && !pickers.directory_open);
    assert!(pickers.branch_query.is_empty());
    assert_eq!(pickers.directory_query, "src");
    pickers.close_branch_picker();
    assert!(!pickers.branch_open);
    pickers.open_directory_picker();
    assert!(pickers.directory_query.is_empty());
    pickers.close_directory_picker();
    assert!(!pickers.directory_open && !pickers.branch_open);
}

#[test]
fn settings_window_messages_follow_install_and_reset() {
    let mut settings = SettingsModal::new();
    assert!(!settings.open);
    assert_eq!(settings.section, SettingsSection::Shell);
    settings.toggle();
    assert!(settings.open);
    settings.record_setup_outcome(true, Ok(()));
    assert_eq!(
        settings.status_message,
        Some(("Managed zsh integration installed.".to_string(), false))
    );
    settings.record_setup_outcome(false, Err("no home".to_string()));
    assert_eq!(settings.status_message, Some(("Reset failed: no home".to_string(), true)));
    settings.record_setup_outcome(true, Err("denied".to_string()));
    assert_eq!(settings.status_message, Some(("Install failed: denied".to_string(), true)));
    settings.close();
    assert!(!settings.open);
    assert!(settings.status_message.is_some());
    settings.toggle();
    settings.record_setup_outcome(false, Ok(()));
    assert_eq!(
        settings.status_message,
        Some(("Managed zsh integration removed.".to_string(), false))
    );
    settings.select_section(SettingsSection::Network);
    settings.toggle_preview();
    assert!(settings.show_preview);
    settings.escape();
    assert!(!settings.open);
    assert_eq!(settings.status_message, None);
    assert_eq!(settings.section, SettingsSection::Network);
    settings.toggle();
    settings.record_setup_outcome(true, Ok(()));
    settings.toggle();
    assert!(!settings.open);
    assert_eq!(settings.status_message, None);
}

#[test]
fn line_block_indexes_agree_with_the_blocks() {
    let lines = ["boot", "/w git:(main)", "$ ls", "a.txt", "", "", "$ cat nope", "oops", "", "/w", "$ pwd"];
    let blocks = terminal_transcript_blocks(&lines);
    let indexes = transcript_line_block_indexes(&lines);
    assert_eq!(indexes.len(), lines.len());
    for (i, index) in indexes.iter().enumerate() {
        let holder = blocks.iter().position(|b| b.start <= i && i < b.end);
        assert_eq!(*index, holder, "line {i}");
    }
}
