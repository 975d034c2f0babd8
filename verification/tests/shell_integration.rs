use cmd_core::terminal::{
    decode_base64, managed_zsh_shell_integration, osc1337_user_var_from_line,
    osc7_path_from_line, osc7_report_readable, parse_i32, sanitize_terminal_line,
    shell_line_effects, shell_resize_command, shell_zshrc_content, TerminalCommand, TerminalSize,
};

#[test]
fn sanitize_terminal_line_should_strip_ansi_and_backspaces() {
    let line = "\u{1b}[32mVIEW\u{1b}[0m sh\u{8}hell ready\r$ echo hi";
    assert_eq!(sanitize_terminal_line(line), "$ echo hi");
}

#[test]
fn sanitize_terminal_line_should_drop_empty_escape_only_lines() {
    let line = "\u{1b}[?2004h\u{1b}[?2004l";
    assert_eq!(sanitize_terminal_line(line), "");
}

#[test]
fn sanitize_terminal_line_should_hide_internal_resize_commands() {
    let line = "$  _view_apply_winsize 132 40";
    assert_eq!(sanitize_terminal_line(line), "");
}

#[test]
fn shell_zshrc_should_not_define_cd_dotdot_alias() {
    let zshrc = managed_zsh_shell_integration();
    assert!(!zshrc.contains("alias cd..="));
    assert!(zshrc.contains("alias cls='clear'"));
    assert!(zshrc.contains("setopt SHARE_HISTORY"));
    assert!(zshrc.contains("setopt INC_APPEND_HISTORY"));
    assert!(zshrc.contains("setopt HIST_IGNORE_SPACE"));
    assert!(zshrc.contains("preexec()"));
    assert!(zshrc.contains("view_last_exit_code"));
    assert!(zshrc.contains("view_prompt_state"));
    assert!(zshrc.contains("b64:"));
    assert!(zshrc.contains("_view_apply_winsize()"));
    assert!(zshrc.contains("stty cols \"$1\" rows \"$2\""));
    assert!(!zshrc.contains("builtin stty"));
}

#[test]
fn shell_zshrc_loader_should_source_managed_config() {
    let zshrc = shell_zshrc_content("/tmp/_cmd-shell/.config/_cmd/zsh/_cmd.zsh");
    assert!(zshrc.contains("source '/tmp/_cmd-shell/.config/_cmd/zsh/_cmd.zsh'"));
}

#[test]
fn osc7_path_from_line_should_parse_directory_updates() {
    let line = "\u{1b}]7;file://host/Users/me/project\u{7}";
    assert_eq!(
        osc7_path_from_line(line).as_deref(),
        Some("/Users/me/project")
    );
}

#[test]
fn osc1337_user_var_from_line_should_parse_shell_metadata() {
    let line = "\u{1b}]1337;SetUserVar=view_last_command=git status\u{7}";
    assert_eq!(
        osc1337_user_var_from_line(line, "view_last_command").as_deref(),
        Some("git status")
    );
}

#[test]
fn osc1337_user_var_from_line_should_decode_base64_payloads() {
    let line = "\u{1b}]1337;SetUserVar=view_last_command=b64:Z2l0IHN0YXR1cyAtLXNob3J0\u{7}";
    assert_eq!(
        osc1337_user_var_from_line(line, "view_last_command").as_deref(),
        Some("git status --short")
    );
}

#[test]
fn sanitize_terminal_line_expands_tabs_to_eight_column_stops() {
    assert_eq!(sanitize_terminal_line("ab\tc"), "ab      c");
    assert_eq!(sanitize_terminal_line("\tx"), "        x");
}

#[test]
fn sanitize_terminal_line_drops_osc_sequences_and_control_characters() {
    assert_eq!(
        sanitize_terminal_line("\u{1b}]7;file://h/tmp\u{7}ok\u{0}\u{1}   "),
        "ok"
    );
    assert_eq!(sanitize_terminal_line("\u{8}\u{8}a"), "a");
}

#[test]
fn sanitize_terminal_line_ends_osc_sequences_at_the_string_terminator() {
    assert_eq!(sanitize_terminal_line("\u{1b}]0;title\u{1b}\\hello"), "hello");
    assert_eq!(sanitize_terminal_line("a\u{1b}]0;x\u{1b}y\u{7}b"), "ab");
    assert_eq!(sanitize_terminal_line("a\u{1b}]0;never ends\u{1b}"), "a");
}

#[test]
fn zshrc_loader_has_exact_text() {
    assert_eq!(
        shell_zshrc_content("/p"),
        "\nif [ -f '/p' ]; then\n  source '/p'\nfi\n"
    );
}

#[test]
fn resize_command_writes_columns_then_rows() {
    assert_eq!(
        shell_resize_command(TerminalSize { cols: 132, rows: 40 }),
        " _view_apply_winsize 132 40"
    );
    assert_eq!(
        shell_resize_command(TerminalSize { cols: 0, rows: 7 }),
        " _view_apply_winsize 0 7"
    );
}

#[test]
fn base64_decoding_handles_padding_and_rejects_bad_input() {
    assert_eq!(decode_base64("aGk="), Some(b"hi".to_vec()));
    assert_eq!(decode_base64("aA=="), Some(b"h".to_vec()));
    assert_eq!(decode_base64("aGV5"), Some(b"hey".to_vec()));
    assert_eq!(decode_base64(""), None);
    assert_eq!(decode_base64("abc"), None);
    assert_eq!(decode_base64("ab!="), None);
}

#[test]
fn osc1337_keeps_raw_value_when_decoded_bytes_are_not_utf8() {
    let line = "\u{1b}]1337;SetUserVar=k=b64:/w==\u{7}";
    assert_eq!(osc1337_user_var_from_line(line, "k").as_deref(), Some("b64:/w=="));
    let bad = "\u{1b}]1337;SetUserVar=k=b64:!!!!\u{7}";
    assert_eq!(osc1337_user_var_from_line(bad, "k"), None);
    let unterminated = "\u{1b}]1337;SetUserVar=k=value";
    assert_eq!(osc1337_user_var_from_line(unterminated, "k"), None);
    assert_eq!(osc1337_user_var_from_line("plain text", "k"), None);
}

#[test]
fn osc7_without_host_slash_keeps_the_whole_payload() {
    assert_eq!(
        osc7_path_from_line("\u{1b}]7;file://hostname\u{7}").as_deref(),
        Some("stname")
    );
    assert_eq!(osc7_path_from_line("no report"), None);
    assert!(osc7_report_readable("no report"));
    assert!(!osc7_report_readable("\u{1b}]7;file://"));
}

#[test]
fn parse_i32_reads_signed_integers_in_range() {
    assert_eq!(parse_i32("17"), Some(17));
    assert_eq!(parse_i32("-2147483648"), Some(-2147483648));
    assert_eq!(parse_i32("+5"), Some(5));
    assert_eq!(parse_i32("2147483648"), None);
    assert_eq!(parse_i32("-"), None);
    assert_eq!(parse_i32(""), None);
    assert_eq!(parse_i32("1a"), None);
}

#[test]
fn shell_line_effects_reads_prompt_state_command_exit_code_and_directory() {
    let ready = shell_line_effects(
        "\u{1b}]1337;SetUserVar=view_prompt_state=b64:cHJvbXB0X3JlYWR5\u{7}",
    );
    assert_eq!(ready.status.as_deref(), Some("ready"));
    assert!(ready.prompt_ready);
    assert_eq!(ready.line, None);

    let start = shell_line_effects(
        "\u{1b}]1337;SetUserVar=view_prompt_state=command_start\u{7}",
    );
    assert_eq!(start.status.as_deref(), Some("running"));
    assert!(!start.prompt_ready);

    let exit = shell_line_effects("\u{1b}]1337;SetUserVar=view_last_exit_code=b64:MTI3\u{7}");
    assert_eq!(exit.exit_code, Some(127));

    let cwd = shell_line_effects("\u{1b}]7;file://host/tmp/x\u{7}");
    assert_eq!(cwd.cwd.as_deref(), Some("/tmp/x"));

    let text = shell_line_effects("hello");
    assert_eq!(text.line.as_deref(), Some("hello"));
    assert_eq!(text.status, None);
    assert_eq!(shell_line_effects("hello\r").line, None);
}

#[test]
fn terminal_commands_compare_by_content() {
    assert!(TerminalCommand::Input("a".to_string()) == TerminalCommand::Input("a".to_string()));
    assert!(TerminalCommand::Input("a".to_string()) != TerminalCommand::Input("b".to_string()));
    let size = TerminalSize { cols: 1, rows: 2 };
    assert!(TerminalCommand::Resize(size) == TerminalCommand::Resize(size));
    assert!(TerminalCommand::Resize(size) != TerminalCommand::Input("a".to_string()));
}
