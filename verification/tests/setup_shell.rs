use cmd_core::setup::{
    apply_managed_zshrc_block, managed_block, managed_zsh_path, parse_command,
    preview_shell_init, remove_managed_zshrc_block, shell_setup_status, user_zshrc_path,
    zshrc_has_managed_block, SetupCommand, SetupError,
};

#[test]
fn patch_zshrc_should_insert_managed_block_once() {
    let original = "export EDITOR=vim\n";
    let managed = apply_managed_zshrc_block(original, "/Users/me/.config/_cmd/zsh/_cmd.zsh");

    assert!(managed.contains("export EDITOR=vim"));
    assert!(managed.contains("source '/Users/me/.config/_cmd/zsh/_cmd.zsh'"));
    assert_eq!(managed.matches(">>> _cmd managed shell >>>").count(), 1);

    let reapplied = apply_managed_zshrc_block(&managed, "/Users/me/.config/_cmd/zsh/_cmd.zsh");
    assert_eq!(managed, reapplied);
}

#[test]
fn reset_zshrc_should_remove_managed_block_and_keep_user_content() {
    let with_block = "export EDITOR=vim\n# >>> _cmd managed shell >>>\nsource '/Users/me/.config/_cmd/zsh/_cmd.zsh'\n# <<< _cmd managed shell <<<\nalias gs='git status'\n";

    let reset = remove_managed_zshrc_block(with_block);

    assert!(reset.contains("export EDITOR=vim"));
    assert!(reset.contains("alias gs='git status'"));
    assert!(!reset.contains("_cmd managed shell"));
    assert!(!reset.contains("source '/Users/me/.config/_cmd/zsh/_cmd.zsh'"));
}

#[test]
fn zshrc_has_managed_block_should_detect_complete_marker_pair() {
    let with_block = "# >>> _cmd managed shell >>>\nsource '~/.config/_cmd/zsh/_cmd.zsh'\n# <<< _cmd managed shell <<<\n";
    let without_block = "export EDITOR=vim\n";

    assert!(zshrc_has_managed_block(with_block));
    assert!(!zshrc_has_managed_block(without_block));
}

#[test]
fn managed_block_escapes_single_quotes_in_the_path() {
    assert_eq!(
        managed_block("/it's"),
        "# >>> _cmd managed shell >>>\nsource '/it'\\''s'\n# <<< _cmd managed shell <<<\n"
    );
}

#[test]
fn removing_the_block_collapses_blank_lines_and_ends_with_one_newline() {
    assert_eq!(
        remove_managed_zshrc_block("a\n\n\n\nb\n\n\n"),
        "a\n\nb\n"
    );
    assert_eq!(remove_managed_zshrc_block(""), "\n");
    assert_eq!(
        remove_managed_zshrc_block("x\n  # >>> _cmd managed shell >>>  \nhidden\n"),
        "x\n"
    );
}

#[test]
fn applying_to_an_empty_file_writes_only_the_block() {
    assert_eq!(apply_managed_zshrc_block("", "/p"), managed_block("/p"));
    assert_eq!(
        apply_managed_zshrc_block("a  \n\n", "/p"),
        format!("a\n\n{}", managed_block("/p"))
    );
}

#[test]
fn parse_command_reads_the_first_argument() {
    let args = |a: &[&str]| a.iter().map(|s| s.to_string()).collect::<Vec<_>>();
    assert_eq!(parse_command(&args(&["app", "setup-shell"])), SetupCommand::SetupShell);
    assert_eq!(parse_command(&args(&["app", "reset-shell"])), SetupCommand::ResetShell);
    assert_eq!(
        parse_command(&args(&["app", "print-shell-init", "x"])),
        SetupCommand::PrintShellInit
    );
    assert_eq!(parse_command(&args(&["app", "other"])), SetupCommand::LaunchUi);
    assert_eq!(parse_command(&args(&["app"])), SetupCommand::LaunchUi);
}

#[test]
fn config_locations_prefer_view_config_home() {
    assert_eq!(
        managed_zsh_path(Some("/cfg"), Some("/home/me")).as_deref(),
        Some("/cfg/zsh/_cmd.zsh")
    );
    assert_eq!(
        managed_zsh_path(None, Some("/home/me")).as_deref(),
        Some("/home/me/.config/_cmd/zsh/_cmd.zsh")
    );
    assert_eq!(managed_zsh_path(None, None), None);
    assert_eq!(user_zshrc_path(Some("/home/me")).as_deref(), Some("/home/me/.zshrc"));
    assert_eq!(user_zshrc_path(None), None);
}

#[test]
fn preview_needs_a_location() {
    assert_eq!(preview_shell_init(None).err(), Some(SetupError::MissingHome));
    assert_eq!(preview_shell_init(Some("/p")).ok(), Some(managed_block("/p")));
    let status = shell_setup_status("/m".to_string(), "/z".to_string(), true, "nothing");
    assert!(status.managed_file_exists);
    assert!(!status.zshrc_patched);
    assert_eq!(status.managed_path, "/m");
}

#[test]
fn resetting_right_after_installing_gives_back_the_user_content() {
    let original = "export EDITOR=vim   \n\n\n\nalias ll='ls -l'\n\n";
    let installed = apply_managed_zshrc_block(original, "/Users/me/it's.zsh");
    assert!(zshrc_has_managed_block(&installed));
    assert_eq!(
        remove_managed_zshrc_block(&installed),
        "export EDITOR=vim   \n\nalias ll='ls -l'\n"
    );
    assert_eq!(
        apply_managed_zshrc_block(&installed, "/Users/me/it's.zsh"),
        installed
    );
}

#[test]
fn a_carriage_return_before_a_newline_is_normalized_on_reinstall() {
    // The text before the block keeps a `\r` ahead of a newline: installing
    // again reads that line without it.
    let original = "a\r\r\nb\n";
    let once = apply_managed_zshrc_block(original, "/p");
    let twice = apply_managed_zshrc_block(&once, "/p");
    assert!(once.starts_with("a\r\nb"));
    assert!(twice.starts_with("a\nb"));
}
