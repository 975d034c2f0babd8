use cmd_core::view_transcript::{
    command_clears_transcript, should_render_block_separator, transcript_ends_with_error,
};

#[test]
fn viewer_separators_are_drawn_only_between_clean_blocks() {
    assert!(should_render_block_separator(false, false));
    assert!(!should_render_block_separator(true, false));
    assert!(!should_render_block_separator(false, true));
    assert!(!should_render_block_separator(true, true));
    assert!(command_clears_transcript(" cls "));
}

#[test]
fn transcript_ends_with_error_looks_at_the_last_command_only() {
    assert!(transcript_ends_with_error(&["$ ls", "a", "$ nope", "zsh: command not found: nope"]));
    assert!(!transcript_ends_with_error(&["$ nope", "zsh: command not found: nope", "$ ls", "a"]));
    assert!(!transcript_ends_with_error(&["boot", "error: before any command"]));
    assert!(!transcript_ends_with_error(&[]));
}
