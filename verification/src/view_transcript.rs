//! Transcript rules of the viewer window: the same block rules as the
//! desktop transcript, except that a separator is drawn only between blocks
//! that both ran cleanly.
use vstd::prelude::*;
use crate::text::str_views;
use crate::transcript::{block_has_error, is_prompt_line, prompt_line};
pub use crate::transcript::{
    command_block_has_error, command_clears_transcript, is_command_context_line, is_context_block_start,
    is_error_output_line, is_legacy_context_block_start, should_extend_error_block_to_bottom,
};

verus! {

/// A separator is drawn before a block only when neither it nor the block
/// before it shows an error.
pub fn should_render_block_separator(previous_block_had_error: bool, current_block_has_error: bool) -> (b: bool)
    ensures
        b == (!current_block_has_error && !previous_block_had_error),
{
    !current_block_has_error && !previous_block_had_error
}

/// The last echoed command among the first `n` lines.
pub open spec fn last_prompt_before(ls: Seq<Seq<char>>, n: int) -> Option<int>
    decreases n,
{
    if n <= 0 {
        None
    } else if is_prompt_line(ls[n - 1]) {
        Some(n - 1)
    } else {
        last_prompt_before(ls, n - 1)
    }
}

/// Whether the transcript ends with a failed command: the block of its last
/// echoed command shows an error.
pub open spec fn ends_with_error(ls: Seq<Seq<char>>) -> bool {
    match last_prompt_before(ls, ls.len() as int) {
        Some(i) => block_has_error(ls, i),
        None => false,
    }
}

/// Whether the transcript ends with a failed command (see `ends_with_error`);
/// the viewer then draws no closing divider.
pub fn transcript_ends_with_error(lines: &[&str]) -> (b: bool)
    ensures
        b == ends_with_error(str_views(lines@)),
{
    let ghost lv = str_views(lines@);
    let mut n = lines.len();
    while n > 0
        invariant
            n <= lines@.len(),
            lv == str_views(lines@),
            last_prompt_before(lv, lv.len() as int) == last_prompt_before(lv, n as int),
        decreases n,
    {
        if prompt_line(lines[n - 1]) {
            return command_block_has_error(lines, n - 1);
        }
        n -= 1;
    }
    false
}

} // verus!
