//! Helpers of the shell input line: completing from a suggestion, quoting
//! paths, walking back through the command history, and the context line
//! printed before each command.
use vstd::prelude::*;
use std::collections::VecDeque;
use crate::text::{chars_of, chars_start_with, opt_text, push_char, push_str, starts_with, views};

verus! {

broadcast use vstd::string::group_string_axioms;

/// What a suggestion adds to the input: the rest of it, when it starts with
/// the input and is longer.
pub open spec fn suggestion_suffix(input: Seq<char>, suggestion: Option<Seq<char>>) -> Option<
    Seq<char>,
> {
    match suggestion {
        Some(s) => if starts_with(s, input) && s.len() > input.len() {
            Some(s.subrange(input.len() as int, s.len() as int))
        } else {
            None
        },
        None => None,
    }
}

/// The part of `suggestion` still to be typed after `input` (see `suggestion_suffix`).
pub fn terminal_suggestion_suffix(input: &str, suggestion: Option<&str>) -> (r: Option<String>)
    ensures
        opt_text(r) == suggestion_suffix(input@, crate::history::opt_str_text(suggestion)),
{
    match suggestion {
        None => None,
        Some(s) => {
            let sc = chars_of(s);
            let ic = chars_of(input);
            if chars_start_with(&sc, &ic) && sc.len() > ic.len() {
                Some(crate::text::string_of_range(&sc, ic.len(), sc.len()))
            } else {
                None
            }
        },
    }
}

/// `path` in single quotes for a shell, each `'` written as `'\''`.
pub open spec fn shell_quoted(path: Seq<char>) -> Seq<char> {
    seq!['\''] + crate::setup::quote_escaped(path) + seq!['\'']
}

/// Quotes a path for the shell (see `shell_quoted`).
pub fn shell_quote_path(path: &str) -> (r: String)
    ensures
        r@ == shell_quoted(path@),
{
    let mut r = String::new();
    push_char(&mut r, '\'');
    let chars = chars_of(path);
    let mut i: usize = 0;
    while i < chars.len()
        invariant
            chars@ == path@,
            i <= chars@.len(),
            r@ == seq!['\''] + crate::setup::quote_escaped(path@.subrange(0, i as int)),
        decreases chars@.len() - i,
    {
        let ghost next = path@.subrange(0, i + 1);
        assert(next.drop_last() =~= path@.subrange(0, i as int));
        assert(next.last() == chars@[i as int]);
        if chars[i] == '\'' {
            push_str(&mut r, "'\\''");
            proof {
                reveal_strlit("'\\''");
            }
        } else {
            push_char(&mut r, chars[i]);
        }
        assert(r@ =~= seq!['\''] + crate::setup::quote_escaped(next));
        i += 1;
    }
    assert(path@.subrange(0, path@.len() as int) =~= path@);
    push_char(&mut r, '\'');
    r
}

/// The history entry `offset` steps back from the newest (1 is the newest);
/// `None` for 0 or past the oldest.
pub open spec fn entry_for_offset(history: Seq<Seq<char>>, offset: int) -> Option<Seq<char>> {
    if 1 <= offset <= history.len() {
        Some(history[history.len() - offset])
    } else {
        None
    }
}

/// The history entry `history_offset` steps back (see `entry_for_offset`).
pub fn history_entry_for_offset(history: &VecDeque<String>, history_offset: usize) -> (r: Option<
    String,
>)
    ensures
        opt_text(r) == entry_for_offset(views(history@), history_offset as int),
{
    let n = history.len();
    if history_offset >= 1 && history_offset <= n {
        Some(history[n - history_offset].clone())
    } else {
        None
    }
}

/// The history offset after stepping back once: one more, up to the oldest entry.
pub open spec fn offset_after_up(offset: int, len: int) -> int {
    if offset < len {
        offset + 1
    } else {
        offset
    }
}

/// The history offset after stepping forward once: one less, down to the
/// empty input at 0.
pub open spec fn offset_after_down(offset: int) -> int {
    if offset > 0 {
        offset - 1
    } else {
        offset
    }
}

/// Steps back through the history: the new offset and the entry to show.
pub fn history_step_back(history: &VecDeque<String>, history_offset: usize) -> (r: (
    usize,
    Option<String>,
))
    ensures
        r.0 == offset_after_up(history_offset as int, history@.len() as int),
        opt_text(r.1) == entry_for_offset(views(history@), r.0 as int),
{
    let offset = if history_offset < history.len() {
        history_offset + 1
    } else {
        history_offset
    };
    (offset, history_entry_for_offset(history, offset))
}

/// Steps forward through the history: the new offset and the input to show
/// (empty once back at offset 0; `None` leaves the input as it is).
pub fn history_step_forward(history: &VecDeque<String>, history_offset: usize) -> (r: (
    usize,
    Option<String>,
))
    ensures
        r.0 == offset_after_down(history_offset as int),
        history_offset > 1 ==> opt_text(r.1) == entry_for_offset(views(history@), r.0 as int),
        history_offset == 1 ==> opt_text(r.1) == Some(Seq::<char>::empty()),
        history_offset == 0 ==> r.1 is None,
{
    if history_offset > 1 {
        let offset = history_offset - 1;
        (offset, history_entry_for_offset(history, offset))
    } else if history_offset == 1 {
        (0, Some(String::new()))
    } else {
        (0, None)
    }
}

/// Law: stepping back then forward returns to the same offset, as long as
/// there was an older entry to step back to.
pub proof fn law_history_back_then_forward(offset: int, len: int)
    requires
        0 <= offset < len,
    ensures
        offset_after_down(offset_after_up(offset, len)) == offset,
{
}

/// The context line printed before a command: the working directory, then
/// ` git:(branch)` when on a branch, then ` ` and the change summary when there is one.
pub open spec fn context_line_text(cwd: Seq<char>, branch: Option<Seq<char>>, diff: Option<Seq<char>>) -> Seq<
    char,
> {
    cwd + match branch {
        Some(b) => " git:("@ + b + ")"@,
        None => Seq::empty(),
    } + match diff {
        Some(d) => " "@ + d,
        None => Seq::empty(),
    }
}

/// Builds the context line printed before a command (see `context_line_text`).
pub fn format_command_context_line(cwd: &str, branch: Option<&str>, diff: Option<&str>) -> (r:
    String)
    ensures
        r@ == context_line_text(
            cwd@,
            crate::history::opt_str_text(branch),
            crate::history::opt_str_text(diff),
        ),
{
    let mut r = String::new();
    push_str(&mut r, cwd);
    if let Some(b) = branch {
        push_str(&mut r, " git:(");
        push_str(&mut r, b);
        push_str(&mut r, ")");
    }
    if let Some(d) = diff {
        push_str(&mut r, " ");
        push_str(&mut r, d);
    }
    assert(r@ =~= context_line_text(
        cwd@,
        crate::history::opt_str_text(branch),
        crate::history::opt_str_text(diff),
    ));
    r
}

} // verus!
