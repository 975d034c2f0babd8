//! Decisions of the desktop terminal view: shortening labels, selecting
//! transcript blocks, when the input line submits, how lines wrap and split
//! into tokens, and which style each token gets.
use vstd::prelude::*;
use std::collections::BTreeSet;
use crate::engine::Action;
use crate::search::{next_index, next_search_index};
use crate::history::{path_segments, split_path_segments, vviews};
use crate::terminal::TerminalSize;
use crate::transcript::{is_command_context_line, is_context_line, is_prompt_line, prompt_prefix};
use crate::text::{
    decimal, decimal_string, owned, chars_contain, chars_equal, chars_of, chars_start_with, contains_seq, is_whitespace, is_ws,
    push_char, push_str, starts_with, string_of, string_of_range, views,
};

verus! {

broadcast use vstd::string::group_string_axioms;

/// The sections of the settings panel.
#[derive(Debug, Clone, Copy, PartialEq, Eq, Structural)]
pub enum SettingsSection {
    Shell,
    Network,
    Shortcuts,
}

// ---------------------------------------------------------------------------
// Shortening labels
// ---------------------------------------------------------------------------

/// `x - 1`, or 0 (saturating).
pub open spec fn minus_one(x: int) -> int {
    if x > 0 {
        x - 1
    } else {
        0
    }
}

/// `value` cut to `max_chars` characters, the last one replaced by `…` when cut.
pub open spec fn trimmed_label(value: Seq<char>, max_chars: int) -> Seq<char> {
    if value.len() <= max_chars {
        value
    } else {
        value.subrange(0, minus_one(max_chars)).push('…')
    }
}

/// Cuts a label to `max_chars` characters (see `trimmed_label`).
pub fn trim_line(value: &str, max_chars: usize) -> (r: String)
    ensures
        r@ == trimmed_label(value@, max_chars as int),
{
    let chars = chars_of(value);
    if chars.len() <= max_chars {
        return string_of(&chars);
    }
    let keep = if max_chars > 0 {
        max_chars - 1
    } else {
        0
    };
    let mut r = string_of_range(&chars, 0, keep);
    push_char(&mut r, '…');
    r
}

/// The non-empty segments of a path, in order.
pub open spec fn named_segments(segs: Seq<Seq<char>>) -> Seq<Seq<char>>
    decreases segs.len(),
{
    if segs.len() == 0 {
        segs
    } else if segs.last().len() == 0 {
        named_segments(segs.drop_last())
    } else {
        named_segments(segs.drop_last()).push(segs.last())
    }
}

/// The first `n` characters of `s` (all of them when shorter).
pub open spec fn take_chars(s: Seq<char>, n: int) -> Seq<char> {
    if n < s.len() {
        s.subrange(0, n)
    } else {
        s
    }
}

/// A path shortened for a narrow label: `/` for the root, `/name` for one
/// component (cut with `…` past `max_chars`), else `…/last` with the last
/// component cut to fit `max_chars - 2`.
pub open spec fn truncated_path(value: Seq<char>, max_chars: int) -> Seq<char> {
    let parts = named_segments(path_segments(value));
    if parts.len() == 0 {
        seq!['/']
    } else if parts.len() == 1 {
        let first = parts[0];
        if first.len() > max_chars {
            seq!['/'] + take_chars(first, minus_one(max_chars)) + seq!['…']
        } else {
            seq!['/'] + first
        }
    } else {
        let last = parts.last();
        let available = if max_chars >= 2 {
            max_chars - 2
        } else {
            0
        };
        if last.len() > available {
            seq!['…', '/'] + take_chars(last, minus_one(available)) + seq!['…']
        } else {
            seq!['…', '/'] + last
        }
    }
}

fn named_parts(value: &str) -> (r: Vec<Vec<char>>)
    ensures
        vviews(r@) == named_segments(path_segments(value@)),
{
    let segs = split_path_segments(&chars_of(value));
    let ghost all = vviews(segs@);
    let mut out: Vec<Vec<char>> = Vec::new();
    let mut i: usize = 0;
    while i < segs.len()
        invariant
            i <= segs@.len(),
            all == vviews(segs@),
            vviews(out@) == named_segments(all.subrange(0, i as int)),
        decreases segs@.len() - i,
    {
        let ghost next = all.subrange(0, i + 1);
        assert(next.drop_last() =~= all.subrange(0, i as int));
        assert(next.last() == segs@[i as int]@);
        if segs[i].len() > 0 {
            let ghost before = vviews(out@);
            out.push(crate::text::slice_vec(&segs[i], 0, segs[i].len()));
            assert(segs@[i as int]@.subrange(0, segs@[i as int]@.len() as int) =~= segs@[i as int]@);
            assert(vviews(out@) =~= before.push(segs@[i as int]@));
        }
        i += 1;
    }
    assert(all.subrange(0, all.len() as int) =~= all);
    out
}

fn take_prefix(v: &Vec<char>, n: usize) -> (r: Vec<char>)
    ensures
        r@ == take_chars(v@, n as int),
{
    if n < v.len() {
        crate::text::slice_vec(v, 0, n)
    } else {
        let r = crate::text::slice_vec(v, 0, v.len());
        assert(v@.subrange(0, v@.len() as int) =~= v@);
        r
    }
}

/// Shortens a path for a narrow label (see `truncated_path`).
pub fn truncate_path(value: &str, max_chars: usize) -> (r: String)
    ensures
        r@ == truncated_path(value@, max_chars as int),
{
    let parts = named_parts(value);
    let mut out: Vec<char> = Vec::new();
    if parts.len() == 0 {
        out.push('/');
        assert(out@ =~= seq!['/']);
        return string_of(&out);
    }
    if parts.len() == 1 {
        let first = &parts[0];
        out.push('/');
        if first.len() > max_chars {
            let keep = if max_chars > 0 {
                max_chars - 1
            } else {
                0
            };
            let t = take_prefix(first, keep);
            crate::history::append_chars(&mut out, &t);
            out.push('…');
        } else {
            crate::history::append_chars(&mut out, first);
        }
        return string_of(&out);
    }
    let last = &parts[parts.len() - 1];
    let available = if max_chars >= 2 {
        max_chars - 2
    } else {
        0
    };
    out.push('…');
    out.push('/');
    if last.len() > available {
        let keep = if available > 0 {
            available - 1
        } else {
            0
        };
        let t = take_prefix(last, keep);
        crate::history::append_chars(&mut out, &t);
        out.push('…');
    } else {
        crate::history::append_chars(&mut out, last);
    }
    string_of(&out)
}

/// A context line with its leading absolute path shortened to `../name`
/// (the path's last component); lines not starting with `/` stay as they are.
pub open spec fn shortened_context(line: Seq<char>) -> Seq<char> {
    let sp = crate::text::first_occurrence_from(line, seq![' '], 0);
    let path = match sp {
        Some(k) => line.subrange(0, k),
        None => line,
    };
    if !(path.len() > 0 && path[0] == '/') {
        line
    } else {
        let parts = named_segments(path_segments(path));
        let last = if parts.len() > 0 {
            parts.last()
        } else {
            path
        };
        let short = "../"@ + last;
        match sp {
            Some(k) => short + seq![' '] + line.subrange(k + 1, line.len() as int),
            None => short,
        }
    }
}

/// Shortens the path at the start of a context line (see `shortened_context`).
pub fn shorten_context_line(line: &str) -> (r: String)
    ensures
        r@ == shortened_context(line@),
{
    let chars = chars_of(line);
    let space: Vec<char> = vec![' '];
    assert(space@ =~= seq![' ']);
    let sp = crate::text::chars_find_from(&chars, &space, 0);
    proof {
        match sp {
            Some(k) => crate::text::lemma_first_occurrence_is(line@, seq![' '], 0, k as int),
            None => {
                assert forall|j: int| 0 <= j implies !crate::text::occurs_at(line@, seq![' '], j) by {}
                reveal(crate::text::first_occurrence_from);
            },
        }
    }
    let path = match sp {
        Some(k) => crate::text::slice_vec(&chars, 0, k),
        None => crate::text::slice_vec(&chars, 0, chars.len()),
    };
    assert(chars@.subrange(0, chars@.len() as int) =~= chars@);
    if !(path.len() > 0 && path[0] == '/') {
        return string_of(&chars);
    }
    let path_text = string_of(&path);
    let parts = named_parts(path_text.as_str());
    let mut out: Vec<char> = vec!['.', '.', '/'];
    proof {
        reveal_strlit("../");
    }
    assert(out@ =~= "../"@);
    if parts.len() > 0 {
        crate::history::append_chars(&mut out, &parts[parts.len() - 1]);
    } else {
        crate::history::append_chars(&mut out, &path);
    }
    if let Some(k) = sp {
        assert(crate::text::occurs_at(chars@, space@, k as int));
        let n = chars.len();
        assert(k + 1 <= n);
        out.push(' ');
        let rest = crate::text::slice_vec(&chars, k + 1, chars.len());
        crate::history::append_chars(&mut out, &rest);
    }
    string_of(&out)
}

// ---------------------------------------------------------------------------
// Selecting blocks and submitting input
// ---------------------------------------------------------------------------

/// The selected blocks after a click on block `clicked`: with the extend
/// modifier the block toggles in or out; otherwise it becomes the only
/// selected block, or the selection empties if it already was.
pub open spec fn selection_after_click(selected: Set<usize>, clicked: usize, extend: bool) -> Set<
    usize,
> {
    if extend {
        if selected.contains(clicked) {
            selected.remove(clicked)
        } else {
            selected.insert(clicked)
        }
    } else if selected == set![clicked] {
        Set::empty()
    } else {
        set![clicked]
    }
}

/// Updates the selected blocks after a click (see `selection_after_click`).
pub fn update_selected_blocks(selected: &mut BTreeSet<usize>, clicked: usize, extend_selection: bool)
    ensures
        final(selected)@ == selection_after_click(old(selected)@, clicked, extend_selection),
{
    broadcast use vstd::laws_cmp::group_laws_cmp;
    broadcast use vstd::std_specs::btree::group_btree_axioms;

    if extend_selection {
        if !selected.insert(clicked) {
            selected.remove(&clicked);
            assert(selected@ =~= old(selected)@.remove(clicked));
        }
        return;
    }
    let mut rest = selected.clone();
    let had = rest.remove(&clicked);
    let only_clicked = had && rest.is_empty();
    proof {
        let o = old(selected)@;
        assert(rest@ == o.remove(clicked));
        if only_clicked {
            assert(o =~= set![clicked]) by {
                assert forall|x: usize| o.contains(x) implies x == clicked by {
                    if x != clicked {
                        assert(o.remove(clicked).contains(x));
                    }
                }
            }
        }
        if o == set![clicked] {
            assert(o.contains(clicked));
            assert(o.remove(clicked) =~= Set::<usize>::empty());
        }
    }
    selected.clear();
    if !only_clicked {
        selected.insert(clicked);
        assert(selected@ =~= set![clicked]);
    }
}

/// Whether the input line submits: no picker is open, Enter was pressed, and
/// the input has or just lost the focus (Enter can take the focus away).
pub fn shell_input_should_submit(
    directory_picker_open: bool,
    branch_picker_open: bool,
    input_has_focus: bool,
    input_lost_focus: bool,
    enter_pressed: bool,
) -> (b: bool)
    ensures
        b == (!directory_picker_open && !branch_picker_open && enter_pressed && (input_has_focus
            || input_lost_focus)),
{
    !directory_picker_open && !branch_picker_open && enter_pressed && (input_has_focus
        || input_lost_focus)
}

/// The search result to highlight: none without results, the first one when
/// none (or one past the end) was highlighted, else the same one.
pub fn active_search_result(active: Option<usize>, result_count: usize) -> (r: Option<usize>)
    ensures
        r == if result_count == 0 {
            None
        } else if active is None || active->0 >= result_count {
            Some(0usize)
        } else {
            active
        },
{
    if result_count == 0 {
        None
    } else {
        match active {
            Some(i) => if i >= result_count {
                Some(0)
            } else {
                Some(i)
            },
            None => Some(0),
        }
    }
}

// ---------------------------------------------------------------------------
// Wrapping and tokens
// ---------------------------------------------------------------------------

/// Consecutive pieces of `s` from character `start` on, `cols` characters each.
pub open spec fn chunks_from(s: Seq<char>, start: int, cols: int) -> Seq<Seq<char>>
    decreases s.len() - start,
{
    if start >= s.len() || cols < 1 || start < 0 {
        Seq::empty()
    } else {
        let end = if start + cols < s.len() {
            start + cols
        } else {
            s.len() as int
        };
        seq![s.subrange(start, end)] + chunks_from(s, end, cols)
    }
}

/// The screen lines of `line` wrapped at `wrap_cols` columns (at least one):
/// one empty line for an empty line.
pub open spec fn wrapped_lines(line: Seq<char>, wrap_cols: int) -> Seq<Seq<char>> {
    if line.len() == 0 {
        seq![Seq::empty()]
    } else {
        chunks_from(line, 0, if wrap_cols < 1 {
            1
        } else {
            wrap_cols
        })
    }
}

/// Wraps a terminal line (see `wrapped_lines`).
pub fn get_terminal_wrapped_lines(line: &str, wrap_cols: usize) -> (r: Vec<String>)
    ensures
        views(r@) == wrapped_lines(line@, wrap_cols as int),
{
    let chars = chars_of(line);
    let mut out: Vec<String> = Vec::new();
    if chars.len() == 0 {
        out.push(String::new());
        assert(views(out@) =~= seq![Seq::<char>::empty()]);
        return out;
    }
    let cols = if wrap_cols < 1 {
        1
    } else {
        wrap_cols
    };
    let n = chars.len();
    let mut start: usize = 0;
    assert(views(out@) + chunks_from(line@, 0, cols as int) =~= chunks_from(line@, 0, cols as int));
    while start < n
        invariant
            chars@ == line@,
            n == chars@.len(),
            start <= n,
            cols >= 1,
            chunks_from(line@, 0, cols as int) == views(out@) + chunks_from(
                line@,
                start as int,
                cols as int,
            ),
        decreases n - start,
    {
        let end = if cols < n - start {
            start + cols
        } else {
            n
        };
        let ghost before = views(out@);
        let ghost piece = line@.subrange(start as int, end as int);
        let ghost rest = chunks_from(line@, end as int, cols as int);
        out.push(string_of_range(&chars, start, end));
        assert(views(out@) =~= before.push(piece));
        assert(before + (seq![piece] + rest) =~= views(out@) + rest);
        start = end;
    }
    assert(views(out@) + Seq::<Seq<char>>::empty() =~= views(out@));
    out
}

/// Pieces of `s[i..]` cut every `size` characters when `cur` is the piece
/// being filled: a full piece is closed just before the next character is
/// added, and an unfinished last piece is kept if not empty.
pub open spec fn chunk_pieces_from(s: Seq<char>, i: int, cur: Seq<char>, size: int) -> Seq<
    Seq<char>,
>
    decreases s.len() - i,
{
    if i < 0 || i >= s.len() {
        if cur.len() > 0 {
            seq![cur]
        } else {
            Seq::empty()
        }
    } else if cur.len() == size {
        seq![cur] + chunk_pieces_from(s, i + 1, seq![s[i]], size)
    } else {
        chunk_pieces_from(s, i + 1, cur.push(s[i]), size)
    }
}

/// Cuts a string into pieces of `size` characters (see `chunk_pieces_from`).
pub fn chunk_string(s: &str, size: usize) -> (r: Vec<String>)
    ensures
        views(r@) == chunk_pieces_from(s@, 0, Seq::empty(), size as int),
{
    let chars = chars_of(s);
    let n = chars.len();
    let mut out: Vec<String> = Vec::new();
    let mut cur: Vec<char> = Vec::new();
    let mut i: usize = 0;
    assert(views(out@) + chunk_pieces_from(s@, 0, Seq::empty(), size as int) =~= chunk_pieces_from(
        s@,
        0,
        Seq::empty(),
        size as int,
    ));
    while i < n
        invariant
            chars@ == s@,
            n == chars@.len(),
            i <= n,
            chunk_pieces_from(s@, 0, Seq::empty(), size as int) == views(out@) + chunk_pieces_from(
                s@,
                i as int,
                cur@,
                size as int,
            ),
        decreases n - i,
    {
        let c = chars[i];
        if cur.len() == size {
            let ghost before = views(out@);
            let ghost closed = cur@;
            let ghost rest = chunk_pieces_from(s@, i + 1, seq![c], size as int);
            out.push(string_of(&cur));
            cur = Vec::new();
            cur.push(c);
            assert(cur@ =~= seq![c]);
            assert(views(out@) =~= before.push(closed));
            assert(before + (seq![closed] + rest) =~= views(out@) + rest);
        } else {
            cur.push(c);
        }
        i += 1;
    }
    if cur.len() > 0 {
        let ghost before = views(out@);
        out.push(string_of(&cur));
        assert(views(out@) =~= before + seq![cur@]);
    } else {
        assert(views(out@) + Seq::<Seq<char>>::empty() =~= views(out@));
    }
    out
}

/// Runs of `s[i..]` alternating between whitespace and other characters,
/// when `cur` is the run being read (`cur_ws` tells which kind it is).
pub open spec fn runs_from(s: Seq<char>, i: int, cur: Seq<char>, cur_ws: bool) -> Seq<Seq<char>>
    decreases s.len() - i,
{
    if i < 0 || i >= s.len() {
        if cur.len() > 0 {
            seq![cur]
        } else {
            Seq::empty()
        }
    } else if cur.len() == 0 || is_ws(s[i]) == cur_ws {
        runs_from(s, i + 1, cur.push(s[i]), is_ws(s[i]))
    } else {
        seq![cur] + runs_from(s, i + 1, seq![s[i]], is_ws(s[i]))
    }
}

/// The tokens of a line: maximal runs of whitespace and of other characters,
/// in order (together they spell the line).
pub open spec fn whitespace_runs(s: Seq<char>) -> Seq<Seq<char>> {
    runs_from(s, 0, Seq::empty(), false)
}

/// Splits a line into runs of whitespace and of other characters (see `whitespace_runs`).
pub fn whitespace_tokens(line: &str) -> (r: Vec<String>)
    ensures
        views(r@) == whitespace_runs(line@),
{
    let chars = chars_of(line);
    let n = chars.len();
    let mut out: Vec<String> = Vec::new();
    let mut cur: Vec<char> = Vec::new();
    let mut cur_ws = false;
    let mut i: usize = 0;
    assert(views(out@) + whitespace_runs(line@) =~= whitespace_runs(line@));
    while i < n
        invariant
            chars@ == line@,
            n == chars@.len(),
            i <= n,
            whitespace_runs(line@) == views(out@) + runs_from(line@, i as int, cur@, cur_ws),
        decreases n - i,
    {
        let c = chars[i];
        let ws = is_whitespace(c);
        if cur.len() == 0 || ws == cur_ws {
            cur.push(c);
        } else {
            let ghost before = views(out@);
            let ghost closed = cur@;
            let ghost rest = runs_from(line@, i + 1, seq![c], ws);
            out.push(string_of(&cur));
            cur = Vec::new();
            cur.push(c);
            assert(cur@ =~= seq![c]);
            assert(views(out@) =~= before.push(closed));
            assert(before + (seq![closed] + rest) =~= views(out@) + rest);
        }
        cur_ws = ws;
        i += 1;
    }
    if cur.len() > 0 {
        let ghost before = views(out@);
        out.push(string_of(&cur));
        assert(views(out@) =~= before + seq![cur@]);
    } else {
        assert(views(out@) + Seq::<Seq<char>>::empty() =~= views(out@));
    }
    out
}

/// How a piece of transcript text is drawn.
#[derive(Debug, Clone, Copy, PartialEq, Eq, Structural)]
pub enum TokenStyle {
    Primary,
    Muted,
    Path,
    Branch,
    Positive,
    Negative,
    Command,
    Directory,
    Error,
    ErrorCommand,
}

/// The style of a token of a context line: whitespace plain, `../` paths,
/// `git:(` branches, `+` and `-` change counts, the rest muted.
pub open spec fn context_style(token: Seq<char>, whitespace: bool) -> TokenStyle {
    if whitespace {
        TokenStyle::Primary
    } else if starts_with(token, "../"@) {
        TokenStyle::Path
    } else if starts_with(token, "git:("@) {
        TokenStyle::Branch
    } else if starts_with(token, seq!['+']) {
        TokenStyle::Positive
    } else if starts_with(token, seq!['-']) {
        TokenStyle::Negative
    } else {
        TokenStyle::Muted
    }
}

/// The style of a token of a context line (see `context_style`).
pub fn context_token_style(token: &str, whitespace: bool) -> (s: TokenStyle)
    ensures
        s == context_style(token@, whitespace),
{
    if whitespace {
        return TokenStyle::Primary;
    }
    let t = chars_of(token);
    let plus: Vec<char> = vec!['+'];
    let minus: Vec<char> = vec!['-'];
    assert(plus@ =~= seq!['+'] && minus@ =~= seq!['-']);
    if chars_start_with(&t, &chars_of("../")) {
        TokenStyle::Path
    } else if chars_start_with(&t, &chars_of("git:(")) {
        TokenStyle::Branch
    } else if chars_start_with(&t, &plus) {
        TokenStyle::Positive
    } else if chars_start_with(&t, &minus) {
        TokenStyle::Negative
    } else {
        TokenStyle::Muted
    }
}

/// `git`, `cd` and `ls` are highlighted (and drawn bold) in commands.
pub open spec fn is_known_command(token: Seq<char>) -> bool {
    token == "git"@ || token == "cd"@ || token == "ls"@
}

/// The style of a token of an echoed command: known commands, paths (with
/// `/` or starting with `.`), options, the rest plain (or as an error when the
/// command failed); whitespace is plain.
pub open spec fn command_style(token: Seq<char>, whitespace: bool, has_error: bool) -> TokenStyle {
    if whitespace {
        TokenStyle::Primary
    } else if is_known_command(token) {
        TokenStyle::Command
    } else if starts_with(token, seq!['/']) || starts_with(token, seq!['.']) || contains_seq(
        token,
        seq!['/'],
    ) {
        TokenStyle::Directory
    } else if starts_with(token, seq!['-']) {
        TokenStyle::Muted
    } else if has_error {
        TokenStyle::Error
    } else {
        TokenStyle::Primary
    }
}

fn known_command(t: &Vec<char>) -> (b: bool)
    ensures
        b == is_known_command(t@),
{
    chars_equal(t, &chars_of("git")) || chars_equal(t, &chars_of("cd")) || chars_equal(
        t,
        &chars_of("ls"),
    )
}

/// The style of a token of an echoed command (see `command_style`), and
/// whether it is drawn bold (known commands are).
pub fn command_token_style(token: &str, whitespace: bool, has_error: bool) -> (r: (
    TokenStyle,
    bool,
))
    ensures
        r.0 == command_style(token@, whitespace, has_error),
        r.1 == is_known_command(token@),
{
    let t = chars_of(token);
    let known = known_command(&t);
    if whitespace {
        return (TokenStyle::Primary, known);
    }
    let slash: Vec<char> = vec!['/'];
    let dot: Vec<char> = vec!['.'];
    let dash: Vec<char> = vec!['-'];
    assert(slash@ =~= seq!['/'] && dot@ =~= seq!['.'] && dash@ =~= seq!['-']);
    let style = if known {
        TokenStyle::Command
    } else if chars_start_with(&t, &slash) || chars_start_with(&t, &dot) || chars_contain(
        &t,
        &slash,
    ) {
        TokenStyle::Directory
    } else if chars_start_with(&t, &dash) {
        TokenStyle::Muted
    } else if has_error {
        TokenStyle::Error
    } else {
        TokenStyle::Primary
    };
    (style, known)
}

/// The command of an echoed command line: the line without its `$ ` prefix.
pub open spec fn echoed_command(line: Seq<char>) -> Seq<char> {
    if starts_with(line, seq!['$', ' ']) {
        line.subrange(2, line.len() as int)
    } else {
        line
    }
}

/// The command of an echoed command line (see `echoed_command`).
pub fn command_text(line: &str) -> (r: String)
    ensures
        r@ == echoed_command(line@),
{
    let c = chars_of(line);
    let p: Vec<char> = vec!['$', ' '];
    assert(p@ =~= seq!['$', ' ']);
    if chars_start_with(&c, &p) {
        string_of_range(&c, 2, c.len())
    } else {
        string_of(&c)
    }
}

/// The style of a token of command output: errors (the token or its whole
/// line reads as an error), directories (`.`, `..`, or a directory of the
/// working directory), the rest plain.
pub open spec fn output_style(token: Seq<char>, line: Seq<char>, token_is_directory: bool) -> TokenStyle {
    if crate::transcript::is_error_line(token) || crate::transcript::is_error_line(line) {
        TokenStyle::Error
    } else if token == seq!['.'] || token == seq!['.', '.'] || token_is_directory {
        TokenStyle::Directory
    } else {
        TokenStyle::Primary
    }
}

/// The style of a token of command output (see `output_style`);
/// `token_is_directory` tells whether the working directory holds a directory
/// of that name.
pub fn output_token_style(token: &str, line: &str, token_is_directory: bool) -> (s: TokenStyle)
    ensures
        s == output_style(token@, line@, token_is_directory),
{
    if crate::transcript::is_error_output_line(token) || crate::transcript::is_error_output_line(
        line,
    ) {
        return TokenStyle::Error;
    }
    let t = chars_of(token);
    let dot: Vec<char> = vec!['.'];
    let dots: Vec<char> = vec!['.', '.'];
    assert(dot@ =~= seq!['.'] && dots@ =~= seq!['.', '.']);
    if chars_equal(&t, &dot) || chars_equal(&t, &dots) || token_is_directory {
        TokenStyle::Directory
    } else {
        TokenStyle::Primary
    }
}

/// How a transcript block is filled: selected blocks stand out, failed ones
/// are tinted, others are left clear.
#[derive(Debug, Clone, Copy, PartialEq, Eq, Structural)]
pub enum BlockFill {
    Selected,
    Error,
    Clear,
}

/// The fill of a transcript block: selection first, then errors.
pub fn transcript_block_fill(has_error: bool, is_selected: bool) -> (f: BlockFill)
    ensures
        f == if is_selected {
            BlockFill::Selected
        } else if has_error {
            BlockFill::Error
        } else {
            BlockFill::Clear
        },
{
    if is_selected {
        BlockFill::Selected
    } else if has_error {
        BlockFill::Error
    } else {
        BlockFill::Clear
    }
}

/// How a wrapped piece of a transcript line is drawn.
#[derive(Debug, Clone, Copy, PartialEq, Eq, Structural)]
pub enum ChunkKind {
    /// A context line (directory and git details).
    Context,
    /// An echoed command.
    Command,
    /// A dimmed status line (`~ (...`).
    Muted,
    /// Command output.
    Output,
}

/// `~ (`, the start of a dimmed status line.
pub open spec fn muted_prefix() -> Seq<char> {
    seq!['~', ' ', '(']
}

/// How a piece of a line is drawn: inside a command block, context lines
/// and echoed commands get their own styles; everywhere, `~ (` lines are
/// dimmed and the rest is output.
pub open spec fn chunk_kind(chunk: Seq<char>, in_block: bool) -> ChunkKind {
    if in_block && is_context_line(chunk) {
        ChunkKind::Context
    } else if in_block && is_prompt_line(chunk) {
        ChunkKind::Command
    } else if starts_with(chunk, muted_prefix()) {
        ChunkKind::Muted
    } else {
        ChunkKind::Output
    }
}

/// How a piece of a transcript line is drawn (see `chunk_kind`).
pub fn transcript_chunk_kind(chunk: &str, in_block: bool) -> (k: ChunkKind)
    ensures
        k == chunk_kind(chunk@, in_block),
{
    let c = crate::text::chars_of(chunk);
    let prompt: Vec<char> = vec!['$', ' '];
    assert(prompt@ =~= prompt_prefix());
    let muted: Vec<char> = vec!['~', ' ', '('];
    assert(muted@ =~= muted_prefix());
    if in_block && is_command_context_line(chunk) {
        ChunkKind::Context
    } else if in_block && chars_start_with(&c, &prompt) {
        ChunkKind::Command
    } else if chars_start_with(&c, &muted) {
        ChunkKind::Muted
    } else {
        ChunkKind::Output
    }
}

// ---------------------------------------------------------------------------
// The settings window
// ---------------------------------------------------------------------------

/// The settings window: whether it is shown, its section, whether the
/// managed block's preview is shown, and the message of the last install or
/// reset (with whether it reports a failure).
pub struct SettingsModal {
    pub open: bool,
    pub section: SettingsSection,
    pub show_preview: bool,
    pub status_message: Option<(String, bool)>,
}

/// A status message as plain values.
pub open spec fn status_view(m: Option<(String, bool)>) -> Option<(Seq<char>, bool)> {
    match m {
        Some((text, failed)) => Some((text@, failed)),
        None => None,
    }
}

/// The message after an install (`installing`) or a reset: success, or the
/// failure with its error.
pub open spec fn setup_status(installing: bool, outcome: Result<(), Seq<char>>) -> (Seq<char>, bool) {
    match outcome {
        Ok(_) => (if installing {
            "Managed zsh integration installed."@
        } else {
            "Managed zsh integration removed."@
        }, false),
        Err(e) => ((if installing {
            "Install failed: "@
        } else {
            "Reset failed: "@
        }) + e, true),
    }
}

impl SettingsModal {
    /// A hidden window on the shell section, no preview and no message.
    pub fn new() -> (m: Self)
        ensures
            !m.open,
            m.section == SettingsSection::Shell,
            !m.show_preview,
            m.status_message is None,
    {
        SettingsModal { open: false, section: SettingsSection::Shell, show_preview: false, status_message: None }
    }

    /// The gear button: shows or hides the window; hiding it drops the message.
    pub fn toggle(&mut self)
        ensures
            final(self).open == !old(self).open,
            final(self).section == old(self).section,
            final(self).show_preview == old(self).show_preview,
            status_view(final(self).status_message) == if old(self).open {
                None
            } else {
                status_view(old(self).status_message)
            },
    {
        self.open = !self.open;
        if !self.open {
            self.status_message = None;
        }
    }

    /// Escape: hides a shown window and drops the message.
    pub fn escape(&mut self)
        ensures
            !final(self).open,
            final(self).section == old(self).section,
            final(self).show_preview == old(self).show_preview,
            status_view(final(self).status_message) == if old(self).open {
                None
            } else {
                status_view(old(self).status_message)
            },
    {
        if self.open {
            self.open = false;
            self.status_message = None;
        }
    }

    /// The close button: hides the window, keeping the message.
    pub fn close(&mut self)
        ensures
            *final(self) == (SettingsModal { open: false, ..*old(self) }),
    {
        self.open = false;
    }

    /// Shows one section of the window.
    pub fn select_section(&mut self, section: SettingsSection)
        ensures
            *final(self) == (SettingsModal { section, ..*old(self) }),
    {
        self.section = section;
    }

    /// The preview button: shows or hides the managed block's preview.
    pub fn toggle_preview(&mut self)
        ensures
            *final(self) == (SettingsModal { show_preview: !old(self).show_preview, ..*old(self) }),
    {
        self.show_preview = !self.show_preview;
    }

    /// Records how an install (`installing`) or a reset ended (see `setup_status`).
    pub fn record_setup_outcome(&mut self, installing: bool, outcome: Result<(), String>)
        ensures
            final(self).open == old(self).open,
            final(self).section == old(self).section,
            final(self).show_preview == old(self).show_preview,
            status_view(final(self).status_message) == Some(
                setup_status(
                    installing,
                    match outcome {
                        Ok(u) => Ok(u),
                        Err(e) => Err(e@),
                    },
                ),
            ),
    {
        let message = match outcome {
            Ok(()) => {
                if installing {
                    (owned("Managed zsh integration installed."), false)
                } else {
                    (owned("Managed zsh integration removed."), false)
                }
            },
            Err(error) => {
                let mut text = if installing {
                    owned("Install failed: ")
                } else {
                    owned("Reset failed: ")
                };
                push_str(&mut text, error.as_str());
                (text, true)
            },
        };
        self.status_message = Some(message);
    }
}

// ---------------------------------------------------------------------------
// The find bar and the footer pickers
// ---------------------------------------------------------------------------

/// The find bar of the focused terminal: whether it is shown, the query, its
/// two toggles and the highlighted result.
pub struct FindBar {
    pub open: bool,
    pub query: String,
    pub case_sensitive: bool,
    pub selected_only: bool,
    pub active_result: Option<usize>,
}

/// The label of the result counter: `0/0` without results, else the
/// position of the highlighted result (the first when none) and the count.
pub open spec fn result_label_text(active: Option<usize>, count: nat) -> Seq<char> {
    if count == 0 {
        "0/0"@
    } else {
        let a: nat = match active {
            Some(i) => i as nat,
            None => 0,
        };
        decimal(a + 1) + "/"@ + decimal(count)
    }
}

impl FindBar {
    /// A hidden find bar with an empty query and both toggles off.
    pub fn new() -> (f: Self)
        ensures
            !f.open,
            f.query@.len() == 0,
            !f.case_sensitive,
            !f.selected_only,
            f.active_result is None,
    {
        FindBar {
            open: false,
            query: String::new(),
            case_sensitive: false,
            selected_only: false,
            active_result: None,
        }
    }

    /// Shows the find bar (Cmd+F), keeping the query.
    pub fn open(&mut self)
        ensures
            *final(self) == (FindBar { open: true, ..*old(self) }),
    {
        self.open = true;
    }

    /// Hides the find bar (its close button), emptying the query and
    /// forgetting the highlighted result; the toggles stay.
    pub fn close(&mut self)
        ensures
            !final(self).open,
            final(self).query@.len() == 0,
            final(self).active_result is None,
            final(self).case_sensitive == old(self).case_sensitive,
            final(self).selected_only == old(self).selected_only,
    {
        self.open = false;
        self.query = String::new();
        self.active_result = None;
    }

    /// Escape: closes the find bar when it is shown, else changes nothing.
    pub fn escape(&mut self)
        ensures
            old(self).open ==> {
                &&& !final(self).open
                &&& final(self).query@.len() == 0
                &&& final(self).active_result is None
                &&& final(self).case_sensitive == old(self).case_sensitive
                &&& final(self).selected_only == old(self).selected_only
            },
            !old(self).open ==> *final(self) == *old(self),
    {
        if self.open {
            self.close();
        }
    }

    /// A new query: the highlighted result is forgotten.
    pub fn set_query(&mut self, query: String)
        ensures
            *final(self) == (FindBar { query, active_result: None, ..*old(self) }),
    {
        self.query = query;
        self.active_result = None;
    }

    /// Flips case sensitivity; the highlighted result is forgotten.
    pub fn toggle_case_sensitive(&mut self)
        ensures
            *final(self) == (FindBar {
                case_sensitive: !old(self).case_sensitive,
                active_result: None,
                ..*old(self)
            }),
    {
        self.case_sensitive = !self.case_sensitive;
        self.active_result = None;
    }

    /// Flips searching in the selected blocks only; the highlighted result
    /// is forgotten.
    pub fn toggle_selected_only(&mut self)
        ensures
            *final(self) == (FindBar {
                selected_only: !old(self).selected_only,
                active_result: None,
                ..*old(self)
            }),
    {
        self.selected_only = !self.selected_only;
        self.active_result = None;
    }

    /// Keeps the highlighted result among the `result_count` results (see
    /// `active_search_result`).
    pub fn sync_results(&mut self, result_count: usize)
        ensures
            *final(self) == (FindBar {
                active_result: if result_count == 0 {
                    None
                } else if old(self).active_result is None || old(self).active_result->0 >= result_count {
                    Some(0usize)
                } else {
                    old(self).active_result
                },
                ..*old(self)
            }),
    {
        self.active_result = active_search_result(self.active_result, result_count);
    }

    /// Highlights the next result (Enter, the down arrow) or the previous one
    /// (Shift+Enter, the up arrow), see `next_index`.
    pub fn step(&mut self, result_count: usize, backwards: bool)
        requires
            !backwards && old(self).active_result is Some ==> old(self).active_result->0 < usize::MAX,
        ensures
            final(self).open == old(self).open,
            final(self).query == old(self).query,
            final(self).case_sensitive == old(self).case_sensitive,
            final(self).selected_only == old(self).selected_only,
            match final(self).active_result {
                Some(x) => next_index(old(self).active_result, result_count as int, backwards) == Some(x as int),
                None => next_index(old(self).active_result, result_count as int, backwards) is None,
            },
    {
        self.active_result = next_search_index(self.active_result, result_count, backwards);
    }

    /// The label of the result counter (see `result_label_text`).
    pub fn result_label(&self, result_count: usize) -> (r: String)
        requires
            self.active_result is Some ==> self.active_result->0 < usize::MAX,
        ensures
            r@ == result_label_text(self.active_result, result_count as nat),
    {
        if result_count == 0 {
            return owned("0/0");
        }
        let a: usize = match self.active_result {
            Some(i) => i,
            None => 0,
        };
        let mut label = decimal_string((a + 1) as u64);
        push_str(&mut label, "/");
        let count = decimal_string(result_count as u64);
        push_str(&mut label, count.as_str());
        label
    }
}

/// The two pickers above the footer of the focused terminal: directories and
/// git branches, each with its search query. At most one is shown.
pub struct FooterPickers {
    pub directory_open: bool,
    pub directory_query: String,
    pub branch_open: bool,
    pub branch_query: String,
}

impl FooterPickers {
    /// Both pickers hidden, with empty queries.
    pub fn new() -> (p: Self)
        ensures
            !p.directory_open,
            !p.branch_open,
            p.directory_query@.len() == 0,
            p.branch_query@.len() == 0,
    {
        FooterPickers {
            directory_open: false,
            directory_query: String::new(),
            branch_open: false,
            branch_query: String::new(),
        }
    }

    /// The directory chip was clicked: its picker opens with an empty query
    /// and the branch picker closes.
    pub fn open_directory_picker(&mut self)
        ensures
            final(self).directory_open,
            final(self).directory_query@.len() == 0,
            !final(self).branch_open,
            final(self).branch_query == old(self).branch_query,
    {
        self.directory_open = true;
        self.branch_open = false;
        self.directory_query = String::new();
    }

    /// The branch chip was clicked: its picker opens with an empty query and
    /// the directory picker closes.
    pub fn open_branch_picker(&mut self)
        ensures
            final(self).branch_open,
            final(self).branch_query@.len() == 0,
            !final(self).directory_open,
            final(self).directory_query == old(self).directory_query,
    {
        self.branch_open = true;
        self.directory_open = false;
        self.branch_query = String::new();
    }

    /// Closes the directory picker (Escape, a click elsewhere, a choice),
    /// emptying its query.
    pub fn close_directory_picker(&mut self)
        ensures
            !final(self).directory_open,
            final(self).directory_query@.len() == 0,
            final(self).branch_open == old(self).branch_open,
            final(self).branch_query == old(self).branch_query,
    {
        self.directory_open = false;
        self.directory_query = String::new();
    }

    /// Closes the branch picker, emptying its query.
    pub fn close_branch_picker(&mut self)
        ensures
            !final(self).branch_open,
            final(self).branch_query@.len() == 0,
            final(self).directory_open == old(self).directory_open,
            final(self).directory_query == old(self).directory_query,
    {
        self.branch_open = false;
        self.branch_query = String::new();
    }

    /// Whether Tab or the right arrow (`completion_key`) accepts the
    /// suggestion: only while no picker is shown.
    pub fn completion_requested(&self, completion_key: bool) -> (b: bool)
        ensures
            b == (!self.directory_open && !self.branch_open && completion_key),
    {
        !self.directory_open && !self.branch_open && completion_key
    }

    /// Whether the shell input takes the keyboard focus back: no picker and
    /// no find bar shown, the input neither focused nor holding text.
    pub fn input_takes_focus(&self, find_open: bool, input_has_focus: bool, input: &str) -> (b: bool)
        ensures
            b == (!self.directory_open && !self.branch_open && !find_open && !input_has_focus
                && input@.len() == 0),
    {
        !self.directory_open && !self.branch_open && !find_open && !input_has_focus && input.is_empty()
    }
}

// ---------------------------------------------------------------------------
// Keeping the shells in step with the sessions
// ---------------------------------------------------------------------------

/// An engine action as plain values: the directory a shell starts in, or the
/// session and size of a resize (neither for the other actions).
pub open spec fn action_view(a: Action) -> (Option<Seq<char>>, Option<(int, TerminalSize)>) {
    match a {
        Action::SpawnTerminal { cwd } => (Some(cwd@), None),
        Action::ResizeTerminal { session_id, size } => (None, Some((session_id as int, size))),
        _ => (None, None),
    }
}

/// The directory a new shell starts in: that of the selected session where
/// it is known and not empty, else `fallback`.
pub open spec fn spawn_cwd(selected: Option<Seq<char>>, fallback: Seq<char>) -> Seq<char> {
    match selected {
        Some(c) => if c.len() > 0 {
            c
        } else {
            fallback
        },
        None => fallback,
    }
}

/// The actions for the sessions `before..after` that the shortcuts added: for
/// each, in order, a shell in `cwd` and, where a size was already observed,
/// a resize of it to that size.
pub open spec fn spawn_views(before: int, after: int, cwd: Seq<char>, last: Option<TerminalSize>) -> Seq<
    (Option<Seq<char>>, Option<(int, TerminalSize)>),
>
    decreases after - before,
{
    if after <= before {
        Seq::empty()
    } else {
        let id = after - 1;
        spawn_views(before, id, cwd, last) + seq![(Some(cwd), None::<(int, TerminalSize)>)] + match last {
            Some(sz) => seq![(None::<Seq<char>>, Some((id, sz)))],
            None => Seq::empty(),
        }
    }
}

/// A resize of each of the sessions `0..n` to `size`, in order.
pub open spec fn resize_views(n: int, size: TerminalSize) -> Seq<(Option<Seq<char>>, Option<(int, TerminalSize)>)>
    decreases n,
{
    if n <= 0 {
        Seq::empty()
    } else {
        resize_views(n - 1, size) + seq![(None::<Seq<char>>, Some((n - 1, size)))]
    }
}

/// What a frame of the desktop view sends the engine once the keyboard
/// shortcuts have run, and the size it then remembers: a shell (see
/// `spawn_views`) for each session the shortcuts added, started in the
/// selected session's directory (else `fallback_cwd`); then, where the
/// viewport size differs from the one last observed, a resize of every
/// session to the new size.
pub fn session_sync_actions(
    sessions_before: usize,
    sessions_after: usize,
    selected_cwd: Option<&str>,
    fallback_cwd: &str,
    last_size: Option<TerminalSize>,
    size: TerminalSize,
) -> (r: (Vec<Action>, Option<TerminalSize>))
    ensures
        r.0@.map_values(|a: Action| action_view(a)) == spawn_views(
            sessions_before as int,
            sessions_after as int,
            spawn_cwd(
                match selected_cwd {
                    Some(c) => Some(c@),
                    None => None,
                },
                fallback_cwd@,
            ),
            last_size,
        ) + if last_size == Some(size) {
            Seq::empty()
        } else {
            resize_views(sessions_after as int, size)
        },
        r.1 == Some(size),
{
    let ghost sel = match selected_cwd {
        Some(c) => Some(c@),
        None => None,
    };
    let cwd: String = match selected_cwd {
        Some(c) => if !c.is_empty() {
            owned(c)
        } else {
            owned(fallback_cwd)
        },
        None => owned(fallback_cwd),
    };
    assert(cwd@ == spawn_cwd(sel, fallback_cwd@));
    let ghost target = cwd@;
    let mut actions: Vec<Action> = Vec::new();
    if sessions_after > sessions_before {
        let mut id = sessions_before;
        while id < sessions_after
            invariant
                sessions_before <= id <= sessions_after,
                cwd@ == target,
                actions@.map_values(|a: Action| action_view(a)) == spawn_views(
                    sessions_before as int,
                    id as int,
                    target,
                    last_size,
                ),
            decreases sessions_after - id,
        {
            let ghost before = actions@.map_values(|a: Action| action_view(a));
            actions.push(Action::SpawnTerminal { cwd: cwd.clone() });
            match last_size {
                Some(sz) => {
                    actions.push(Action::ResizeTerminal { session_id: id, size: sz });
                },
                None => {},
            }
            assert(actions@.map_values(|a: Action| action_view(a)) =~= spawn_views(
                sessions_before as int,
                id + 1,
                target,
                last_size,
            )) by {
                assert(spawn_views(sessions_before as int, id + 1, target, last_size) == before
                    + seq![(Some(target), None::<(int, TerminalSize)>)] + match last_size {
                    Some(sz) => seq![(None::<Seq<char>>, Some((id as int, sz)))],
                    None => Seq::empty(),
                });
            }
            id += 1;
        }
    }
    let ghost spawned = actions@.map_values(|a: Action| action_view(a));
    assert(spawned == spawn_views(sessions_before as int, sessions_after as int, target, last_size));
    let changed = match last_size {
        Some(s) => s.cols != size.cols || s.rows != size.rows,
        None => true,
    };
    assert(changed == (last_size != Some(size)));
    if changed {
        let mut id: usize = 0;
        while id < sessions_after
            invariant
                id <= sessions_after,
                actions@.map_values(|a: Action| action_view(a)) == spawned + resize_views(id as int, size),
            decreases sessions_after - id,
        {
            let ghost before = actions@.map_values(|a: Action| action_view(a));
            actions.push(Action::ResizeTerminal { session_id: id, size });
            assert(actions@.map_values(|a: Action| action_view(a)) =~= spawned + resize_views(id + 1, size)) by {
                assert(resize_views(id + 1, size) == resize_views(id as int, size) + seq![
                    (None::<Seq<char>>, Some((id as int, size))),
                ]);
                assert(spawned + resize_views(id + 1, size) =~= before + seq![
                    (None::<Seq<char>>, Some((id as int, size))),
                ]);
            }
            id += 1;
        }
    } else {
        assert(spawned + Seq::empty() =~= spawned);
    }
    (actions, Some(size))
}

} // verus!
