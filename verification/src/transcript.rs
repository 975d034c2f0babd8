//! Reading a terminal transcript: how lines wrap into rows, what a selection
//! of rows copies, which commands clear the transcript, which output lines
//! are errors, and where command blocks start.
use vstd::prelude::*;
use std::ops::RangeInclusive;
use crate::text::{
    chars_contain, chars_equal, chars_of, chars_start_with, contains_seq, lowercase_of, push_char,
    push_str, starts_with, str_views, string_of_range, to_lowercase, trim, trimmed_chars,
};

verus! {

broadcast use vstd::string::group_string_axioms;

/// `RangeInclusive::start`: the first value of the range.
pub assume_specification<Idx>[ RangeInclusive::<Idx>::start ](r: &RangeInclusive<Idx>) -> (s: &Idx)
    ensures
        *s == r@.start,
;

/// `RangeInclusive::end`: the last value of the range.
pub assume_specification<Idx>[ RangeInclusive::<Idx>::end ](r: &RangeInclusive<Idx>) -> (e: &Idx)
    ensures
        *e == r@.end,
;

// ---------------------------------------------------------------------------
// Wrapping lines into rows
// ---------------------------------------------------------------------------

/// `max(x, 1)`.
pub open spec fn at_least_one(x: int) -> int {
    if x < 1 {
        1
    } else {
        x
    }
}

/// Number of rows a line of `n` characters takes at `cols` columns (an empty
/// line takes one row).
pub open spec fn row_count(n: int, cols: int) -> int {
    (at_least_one(n) + at_least_one(cols) - 1) / at_least_one(cols)
}

/// Number of rows `line` takes when wrapped at `cols` columns.
pub fn wrapped_row_count(line: &str, cols: usize) -> (r: usize)
    ensures
        r == row_count(line@.len() as int, cols as int),
{
    let n = chars_of(line).len();
    let n1 = if n < 1 {
        1
    } else {
        n
    };
    let c1 = if cols < 1 {
        1
    } else {
        cols
    };
    let q = n1 / c1;
    if n1 % c1 == 0 {
        proof {
            assert((n1 + c1 - 1) / (c1 as int) == q) by (nonlinear_arith)
                requires
                    n1 % c1 == 0,
                    q == n1 / c1,
                    c1 >= 1,
            ;
        }
        q
    } else {
        proof {
            assert((n1 + c1 - 1) / (c1 as int) == q + 1) by (nonlinear_arith)
                requires
                    n1 % c1 != 0,
                    q == n1 / c1,
                    c1 >= 1,
            ;
            assert(c1 >= 2) by (nonlinear_arith)
                requires
                    n1 % c1 != 0,
                    c1 >= 1,
            ;
            assert(q <= n1) by (nonlinear_arith)
                requires
                    q == n1 / c1,
                    c1 >= 2,
                    n1 >= 1,
            ;
            assert(q < n1) by (nonlinear_arith)
                requires
                    q == n1 / c1,
                    c1 >= 2,
                    n1 >= 1,
            ;
        }
        q + 1
    }
}

/// One screen row: characters `start_char..end_char` of logical line
/// `logical_line_index`.
#[derive(Debug, Clone, Copy, PartialEq, Eq, Structural)]
pub struct PhysicalRow {
    pub logical_line_index: usize,
    pub start_char: usize,
    pub end_char: usize,
}

/// Rows of line `i` from character `start` on, `cols` characters each (the
/// last one shorter), for a line of `len` characters.
pub open spec fn chunk_rows(i: int, start: int, len: int, cols: int) -> Seq<(int, int, int)>
    decreases len - start,
{
    if start >= len || cols < 1 {
        Seq::empty()
    } else {
        let end = if start + cols < len {
            start + cols
        } else {
            len
        };
        seq![(i, start, end)] + chunk_rows(i, end, len, cols)
    }
}

/// Rows of line `i` of `len` characters: one empty row for an empty line.
pub open spec fn line_rows(i: int, len: int, cols: int) -> Seq<(int, int, int)> {
    if len == 0 {
        seq![(i, 0, 0)]
    } else {
        chunk_rows(i, 0, len, cols)
    }
}

/// Rows of the lines whose lengths are `lens`, in order.
pub open spec fn rows_of_lines(lens: Seq<int>, cols: int) -> Seq<(int, int, int)>
    decreases lens.len(),
{
    if lens.len() == 0 {
        Seq::empty()
    } else {
        rows_of_lines(lens.drop_last(), cols) + line_rows(
            lens.len() - 1,
            lens.last(),
            cols,
        )
    }
}

/// Character counts of lines.
pub open spec fn line_lengths(lines: Seq<&str>) -> Seq<int> {
    lines.map_values(|l: &str| l@.len() as int)
}

/// A row as plain values.
pub open spec fn row_view(r: PhysicalRow) -> (int, int, int) {
    (r.logical_line_index as int, r.start_char as int, r.end_char as int)
}

/// Rows as plain values.
pub open spec fn row_views(rows: Seq<PhysicalRow>) -> Seq<(int, int, int)> {
    rows.map_values(|r: PhysicalRow| row_view(r))
}

/// Splits `lines` into rows of `cols` characters (at least one column).
pub fn build_physical_rows(lines: &[&str], cols: usize) -> (rows: Vec<PhysicalRow>)
    ensures
        row_views(rows@) == rows_of_lines(line_lengths(lines@), at_least_one(cols as int)),
{
    let cols = if cols < 1 {
        1
    } else {
        cols
    };
    let mut rows: Vec<PhysicalRow> = Vec::new();
    let mut i: usize = 0;
    let ghost lens = line_lengths(lines@);
    while i < lines.len()
        invariant
            i <= lines@.len(),
            cols >= 1,
            lens == line_lengths(lines@),
            row_views(rows@) == rows_of_lines(lens.subrange(0, i as int), cols as int),
        decreases lines@.len() - i,
    {
        let ghost pre = lens.subrange(0, i as int);
        let ghost next = lens.subrange(0, i + 1);
        assert(next.drop_last() =~= pre);
        let n = chars_of(lines[i]).len();
        assert(next.last() == n);
        let ghost before = row_views(rows@);
        if n == 0 {
            rows.push(PhysicalRow { logical_line_index: i, start_char: 0, end_char: 0 });
            assert(row_views(rows@) =~= before + line_rows(i as int, 0, cols as int));
        } else {
            let mut start: usize = 0;
            assert(chunk_rows(i as int, 0, n as int, cols as int) == chunk_rows(
                i as int,
                start as int,
                n as int,
                cols as int,
            ));
            assert(row_views(rows@) + chunk_rows(i as int, 0, n as int, cols as int) =~= before
                + chunk_rows(i as int, start as int, n as int, cols as int));
            while start < n
                invariant
                    start <= n,
                    cols >= 1,
                    before + chunk_rows(i as int, 0, n as int, cols as int) == row_views(rows@)
                        + chunk_rows(i as int, start as int, n as int, cols as int),
                decreases n - start,
            {
                let end = if cols < n - start {
                    start + cols
                } else {
                    n
                };
                let ghost rest = chunk_rows(i as int, end as int, n as int, cols as int);
                let ghost mid = row_views(rows@);
                rows.push(PhysicalRow { logical_line_index: i, start_char: start, end_char: end });
                assert(row_views(rows@) =~= mid.push((i as int, start as int, end as int)));
                assert(mid + (seq![(i as int, start as int, end as int)] + rest) =~= row_views(
                    rows@,
                ) + rest);
                start = end;
            }
            assert(row_views(rows@) + Seq::<(int, int, int)>::empty() =~= row_views(rows@));
        }
        i += 1;
    }
    assert(lens.subrange(0, lens.len() as int) =~= lens);
    rows
}

// ---------------------------------------------------------------------------
// Copying a selection of rows
// ---------------------------------------------------------------------------

/// Characters `start..end` of `s`, clipped to `s` (`chars().skip(start).take(end - start)`).
pub open spec fn char_slice(s: Seq<char>, start: int, end: int) -> Seq<char> {
    let a = if start < s.len() {
        start
    } else {
        s.len() as int
    };
    let want = if end > start {
        end - start
    } else {
        0
    };
    let b = if a + want < s.len() {
        a + want
    } else {
        s.len() as int
    };
    s.subrange(a, b)
}

/// `i` lies in the inclusive range `r` (the last value is left out once the
/// range is exhausted).
pub open spec fn in_inclusive(r: RangeInclusive<usize>, i: int) -> bool {
    r@.start <= i && if r@.exhausted {
        i < r@.end
    } else {
        i <= r@.end
    }
}

/// `in_inclusive` at a `usize`.
pub open spec fn in_inclusive_at(r: RangeInclusive<usize>, i: usize) -> bool {
    in_inclusive(r, i as int)
}

fn range_holds(r: &RangeInclusive<usize>, i: usize) -> (b: bool)
    ensures
        b == in_inclusive_at(*r, i),
{
    broadcast use vstd::laws_cmp::group_laws_cmp;

    r.contains(&i)
}

/// Text copied from rows `k..=last` of a selection when `prev` is the logical
/// line of the last row copied so far: rows and lines that do not exist are
/// skipped, and a newline separates rows of different logical lines.
pub open spec fn selection_from(
    lines: Seq<Seq<char>>,
    rows: Seq<PhysicalRow>,
    r: RangeInclusive<usize>,
    k: int,
    last: int,
    prev: Option<int>,
) -> Seq<char>
    decreases last + 1 - k,
{
    if k > last {
        Seq::empty()
    } else if !in_inclusive(r, k) || k >= rows.len() || k < 0 || rows[k].logical_line_index
        >= lines.len() {
        selection_from(lines, rows, r, k + 1, last, prev)
    } else {
        let row = rows[k];
        let li = row.logical_line_index as int;
        let sep = match prev {
            Some(p) => if p != li {
                seq!['\n']
            } else {
                Seq::empty()
            },
            None => Seq::empty(),
        };
        sep + char_slice(lines[li], row.start_char as int, row.end_char as int) + selection_from(
            lines,
            rows,
            r,
            k + 1,
            last,
            Some(li),
        )
    }
}

/// The text of the selected rows: their characters, with a newline where the
/// selection passes from one logical line to the next.
pub open spec fn selection_text(
    lines: Seq<Seq<char>>,
    rows: Seq<PhysicalRow>,
    r: RangeInclusive<usize>,
) -> Seq<char> {
    selection_from(lines, rows, r, r@.start as int, r@.end as int, None)
}

fn char_range_slice(line: &str, start_char: usize, end_char: usize) -> (r: String)
    ensures
        r@ == char_slice(line@, start_char as int, end_char as int),
{
    let chars = chars_of(line);
    let n = chars.len();
    let a = if start_char < n {
        start_char
    } else {
        n
    };
    let want = if end_char > start_char {
        end_char - start_char
    } else {
        0
    };
    let b = if want < n - a {
        a + want
    } else {
        n
    };
    string_of_range(&chars, a, b)
}

/// Copies the text of the selected rows (see `selection_text`).
pub fn selection_text_from_physical_rows(
    lines: &[&str],
    rows: &[PhysicalRow],
    selected_rows: RangeInclusive<usize>,
) -> (r: String)
    ensures
        r@ == selection_text(str_views(lines@), rows@, selected_rows),
{
    let ghost lv = str_views(lines@);
    let first = *selected_rows.start();
    let last = *selected_rows.end();
    let mut out = String::new();
    if first > last {
        return out;
    }
    let mut prev: Option<usize> = None;
    let mut k = first;
    loop
        invariant
            lv == str_views(lines@),
            first <= k <= last,
            first == selected_rows@.start,
            last == selected_rows@.end,
            selection_text(lv, rows@, selected_rows) == out@ + selection_from(
                lv,
                rows@,
                selected_rows,
                k as int,
                last as int,
                match prev {
                    Some(p) => Some(p as int),
                    None => None,
                },
            ),
        decreases last - k,
    {
        let ghost pv = match prev {
            Some(p) => Some(p as int),
            None => None,
        };
        let ghost rest = selection_from(lv, rows@, selected_rows, k + 1, last as int, pv);
        let inside = range_holds(&selected_rows, k);
        assert(inside == in_inclusive(selected_rows, k as int));
        if inside && k < rows.len() && rows[k].logical_line_index < lines.len() {
            let row = rows[k];
            let li = row.logical_line_index;
            let ghost before = out@;
            let mut sep = false;
            if let Some(p) = prev {
                if p != li {
                    sep = true;
                }
            }
            if sep {
                push_char(&mut out, '\n');
            }
            let piece = char_range_slice(lines[li], row.start_char, row.end_char);
            push_str(&mut out, piece.as_str());
            let ghost rest2 = selection_from(
                lv,
                rows@,
                selected_rows,
                k + 1,
                last as int,
                Some(li as int),
            );
            assert(lv[li as int] == lines@[li as int]@);
            assert(before + selection_from(lv, rows@, selected_rows, k as int, last as int, pv)
                =~= out@ + rest2);
            prev = Some(li);
        }
        if k == last {
            assert(selection_from(
                lv,
                rows@,
                selected_rows,
                k + 1,
                last as int,
                match prev {
                    Some(p) => Some(p as int),
                    None => None,
                },
            ) == Seq::<char>::empty());
            assert(out@ + Seq::<char>::empty() =~= out@);
            return out;
        }
        k += 1;
    }
}

// ---------------------------------------------------------------------------
// Classifying lines
// ---------------------------------------------------------------------------

/// `clear` and `cls` (with surrounding whitespace) clear the transcript.
pub open spec fn clears_transcript(command: Seq<char>) -> bool {
    trim(command) == "clear"@ || trim(command) == "cls"@
}

/// Whether running `command` clears the transcript.
pub fn command_clears_transcript(command: &str) -> (b: bool)
    ensures
        b == clears_transcript(command@),
{
    let t = trimmed_chars(command);
    chars_equal(&t, &chars_of("clear")) || chars_equal(&t, &chars_of("cls"))
}

/// An output line reports an error: lower-cased, it mentions a missing
/// command or file, `error:`, a permission problem, or starts with `zsh: `.
pub open spec fn is_error_line(line: Seq<char>) -> bool {
    let lower = lowercase_of(line);
    ||| contains_seq(lower, "command not found"@)
    ||| contains_seq(lower, "no such file or directory"@)
    ||| contains_seq(lower, "error:"@)
    ||| contains_seq(lower, "permission denied"@)
    ||| starts_with(lower, "zsh: "@)
}

/// An output line reports an error exactly when, lower-cased, it mentions a
/// missing command (`command not found`), a missing file (`no such file or
/// directory`), `error:`, `permission denied`, or starts with `zsh: `.
pub proof fn law_error_lines(line: Seq<char>)
    ensures
        contains_seq(lowercase_of(line), "command not found"@) ==> is_error_line(line),
        contains_seq(lowercase_of(line), "no such file or directory"@) ==> is_error_line(line),
        contains_seq(lowercase_of(line), "error:"@) ==> is_error_line(line),
        contains_seq(lowercase_of(line), "permission denied"@) ==> is_error_line(line),
        starts_with(lowercase_of(line), "zsh: "@) ==> is_error_line(line),
        is_error_line(line) ==> contains_seq(lowercase_of(line), "command not found"@) || contains_seq(
            lowercase_of(line),
            "no such file or directory"@,
        ) || contains_seq(lowercase_of(line), "error:"@) || contains_seq(lowercase_of(line), "permission denied"@)
            || starts_with(lowercase_of(line), "zsh: "@),
{
}

/// A command's block is marked failed as soon as the first output line after
/// it, before any next command, reports an error.
pub proof fn law_error_line_fails_its_block(lines: Seq<Seq<char>>, prompt: int, j: int)
    requires
        0 <= prompt < j < lines.len(),
        is_error_line(lines[j]),
        forall|k: int| prompt < k <= j ==> !is_prompt_line(#[trigger] lines[k]),
    ensures
        block_has_error(lines, prompt),
{
    assert(prompt + 1 <= j < lines.len() && is_error_line(lines[j]) && forall|k: int|
        prompt + 1 <= k <= j ==> !is_prompt_line(#[trigger] lines[k]));
}

/// Whether an output line reports an error (see `is_error_line`).
pub fn is_error_output_line(line: &str) -> (b: bool)
    ensures
        b == is_error_line(line@),
{
    let lower = chars_of(to_lowercase(line).as_str());
    chars_contain(&lower, &chars_of("command not found")) || chars_contain(
        &lower,
        &chars_of("no such file or directory"),
    ) || chars_contain(&lower, &chars_of("error:")) || chars_contain(
        &lower,
        &chars_of("permission denied"),
    ) || chars_start_with(&lower, &chars_of("zsh: "))
}

/// `$ `, the start of an echoed command line.
pub open spec fn prompt_prefix() -> Seq<char> {
    seq!['$', ' ']
}

/// A line echoes a command.
pub open spec fn is_prompt_line(line: Seq<char>) -> bool {
    starts_with(line, prompt_prefix())
}

pub(crate) fn prompt_line(line: &str) -> (b: bool)
    ensures
        b == is_prompt_line(line@),
{
    let p: Vec<char> = vec!['$', ' '];
    assert(p@ =~= prompt_prefix());
    chars_start_with(&chars_of(line), &p)
}

/// The output of the command echoed at `prompt` (the lines after it, up to the
/// next echoed command) holds an error line.
pub open spec fn block_has_error(lines: Seq<Seq<char>>, prompt: int) -> bool {
    exists|j: int|
        #![trigger is_error_line(lines[j])]
        prompt + 1 <= j < lines.len() && is_error_line(lines[j]) && forall|k: int|
            prompt + 1 <= k <= j ==> !is_prompt_line(#[trigger] lines[k])
}

/// Whether the output of the command echoed at `prompt_index` holds an error line.
pub fn command_block_has_error(lines: &[&str], prompt_index: usize) -> (b: bool)
    requires
        prompt_index < usize::MAX,
    ensures
        b == block_has_error(str_views(lines@), prompt_index as int),
{
    let ghost lv = str_views(lines@);
    let mut j = prompt_index + 1;
    while j < lines.len()
        invariant
            lv == str_views(lines@),
            prompt_index + 1 <= j,
            forall|k: int| prompt_index + 1 <= k < j && k < lv.len() ==> !is_prompt_line(lv[k]),
            forall|k: int| prompt_index + 1 <= k < j && k < lv.len() ==> !is_error_line(lv[k]),
        decreases lines@.len() - j,
    {
        assert(lv[j as int] == lines@[j as int]@);
        if prompt_line(lines[j]) {
            assert(!block_has_error(lv, prompt_index as int)) by {
                if block_has_error(lv, prompt_index as int) {
                    let w = choose|w: int|
                        #![trigger is_error_line(lv[w])]
                        prompt_index + 1 <= w < lv.len() && is_error_line(lv[w]) && forall|k: int|
                            prompt_index + 1 <= k <= w ==> !is_prompt_line(#[trigger] lv[k]);
                    if w >= j {
                        assert(!is_prompt_line(lv[j as int]));
                    }
                }
            }
            return false;
        }
        if is_error_output_line(lines[j]) {
            assert(is_error_line(lv[j as int]));
            return true;
        }
        j += 1;
    }
    assert(!block_has_error(lv, prompt_index as int)) by {
        if block_has_error(lv, prompt_index as int) {
            let w = choose|w: int|
                #![trigger is_error_line(lv[w])]
                prompt_index + 1 <= w < lv.len() && is_error_line(lv[w]) && forall|k: int|
                    prompt_index + 1 <= k <= w ==> !is_prompt_line(#[trigger] lv[k]);
            assert(!is_error_line(lv[w]));
        }
    }
    false
}

/// Block separators are drawn between all transcript blocks.
pub fn should_render_block_separator(
    previous_block_had_error: bool,
    current_block_has_error: bool,
) -> (b: bool)
    ensures
        b,
{
    true
}

/// An error block is extended to the bottom of the view only when it is the last block.
pub fn should_extend_error_block_to_bottom(has_error: bool, is_last_block: bool) -> (b: bool)
    ensures
        b == (has_error && is_last_block),
{
    has_error && is_last_block
}

/// A context line (working directory and git details) starts with `/`.
pub open spec fn is_context_line(line: Seq<char>) -> bool {
    line.len() > 0 && line[0] == '/'
}

/// Whether `line` is a context line.
pub fn is_command_context_line(line: &str) -> (b: bool)
    ensures
        b == is_context_line(line@),
{
    let c = chars_of(line);
    c.len() > 0 && c[0] == '/'
}

/// A block starts at `index` with a context line followed by an echoed command.
pub open spec fn context_block_at(lines: Seq<Seq<char>>, index: int) -> bool {
    0 <= index && index + 1 < lines.len() && is_context_line(lines[index]) && is_prompt_line(
        lines[index + 1],
    )
}

/// A block of the older layout starts at `index`: a blank line, a context
/// line, an echoed command.
pub open spec fn legacy_context_block_at(lines: Seq<Seq<char>>, index: int) -> bool {
    0 <= index && index + 2 < lines.len() && trim(lines[index]).len() == 0 && is_context_line(
        lines[index + 1],
    ) && is_prompt_line(lines[index + 2])
}

/// Whether a block starts at `index` with a context line (see `context_block_at`).
pub fn is_context_block_start(lines: &[&str], index: usize) -> (b: bool)
    ensures
        b == context_block_at(str_views(lines@), index as int),
{
    if index >= lines.len() || lines.len() - index < 2 {
        return false;
    }
    is_command_context_line(lines[index]) && prompt_line(lines[index + 1])
}

/// Whether a block of the older layout starts at `index` (see `legacy_context_block_at`).
pub fn is_legacy_context_block_start(lines: &[&str], index: usize) -> (b: bool)
    ensures
        b == legacy_context_block_at(str_views(lines@), index as int),
{
    if index >= lines.len() || lines.len() - index < 3 {
        return false;
    }
    trimmed_chars(lines[index]).len() == 0 && is_command_context_line(lines[index + 1])
        && prompt_line(lines[index + 2])
}

} // verus!
