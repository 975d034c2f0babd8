//! Command blocks of a transcript and searching it: which lines form each
//! command's block, where a query matches, and stepping through the results.
use vstd::prelude::*;
use std::collections::BTreeSet;
use std::ops::Range;
use vstd::utf8::encode_utf8;
use crate::text::{bytes_match_at, lowercase_of, occurs_at, str_views, to_lowercase, trim, trimmed_chars};
use crate::transcript::{
    block_has_error, command_block_has_error, should_extend_error_block_to_bottom, context_block_at, is_context_block_start,
    is_legacy_context_block_start, is_prompt_line, legacy_context_block_at,
};

verus! {

broadcast use vstd::string::group_string_axioms;

/// One command's block of transcript lines: `start..end`, and whether its
/// output holds an error line.
#[derive(Debug, Clone, Copy, PartialEq, Eq, Structural)]
pub struct TranscriptBlock {
    pub start: usize,
    pub end: usize,
    pub has_error: bool,
}

/// One search hit: the block and line it is in, and its byte range in the
/// searched text of the line.
pub struct TranscriptSearchMatch {
    pub block_index: Option<usize>,
    pub line_index: usize,
    pub range: Range<usize>,
}

/// A block starts at line `i`: a context line followed by an echoed command,
/// or an echoed command.
pub open spec fn block_starts_at(ls: Seq<Seq<char>>, i: int) -> bool {
    context_block_at(ls, i) || (0 <= i < ls.len() && is_prompt_line(ls[i]))
}

/// The echoed command of the block starting at `i`.
pub open spec fn prompt_of(ls: Seq<Seq<char>>, i: int) -> int {
    if context_block_at(ls, i) {
        i + 1
    } else {
        i
    }
}

/// Where a block whose output starts at line `j` ends: at the next echoed
/// command or block start, or the end of the transcript.
pub open spec fn block_end_from(ls: Seq<Seq<char>>, j: int) -> int
    decreases ls.len() - j,
{
    if j < 0 || j >= ls.len() || is_prompt_line(ls[j]) || context_block_at(ls, j)
        || legacy_context_block_at(ls, j) {
        j
    } else {
        block_end_from(ls, j + 1)
    }
}

/// A block's end lies between its output's start and the end of the transcript.
pub proof fn lemma_block_end(ls: Seq<Seq<char>>, j: int)
    requires
        0 <= j <= ls.len(),
    ensures
        j <= block_end_from(ls, j) <= ls.len(),
    decreases ls.len() - j,
{
    if j < ls.len() {
        lemma_block_end(ls, j + 1);
    }
}

/// The blocks of the transcript from line `i` on, in order.
pub open spec fn blocks_from(ls: Seq<Seq<char>>, i: int) -> Seq<(int, int, bool)>
    decreases ls.len() - i,
{
    if i < 0 || i >= ls.len() {
        Seq::empty()
    } else if block_starts_at(ls, i) {
        let p = prompt_of(ls, i);
        proof {
            lemma_block_end(ls, p + 1);
        }
        let e = block_end_from(ls, p + 1);
        seq![(i, e, block_has_error(ls, p))] + blocks_from(ls, e)
    } else {
        blocks_from(ls, i + 1)
    }
}

/// A block as plain values.
pub open spec fn block_view(b: TranscriptBlock) -> (int, int, bool) {
    (b.start as int, b.end as int, b.has_error)
}

/// Blocks as plain values.
pub open spec fn block_views(bs: Seq<TranscriptBlock>) -> Seq<(int, int, bool)> {
    bs.map_values(|b: TranscriptBlock| block_view(b))
}

fn starts_block(lines: &[&str], i: usize) -> (b: bool)
    requires
        i < lines@.len(),
    ensures
        b == block_starts_at(str_views(lines@), i as int),
{
    let p: Vec<char> = vec!['$', ' '];
    assert(p@ =~= crate::transcript::prompt_prefix());
    is_context_block_start(lines, i) || crate::text::chars_start_with(
        &crate::text::chars_of(lines[i]),
        &p,
    )
}

fn end_of_block(lines: &[&str], from: usize) -> (e: usize)
    requires
        from <= lines@.len(),
    ensures
        e == block_end_from(str_views(lines@), from as int),
{
    let ghost lv = str_views(lines@);
    let p: Vec<char> = vec!['$', ' '];
    assert(p@ =~= crate::transcript::prompt_prefix());
    let mut e = from;
    while e < lines.len() && !crate::text::chars_start_with(&crate::text::chars_of(lines[e]), &p)
        && !is_context_block_start(lines, e) && !is_legacy_context_block_start(lines, e)
        invariant
            from <= e <= lines@.len(),
            lv == str_views(lines@),
            p@ == crate::transcript::prompt_prefix(),
            block_end_from(lv, from as int) == block_end_from(lv, e as int),
        decreases lines@.len() - e,
    {
        e += 1;
    }
    e
}

/// Splits a transcript into its command blocks (see `blocks_from`).
pub fn terminal_transcript_blocks(lines: &[&str]) -> (r: Vec<TranscriptBlock>)
    ensures
        block_views(r@) == blocks_from(str_views(lines@), 0),
{
    let ghost lv = str_views(lines@);
    let mut blocks: Vec<TranscriptBlock> = Vec::new();
    let mut index: usize = 0;
    assert(block_views(blocks@) + blocks_from(lv, 0) =~= blocks_from(lv, 0));
    while index < lines.len()
        invariant
            index <= lines@.len(),
            lv == str_views(lines@),
            blocks_from(lv, 0) == block_views(blocks@) + blocks_from(lv, index as int),
        decreases lines@.len() - index,
    {
        if starts_block(lines, index) {
            let has_context = is_context_block_start(lines, index);
            let prompt = if has_context {
                index + 1
            } else {
                index
            };
            let end = end_of_block(lines, prompt + 1);
            proof {
                lemma_block_end(lv, prompt + 1);
            }
            let has_error = command_block_has_error(lines, prompt);
            let ghost before = block_views(blocks@);
            blocks.push(TranscriptBlock { start: index, end, has_error });
            assert(block_views(blocks@) =~= before.push((index as int, end as int, has_error)));
            assert(before + (seq![(index as int, end as int, has_error)] + blocks_from(
                lv,
                end as int,
            )) =~= block_views(blocks@) + blocks_from(lv, end as int));
            index = end;
        } else {
            index += 1;
        }
    }
    assert(block_views(blocks@) + Seq::<(int, int, bool)>::empty() =~= block_views(blocks@));
    blocks
}

/// The first line at or after `j` that is not blank.
pub open spec fn skip_blank_from(ls: Seq<Seq<char>>, j: int) -> int
    decreases ls.len() - j,
{
    if j < 0 || j >= ls.len() || trim(ls[j]).len() != 0 {
        j
    } else {
        skip_blank_from(ls, j + 1)
    }
}

/// The first non-blank line at or after `j` lies within the transcript.
pub proof fn lemma_skip_blank(ls: Seq<Seq<char>>, j: int)
    requires
        0 <= j <= ls.len(),
    ensures
        j <= skip_blank_from(ls, j) <= ls.len(),
    decreases ls.len() - j,
{
    if j < ls.len() {
        lemma_skip_blank(ls, j + 1);
    }
}

/// The block of each line from line `i` on, when `b` blocks came before:
/// lines of a block get its number, blank lines right after a block and
/// lines outside blocks get none.
pub open spec fn line_blocks_from(ls: Seq<Seq<char>>, i: int, b: int) -> Seq<Option<int>>
    decreases ls.len() - i,
{
    if i < 0 || i >= ls.len() {
        Seq::empty()
    } else if block_starts_at(ls, i) {
        let p = prompt_of(ls, i);
        proof {
            lemma_block_end(ls, p + 1);
            lemma_skip_blank(ls, block_end_from(ls, p + 1));
        }
        let e = block_end_from(ls, p + 1);
        let e2 = skip_blank_from(ls, e);
        Seq::new((e - i) as nat, |k: int| Some(b)) + Seq::new((e2 - e) as nat, |k: int| None)
            + line_blocks_from(ls, e2, b + 1)
    } else {
        seq![None] + line_blocks_from(ls, i + 1, b)
    }
}

/// Optional indexes as plain values.
pub open spec fn opt_ints(v: Seq<Option<usize>>) -> Seq<Option<int>> {
    v.map_values(
        |o: Option<usize>|
            match o {
                Some(x) => Some(x as int),
                None => None,
            },
    )
}

/// The block of each transcript line (see `line_blocks_from`).
pub fn transcript_line_block_indexes(lines: &[&str]) -> (r: Vec<Option<usize>>)
    ensures
        opt_ints(r@) == line_blocks_from(str_views(lines@), 0, 0),
        r@.len() == lines@.len(),
{
    let ghost lv = str_views(lines@);
    let n = lines.len();
    let mut out: Vec<Option<usize>> = Vec::new();
    let mut index: usize = 0;
    let mut block_index: usize = 0;
    assert(opt_ints(out@) + line_blocks_from(lv, 0, 0) =~= line_blocks_from(lv, 0, 0));
    while index < n
        invariant
            n == lines@.len(),
            index <= n,
            out@.len() == index,
            block_index <= index,
            lv == str_views(lines@),
            line_blocks_from(lv, 0, 0) == opt_ints(out@) + line_blocks_from(
                lv,
                index as int,
                block_index as int,
            ),
        decreases n - index,
    {
        let ghost before = opt_ints(out@);
        if starts_block(lines, index) {
            let has_context = is_context_block_start(lines, index);
            let prompt = if has_context {
                index + 1
            } else {
                index
            };
            let end = end_of_block(lines, prompt + 1);
            proof {
                lemma_block_end(lv, prompt + 1);
                lemma_skip_blank(lv, end as int);
            }
            let mut k = index;
            while k < end
                invariant
                    index <= k <= end,
                    out@.len() == k,
                    before.len() == index,
                    opt_ints(out@) == before + Seq::new((k - index) as nat, |m: int| Some(block_index as int)),
                decreases end - k,
            {
                let ghost prev = out@;
                out.push(Some(block_index));
                assert(opt_ints(out@) =~= opt_ints(prev).push(Some(block_index as int)));
                k += 1;
                assert(opt_ints(out@) =~= before + Seq::new(
                    (k - index) as nat,
                    |m: int| Some(block_index as int),
                ));
            }
            let ghost mid = opt_ints(out@);
            let mut j = end;
            while j < n && trimmed_chars(lines[j]).len() == 0
                invariant
                    end <= j <= n,
                    n == lines@.len(),
                    lv == str_views(lines@),
                    out@.len() == j,
                    mid.len() == end,
                    skip_blank_from(lv, end as int) == skip_blank_from(lv, j as int),
                    opt_ints(out@) == mid + Seq::new((j - end) as nat, |m: int| None::<int>),
                decreases n - j,
            {
                let ghost prev = out@;
                out.push(None);
                assert(opt_ints(out@) =~= opt_ints(prev).push(None));
                j += 1;
                assert(opt_ints(out@) =~= mid + Seq::new((j - end) as nat, |m: int| None::<int>));
            }
            assert(before + (Seq::new((end - index) as nat, |m: int| Some(block_index as int))
                + Seq::new((j - end) as nat, |m: int| None::<int>) + line_blocks_from(
                lv,
                j as int,
                block_index + 1,
            )) =~= opt_ints(out@) + line_blocks_from(lv, j as int, block_index + 1));
            block_index += 1;
            index = j;
        } else {
            out.push(None);
            assert(opt_ints(out@) =~= before.push(None));
            assert(before + (seq![None] + line_blocks_from(lv, index + 1, block_index as int))
                =~= opt_ints(out@) + line_blocks_from(lv, index + 1, block_index as int));
            index += 1;
        }
    }
    assert(opt_ints(out@) + Seq::<Option<int>>::empty() =~= opt_ints(out@));
    out
}

/// Block `k` of `bs` holds line `i`.
pub open spec fn block_holds(bs: Seq<(int, int, bool)>, k: int, i: int) -> bool {
    0 <= k < bs.len() && bs[k].0 <= i < bs[k].1
}

/// A line whose text starts with a non-blank character is not blank.
proof fn lemma_not_blank(s: Seq<char>)
    requires
        s.len() > 0,
        !crate::text::is_ws(s[0]),
    ensures
        trim(s).len() > 0,
{
    lemma_trim_end_keeps_first(s);
}

proof fn lemma_trim_end_keeps_first(s: Seq<char>)
    requires
        s.len() > 0,
        !crate::text::is_ws(s[0]),
    ensures
        crate::text::trim_end(s).len() > 0,
    decreases s.len(),
{
    if is_ws_last(s) {
        lemma_trim_end_keeps_first(s.drop_last());
    }
}

spec fn is_ws_last(s: Seq<char>) -> bool {
    s.len() > 0 && crate::text::is_ws(s.last())
}

/// No block starts on a blank line.
proof fn lemma_blank_starts_nothing(ls: Seq<Seq<char>>, j: int)
    requires
        0 <= j < ls.len(),
        trim(ls[j]).len() == 0,
    ensures
        !block_starts_at(ls, j),
{
    if context_block_at(ls, j) {
        lemma_not_blank(ls[j]);
    }
    if is_prompt_line(ls[j]) {
        assert(ls[j][0] == ls[j].subrange(0, 2)[0]);
        lemma_not_blank(ls[j]);
    }
}

/// Skipping blank lines skips no block.
proof fn lemma_blocks_after_blanks(ls: Seq<Seq<char>>, j: int)
    requires
        0 <= j <= ls.len(),
    ensures
        blocks_from(ls, j) == blocks_from(ls, skip_blank_from(ls, j)),
    decreases ls.len() - j,
{
    if j < ls.len() && trim(ls[j]).len() == 0 {
        lemma_blank_starts_nothing(ls, j);
        lemma_blocks_after_blanks(ls, j + 1);
    }
}

/// The blocks from line `i` on lie in order within `i..`, each non-empty,
/// none overlapping the next.
proof fn lemma_blocks_shape(ls: Seq<Seq<char>>, i: int)
    requires
        0 <= i <= ls.len(),
    ensures
        forall|k: int|
            0 <= k < blocks_from(ls, i).len() ==> i <= #[trigger] blocks_from(ls, i)[k].0 < blocks_from(
                ls,
                i,
            )[k].1 <= ls.len(),
        forall|k1: int, k2: int|
            0 <= k1 < k2 < blocks_from(ls, i).len() ==> #[trigger] blocks_from(ls, i)[k1].1
                <= #[trigger] blocks_from(ls, i)[k2].0,
    decreases ls.len() - i,
{
    if i < ls.len() {
        if block_starts_at(ls, i) {
            let p = prompt_of(ls, i);
            lemma_block_end(ls, p + 1);
            let e = block_end_from(ls, p + 1);
            lemma_blocks_shape(ls, e);
            let rest = blocks_from(ls, e);
            let bs = blocks_from(ls, i);
            assert(bs == seq![(i, e, block_has_error(ls, p))] + rest);
            assert forall|k: int| 0 <= k < bs.len() implies i <= #[trigger] bs[k].0 < bs[k].1 <= ls.len() by {
                if k > 0 {
                    assert(bs[k] == rest[k - 1]);
                }
            }
            assert forall|k1: int, k2: int| 0 <= k1 < k2 < bs.len() implies #[trigger] bs[k1].1
                <= #[trigger] bs[k2].0 by {
                assert(bs[k2] == rest[k2 - 1]);
                if k1 > 0 {
                    assert(bs[k1] == rest[k1 - 1]);
                } else {
                    assert(e <= rest[k2 - 1].0);
                }
            }
        } else {
            lemma_blocks_shape(ls, i + 1);
            let bs = blocks_from(ls, i);
            assert(bs == blocks_from(ls, i + 1));
        }
    } else {
        assert(blocks_from(ls, i).len() == 0);
    }
}

/// Line `i + j` gets number `k` in `l` exactly when block `k - b` of `bs` holds it.
pub open spec fn slot_agrees(l: Seq<Option<int>>, bs: Seq<(int, int, bool)>, i: int, b: int, j: int, k: int) -> bool {
    l[j] == Some(k) <==> block_holds(bs, k - b, i + j)
}

/// The block numbers given to the lines from `i` on (when `b` blocks came
/// before) agree with the blocks from `i` on: line `i + j` gets `Some(k)`
/// exactly when it lies in block `k - b`.
proof fn lemma_line_blocks_agree(ls: Seq<Seq<char>>, i: int, b: int)
    requires
        0 <= i <= ls.len(),
        0 <= b,
    ensures
        line_blocks_from(ls, i, b).len() == ls.len() - i,
        forall|j: int, k: int|
            0 <= j < ls.len() - i ==> #[trigger] slot_agrees(line_blocks_from(ls, i, b), blocks_from(ls, i), i, b, j, k),
    decreases ls.len() - i,
{
    if i < ls.len() {
        let l = line_blocks_from(ls, i, b);
        let bs = blocks_from(ls, i);
        if block_starts_at(ls, i) {
            let p = prompt_of(ls, i);
            lemma_block_end(ls, p + 1);
            let e = block_end_from(ls, p + 1);
            lemma_skip_blank(ls, e);
            let e2 = skip_blank_from(ls, e);
            lemma_line_blocks_agree(ls, e2, b + 1);
            lemma_blocks_after_blanks(ls, e);
            lemma_blocks_shape(ls, e2);
            let rest = blocks_from(ls, e2);
            let lr = line_blocks_from(ls, e2, b + 1);
            assert(bs == seq![(i, e, block_has_error(ls, p))] + rest);
            let a = Seq::new((e - i) as nat, |m: int| Some(b));
            let z = Seq::new((e2 - e) as nat, |m: int| None::<int>);
            assert(l == a + z + lr);
            assert forall|j: int, k: int| 0 <= j < ls.len() - i implies #[trigger] slot_agrees(l, bs, i, b, j, k) by {
                if k - b > 0 && k - b < bs.len() {
                    assert(bs[k - b] == rest[k - b - 1]);
                }
                if j < e - i {
                    assert(l[j] == a[j]);
                    if k - b > 0 && k - b < bs.len() {
                        assert(e2 <= rest[k - b - 1].0);
                    }
                } else if j < e2 - i {
                    assert(l[j] == z[j - (e - i)]);
                    if k - b > 0 && k - b < bs.len() {
                        assert(e2 <= rest[k - b - 1].0);
                    }
                } else {
                    assert(l[j] == lr[j - (e2 - i)]);
                    assert(slot_agrees(lr, rest, e2, b + 1, j - (e2 - i), k));
                }
            }
        } else {
            lemma_line_blocks_agree(ls, i + 1, b);
            lemma_blocks_shape(ls, i + 1);
            let lr = line_blocks_from(ls, i + 1, b);
            assert(bs == blocks_from(ls, i + 1));
            assert(l == seq![None::<int>] + lr);
            assert forall|j: int, k: int| 0 <= j < ls.len() - i implies #[trigger] slot_agrees(l, bs, i, b, j, k) by {
                if j == 0 {
                    if 0 <= k - b < bs.len() {
                        assert(i + 1 <= bs[k - b].0);
                    }
                } else {
                    assert(l[j] == lr[j - 1]);
                    assert(slot_agrees(lr, bs, i + 1, b, j - 1, k));
                }
            }
        }
    }
}

/// The block of each line (`transcript_line_block_indexes`) agrees with the
/// blocks (`terminal_transcript_blocks`): a line gets block `k` exactly when
/// block `k` holds it, and no block when none does.
pub proof fn law_line_blocks_match_blocks(ls: Seq<Seq<char>>)
    ensures
        line_blocks_from(ls, 0, 0).len() == ls.len(),
        forall|i: int, k: int|
            0 <= i < ls.len() ==> (line_blocks_from(ls, 0, 0)[i] == Some(k) <==> #[trigger] block_holds(
                blocks_from(ls, 0),
                k,
                i,
            )),
        forall|i: int|
            0 <= i < ls.len() ==> (#[trigger] line_blocks_from(ls, 0, 0)[i] is None <==> forall|k: int|
                !block_holds(blocks_from(ls, 0), k, i)),
{
    lemma_line_blocks_agree(ls, 0, 0);
    let l = line_blocks_from(ls, 0, 0);
    let bs = blocks_from(ls, 0);
    assert forall|i: int, k: int| 0 <= i < ls.len() implies (l[i] == Some(k) <==> #[trigger] block_holds(bs, k, i)) by {
        assert(slot_agrees(l, bs, 0, 0, i, k));
    }
    assert forall|i: int| 0 <= i < ls.len() implies (#[trigger] l[i] is None <==> forall|k: int|
        !block_holds(bs, k, i)) by {
        if l[i] is Some {
            let k = l[i]->0;
            assert(slot_agrees(l, bs, 0, 0, i, k));
        } else {
            assert forall|k: int| !block_holds(bs, k, i) by {
                assert(slot_agrees(l, bs, 0, 0, i, k));
            }
        }
    }
}

// ---------------------------------------------------------------------------
// Laying a transcript out
// ---------------------------------------------------------------------------

/// One entry of a transcript's layout, top to bottom.
#[derive(Debug, Clone, Copy, PartialEq, Eq, Structural)]
pub enum TranscriptRow {
    /// The `index`-th command block, lines `start..end`: whether it holds an
    /// error, whether it is selected, whether it stretches to the bottom of
    /// the view, and the error and selection of the entry drawn just before
    /// it (both false after a line outside blocks, and for the first entry).
    Block {
        index: usize,
        start: usize,
        end: usize,
        has_error: bool,
        selected: bool,
        extend_to_bottom: bool,
        previous_error: bool,
        previous_selected: bool,
    },
    /// Line `index`, outside any block.
    Line { index: usize },
}

/// The layout of the transcript from line `i` on, when `b` blocks came
/// before and the entry before had error `pe` and selection `ps`: each block
/// (its blank trailing lines are skipped), else each line on its own; an
/// error block stretches to the bottom when it ends the transcript.
pub open spec fn layout_from(
    ls: Seq<Seq<char>>,
    i: int,
    b: int,
    pe: bool,
    ps: bool,
    selected: Set<usize>,
) -> Seq<TranscriptRow>
    decreases ls.len() - i,
{
    if i < 0 || i >= ls.len() {
        Seq::empty()
    } else if block_starts_at(ls, i) {
        let p = prompt_of(ls, i);
        proof {
            lemma_block_end(ls, p + 1);
            lemma_skip_blank(ls, block_end_from(ls, p + 1));
        }
        let e = block_end_from(ls, p + 1);
        let err = block_has_error(ls, p);
        let sel = selected.contains(b as usize);
        seq![
            TranscriptRow::Block {
                index: b as usize,
                start: i as usize,
                end: e as usize,
                has_error: err,
                selected: sel,
                extend_to_bottom: err && e == ls.len(),
                previous_error: pe,
                previous_selected: ps,
            },
        ] + layout_from(ls, skip_blank_from(ls, e), b + 1, err, sel, selected)
    } else {
        seq![TranscriptRow::Line { index: i as usize }] + layout_from(ls, i + 1, b, false, false, selected)
    }
}

/// The layout of a transcript with the blocks `selected_blocks` selected
/// (see `layout_from`).
pub fn transcript_layout(lines: &[&str], selected_blocks: &BTreeSet<usize>) -> (r: Vec<TranscriptRow>)
    ensures
        r@ == layout_from(str_views(lines@), 0, 0, false, false, selected_blocks@),
{
    let ghost lv = str_views(lines@);
    let ghost sel = selected_blocks@;
    let n = lines.len();
    let mut out: Vec<TranscriptRow> = Vec::new();
    let mut index: usize = 0;
    let mut block_index: usize = 0;
    let mut previous_error = false;
    let mut previous_selected = false;
    assert(out@ + layout_from(lv, 0, 0, false, false, sel) =~= layout_from(lv, 0, 0, false, false, sel));
    while index < n
        invariant
            n == lines@.len(),
            index <= n,
            block_index <= index,
            lv == str_views(lines@),
            sel == selected_blocks@,
            layout_from(lv, 0, 0, false, false, sel) == out@ + layout_from(
                lv,
                index as int,
                block_index as int,
                previous_error,
                previous_selected,
                sel,
            ),
        decreases n - index,
    {
        let ghost before = out@;
        if starts_block(lines, index) {
            let has_context = is_context_block_start(lines, index);
            let prompt = if has_context {
                index + 1
            } else {
                index
            };
            let end = end_of_block(lines, prompt + 1);
            proof {
                lemma_block_end(lv, prompt + 1);
                lemma_skip_blank(lv, end as int);
            }
            let has_error = command_block_has_error(lines, prompt);
            let selected = block_selected(selected_blocks, block_index);
            let row = TranscriptRow::Block {
                index: block_index,
                start: index,
                end,
                has_error,
                selected,
                extend_to_bottom: should_extend_error_block_to_bottom(has_error, end == n),
                previous_error,
                previous_selected,
            };
            out.push(row);
            let mut j = end;
            while j < n && trimmed_chars(lines[j]).len() == 0
                invariant
                    end <= j <= n,
                    n == lines@.len(),
                    lv == str_views(lines@),
                    skip_blank_from(lv, end as int) == skip_blank_from(lv, j as int),
                decreases n - j,
            {
                j += 1;
            }
            assert(before + (seq![row] + layout_from(lv, j as int, block_index + 1, has_error, selected, sel))
                =~= out@ + layout_from(lv, j as int, block_index + 1, has_error, selected, sel));
            block_index += 1;
            previous_error = has_error;
            previous_selected = selected;
            index = j;
        } else {
            let row = TranscriptRow::Line { index };
            out.push(row);
            assert(before + (seq![row] + layout_from(lv, index + 1, block_index as int, false, false, sel))
                =~= out@ + layout_from(lv, index + 1, block_index as int, false, false, sel));
            previous_error = false;
            previous_selected = false;
            index += 1;
        }
    }
    assert(out@ + Seq::<TranscriptRow>::empty() =~= out@);
    out
}

// ---------------------------------------------------------------------------
// Matching a query
// ---------------------------------------------------------------------------

/// Start positions of the non-overlapping occurrences of `p` in `s` found by
/// scanning left to right from `i`.
pub open spec fn match_starts(s: Seq<u8>, p: Seq<u8>, i: int) -> Seq<int>
    decreases s.len() - i,
{
    if p.len() == 0 || i < 0 || i + p.len() > s.len() {
        Seq::empty()
    } else if occurs_at(s, p, i) {
        seq![i] + match_starts(s, p, i + p.len())
    } else {
        match_starts(s, p, i + 1)
    }
}

/// The text that is searched and the query, lower-cased unless the search is
/// case-sensitive.
pub open spec fn search_texts(line: Seq<char>, query: Seq<char>, case_sensitive: bool) -> (Seq<char>, Seq<char>) {
    if case_sensitive {
        (line, query)
    } else {
        (lowercase_of(line), lowercase_of(query))
    }
}

/// Byte ranges of the matches of `query` in `line`: non-overlapping, left to
/// right, in the searched text (see `search_texts`); none for an empty query.
pub open spec fn match_ranges(line: Seq<char>, query: Seq<char>, case_sensitive: bool) -> Seq<
    (int, int),
> {
    if query.len() == 0 {
        Seq::empty()
    } else {
        let t = search_texts(line, query, case_sensitive);
        let qb = encode_utf8(t.1);
        match_starts(encode_utf8(t.0), qb, 0).map_values(|st: int| (st, st + qb.len()))
    }
}

/// Ranges as plain values.
pub open spec fn range_views(v: Seq<Range<usize>>) -> Seq<(int, int)> {
    v.map_values(|r: Range<usize>| (r.start as int, r.end as int))
}

fn byte_match_ranges(s: &[u8], p: &[u8]) -> (r: Vec<Range<usize>>)
    requires
        p@.len() > 0,
    ensures
        range_views(r@) == match_starts(s@, p@, 0).map_values(|st: int| (st, st + p@.len())),
{
    let n = s.len();
    let m = p.len();
    let mut out: Vec<Range<usize>> = Vec::new();
    let mut i: usize = 0;
    let ghost f = |st: int| (st, st + p@.len());
    assert(range_views(out@) + match_starts(s@, p@, 0).map_values(f) =~= match_starts(
        s@,
        p@,
        0,
    ).map_values(f));
    while i < n && m <= n - i
        invariant
            n == s@.len(),
            m == p@.len(),
            m > 0,
            i <= n,
            f == (|st: int| (st, st + p@.len())),
            match_starts(s@, p@, 0).map_values(f) == range_views(out@) + match_starts(
                s@,
                p@,
                i as int,
            ).map_values(f),
        decreases n - i,
    {
        let ghost before = range_views(out@);
        if bytes_match_at(s, p, i) {
            let ghost rest = match_starts(s@, p@, i + m);
            out.push(Range { start: i, end: i + m });
            assert(range_views(out@) =~= before.push((i as int, i + m)));
            assert((seq![i as int] + rest).map_values(f) =~= seq![(i as int, i + m)]
                + rest.map_values(f));
            assert(before + (seq![(i as int, i + m)] + rest.map_values(f)) =~= range_views(out@)
                + rest.map_values(f));
            i += m;
        } else {
            i += 1;
        }
    }
    assert(match_starts(s@, p@, i as int) == Seq::<int>::empty());
    assert(range_views(out@) + Seq::<int>::empty().map_values(f) =~= range_views(out@));
    out
}

/// Byte ranges of the matches of `query` in `line` (see `match_ranges`).
pub fn find_match_ranges(line: &str, query: &str, case_sensitive: bool) -> (r: Vec<Range<usize>>)
    ensures
        range_views(r@) == match_ranges(line@, query@, case_sensitive),
{
    if query.is_empty() {
        return Vec::new();
    }
    if case_sensitive {
        byte_match_ranges(line.as_bytes(), query.as_bytes())
    } else {
        let lower_line = to_lowercase(line);
        let lower_query = to_lowercase(query);
        byte_match_ranges(lower_line.as_str().as_bytes(), lower_query.as_str().as_bytes())
    }
}

/// A search hit as plain values: block, line, start, end.
pub open spec fn hit_view(h: TranscriptSearchMatch) -> (Option<int>, int, int, int) {
    (
        match h.block_index {
            Some(b) => Some(b as int),
            None => None,
        },
        h.line_index as int,
        h.range.start as int,
        h.range.end as int,
    )
}

/// Search hits as plain values.
pub open spec fn hit_views(v: Seq<TranscriptSearchMatch>) -> Seq<(Option<int>, int, int, int)> {
    v.map_values(|h: TranscriptSearchMatch| hit_view(h))
}

/// Line `i` is searched: no block is selected, or its block is.
pub open spec fn line_in_scope(blocks: Seq<Option<int>>, selected: Set<usize>, i: int) -> bool {
    selected.is_empty() || match blocks[i] {
        Some(b) => selected.contains(b as usize),
        None => false,
    }
}

/// The hits in the first `n` lines, line by line, left to right.
pub open spec fn hits_upto(
    ls: Seq<Seq<char>>,
    selected: Set<usize>,
    query: Seq<char>,
    case_sensitive: bool,
    n: int,
) -> Seq<(Option<int>, int, int, int)>
    decreases n,
{
    if n <= 0 {
        Seq::empty()
    } else {
        let i = n - 1;
        let blocks = line_blocks_from(ls, 0, 0);
        hits_upto(ls, selected, query, case_sensitive, i) + if line_in_scope(blocks, selected, i) {
            match_ranges(ls[i], query, case_sensitive).map_values(
                |r: (int, int)| (blocks[i], i, r.0, r.1),
            )
        } else {
            Seq::empty()
        }
    }
}

fn block_selected(selected: &BTreeSet<usize>, b: usize) -> (r: bool)
    ensures
        r == selected@.contains(b),
{
    broadcast use vstd::laws_cmp::group_laws_cmp;
    broadcast use vstd::std_specs::btree::group_btree_axioms;

    selected.contains(&b)
}

/// Searches the transcript for `query`, in the selected blocks only when some
/// are selected (see `hits_upto`).
pub fn transcript_search_matches(
    lines: &[&str],
    selected_blocks: &BTreeSet<usize>,
    query: &str,
    case_sensitive: bool,
) -> (r: Vec<TranscriptSearchMatch>)
    ensures
        hit_views(r@) == hits_upto(
            str_views(lines@),
            selected_blocks@,
            query@,
            case_sensitive,
            lines@.len() as int,
        ),
{
    let ghost lv = str_views(lines@);
    let block_indexes = transcript_line_block_indexes(lines);
    let ghost blocks = line_blocks_from(lv, 0, 0);
    let none_selected = selected_blocks.is_empty();
    let mut out: Vec<TranscriptSearchMatch> = Vec::new();
    let mut i: usize = 0;
    while i < lines.len()
        invariant
            i <= lines@.len(),
            lv == str_views(lines@),
            blocks == line_blocks_from(lv, 0, 0),
            opt_ints(block_indexes@) == blocks,
            block_indexes@.len() == lines@.len(),
            none_selected == selected_blocks@.is_empty(),
            hit_views(out@) == hits_upto(lv, selected_blocks@, query@, case_sensitive, i as int),
        decreases lines@.len() - i,
    {
        let block = block_indexes[i];
        assert(blocks[i as int] == match block {
            Some(x) => Some(x as int),
            None => None::<int>,
        });
        let in_scope = none_selected || match block {
            Some(b) => block_selected(selected_blocks, b),
            None => false,
        };
        assert(in_scope == line_in_scope(blocks, selected_blocks@, i as int));
        let ghost before = hit_views(out@);
        assert(before.len() == out@.len());
        if in_scope {
            let ranges = find_match_ranges(lines[i], query, case_sensitive);
            let ghost rv = range_views(ranges@);
            let mut k: usize = 0;
            while k < ranges.len()
                invariant
                    k <= ranges@.len(),
                    rv == range_views(ranges@),
                    out@.len() == before.len() + k,
                    i < blocks.len(),
                    blocks[i as int] == match block {
                        Some(x) => Some(x as int),
                        None => None::<int>,
                    },
                    hit_views(out@) == before + rv.subrange(0, k as int).map_values(
                        |r: (int, int)| (blocks[i as int], i as int, r.0, r.1),
                    ),
                decreases ranges@.len() - k,
            {
                let range = Range { start: ranges[k].start, end: ranges[k].end };
                let ghost prev = out@;
                out.push(TranscriptSearchMatch { block_index: block, line_index: i, range });
                assert(hit_views(out@) =~= hit_views(prev).push(
                    (blocks[i as int], i as int, rv[k as int].0, rv[k as int].1),
                ));
                assert(rv.subrange(0, k + 1) =~= rv.subrange(0, k as int).push(rv[k as int]));
                k += 1;
                assert(hit_views(out@) =~= before + rv.subrange(0, k as int).map_values(
                    |r: (int, int)| (blocks[i as int], i as int, r.0, r.1),
                ));
            }
            assert(rv.subrange(0, rv.len() as int) =~= rv);
            assert(lv[i as int] == lines@[i as int]@);
        } else {
            assert(hit_views(out@) =~= before + Seq::<(Option<int>, int, int, int)>::empty());
        }
        i += 1;
    }
    out
}

/// The blocks a search is limited to: the selected ones when the toggle is
/// on, none (the whole transcript) otherwise.
pub fn selected_search_scope(selected_blocks: &BTreeSet<usize>, selected_only: bool) -> (r:
    BTreeSet<usize>)
    ensures
        r@ == if selected_only {
            selected_blocks@
        } else {
            Set::<usize>::empty()
        },
{
    if selected_only {
        selected_blocks.clone()
    } else {
        BTreeSet::new()
    }
}

/// The search result to show next: forwards wraps from the last to the first,
/// backwards from the first (or from none) to the last; `None` without results.
pub open spec fn next_index(current: Option<usize>, count: int, backwards: bool) -> Option<int> {
    if count == 0 {
        None
    } else {
        match (current, backwards) {
            (Some(i), true) => if i == 0 {
                Some(count - 1)
            } else {
                Some(i - 1)
            },
            (None, true) => Some(count - 1),
            (Some(i), false) => Some((i + 1) % count),
            (None, false) => Some(0),
        }
    }
}

/// Steps through search results (see `next_index`).
pub fn next_search_index(current_index: Option<usize>, result_count: usize, backwards: bool) -> (r:
    Option<usize>)
    requires
        !backwards && current_index is Some ==> current_index->0 < usize::MAX,
    ensures
        match r {
            Some(x) => next_index(current_index, result_count as int, backwards) == Some(x as int),
            None => next_index(current_index, result_count as int, backwards) is None,
        },
{
    if result_count == 0 {
        return None;
    }
    Some(
        match (current_index, backwards) {
            (Some(0), true) | (None, true) => result_count - 1,
            (Some(index), true) => index - 1,
            (Some(index), false) => (index + 1) % result_count,
            (None, false) => 0,
        },
    )
}

/// Stepping forwards and then backwards through `count` results returns to
/// the same result, and so does stepping backwards and then forwards; each
/// step lands on a result.
pub proof fn law_search_steps_round_trip(i: usize, count: int)
    requires
        i < count,
        count <= usize::MAX,
    ensures
        next_index(Some(i), count, false) matches Some(j) && 0 <= j < count && next_index(
            Some(j as usize),
            count,
            true,
        ) == Some(i as int),
        next_index(Some(i), count, true) matches Some(j) && 0 <= j < count && next_index(
            Some(j as usize),
            count,
            false,
        ) == Some(i as int),
{
    if i + 1 < count {
        vstd::arithmetic::div_mod::lemma_small_mod((i + 1) as nat, count as nat);
    } else {
        vstd::arithmetic::div_mod::lemma_mod_self_0(count);
    }
    if i > 0 {
        vstd::arithmetic::div_mod::lemma_small_mod(i as nat, count as nat);
    } else {
        vstd::arithmetic::div_mod::lemma_mod_self_0(count);
    }
}

} // verus!
