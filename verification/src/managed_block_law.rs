//! Installing the managed block is idempotent: a `.zshrc` that already holds
//! the block installed for a path is left as it is when the block for the
//! same path is installed again.
//!
//! The proof follows the text through its lines: a newline-terminated text
//! is the join of its lines, removing the block keeps the other lines, and
//! capping blank lines and trimming the end only drop blank lines and
//! trailing whitespace.
use vstd::prelude::*;
use crate::history::{lines_from, strip_cr, text_lines};
use crate::setup::{
    capped_newlines, has_managed_block, kept_lines, managed_block_text, quote_escaped, with_managed_block, without_managed_block,
    without_trailing_newlines, MANAGED_BLOCK_END, MANAGED_BLOCK_START,
};
use crate::text::{contains_seq, is_ws, occurs_at, trim, trim_end, trim_start};

verus! {

/// Lines joined, each followed by a newline.
pub open spec fn join_nl(ls: Seq<Seq<char>>) -> Seq<char>
    decreases ls.len(),
{
    if ls.len() == 0 {
        Seq::empty()
    } else {
        ls[0] + seq!['\n'] + join_nl(ls.drop_first())
    }
}

/// No newline in `s`.
pub open spec fn no_newline(s: Seq<char>) -> bool {
    forall|i: int| 0 <= i < s.len() ==> s[i] != '\n'
}

/// Every line of `ls` is free of newlines.
pub open spec fn lines_without_newline(ls: Seq<Seq<char>>) -> bool {
    forall|i: int| 0 <= i < ls.len() ==> no_newline(#[trigger] ls[i])
}

proof fn lemma_lines_from_shift(a: Seq<char>, b: Seq<char>, j: int, cur: Seq<char>)
    requires
        0 <= j <= b.len(),
    ensures
        lines_from(a + b, a.len() + j, cur) == lines_from(b, j, cur),
    decreases b.len() - j,
{
    if j < b.len() {
        assert((a + b)[a.len() + j] == b[j]);
        if b[j] == '\n' {
            lemma_lines_from_shift(a, b, j + 1, Seq::empty());
        } else {
            lemma_lines_from_shift(a, b, j + 1, cur.push(b[j]));
        }
    }
}

proof fn lemma_lines_from_no_newline(s: Seq<char>, i: int, cur: Seq<char>)
    requires
        no_newline(cur),
    ensures
        lines_without_newline(lines_from(s, i, cur)),
    decreases s.len() - i,
{
    if i < 0 || i >= s.len() {
    } else if s[i] == '\n' {
        lemma_lines_from_no_newline(s, i + 1, Seq::empty());
        let rest = lines_from(s, i + 1, Seq::empty());
        let r = seq![strip_cr(cur)] + rest;
        assert forall|k: int| 0 <= k < r.len() implies no_newline(#[trigger] r[k]) by {
            if k == 0 {
                assert(strip_cr(cur) =~= cur || strip_cr(cur) =~= cur.drop_last());
            } else {
                assert(r[k] == rest[k - 1]);
            }
        }
    } else {
        lemma_lines_from_no_newline(s, i + 1, cur.push(s[i]));
    }
}

/// The lines of a text are free of newlines.
pub proof fn lemma_text_lines_no_newline(s: Seq<char>)
    ensures
        lines_without_newline(text_lines(s)),
{
    lemma_lines_from_no_newline(s, 0, Seq::empty());
}

proof fn lemma_lines_from_concat(a: Seq<char>, b: Seq<char>, i: int, cur: Seq<char>)
    requires
        0 <= i <= a.len(),
        i < a.len() ==> a.last() == '\n',
        i == a.len() ==> cur.len() == 0,
    ensures
        lines_from(a + b, i, cur) == lines_from(a, i, cur) + text_lines(b),
    decreases a.len() - i,
{
    if i == a.len() {
        assert(cur =~= Seq::<char>::empty());
        lemma_lines_from_shift(a, b, 0, cur);
        assert(lines_from(a, i, cur) =~= Seq::<Seq<char>>::empty());
        assert(Seq::<Seq<char>>::empty() + text_lines(b) =~= text_lines(b));
    } else {
        assert((a + b)[i] == a[i]);
        if a[i] == '\n' {
            lemma_lines_from_concat(a, b, i + 1, Seq::empty());
            assert(seq![strip_cr(cur)] + (lines_from(a, i + 1, Seq::empty()) + text_lines(b)) =~= (seq![
                strip_cr(cur),
            ] + lines_from(a, i + 1, Seq::empty())) + text_lines(b));
        } else {
            lemma_lines_from_concat(a, b, i + 1, cur.push(a[i]));
        }
    }
}

/// The lines of `a + b`, where `a` ends a line, are those of `a` and then
/// those of `b`.
pub proof fn lemma_text_lines_concat(a: Seq<char>, b: Seq<char>)
    requires
        a.len() == 0 || a.last() == '\n',
    ensures
        text_lines(a + b) == text_lines(a) + text_lines(b),
{
    lemma_lines_from_concat(a, b, 0, Seq::empty());
}

proof fn lemma_one_line_from(l: Seq<char>, i: int)
    requires
        no_newline(l),
        0 <= i <= l.len(),
    ensures
        lines_from(l.push('\n'), i, l.subrange(0, i)) == seq![strip_cr(l)],
    decreases l.len() - i,
{
    let s = l.push('\n');
    if i == l.len() {
        assert(l.subrange(0, i) =~= l);
        assert(lines_from(s, i + 1, Seq::empty()) =~= Seq::<Seq<char>>::empty());
        assert(seq![strip_cr(l)] + Seq::<Seq<char>>::empty() =~= seq![strip_cr(l)]);
    } else {
        assert(s[i] == l[i]);
        assert(l.subrange(0, i).push(l[i]) =~= l.subrange(0, i + 1));
        lemma_one_line_from(l, i + 1);
    }
}

/// A newline-free line followed by a newline is one line.
pub proof fn lemma_text_lines_one(l: Seq<char>)
    requires
        no_newline(l),
    ensures
        text_lines(l.push('\n')) == seq![strip_cr(l)],
{
    assert(l.subrange(0, 0) =~= Seq::<char>::empty());
    lemma_one_line_from(l, 0);
}

/// The lines of a join are the joined lines, each without a trailing `\r`.
pub proof fn lemma_text_lines_join(ls: Seq<Seq<char>>)
    requires
        lines_without_newline(ls),
    ensures
        text_lines(join_nl(ls)) == ls.map_values(|l: Seq<char>| strip_cr(l)),
    decreases ls.len(),
{
    if ls.len() == 0 {
        assert(text_lines(Seq::<char>::empty()) =~= Seq::<Seq<char>>::empty());
        assert(ls.map_values(|l: Seq<char>| strip_cr(l)) =~= Seq::<Seq<char>>::empty());
    } else {
        let rest = ls.drop_first();
        assert(lines_without_newline(rest)) by {
            assert forall|i: int| 0 <= i < rest.len() implies no_newline(#[trigger] rest[i]) by {
                assert(rest[i] == ls[i + 1]);
            }
        }
        lemma_text_lines_join(rest);
        assert(no_newline(ls[0]));
        let head = ls[0] + seq!['\n'];
        assert(head =~= ls[0].push('\n'));
        lemma_text_lines_one(ls[0]);
        lemma_text_lines_concat(head, join_nl(rest));
        assert(join_nl(ls) =~= head + join_nl(rest));
        assert(seq![strip_cr(ls[0])] + rest.map_values(|l: Seq<char>| strip_cr(l)) =~= ls.map_values(
            |l: Seq<char>| strip_cr(l),
        ));
    }
}

/// The join of lines with one more line at the end.
pub proof fn lemma_join_last(ls: Seq<Seq<char>>)
    requires
        ls.len() > 0,
    ensures
        join_nl(ls) == join_nl(ls.drop_last()) + ls.last() + seq!['\n'],
    decreases ls.len(),
{
    if ls.len() == 1 {
        assert(ls.drop_last() =~= Seq::<Seq<char>>::empty());
        assert(ls.drop_first() =~= Seq::<Seq<char>>::empty());
        assert(join_nl(ls.drop_first()) =~= Seq::<char>::empty());
        assert(join_nl(ls.drop_last()) =~= Seq::<char>::empty());
        assert(join_nl(ls) =~= ls[0] + seq!['\n']);
        assert(Seq::<char>::empty() + ls.last() + seq!['\n'] =~= ls[0] + seq!['\n']);
    } else {
        let rest = ls.drop_first();
        lemma_join_last(rest);
        assert(rest.drop_last() =~= ls.drop_last().drop_first());
        assert(ls.drop_last()[0] == ls[0]);
        assert(rest.last() == ls.last());
        assert(join_nl(ls.drop_last()) =~= ls[0] + seq!['\n'] + join_nl(rest.drop_last()));
        assert(join_nl(ls) =~= join_nl(ls.drop_last()) + ls.last() + seq!['\n']);
    }
}

/// A text that ends a line and has no `\r` before a newline is the join of
/// its lines.
pub open spec fn no_cr_before_newline(t: Seq<char>) -> bool {
    forall|k: int| 0 < k < t.len() && #[trigger] t[k] == '\n' ==> t[k - 1] != '\r'
}

proof fn lemma_join_lines_from(t: Seq<char>, i: int, cur: Seq<char>)
    requires
        t.len() > 0,
        t.last() == '\n',
        no_cr_before_newline(t),
        0 <= i <= t.len(),
        cur.len() <= i,
        cur == t.subrange(i - cur.len(), i),
        i == t.len() ==> cur.len() == 0,
    ensures
        join_nl(lines_from(t, i, cur)) == cur + t.subrange(i, t.len() as int),
    decreases t.len() - i,
{
    if i == t.len() {
        assert(lines_from(t, i, cur) =~= Seq::<Seq<char>>::empty());
        assert(cur + t.subrange(i, t.len() as int) =~= Seq::<char>::empty());
    } else if t[i] == '\n' {
        assert(Seq::<char>::empty() =~= t.subrange(i + 1 - 0, i + 1));
        lemma_join_lines_from(t, i + 1, Seq::empty());
        if cur.len() > 0 {
            assert(cur.last() == t[i - 1]);
        }
        assert(strip_cr(cur) == cur);
        let rest = lines_from(t, i + 1, Seq::empty());
        let ls = seq![cur] + rest;
        assert(ls.drop_first() =~= rest);
        assert(join_nl(ls) == cur + seq!['\n'] + join_nl(rest));
        assert(cur + seq!['\n'] + (Seq::<char>::empty() + t.subrange(i + 1, t.len() as int)) =~= cur
            + t.subrange(i, t.len() as int));
    } else {
        assert(cur.push(t[i]) =~= t.subrange(i + 1 - (cur.len() + 1), i + 1));
        lemma_join_lines_from(t, i + 1, cur.push(t[i]));
        assert(cur.push(t[i]) + t.subrange(i + 1, t.len() as int) =~= cur + t.subrange(i, t.len() as int));
    }
}

/// Joining the lines of a newline-terminated text without `\r\n` gives the text back.
pub proof fn lemma_join_text_lines(t: Seq<char>)
    requires
        t.len() > 0,
        t.last() == '\n',
        no_cr_before_newline(t),
    ensures
        join_nl(text_lines(t)) == t,
{
    assert(Seq::<char>::empty() =~= t.subrange(0, 0));
    lemma_join_lines_from(t, 0, Seq::empty());
    assert(Seq::<char>::empty() + t.subrange(0, t.len() as int) =~= t);
}

/// Whether a line is one of the markers of the managed block.
pub open spec fn is_marker(l: Seq<char>) -> bool {
    trim(l) == MANAGED_BLOCK_START@ || trim(l) == MANAGED_BLOCK_END@
}

/// The lines that removing the managed block keeps (see `kept_lines`).
pub open spec fn kept_list(ls: Seq<Seq<char>>, skipping: bool) -> Seq<Seq<char>>
    decreases ls.len(),
{
    if ls.len() == 0 {
        Seq::empty()
    } else {
        let l = ls[0];
        if trim(l) == MANAGED_BLOCK_START@ {
            kept_list(ls.drop_first(), true)
        } else if trim(l) == MANAGED_BLOCK_END@ {
            kept_list(ls.drop_first(), false)
        } else if skipping {
            kept_list(ls.drop_first(), true)
        } else {
            seq![l] + kept_list(ls.drop_first(), false)
        }
    }
}

/// Whether a block is still being skipped after the lines `ls`.
pub open spec fn skip_after(ls: Seq<Seq<char>>, skipping: bool) -> bool
    decreases ls.len(),
{
    if ls.len() == 0 {
        skipping
    } else {
        let l = ls[0];
        if trim(l) == MANAGED_BLOCK_START@ {
            skip_after(ls.drop_first(), true)
        } else if trim(l) == MANAGED_BLOCK_END@ {
            skip_after(ls.drop_first(), false)
        } else {
            skip_after(ls.drop_first(), skipping)
        }
    }
}

proof fn lemma_kept_list(ls: Seq<Seq<char>>, skipping: bool)
    ensures
        kept_lines(ls, skipping) == join_nl(kept_list(ls, skipping)),
        forall|i: int|
            0 <= i < kept_list(ls, skipping).len() ==> ls.contains(#[trigger] kept_list(ls, skipping)[i])
                && !is_marker(kept_list(ls, skipping)[i]),
    decreases ls.len(),
{
    if ls.len() > 0 {
        let rest = ls.drop_first();
        let l = ls[0];
        let next = if trim(l) == MANAGED_BLOCK_START@ {
            true
        } else if trim(l) == MANAGED_BLOCK_END@ {
            false
        } else {
            skipping
        };
        lemma_kept_list(rest, next);
        let k = kept_list(rest, next);
        assert forall|i: int| 0 <= i < k.len() implies ls.contains(#[trigger] k[i]) by {
            let j = choose|j: int| 0 <= j < rest.len() && rest[j] == k[i];
            assert(ls[j + 1] == k[i]);
        }
        if !is_marker(l) && !skipping {
            let r = seq![l] + k;
            assert(r.drop_first() =~= k);
            assert(join_nl(r) == l + seq!['\n'] + join_nl(k));
            assert forall|i: int| 0 <= i < r.len() implies ls.contains(#[trigger] r[i]) && !is_marker(r[i]) by {
                if i == 0 {
                    assert(ls[0] == r[0]);
                } else {
                    assert(r[i] == k[i - 1]);
                }
            }
        }
    }
}

proof fn lemma_kept_split(l1: Seq<Seq<char>>, l2: Seq<Seq<char>>, skipping: bool)
    ensures
        kept_lines(l1 + l2, skipping) == kept_lines(l1, skipping) + kept_lines(l2, skip_after(l1, skipping)),
        skip_after(l1 + l2, skipping) == skip_after(l2, skip_after(l1, skipping)),
    decreases l1.len(),
{
    if l1.len() == 0 {
        assert(l1 + l2 =~= l2);
        assert(Seq::<char>::empty() + kept_lines(l2, skipping) =~= kept_lines(l2, skipping));
    } else {
        let l = l1[0];
        assert((l1 + l2)[0] == l);
        assert((l1 + l2).drop_first() =~= l1.drop_first() + l2);
        let next = if trim(l) == MANAGED_BLOCK_START@ {
            true
        } else if trim(l) == MANAGED_BLOCK_END@ {
            false
        } else {
            skipping
        };
        lemma_kept_split(l1.drop_first(), l2, next);
        if !is_marker(l) && !skipping {
            assert(l + seq!['\n'] + (kept_lines(l1.drop_first(), false) + kept_lines(
                l2,
                skip_after(l1.drop_first(), false),
            )) =~= l + seq!['\n'] + kept_lines(l1.drop_first(), false) + kept_lines(
                l2,
                skip_after(l1.drop_first(), false),
            ));
        }
    }
}

proof fn lemma_kept_free(ls: Seq<Seq<char>>)
    requires
        forall|i: int| 0 <= i < ls.len() ==> !is_marker(#[trigger] ls[i]),
    ensures
        kept_lines(ls, false) == join_nl(ls),
        !skip_after(ls, false),
    decreases ls.len(),
{
    if ls.len() > 0 {
        let rest = ls.drop_first();
        assert(!is_marker(ls[0]));
        assert forall|i: int| 0 <= i < rest.len() implies !is_marker(#[trigger] rest[i]) by {
            assert(rest[i] == ls[i + 1]);
        }
        lemma_kept_free(rest);
    }
}

proof fn lemma_kept_skipping(ls: Seq<Seq<char>>)
    requires
        forall|i: int| 0 <= i < ls.len() ==> trim(#[trigger] ls[i]) != MANAGED_BLOCK_END@,
    ensures
        kept_lines(ls, true) == Seq::<char>::empty(),
        skip_after(ls, true),
    decreases ls.len(),
{
    if ls.len() > 0 {
        let rest = ls.drop_first();
        assert(trim(ls[0]) != MANAGED_BLOCK_END@);
        assert forall|i: int| 0 <= i < rest.len() implies trim(#[trigger] rest[i]) != MANAGED_BLOCK_END@ by {
            assert(rest[i] == ls[i + 1]);
        }
        lemma_kept_skipping(rest);
    }
}

proof fn lemma_capped_shift(a: Seq<char>, b: Seq<char>, j: int, run: int)
    requires
        0 <= j <= b.len(),
    ensures
        capped_newlines(a + b, a.len() + j, run) == capped_newlines(b, j, run),
    decreases b.len() - j,
{
    if j < b.len() {
        assert((a + b)[a.len() + j] == b[j]);
        if b[j] == '\n' {
            if run >= 2 {
                lemma_capped_shift(a, b, j + 1, run);
            } else {
                lemma_capped_shift(a, b, j + 1, run + 1);
            }
        } else {
            lemma_capped_shift(a, b, j + 1, 0);
        }
    }
}

proof fn lemma_capped_segment(s: Seq<char>, i: int, n: int, run: int)
    requires
        0 <= i,
        1 <= n,
        i + n <= s.len(),
        forall|k: int| i <= k < i + n ==> s[k] != '\n',
    ensures
        capped_newlines(s, i, run) == s.subrange(i, i + n) + capped_newlines(s, i + n, 0),
    decreases n,
{
    if n == 1 {
        assert(s.subrange(i, i + 1) =~= seq![s[i]]);
    } else {
        lemma_capped_segment(s, i + 1, n - 1, 0);
        assert(seq![s[i]] + (s.subrange(i + 1, i + n) + capped_newlines(s, i + n, 0)) =~= s.subrange(i, i + n)
            + capped_newlines(s, i + n, 0));
    }
}

/// The lines left when runs of newlines are cut to two (`capped_newlines`),
/// `run` newlines having just been written: an empty line goes once two
/// newlines are in a row.
pub open spec fn capped_lines(ls: Seq<Seq<char>>, run: int) -> Seq<Seq<char>>
    decreases ls.len(),
{
    if ls.len() == 0 {
        Seq::empty()
    } else if ls[0].len() > 0 {
        seq![ls[0]] + capped_lines(ls.drop_first(), 1)
    } else if run >= 2 {
        capped_lines(ls.drop_first(), run)
    } else {
        seq![ls[0]] + capped_lines(ls.drop_first(), run + 1)
    }
}

proof fn lemma_capped_join(ls: Seq<Seq<char>>, run: int)
    requires
        lines_without_newline(ls),
    ensures
        capped_newlines(join_nl(ls), 0, run) == join_nl(capped_lines(ls, run)),
        forall|i: int| 0 <= i < capped_lines(ls, run).len() ==> ls.contains(#[trigger] capped_lines(ls, run)[i]),
    decreases ls.len(),
{
    if ls.len() == 0 {
        assert(capped_newlines(Seq::<char>::empty(), 0, run) =~= Seq::<char>::empty());
    } else {
        let rest = ls.drop_first();
        let l = ls[0];
        assert(no_newline(l));
        assert(lines_without_newline(rest)) by {
            assert forall|i: int| 0 <= i < rest.len() implies no_newline(#[trigger] rest[i]) by {
                assert(rest[i] == ls[i + 1]);
            }
        }
        let head = l + seq!['\n'];
        let s = join_nl(ls);
        assert(s =~= head + join_nl(rest));
        let next = if l.len() > 0 {
            1
        } else if run >= 2 {
            run
        } else {
            run + 1
        };
        lemma_capped_join(rest, next);
        lemma_capped_shift(head, join_nl(rest), 0, next);
        assert(s[l.len() as int] == '\n');
        if l.len() > 0 {
            lemma_capped_segment(s, 0, l.len() as int, run);
            assert(s.subrange(0, l.len() as int) =~= l);
            assert(capped_newlines(s, l.len() as int, 0) == seq!['\n'] + capped_newlines(s, (l.len() + 1) as int, 1));
            let r = seq![l] + capped_lines(rest, 1);
            assert(r.drop_first() =~= capped_lines(rest, 1));
            assert(join_nl(r) == l + seq!['\n'] + join_nl(capped_lines(rest, 1)));
            assert(l + (seq!['\n'] + join_nl(capped_lines(rest, 1))) =~= l + seq!['\n'] + join_nl(
                capped_lines(rest, 1),
            ));
        } else {
            assert(head =~= seq!['\n']);
            if run < 2 {
                let r = seq![l] + capped_lines(rest, run + 1);
                assert(r.drop_first() =~= capped_lines(rest, run + 1));
                assert(join_nl(r) == l + seq!['\n'] + join_nl(capped_lines(rest, run + 1)));
                assert(l + seq!['\n'] =~= seq!['\n']);
            }
        }
        let c = capped_lines(ls, run);
        let cr = capped_lines(rest, next);
        assert forall|i: int| 0 <= i < c.len() implies ls.contains(#[trigger] c[i]) by {
            if l.len() > 0 || run < 2 {
                if i == 0 {
                    assert(c[0] == ls[0]);
                } else {
                    assert(c[i] == cr[i - 1]);
                    let j = choose|j: int| 0 <= j < rest.len() && rest[j] == cr[i - 1];
                    assert(ls[j + 1] == c[i]);
                }
            } else {
                assert(c[i] == cr[i]);
                let j = choose|j: int| 0 <= j < rest.len() && rest[j] == cr[i];
                assert(ls[j + 1] == c[i]);
            }
        }
    }
}

// ---------------------------------------------------------------------------
// Trimming
// ---------------------------------------------------------------------------

pub(crate) proof fn lemma_trim_end_facts(s: Seq<char>)
    ensures
        trim_end(s).len() <= s.len(),
        trim_end(s) == s.subrange(0, trim_end(s).len() as int),
        forall|k: int| trim_end(s).len() <= k < s.len() ==> is_ws(#[trigger] s[k]),
        trim_end(s).len() > 0 ==> !is_ws(s[trim_end(s).len() - 1]),
    decreases s.len(),
{
    if s.len() > 0 && is_ws(s.last()) {
        lemma_trim_end_facts(s.drop_last());
        let t = trim_end(s.drop_last());
        assert(t =~= s.subrange(0, t.len() as int));
        assert forall|k: int| t.len() <= k < s.len() implies is_ws(#[trigger] s[k]) by {
            if k < s.len() - 1 {
                assert(s[k] == s.drop_last()[k]);
            }
        }
    } else {
        assert(s =~= s.subrange(0, s.len() as int));
    }
}

proof fn lemma_trim_start_facts(s: Seq<char>)
    ensures
        trim_start(s).len() <= s.len(),
        trim_start(s) == s.subrange(s.len() - trim_start(s).len(), s.len() as int),
        forall|k: int| 0 <= k < s.len() - trim_start(s).len() ==> is_ws(#[trigger] s[k]),
        trim_start(s).len() > 0 ==> !is_ws(s[s.len() - trim_start(s).len()]),
    decreases s.len(),
{
    if s.len() > 0 && is_ws(s[0]) {
        lemma_trim_start_facts(s.drop_first());
        let t = trim_start(s.drop_first());
        assert(t =~= s.subrange(s.len() - t.len(), s.len() as int));
        assert forall|k: int| 0 <= k < s.len() - t.len() implies is_ws(#[trigger] s[k]) by {
            if k > 0 {
                assert(s[k] == s.drop_first()[k - 1]);
            }
        }
    } else {
        assert(s =~= s.subrange(0, s.len() as int));
    }
}

proof fn lemma_trim_end_is(t: Seq<char>, k: int)
    requires
        0 <= k <= t.len(),
        forall|j: int| k <= j < t.len() ==> is_ws(#[trigger] t[j]),
        k > 0 ==> !is_ws(t[k - 1]),
    ensures
        trim_end(t) == t.subrange(0, k),
    decreases t.len(),
{
    if t.len() > k {
        assert(is_ws(t[t.len() - 1]));
        lemma_trim_end_is(t.drop_last(), k);
        assert(t.drop_last().subrange(0, k) =~= t.subrange(0, k));
    } else {
        assert(t =~= t.subrange(0, k));
    }
}

proof fn lemma_trim_start_is(t: Seq<char>, m: int)
    requires
        0 <= m <= t.len(),
        forall|j: int| 0 <= j < m ==> is_ws(#[trigger] t[j]),
        m < t.len() ==> !is_ws(t[m]),
    ensures
        trim_start(t) == t.subrange(m, t.len() as int),
    decreases m,
{
    if m > 0 {
        assert(is_ws(t[0]));
        let r = t.drop_first();
        assert forall|j: int| 0 <= j < m - 1 implies is_ws(#[trigger] r[j]) by {
            assert(r[j] == t[j + 1]);
        }
        lemma_trim_start_is(r, m - 1);
        assert(r.subrange(m - 1, r.len() as int) =~= t.subrange(m, t.len() as int));
    } else {
        assert(t =~= t.subrange(0, t.len() as int));
    }
}

/// Trimming the start and the end may be done in either order.
proof fn lemma_trim_commute(s: Seq<char>)
    ensures
        trim_start(trim_end(s)) == trim(s),
{
    lemma_trim_end_facts(s);
    lemma_trim_start_facts(s);
    let k = trim_end(s).len() as int;
    let m = s.len() - trim_start(s).len();
    if k == 0 {
        // Everything is whitespace.
        assert forall|j: int| 0 <= j < s.len() implies is_ws(#[trigger] s[j]) by {}
        if trim_start(s).len() > 0 {
            assert(!is_ws(s[m]));
        }
        assert(trim_end(s) =~= Seq::<char>::empty());
        assert(trim_start(Seq::<char>::empty()) =~= Seq::<char>::empty());
        assert(trim_start(s) =~= Seq::<char>::empty());
    } else {
        assert(!is_ws(s[k - 1]));
        assert(m <= k - 1) by {
            if m > k - 1 {
                assert(is_ws(s[k - 1]));
            }
        }
        let te = s.subrange(0, k);
        assert forall|j: int| 0 <= j < m implies is_ws(#[trigger] te[j]) by {
            assert(te[j] == s[j]);
        }
        lemma_trim_start_is(te, m);
        let ts = s.subrange(m, s.len() as int);
        assert forall|j: int| k - m <= j < ts.len() implies is_ws(#[trigger] ts[j]) by {
            assert(ts[j] == s[j + m]);
        }
        assert(ts[k - m - 1] == s[k - 1]);
        lemma_trim_end_is(ts, k - m);
        assert(te.subrange(m, k) =~= ts.subrange(0, k - m));
    }
}

/// A trailing `\r` does not change what a line trims to.
pub proof fn lemma_trim_strip_cr(l: Seq<char>)
    ensures
        trim(strip_cr(l)) == trim(l),
{
    lemma_trim_commute(l);
    lemma_trim_commute(strip_cr(l));
    if l.len() > 0 && l.last() == '\r' {
        assert(is_ws(l.last()));
        assert(trim_end(l) == trim_end(l.drop_last()));
    }
}

/// Trimming the end first does not change what a line trims to.
pub proof fn lemma_trim_trim_end(l: Seq<char>)
    ensures
        trim(trim_end(l)) == trim(l),
{
    lemma_trim_commute(l);
    lemma_trim_commute(trim_end(l));
    lemma_trim_end_facts(l);
    let t = trim_end(l);
    lemma_trim_end_is(t, t.len() as int);
    assert(t.subrange(0, t.len() as int) =~= t);
}

// ---------------------------------------------------------------------------
// The end of the text
// ---------------------------------------------------------------------------

/// The lines left when trailing newlines are dropped and one is put back:
/// trailing empty lines go, and no lines at all leave one empty line.
pub open spec fn without_trailing_empty(ls: Seq<Seq<char>>) -> Seq<Seq<char>>
    decreases ls.len(),
{
    if ls.len() == 0 {
        seq![Seq::<char>::empty()]
    } else if ls.last().len() == 0 {
        without_trailing_empty(ls.drop_last())
    } else {
        ls
    }
}

proof fn lemma_without_trailing_join(ls: Seq<Seq<char>>)
    requires
        lines_without_newline(ls),
    ensures
        without_trailing_newlines(join_nl(ls)) + seq!['\n'] == join_nl(without_trailing_empty(ls)),
        forall|i: int|
            0 <= i < without_trailing_empty(ls).len() ==> #[trigger] without_trailing_empty(ls)[i].len() == 0
                || ls.contains(without_trailing_empty(ls)[i]),
    decreases ls.len(),
{
    if ls.len() == 0 {
        let one = seq![Seq::<char>::empty()];
        assert(one.drop_first() =~= Seq::<Seq<char>>::empty());
        assert(join_nl(one.drop_first()) =~= Seq::<char>::empty());
        assert(one[0] + seq!['\n'] + Seq::<char>::empty() =~= seq!['\n']);
        assert(join_nl(one) =~= seq!['\n']);
        assert(without_trailing_newlines(Seq::<char>::empty()) =~= Seq::<char>::empty());
        assert(Seq::<char>::empty() + seq!['\n'] =~= seq!['\n']);
    } else {
        let init = ls.drop_last();
        let l = ls.last();
        assert(lines_without_newline(init)) by {
            assert forall|i: int| 0 <= i < init.len() implies no_newline(#[trigger] init[i]) by {
                assert(init[i] == ls[i]);
            }
        }
        assert(no_newline(ls[ls.len() - 1]));
        lemma_join_last(ls);
        let j = join_nl(init) + l;
        assert(join_nl(ls) =~= j.push('\n'));
        assert(j.push('\n').drop_last() =~= j);
        assert(without_trailing_newlines(join_nl(ls)) == without_trailing_newlines(j));
        if l.len() == 0 {
            assert(j =~= join_nl(init));
            lemma_without_trailing_join(init);
            let w = without_trailing_empty(init);
            assert forall|i: int| 0 <= i < w.len() implies #[trigger] w[i].len() == 0 || ls.contains(w[i]) by {
                if w[i].len() != 0 {
                    let k = choose|k: int| 0 <= k < init.len() && init[k] == w[i];
                    assert(ls[k] == w[i]);
                }
            }
        } else {
            assert(j.last() == l.last());
            assert(l.last() != '\n');
            assert(without_trailing_newlines(j) == j);
            assert(j + seq!['\n'] =~= join_nl(ls));
            assert forall|i: int| 0 <= i < ls.len() implies #[trigger] ls[i].len() == 0 || ls.contains(ls[i]) by {
            }
        }
    }
}

/// The lines of the text trimmed at its end, newline-terminated: trailing
/// whitespace-only lines go and the last line loses its trailing whitespace.
pub open spec fn trimmed_end_lines(ls: Seq<Seq<char>>) -> Seq<Seq<char>>
    decreases ls.len(),
{
    if ls.len() == 0 {
        Seq::empty()
    } else if trim_end(ls.last()).len() > 0 {
        ls.drop_last().push(trim_end(ls.last()))
    } else {
        trimmed_end_lines(ls.drop_last())
    }
}

proof fn lemma_trim_end_ws_suffix(a: Seq<char>, b: Seq<char>)
    requires
        forall|k: int| 0 <= k < b.len() ==> is_ws(#[trigger] b[k]),
    ensures
        trim_end(a + b) == trim_end(a),
    decreases b.len(),
{
    if b.len() > 0 {
        assert((a + b).last() == b.last());
        assert((a + b).drop_last() =~= a + b.drop_last());
        lemma_trim_end_ws_suffix(a, b.drop_last());
    } else {
        assert(a + b =~= a);
    }
}

proof fn lemma_trim_end_keeps(a: Seq<char>, b: Seq<char>)
    requires
        trim_end(b).len() > 0,
    ensures
        trim_end(a + b) == a + trim_end(b),
    decreases b.len(),
{
    assert(b.len() > 0);
    assert((a + b).last() == b.last());
    if is_ws(b.last()) {
        assert((a + b).drop_last() =~= a + b.drop_last());
        lemma_trim_end_keeps(a, b.drop_last());
    }
}

proof fn lemma_trim_end_empty_all_ws(b: Seq<char>)
    requires
        trim_end(b).len() == 0,
    ensures
        forall|k: int| 0 <= k < b.len() ==> is_ws(#[trigger] b[k]),
{
    lemma_trim_end_facts(b);
}

proof fn lemma_trimmed_end_join(ls: Seq<Seq<char>>)
    requires
        lines_without_newline(ls),
    ensures
        trimmed_end_lines(ls).len() == 0 ==> trim_end(join_nl(ls)).len() == 0,
        trimmed_end_lines(ls).len() > 0 ==> trim_end(join_nl(ls)) + seq!['\n'] == join_nl(trimmed_end_lines(ls)),
        lines_without_newline(trimmed_end_lines(ls)),
        forall|i: int|
            0 <= i < trimmed_end_lines(ls).len() ==> exists|k: int|
                0 <= k < ls.len() && #[trigger] trim(trimmed_end_lines(ls)[i]) == trim(ls[k]),
    decreases ls.len(),
{
    if ls.len() == 0 {
        assert(join_nl(ls) =~= Seq::<char>::empty());
    } else {
        let init = ls.drop_last();
        let l = ls.last();
        assert(lines_without_newline(init)) by {
            assert forall|i: int| 0 <= i < init.len() implies no_newline(#[trigger] init[i]) by {
                assert(init[i] == ls[i]);
            }
        }
        assert(no_newline(ls[ls.len() - 1]));
        lemma_join_last(ls);
        let b = l + seq!['\n'];
        assert(join_nl(ls) =~= join_nl(init) + b);
        assert(b.last() == '\n' && is_ws('\n'));
        assert(b.drop_last() =~= l);
        assert(trim_end(b) == trim_end(l));
        if trim_end(l).len() > 0 {
            lemma_trim_end_keeps(join_nl(init), b);
            let t = init.push(trim_end(l));
            lemma_join_last(t);
            assert(t.drop_last() =~= init);
            lemma_trim_end_facts(l);
            assert(trim_end(join_nl(ls)) + seq!['\n'] =~= join_nl(t));
            assert forall|i: int| 0 <= i < t.len() implies no_newline(#[trigger] t[i]) by {
                if i < init.len() {
                    assert(t[i] == init[i]);
                } else {
                    assert(t[i] == trim_end(l));
                    assert forall|k: int| 0 <= k < t[i].len() implies t[i][k] != '\n' by {
                        assert(t[i][k] == l[k]);
                    }
                }
            }
            assert forall|i: int| 0 <= i < t.len() implies exists|k: int|
                0 <= k < ls.len() && #[trigger] trim(t[i]) == trim(ls[k]) by {
                if i < init.len() {
                    assert(t[i] == ls[i]);
                } else {
                    lemma_trim_trim_end(l);
                    assert(trim(t[i]) == trim(ls[ls.len() - 1]));
                }
            }
        } else {
            lemma_trim_end_empty_all_ws(b);
            lemma_trim_end_ws_suffix(join_nl(init), b);
            lemma_trimmed_end_join(init);
            let t = trimmed_end_lines(init);
            assert forall|i: int| 0 <= i < t.len() implies exists|k: int|
                0 <= k < ls.len() && #[trigger] trim(t[i]) == trim(ls[k]) by {
                let k = choose|k: int| 0 <= k < init.len() && #[trigger] trim(t[i]) == trim(init[k]);
                assert(ls[k] == init[k]);
            }
        }
    }
}

// ---------------------------------------------------------------------------
// Runs of newlines
// ---------------------------------------------------------------------------

/// No three newlines in a row.
pub open spec fn no_triple_newline(s: Seq<char>) -> bool {
    forall|i: int| 0 <= i && i + 2 < s.len() ==> !(#[trigger] s[i] == '\n' && s[i + 1] == '\n' && s[i + 2] == '\n')
}

/// `s` starts with `m` newlines.
pub open spec fn starts_with_newlines(s: Seq<char>, m: int) -> bool {
    m <= s.len() && forall|j: int| 0 <= j < m ==> #[trigger] s[j] == '\n'
}

proof fn lemma_capped_no_triple(s: Seq<char>, i: int, run: int)
    requires
        0 <= run <= 2,
    ensures
        no_triple_newline(capped_newlines(s, i, run)),
        !starts_with_newlines(capped_newlines(s, i, run), 3 - run),
    decreases s.len() - i,
{
    let r = capped_newlines(s, i, run);
    if i < 0 || i >= s.len() {
        assert(r.len() == 0);
    } else if s[i] == '\n' {
        if run >= 2 {
            lemma_capped_no_triple(s, i + 1, run);
        } else {
            lemma_capped_no_triple(s, i + 1, run + 1);
            let rest = capped_newlines(s, i + 1, run + 1);
            assert(r == seq!['\n'] + rest);
            assert forall|k: int| 0 <= k && k + 2 < r.len() implies !(#[trigger] r[k] == '\n' && r[k + 1] == '\n'
                && r[k + 2] == '\n') by {
                if k > 0 {
                    assert(r[k] == rest[k - 1] && r[k + 1] == rest[k] && r[k + 2] == rest[k + 1]);
                } else if r[1] == '\n' && r[2] == '\n' {
                    assert(rest[0] == '\n' && rest[1] == '\n');
                    assert(starts_with_newlines(rest, 2 - run));
                }
            }
            if starts_with_newlines(r, 3 - run) {
                assert forall|j: int| 0 <= j < 2 - run implies #[trigger] rest[j] == '\n' by {
                    assert(rest[j] == r[j + 1]);
                }
            }
        }
    } else {
        lemma_capped_no_triple(s, i + 1, 0);
        let rest = capped_newlines(s, i + 1, 0);
        assert(r == seq![s[i]] + rest);
        assert forall|k: int| 0 <= k && k + 2 < r.len() implies !(#[trigger] r[k] == '\n' && r[k + 1] == '\n' && r[k
            + 2] == '\n') by {
            if k > 0 {
                assert(r[k] == rest[k - 1] && r[k + 1] == rest[k] && r[k + 2] == rest[k + 1]);
            }
        }
        assert(r[0] == s[i]);
    }
}

proof fn lemma_capped_identity(s: Seq<char>, i: int, run: int)
    requires
        no_triple_newline(s),
        0 <= i <= s.len(),
        0 <= run <= 2,
        run >= 1 ==> i >= 1 && s[i - 1] == '\n',
        run >= 2 ==> i >= 2 && s[i - 2] == '\n',
        run == 0 ==> i == 0 || s[i - 1] != '\n',
        run == 1 ==> i == 1 || s[i - 2] != '\n',
    ensures
        capped_newlines(s, i, run) == s.subrange(i, s.len() as int),
    decreases s.len() - i,
{
    if i == s.len() {
        assert(s.subrange(i, s.len() as int) =~= Seq::<char>::empty());
    } else if s[i] == '\n' {
        if run >= 2 {
            assert(s[i - 2] == '\n' && s[i - 1] == '\n' && s[i] == '\n');
            assert(false);
        }
        lemma_capped_identity(s, i + 1, run + 1);
        assert(seq!['\n'] + s.subrange(i + 1, s.len() as int) =~= s.subrange(i, s.len() as int));
    } else {
        lemma_capped_identity(s, i + 1, 0);
        assert(seq![s[i]] + s.subrange(i + 1, s.len() as int) =~= s.subrange(i, s.len() as int));
    }
}

proof fn lemma_without_trailing_prefix(s: Seq<char>)
    ensures
        without_trailing_newlines(s).len() <= s.len(),
        without_trailing_newlines(s) == s.subrange(0, without_trailing_newlines(s).len() as int),
    decreases s.len(),
{
    if s.len() > 0 && s.last() == '\n' {
        lemma_without_trailing_prefix(s.drop_last());
        let w = without_trailing_newlines(s.drop_last());
        assert(w =~= s.subrange(0, w.len() as int));
    } else {
        assert(s =~= s.subrange(0, s.len() as int));
    }
}

proof fn lemma_prefix_no_triple(s: Seq<char>, n: int)
    requires
        no_triple_newline(s),
        0 <= n <= s.len(),
    ensures
        no_triple_newline(s.subrange(0, n)),
{
    let t = s.subrange(0, n);
    assert forall|i: int| 0 <= i && i + 2 < t.len() implies !(#[trigger] t[i] == '\n' && t[i + 1] == '\n' && t[i + 2]
        == '\n') by {
        assert(t[i] == s[i] && t[i + 1] == s[i + 1] && t[i + 2] == s[i + 2]);
    }
}

// ---------------------------------------------------------------------------
// The managed block's lines
// ---------------------------------------------------------------------------

/// The line of the managed block that sources the managed configuration
/// (more than one line when the path holds newlines).
pub open spec fn source_line(managed_path: Seq<char>) -> Seq<char> {
    "source '"@ + quote_escaped(managed_path) + "'"@
}

proof fn lemma_marker_line(m: Seq<char>)
    requires
        m.len() > 0,
        no_newline(m),
        !is_ws(m[0]),
        !is_ws(m.last()),
    ensures
        strip_cr(m) == m,
        trim(m) == m,
        text_lines(m.push('\n')) == seq![m],
{
    assert(m.last() != '\r') by {
        assert(is_ws('\r'));
    }
    lemma_trim_start_is(m, 0);
    assert(m.subrange(0, m.len() as int) =~= m);
    lemma_trim_end_is(m, m.len() as int);
    lemma_text_lines_one(m);
}

proof fn lemma_markers()
    ensures
        MANAGED_BLOCK_START@.len() > 0,
        MANAGED_BLOCK_END@.len() > 0,
        no_newline(MANAGED_BLOCK_START@),
        no_newline(MANAGED_BLOCK_END@),
        trim(MANAGED_BLOCK_START@) == MANAGED_BLOCK_START@,
        trim(MANAGED_BLOCK_END@) == MANAGED_BLOCK_END@,
        text_lines(MANAGED_BLOCK_START@.push('\n')) == seq![MANAGED_BLOCK_START@],
        text_lines(MANAGED_BLOCK_END@.push('\n')) == seq![MANAGED_BLOCK_END@],
        MANAGED_BLOCK_START@ != MANAGED_BLOCK_END@,
{
    reveal_strlit("# >>> _cmd managed shell >>>");
    reveal_strlit("# <<< _cmd managed shell <<<");
    let a = MANAGED_BLOCK_START@;
    let b = MANAGED_BLOCK_END@;
    assert(a[2] != b[2]);
    lemma_marker_line(a);
    lemma_marker_line(b);
}

proof fn lemma_block_text(managed_path: Seq<char>)
    ensures
        managed_block_text(managed_path) == MANAGED_BLOCK_START@.push('\n') + (source_line(managed_path).push('\n')
            + MANAGED_BLOCK_END@.push('\n')),
{
    reveal_strlit("\nsource '");
    reveal_strlit("source '");
    reveal_strlit("'\n");
    reveal_strlit("'");
    reveal_strlit("\n");
    assert(managed_block_text(managed_path) =~= MANAGED_BLOCK_START@.push('\n') + (source_line(
        managed_path,
    ).push('\n') + MANAGED_BLOCK_END@.push('\n')));
}

/// The source line never ends the block early: none of its lines is the end marker.
pub open spec fn source_line_closes_nothing(managed_path: Seq<char>) -> bool {
    let ls = text_lines(source_line(managed_path).push('\n'));
    forall|i: int| 0 <= i < ls.len() ==> trim(#[trigger] ls[i]) != MANAGED_BLOCK_END@
}

proof fn lemma_block_lines(managed_path: Seq<char>)
    requires
        source_line_closes_nothing(managed_path),
    ensures
        kept_lines(text_lines(managed_block_text(managed_path)), false) == Seq::<char>::empty(),
        !skip_after(text_lines(managed_block_text(managed_path)), false),
{
    lemma_markers();
    lemma_block_text(managed_path);
    let a = MANAGED_BLOCK_START@.push('\n');
    let b = source_line(managed_path).push('\n');
    let c = MANAGED_BLOCK_END@.push('\n');
    lemma_text_lines_concat(a, b + c);
    lemma_text_lines_concat(b, c);
    let lb = text_lines(b);
    let start = seq![MANAGED_BLOCK_START@];
    let end = seq![MANAGED_BLOCK_END@];
    let all = start + (lb + end);
    assert(text_lines(managed_block_text(managed_path)) == all);
    lemma_kept_split(start, lb + end, false);
    assert(start.drop_first() =~= Seq::<Seq<char>>::empty());
    assert(kept_lines(start, false) == kept_lines(Seq::<Seq<char>>::empty(), true));
    assert(skip_after(start, false) == skip_after(Seq::<Seq<char>>::empty(), true));
    lemma_kept_split(lb, end, true);
    lemma_kept_skipping(lb);
    assert(end.drop_first() =~= Seq::<Seq<char>>::empty());
    assert(kept_lines(end, true) == kept_lines(Seq::<Seq<char>>::empty(), false));
    assert(skip_after(end, true) == skip_after(Seq::<Seq<char>>::empty(), false));
    assert(Seq::<char>::empty() + (Seq::<char>::empty() + Seq::<char>::empty()) =~= Seq::<char>::empty());
}

// ---------------------------------------------------------------------------
// The law
// ---------------------------------------------------------------------------

/// What stands before the installed block: the text without its managed
/// block, trimmed at its end.
pub open spec fn installed_base(text: Seq<char>) -> Seq<char> {
    trim_end(without_managed_block(text))
}

/// The base ends in a non-blank character, has no three newlines in a row,
/// and (when not empty) its lines, newline-terminated, are free of markers.
proof fn lemma_base_facts(text: Seq<char>)
    ensures
        no_triple_newline(installed_base(text)),
        installed_base(text).len() > 0 ==> !is_ws(installed_base(text).last()),
        installed_base(text).len() > 0 ==> forall|i: int|
            0 <= i < text_lines(installed_base(text).push('\n')).len() ==> !is_marker(
                #[trigger] text_lines(installed_base(text).push('\n'))[i],
            ),
{
    let ls = text_lines(text);
    lemma_text_lines_no_newline(text);
    lemma_kept_list(ls, false);
    let k = kept_list(ls, false);
    assert(lines_without_newline(k)) by {
        assert forall|i: int| 0 <= i < k.len() implies no_newline(#[trigger] k[i]) by {
            let j = choose|j: int| 0 <= j < ls.len() && ls[j] == k[i];
            assert(no_newline(ls[j]));
        }
    }
    lemma_capped_join(k, 0);
    let c = capped_lines(k, 0);
    assert(lines_without_newline(c)) by {
        assert forall|i: int| 0 <= i < c.len() implies no_newline(#[trigger] c[i]) by {
            let j = choose|j: int| 0 <= j < k.len() && k[j] == c[i];
            assert(no_newline(k[j]));
        }
    }
    lemma_without_trailing_join(c);
    let d = without_trailing_empty(c);
    let capped = capped_newlines(kept_lines(ls, false), 0, 0);
    let w = without_trailing_newlines(capped);
    assert(without_managed_block(text) == w + seq!['\n']);
    assert(without_managed_block(text) == join_nl(d));
    assert(lines_without_newline(d)) by {
        assert forall|i: int| 0 <= i < d.len() implies no_newline(#[trigger] d[i]) by {
            if d[i].len() != 0 {
                let j = choose|j: int| 0 <= j < c.len() && c[j] == d[i];
                assert(no_newline(c[j]));
            }
        }
    }
    let base = installed_base(text);
    // The base is a prefix of the capped text.
    lemma_capped_no_triple(kept_lines(ls, false), 0, 0);
    lemma_without_trailing_prefix(capped);
    assert((w + seq!['\n']).last() == '\n' && is_ws('\n'));
    assert((w + seq!['\n']).drop_last() =~= w);
    assert(base == trim_end(w));
    lemma_trim_end_facts(w);
    lemma_prefix_no_triple(capped, w.len() as int);
    assert(base =~= capped.subrange(0, w.len() as int).subrange(0, base.len() as int));
    lemma_prefix_no_triple(capped.subrange(0, w.len() as int), base.len() as int);
    if base.len() > 0 {
        assert(base.last() == w[base.len() - 1]);
        lemma_trimmed_end_join(d);
        let e = trimmed_end_lines(d);
        assert(e.len() > 0);
        assert(base.push('\n') =~= base + seq!['\n']);
        assert(base.push('\n') == join_nl(e));
        lemma_text_lines_join(e);
        let lines = text_lines(base.push('\n'));
        assert forall|i: int| 0 <= i < lines.len() implies !is_marker(#[trigger] lines[i]) by {
            assert(lines[i] == strip_cr(e[i]));
            lemma_trim_strip_cr(e[i]);
            let j = choose|j: int| 0 <= j < d.len() && #[trigger] trim(e[i]) == trim(d[j]);
            if d[j].len() == 0 {
                lemma_markers();
                assert(trim(d[j]) =~= Seq::<char>::empty()) by {
                    assert(trim_start(d[j]) =~= d[j]);
                    assert(trim_end(d[j]) =~= d[j]);
                }
            } else {
                let q = choose|q: int| 0 <= q < c.len() && c[q] == d[j];
                let r = choose|r: int| 0 <= r < k.len() && k[r] == c[q];
                assert(!is_marker(k[r]));
            }
        }
    }
}

/// Removing the managed block right after installing it gives back the
/// text that stood before the block, newline-terminated: as long as that
/// text keeps no `\r` ahead of a newline and no line of the source line is
/// the end marker.
pub proof fn law_reset_after_install(text: Seq<char>, managed_path: Seq<char>)
    requires
        !contains_seq(installed_base(text), seq!['\r', '\n']),
        source_line_closes_nothing(managed_path),
    ensures
        without_managed_block(with_managed_block(text, managed_path)) == installed_base(text).push('\n'),
{
    reveal_strlit("\n\n");
    let base = installed_base(text);
    let block = managed_block_text(managed_path);
    let once = with_managed_block(text, managed_path);
    lemma_base_facts(text);
    lemma_block_lines(managed_path);
    lemma_markers();
    lemma_block_text(managed_path);
    assert(block.len() > 0 && block.last() == '\n');
    if base.len() == 0 {
        assert(once =~= block);
        // Removing the block from the block leaves nothing.
        assert(capped_newlines(Seq::<char>::empty(), 0, 0) =~= Seq::<char>::empty());
        assert(without_trailing_newlines(Seq::<char>::empty()) =~= Seq::<char>::empty());
        assert(without_managed_block(once) =~= seq!['\n']);
        assert(base.push('\n') =~= seq!['\n']);
    } else {
        let head = base.push('\n');
        let tail = seq!['\n'] + block;
        assert(once =~= head + tail);
        lemma_text_lines_concat(head, tail);
        lemma_text_lines_one(Seq::<char>::empty());
        assert(seq!['\n'] =~= Seq::<char>::empty().push('\n'));
        lemma_text_lines_concat(seq!['\n'], block);
        assert(strip_cr(Seq::<char>::empty()) =~= Seq::<char>::empty());
        let hl = text_lines(head);
        let bl = text_lines(block);
        let blank = seq![Seq::<char>::empty()];
        assert(text_lines(tail) == blank + bl);
        assert(text_lines(once) == hl + (blank + bl));
        // The head is kept as it is.
        lemma_kept_free(hl);
        assert(no_cr_before_newline(head)) by {
            assert forall|k: int| 0 < k < head.len() && #[trigger] head[k] == '\n' implies head[k - 1] != '\r' by {
                if k < base.len() {
                    if head[k - 1] == '\r' {
                        assert(base.subrange(k - 1, k + 1) =~= seq!['\r', '\n']);
                        assert(occurs_at(base, seq!['\r', '\n'], k - 1));
                    }
                } else {
                    assert(head[k - 1] == base.last());
                    assert(is_ws('\r'));
                }
            }
        }
        lemma_join_text_lines(head);
        // The blank line is kept; the block goes.
        lemma_kept_split(hl, blank + bl, false);
        lemma_kept_split(blank, bl, false);
        assert(!is_marker(Seq::<char>::empty())) by {
            assert(trim(Seq::<char>::empty()) =~= Seq::<char>::empty()) by {
                assert(trim_start(Seq::<char>::empty()) =~= Seq::<char>::empty());
            }
        }
        assert(blank.drop_first() =~= Seq::<Seq<char>>::empty());
        assert(kept_lines(blank, false) == Seq::<char>::empty() + seq!['\n'] + kept_lines(
            Seq::<Seq<char>>::empty(),
            false,
        ));
        assert(kept_lines(blank, false) =~= seq!['\n']);
        assert(skip_after(blank, false) == skip_after(Seq::<Seq<char>>::empty(), false));
        assert(!skip_after(blank, false));
        let kept = kept_lines(text_lines(once), false);
        assert(kept =~= head + seq!['\n']);
        // Nothing more to cap or strip.
        let t = base + seq!['\n', '\n'];
        assert(kept =~= t);
        assert(no_triple_newline(t)) by {
            assert forall|i: int| 0 <= i && i + 2 < t.len() implies !(#[trigger] t[i] == '\n' && t[i + 1] == '\n'
                && t[i + 2] == '\n') by {
                if i + 2 < base.len() {
                    assert(t[i] == base[i] && t[i + 1] == base[i + 1] && t[i + 2] == base[i + 2]);
                } else if i + 1 < base.len() {
                    assert(t[i + 1] == base.last());
                } else {
                    assert(t[i] == base.last());
                }
            }
        }
        lemma_capped_identity(t, 0, 0);
        assert(t.subrange(0, t.len() as int) =~= t);
        assert(t.last() == '\n');
        assert(t.drop_last() =~= base.push('\n'));
        assert(base.push('\n').drop_last() =~= base);
        assert(base.last() != '\n');
        assert(without_trailing_newlines(t) == without_trailing_newlines(base.push('\n')));
        assert(without_trailing_newlines(base.push('\n')) == without_trailing_newlines(base));
        assert(without_trailing_newlines(base) == base);
        assert(without_trailing_newlines(t) == base);
        assert(without_managed_block(once) == base.push('\n'));
    }
}

/// Installing the managed block for a path again leaves a `.zshrc` that
/// already holds it as it is: for every text, as long as the text before
/// the block keeps no `\r` ahead of a newline and no line of the source line
/// is the end marker.
pub proof fn law_install_managed_block_twice(text: Seq<char>, managed_path: Seq<char>)
    requires
        !contains_seq(installed_base(text), seq!['\r', '\n']),
        source_line_closes_nothing(managed_path),
    ensures
        with_managed_block(with_managed_block(text, managed_path), managed_path) == with_managed_block(
            text,
            managed_path,
        ),
{
    reveal_strlit("\n\n");
    let base = installed_base(text);
    let once = with_managed_block(text, managed_path);
    law_reset_after_install(text, managed_path);
    lemma_base_facts(text);
    assert(is_ws('\n'));
    assert(base.push('\n').drop_last() =~= base);
    assert(trim_end(base.push('\n')) == trim_end(base));
    lemma_trim_end_is(base, base.len() as int);
    assert(base.subrange(0, base.len() as int) =~= base);
    assert(installed_base(once) == base);
}

/// A `.zshrc` with the managed block installed holds both of its markers.
pub proof fn law_installed_block_is_found(text: Seq<char>, managed_path: Seq<char>)
    ensures
        has_managed_block(with_managed_block(text, managed_path)),
{
    let base = installed_base(text);
    let prefix = if base.len() == 0 {
        base
    } else {
        base + "\n\n"@
    };
    let block = managed_block_text(managed_path);
    let y = with_managed_block(text, managed_path);
    assert(y == prefix + block);
    lemma_block_text(managed_path);
    let a = MANAGED_BLOCK_START@;
    let e = MANAGED_BLOCK_END@;
    let mid = source_line(managed_path).push('\n');
    assert(y.subrange(prefix.len() as int, (prefix.len() + a.len()) as int) =~= a);
    assert(occurs_at(y, a, prefix.len() as int));
    let at: int = (prefix.len() + a.len() + 1 + mid.len()) as int;
    assert(y.subrange(at, at + e.len()) =~= e);
    assert(occurs_at(y, e, at));
}

// ---------------------------------------------------------------------------
// The laws on texts without carriage returns
// ---------------------------------------------------------------------------

/// No carriage return in `s`.
pub open spec fn no_cr(s: Seq<char>) -> bool {
    forall|k: int| 0 <= k < s.len() ==> s[k] != '\r'
}

proof fn lemma_lines_from_no_cr(s: Seq<char>, i: int, cur: Seq<char>)
    requires
        no_cr(s),
        no_cr(cur),
        0 <= i,
    ensures
        forall|j: int| 0 <= j < lines_from(s, i, cur).len() ==> no_cr(#[trigger] lines_from(s, i, cur)[j]),
    decreases s.len() - i,
{
    let ls = lines_from(s, i, cur);
    if i >= s.len() {
        if cur.len() != 0 {
            assert(ls == seq![cur]);
            assert forall|j: int| 0 <= j < ls.len() implies no_cr(#[trigger] ls[j]) by {
                assert(ls[j] == cur);
            }
        }
    } else if s[i] == '\n' {
        lemma_lines_from_no_cr(s, i + 1, Seq::empty());
        let rest = lines_from(s, i + 1, Seq::empty());
        let sc = strip_cr(cur);
        assert(no_cr(sc)) by {
            assert forall|k: int| 0 <= k < sc.len() implies sc[k] != '\r' by {
                assert(sc[k] == cur[k]);
            }
        }
        assert(ls == seq![sc] + rest);
        assert forall|j: int| 0 <= j < ls.len() implies no_cr(#[trigger] ls[j]) by {
            if j > 0 {
                assert(ls[j] == rest[j - 1]);
            }
        }
    } else {
        let c2 = cur.push(s[i]);
        assert(no_cr(c2)) by {
            assert forall|k: int| 0 <= k < c2.len() implies c2[k] != '\r' by {
                if k < cur.len() {
                    assert(c2[k] == cur[k]);
                }
            }
        }
        lemma_lines_from_no_cr(s, i + 1, c2);
        assert(ls == lines_from(s, i + 1, c2));
    }
}

proof fn lemma_kept_lines_no_cr(ls: Seq<Seq<char>>, skipping: bool)
    requires
        forall|j: int| 0 <= j < ls.len() ==> no_cr(#[trigger] ls[j]),
    ensures
        no_cr(kept_lines(ls, skipping)),
    decreases ls.len(),
{
    if ls.len() > 0 {
        let rest = ls.drop_first();
        assert forall|j: int| 0 <= j < rest.len() implies no_cr(#[trigger] rest[j]) by {
            assert(rest[j] == ls[j + 1]);
        }
        lemma_kept_lines_no_cr(rest, true);
        lemma_kept_lines_no_cr(rest, false);
        let l = ls[0];
        assert(no_cr(l));
        let t = l + seq!['\n'] + kept_lines(rest, false);
        assert(no_cr(t)) by {
            assert forall|k: int| 0 <= k < t.len() implies t[k] != '\r' by {
                if k < l.len() {
                    assert(t[k] == l[k]);
                } else if k > l.len() {
                    assert(t[k] == kept_lines(rest, false)[k - l.len() - 1]);
                }
            }
        }
    }
}

proof fn lemma_capped_no_cr(s: Seq<char>, i: int, run: int)
    requires
        no_cr(s),
    ensures
        no_cr(capped_newlines(s, i, run)),
    decreases s.len() - i,
{
    if 0 <= i < s.len() {
        if s[i] == '\n' {
            if run >= 2 {
                lemma_capped_no_cr(s, i + 1, run);
            } else {
                lemma_capped_no_cr(s, i + 1, run + 1);
                let r = capped_newlines(s, i + 1, run + 1);
                assert forall|k: int| 0 <= k < r.len() + 1 implies (seq!['\n'] + r)[k] != '\r' by {
                    if k > 0 {
                        assert((seq!['\n'] + r)[k] == r[k - 1]);
                    }
                }
            }
        } else {
            lemma_capped_no_cr(s, i + 1, 0);
            let r = capped_newlines(s, i + 1, 0);
            assert forall|k: int| 0 <= k < r.len() + 1 implies (seq![s[i]] + r)[k] != '\r' by {
                if k > 0 {
                    assert((seq![s[i]] + r)[k] == r[k - 1]);
                }
            }
        }
    }
}

proof fn lemma_without_trailing_no_cr(s: Seq<char>)
    requires
        no_cr(s),
    ensures
        no_cr(without_trailing_newlines(s)),
    decreases s.len(),
{
    if s.len() > 0 && s.last() == '\n' {
        let d = s.drop_last();
        assert forall|k: int| 0 <= k < d.len() implies d[k] != '\r' by {
            assert(d[k] == s[k]);
        }
        lemma_without_trailing_no_cr(d);
    }
}

/// A text without carriage returns leaves a base without one ahead of a newline.
proof fn lemma_base_no_cr(text: Seq<char>)
    requires
        no_cr(text),
    ensures
        !contains_seq(installed_base(text), seq!['\r', '\n']),
{
    assert(no_cr(Seq::<char>::empty()));
    lemma_lines_from_no_cr(text, 0, Seq::empty());
    let ls = text_lines(text);
    lemma_kept_lines_no_cr(ls, false);
    let kept = kept_lines(ls, false);
    lemma_capped_no_cr(kept, 0, 0);
    let capped = capped_newlines(kept, 0, 0);
    lemma_without_trailing_no_cr(capped);
    let w = without_trailing_newlines(capped);
    let wm = without_managed_block(text);
    assert(wm == w + seq!['\n']);
    assert(no_cr(wm)) by {
        assert forall|k: int| 0 <= k < wm.len() implies wm[k] != '\r' by {
            if k < w.len() {
                assert(wm[k] == w[k]);
            }
        }
    }
    let base = installed_base(text);
    lemma_trim_end_facts(wm);
    assert(!contains_seq(base, seq!['\r', '\n'])) by {
        if contains_seq(base, seq!['\r', '\n']) {
            let i = choose|i: int| occurs_at(base, seq!['\r', '\n'], i);
            assert(base.subrange(i, i + 2)[0] == base[i]);
            assert(base[i] == wm[i]);
        }
    }
}

/// A path without a newline gives a source line that is one line, and not
/// the end marker.
proof fn lemma_path_closes_nothing(managed_path: Seq<char>)
    requires
        no_newline(managed_path),
    ensures
        source_line_closes_nothing(managed_path),
{
    lemma_quote_no_newline(managed_path);
    reveal_strlit("source '");
    reveal_strlit("'");
    reveal_strlit("# <<< _cmd managed shell <<<");
    let q = quote_escaped(managed_path);
    let m = source_line(managed_path);
    assert(m == "source '"@ + q + "'"@);
    assert(m[0] == 's');
    assert(m.last() == '\'');
    assert(no_newline(m)) by {
        assert forall|i: int| 0 <= i < m.len() implies m[i] != '\n' by {
            if 8 <= i < 8 + q.len() {
                assert(m[i] == q[i - 8]);
            }
        }
    }
    lemma_marker_line(m);
    assert(MANAGED_BLOCK_END@[0] == '#');
}

proof fn lemma_quote_no_newline(s: Seq<char>)
    requires
        no_newline(s),
    ensures
        no_newline(quote_escaped(s)),
    decreases s.len(),
{
    if s.len() > 0 {
        let d = s.drop_last();
        assert forall|i: int| 0 <= i < d.len() implies d[i] != '\n' by {
            assert(d[i] == s[i]);
        }
        lemma_quote_no_newline(d);
        let q = quote_escaped(d);
        let r = quote_escaped(s);
        assert forall|i: int| 0 <= i < r.len() implies r[i] != '\n' by {
            if i < q.len() {
                if s.last() == '\'' {
                    assert(r[i] == (q + seq!['\'', '\\', '\'', '\''])[i]);
                } else {
                    assert(r[i] == q.push(s.last())[i]);
                }
            }
        }
    }
}

/// Removing the managed block right after installing it gives back the text
/// that stood before the block, newline-terminated, for any text without
/// carriage returns and any path without a newline.
pub proof fn law_reset_after_install_plain(text: Seq<char>, managed_path: Seq<char>)
    requires
        no_cr(text),
        no_newline(managed_path),
    ensures
        without_managed_block(with_managed_block(text, managed_path)) == trim_end(without_managed_block(text)).push(
            '\n',
        ),
{
    lemma_base_no_cr(text);
    lemma_path_closes_nothing(managed_path);
    law_reset_after_install(text, managed_path);
}

/// Installing the managed block twice is installing it once, for any text
/// without carriage returns and any path without a newline.
pub proof fn law_install_managed_block_twice_plain(text: Seq<char>, managed_path: Seq<char>)
    requires
        no_cr(text),
        no_newline(managed_path),
    ensures
        with_managed_block(with_managed_block(text, managed_path), managed_path) == with_managed_block(
            text,
            managed_path,
        ),
{
    lemma_base_no_cr(text);
    lemma_path_closes_nothing(managed_path);
    law_install_managed_block_twice(text, managed_path);
}

} // verus!
