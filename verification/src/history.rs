//! The shared shell history: the JSON-lines history file's records, the
//! command history rebuilt from them, and the directory-jump history derived
//! from `cd` commands, with the lookup of the best jump for a query.
//!
//! Reading and writing the file and JSON encoding happen at the edge of the
//! program; this module holds what is computed from the file's text and records.
use vstd::prelude::*;
use std::collections::VecDeque;
use crate::terminals::{DIRECTORY_HISTORY_LIMIT, HISTORY_LIMIT};
use crate::text::{
    chars_of, is_blank, opt_text, push_char, push_recent_unique, push_str,
    recent_unique_push, string_of, string_of_range, trim, trim_bounds, views,
};

verus! {

broadcast use vstd::string::group_string_axioms;

/// Number of records the history file keeps; older ones are dropped on append.
pub const RAW_HISTORY_LIMIT: usize = 2000;

/// One record of the history file.
pub struct HistoryEntry {
    pub command: String,
    pub cwd: Option<String>,
    pub timestamp_unix_ms: Option<u64>,
}

/// A record as plain values: command, working directory, time in ms since the epoch.
pub type EntryView = (Seq<char>, Option<Seq<char>>, Option<u64>);

impl View for HistoryEntry {
    type V = EntryView;

    open spec fn view(&self) -> EntryView {
        (self.command@, opt_text(self.cwd), self.timestamp_unix_ms)
    }
}

impl Clone for HistoryEntry {
    fn clone(&self) -> (r: Self)
        ensures
            r@ == self@,
    {
        let cwd = match &self.cwd {
            Some(c) => Some(c.clone()),
            None => None,
        };
        HistoryEntry {
            command: self.command.clone(),
            cwd,
            timestamp_unix_ms: self.timestamp_unix_ms,
        }
    }
}

/// Views of a sequence of records.
pub open spec fn entry_views(es: Seq<HistoryEntry>) -> Seq<EntryView> {
    es.map_values(|e: HistoryEntry| e@)
}

// ---------------------------------------------------------------------------
// The file's text
// ---------------------------------------------------------------------------

/// `x` without one trailing carriage return.
pub open spec fn strip_cr(x: Seq<char>) -> Seq<char> {
    if x.len() > 0 && x.last() == '\r' {
        x.drop_last()
    } else {
        x
    }
}

/// The lines of `s[i..]` when `cur` is the part of the current line read so
/// far: lines end at `\n` (a `\r` before it is dropped), and a last line
/// without `\n` counts only when it is not empty (`str::lines`).
pub open spec fn lines_from(s: Seq<char>, i: int, cur: Seq<char>) -> Seq<Seq<char>>
    decreases s.len() - i,
{
    if i < 0 || i >= s.len() {
        if cur.len() == 0 {
            Seq::empty()
        } else {
            seq![cur]
        }
    } else if s[i] == '\n' {
        seq![strip_cr(cur)] + lines_from(s, i + 1, Seq::empty())
    } else {
        lines_from(s, i + 1, cur.push(s[i]))
    }
}

/// The lines of a text (`str::lines`).
pub open spec fn text_lines(s: Seq<char>) -> Seq<Seq<char>> {
    lines_from(s, 0, Seq::empty())
}

/// Splits a text into its lines (see `text_lines`).
pub fn split_text_lines(content: &str) -> (r: Vec<Vec<char>>)
    ensures
        vviews(r@) == text_lines(content@),
{
    let chars = chars_of(content);
    let n = chars.len();
    let mut out: Vec<Vec<char>> = Vec::new();
    let mut cur: Vec<char> = Vec::new();
    let mut i: usize = 0;
    assert(vviews(out@) + text_lines(content@) =~= text_lines(content@));
    while i < n
        invariant
            chars@ == content@,
            n == chars@.len(),
            i <= n,
            text_lines(content@) == vviews(out@) + lines_from(content@, i as int, cur@),
        decreases n - i,
    {
        let c = chars[i];
        if c == '\n' {
            let mut end = cur.len();
            if end > 0 && cur[end - 1] == '\r' {
                end = end - 1;
            }
            let ghost line = strip_cr(cur@);
            let ghost rest = lines_from(content@, i + 1, Seq::empty());
            assert(cur@.subrange(0, end as int) =~= line);
            let piece = crate::text::slice_vec(&cur, 0, end);
            let ghost before = vviews(out@);
            out.push(piece);
            assert(vviews(out@) =~= before.push(line));
            assert(before + (seq![line] + rest) =~= vviews(out@) + rest);
            cur = Vec::new();
        } else {
            cur.push(c);
        }
        i += 1;
    }
    assert(lines_from(content@, n as int, cur@) == (if cur@.len() == 0 {
        Seq::<Seq<char>>::empty()
    } else {
        seq![cur@]
    }));
    if cur.len() > 0 {
        let ghost before = vviews(out@);
        let ghost c = cur@;
        out.push(cur);
        assert(vviews(out@) =~= before + seq![c]);
    } else {
        assert(vviews(out@) + Seq::<Seq<char>>::empty() =~= vviews(out@));
    }
    out
}

/// The lines that are not blank, in order.
pub open spec fn nonblank_lines(ls: Seq<Seq<char>>) -> Seq<Seq<char>>
    decreases ls.len(),
{
    if ls.len() == 0 {
        ls
    } else if is_blank(ls[0]) {
        nonblank_lines(ls.drop_first())
    } else {
        seq![ls[0]] + nonblank_lines(ls.drop_first())
    }
}

fn chars_blank(v: &Vec<char>) -> (b: bool)
    ensures
        b == is_blank(v@),
{
    let (a, z) = trim_bounds(v);
    a == z
}

/// The non-blank lines of the history file's text, each holding one record.
pub fn history_file_lines(content: &str) -> (r: Vec<String>)
    ensures
        views(r@) == nonblank_lines(text_lines(content@)),
{
    let chars = chars_of(content);
    let n = chars.len();
    let mut out: Vec<String> = Vec::new();
    let mut cur: Vec<char> = Vec::new();
    let mut i: usize = 0;
    assert(views(out@) + nonblank_lines(text_lines(content@)) =~= nonblank_lines(
        text_lines(content@),
    ));
    while i < n
        invariant
            chars@ == content@,
            n == chars@.len(),
            i <= n,
            nonblank_lines(text_lines(content@)) == views(out@) + nonblank_lines(
                lines_from(content@, i as int, cur@),
            ),
        decreases n - i,
    {
        let c = chars[i];
        if c == '\n' {
            let mut end = cur.len();
            if end > 0 && cur[end - 1] == '\r' {
                end = end - 1;
            }
            let ghost line = strip_cr(cur@);
            let ghost rest = lines_from(content@, i + 1, Seq::empty());
            assert(cur@.subrange(0, end as int) =~= line);
            let piece = crate::text::slice_vec(&cur, 0, end);
            let ghost all = seq![line] + rest;
            assert(all[0] == line);
            assert(all.drop_first() =~= rest);
            if !chars_blank(&piece) {
                let ghost before = out@;
                out.push(string_of(&piece));
                assert(views(out@) =~= views(before).push(line));
                assert(views(before) + (seq![line] + nonblank_lines(rest)) =~= views(out@)
                    + nonblank_lines(rest));
            }
            cur = Vec::new();
        } else {
            cur.push(c);
        }
        i += 1;
    }
    assert(lines_from(content@, n as int, cur@) == (if cur@.len() == 0 {
        Seq::<Seq<char>>::empty()
    } else {
        seq![cur@]
    }));
    assert(nonblank_lines(Seq::<Seq<char>>::empty()) == Seq::<Seq<char>>::empty());
    if cur.len() > 0 && !chars_blank(&cur) {
        let ghost before = out@;
        out.push(string_of(&cur));
        let ghost single = seq![cur@];
        assert(single[0] == cur@);
        assert(single.drop_first() =~= Seq::<Seq<char>>::empty());
        assert(views(out@) =~= views(before).push(cur@));
        assert(views(before) + (seq![cur@] + Seq::<Seq<char>>::empty()) =~= views(out@));
    } else if cur.len() > 0 {
        let ghost single = seq![cur@];
        assert(single.drop_first() =~= Seq::<Seq<char>>::empty());
        assert(views(out@) + Seq::<Seq<char>>::empty() =~= views(out@));
    } else {
        assert(views(out@) + Seq::<Seq<char>>::empty() =~= views(out@));
    }
    out
}

/// The records with a non-blank command, in order.
pub open spec fn with_commands(es: Seq<EntryView>) -> Seq<EntryView>
    decreases es.len(),
{
    if es.len() == 0 {
        es
    } else if is_blank(es[0].0) {
        with_commands(es.drop_first())
    } else {
        seq![es[0]] + with_commands(es.drop_first())
    }
}

/// Drops the records whose command is blank.
pub fn entries_with_commands(parsed: &Vec<HistoryEntry>) -> (r: Vec<HistoryEntry>)
    ensures
        entry_views(r@) == with_commands(entry_views(parsed@)),
{
    let mut out: Vec<HistoryEntry> = Vec::new();
    let mut i: usize = parsed.len();
    let ghost all = entry_views(parsed@);
    assert(all.subrange(parsed@.len() as int, parsed@.len() as int) =~= Seq::<EntryView>::empty());
    while i > 0
        invariant
            i <= parsed@.len(),
            all == entry_views(parsed@),
            entry_views(out@) == with_commands(all.subrange(i as int, all.len() as int)),
        decreases i,
    {
        let ghost tail = all.subrange(i as int, all.len() as int);
        let ghost longer = all.subrange(i - 1, all.len() as int);
        assert(longer[0] == parsed@[i - 1]@);
        assert(longer.drop_first() =~= tail);
        let chars = chars_of(parsed[i - 1].command.as_str());
        if !chars_blank(&chars) {
            let e = parsed[i - 1].clone();
            let ghost before = out@;
            out.insert(0, e);
            assert(entry_views(out@) =~= seq![parsed@[i - 1]@] + entry_views(before));
        }
        i -= 1;
    }
    assert(all.subrange(0, all.len() as int) =~= all);
    out
}

/// The last `n` items of `s` (all of them when there are fewer).
pub open spec fn last_n<T>(s: Seq<T>, n: nat) -> Seq<T> {
    if s.len() > n {
        s.subrange(s.len() - n, s.len() as int)
    } else {
        s
    }
}

/// Where the history file is: `VIEW_HISTORY_FILE` when it is set, else
/// `.view/shell-history.jsonl` under `HOME`; `None` without either.
pub open spec fn history_location(history_file: Option<Seq<char>>, home: Option<Seq<char>>) -> Option<Seq<char>> {
    match history_file {
        Some(f) => Some(f),
        None => match home {
            Some(h) => Some(path_join(h, ".view/shell-history.jsonl"@)),
            None => None,
        },
    }
}

/// Where the history file is (see `history_location`), given the values of
/// `VIEW_HISTORY_FILE` and `HOME`.
pub fn history_file_path(history_file: Option<&str>, home: Option<&str>) -> (r: Option<String>)
    ensures
        opt_text(r) == history_location(opt_str_text(history_file), opt_str_text(home)),
{
    match history_file {
        Some(f) => Some(f.to_owned()),
        None => match home {
            Some(h) => Some(string_of(&join_path(&chars_of(h), &chars_of(".view/shell-history.jsonl")))),
            None => None,
        },
    }
}

/// The view of an optional string slice.
pub open spec fn opt_str_text(o: Option<&str>) -> Option<Seq<char>> {
    match o {
        Some(s) => Some(s@),
        None => None,
    }
}

/// The records after appending one for `command`: the oldest go once more
/// than `RAW_HISTORY_LIMIT` are kept.
pub fn appended_entries(
    entries: Vec<HistoryEntry>,
    command: &str,
    cwd: Option<&str>,
    timestamp_unix_ms: Option<u64>,
) -> (r: Vec<HistoryEntry>)
    ensures
        entry_views(r@) == last_n(
            entry_views(entries@).push((command@, opt_str_text(cwd), timestamp_unix_ms)),
            RAW_HISTORY_LIMIT as nat,
        ),
{
    let mut entries = entries;
    let ghost old_views = entry_views(entries@);
    let cwd_owned = match cwd {
        Some(c) => Some(c.to_owned()),
        None => None,
    };
    entries.push(HistoryEntry { command: command.to_owned(), cwd: cwd_owned, timestamp_unix_ms });
    let ghost pushed = old_views.push((command@, opt_str_text(cwd), timestamp_unix_ms));
    assert(entry_views(entries@) =~= pushed);
    if entries.len() > RAW_HISTORY_LIMIT {
        let start = entries.len() - RAW_HISTORY_LIMIT;
        let ghost full = entries@;
        let kept = entries.split_off(start);
        assert(entry_views(kept@) =~= entry_views(full).subrange(start as int, full.len() as int));
        kept
    } else {
        entries
    }
}

/// The text of the history file holding `lines`: each line followed by `\n`.
pub open spec fn jsonl_text(lines: Seq<Seq<char>>) -> Seq<char>
    decreases lines.len(),
{
    if lines.len() == 0 {
        Seq::empty()
    } else {
        jsonl_text(lines.drop_last()) + lines.last() + seq!['\n']
    }
}

/// Joins encoded records into the history file's text.
pub fn history_file_text(lines: &Vec<String>) -> (r: String)
    ensures
        r@ == jsonl_text(views(lines@)),
{
    let mut r = String::new();
    let mut i: usize = 0;
    while i < lines.len()
        invariant
            i <= lines@.len(),
            r@ == jsonl_text(views(lines@.subrange(0, i as int))),
        decreases lines@.len() - i,
    {
        let ghost pre = views(lines@.subrange(0, i as int));
        push_str(&mut r, lines[i].as_str());
        push_char(&mut r, '\n');
        let ghost next = views(lines@.subrange(0, i + 1));
        assert(next.drop_last() =~= pre);
        assert(next.last() == lines@[i as int]@);
        i += 1;
    }
    assert(lines@.subrange(0, lines@.len() as int) =~= lines@);
    r
}

// ---------------------------------------------------------------------------
// Command history
// ---------------------------------------------------------------------------

/// The command history rebuilt from records: each non-blank command moves to
/// the back (older copies go), keeping the last `HISTORY_LIMIT`.
pub open spec fn command_history(es: Seq<EntryView>) -> Seq<Seq<char>>
    decreases es.len(),
{
    if es.len() == 0 {
        Seq::empty()
    } else {
        let h = command_history(es.drop_last());
        let c = es.last().0;
        if is_blank(c) {
            h
        } else {
            push_recent_unique(h, c, HISTORY_LIMIT as nat)
        }
    }
}

/// Rebuilds the command history from the records of the history file.
pub fn history_from_entries(entries: &[HistoryEntry]) -> (r: VecDeque<String>)
    ensures
        views(r@) == command_history(entry_views(entries@)),
{
    let mut q: VecDeque<String> = VecDeque::new();
    let mut i: usize = 0;
    let ghost all = entry_views(entries@);
    assert(views(q@) =~= command_history(all.subrange(0, 0)));
    while i < entries.len()
        invariant
            i <= entries@.len(),
            all == entry_views(entries@),
            views(q@) == command_history(all.subrange(0, i as int)),
        decreases entries@.len() - i,
    {
        let ghost pre = all.subrange(0, i as int);
        let ghost next = all.subrange(0, i + 1);
        assert(next.drop_last() =~= pre);
        assert(next.last() == entries@[i as int]@);
        let chars = chars_of(entries[i].command.as_str());
        if !chars_blank(&chars) {
            recent_unique_push(&mut q, entries[i].command.clone(), HISTORY_LIMIT);
        }
        i += 1;
    }
    assert(all.subrange(0, all.len() as int) =~= all);
    q
}


// ---------------------------------------------------------------------------
// Paths
// ---------------------------------------------------------------------------

/// Views of a sequence of character vectors.
pub open spec fn vviews(v: Seq<Vec<char>>) -> Seq<Seq<char>> {
    v.map_values(|x: Vec<char>| x@)
}

/// The `/`-separated segments of `s[i..]` when `cur` is the part of the
/// current segment read so far.
pub open spec fn segments_from(s: Seq<char>, i: int, cur: Seq<char>) -> Seq<Seq<char>>
    decreases s.len() - i,
{
    if i < 0 || i >= s.len() {
        seq![cur]
    } else if s[i] == '/' {
        seq![cur] + segments_from(s, i + 1, Seq::empty())
    } else {
        segments_from(s, i + 1, cur.push(s[i]))
    }
}

/// The `/`-separated segments of a path (empty ones included).
pub open spec fn path_segments(s: Seq<char>) -> Seq<Seq<char>> {
    segments_from(s, 0, Seq::empty())
}

/// The directory stack after one segment: empty segments and `.` change
/// nothing, `..` leaves the last directory (if any), a name enters it.
pub open spec fn resolve_step(stack: Seq<Seq<char>>, seg: Seq<char>) -> Seq<Seq<char>> {
    if seg.len() == 0 || seg == seq!['.'] {
        stack
    } else if seg == seq!['.', '.'] {
        if stack.len() > 0 {
            stack.drop_last()
        } else {
            stack
        }
    } else {
        stack.push(seg)
    }
}

/// The directory stack after the segments `segs`, in order.
pub open spec fn resolve_all(stack: Seq<Seq<char>>, segs: Seq<Seq<char>>) -> Seq<Seq<char>>
    decreases segs.len(),
{
    if segs.len() == 0 {
        stack
    } else {
        resolve_all(resolve_step(stack, segs[0]), segs.drop_first())
    }
}

/// Names joined with `/`.
pub open spec fn join_slash(parts: Seq<Seq<char>>) -> Seq<char>
    decreases parts.len(),
{
    if parts.len() == 0 {
        Seq::empty()
    } else if parts.len() == 1 {
        parts[0]
    } else {
        join_slash(parts.drop_last()) + seq!['/'] + parts.last()
    }
}

/// `p` starts at the root directory.
pub open spec fn is_absolute(p: Seq<char>) -> bool {
    p.len() > 0 && p[0] == '/'
}

/// The lexical normal form of a path: `.` and empty segments dropped, each
/// `..` removing the directory before it (nothing above the start), the
/// leading `/` kept.
pub open spec fn normalized_path(p: Seq<char>) -> Seq<char> {
    (if is_absolute(p) {
        seq!['/']
    } else {
        Seq::empty()
    }) + join_slash(resolve_all(Seq::empty(), path_segments(p)))
}

/// `rel` appended to `base` as `Path::join` does: an absolute `rel` replaces
/// `base`, and a `/` is put between them unless `base` is empty or ends in one.
pub open spec fn path_join(base: Seq<char>, rel: Seq<char>) -> Seq<char> {
    if is_absolute(rel) {
        rel
    } else if base.len() == 0 || base.last() == '/' {
        base + rel
    } else {
        base + seq!['/'] + rel
    }
}

/// The last named segment of `segs` (skipping empty ones and `.`).
pub open spec fn last_named(segs: Seq<Seq<char>>) -> Option<Seq<char>>
    decreases segs.len(),
{
    if segs.len() == 0 {
        None
    } else if segs.last().len() == 0 || segs.last() == seq!['.'] {
        last_named(segs.drop_last())
    } else {
        Some(segs.last())
    }
}

/// The final component of a path (`Path::file_name`), empty when there is
/// none or it is `..`.
pub open spec fn file_name(p: Seq<char>) -> Seq<char> {
    match last_named(path_segments(p)) {
        Some(x) => if x == seq!['.', '.'] {
            Seq::empty()
        } else {
            x
        },
        None => Seq::empty(),
    }
}

/// Appends the characters of `s` to `r`.
pub fn append_chars(r: &mut Vec<char>, s: &Vec<char>)
    ensures
        final(r)@ == old(r)@ + s@,
{
    let mut i: usize = 0;
    while i < s.len()
        invariant
            i <= s@.len(),
            r@ == old(r)@ + s@.subrange(0, i as int),
        decreases s@.len() - i,
    {
        r.push(s[i]);
        assert(old(r)@ + s@.subrange(0, i + 1) =~= old(r)@ + s@.subrange(0, i as int) + seq![
            s@[i as int],
        ]);
        i += 1;
    }
    assert(s@.subrange(0, s@.len() as int) =~= s@);
}

fn is_dot(v: &Vec<char>) -> (b: bool)
    ensures
        b == (v@ == seq!['.']),
{
    let b = v.len() == 1 && v[0] == '.';
    assert(b ==> v@ =~= seq!['.']);
    b
}

fn is_dot_dot(v: &Vec<char>) -> (b: bool)
    ensures
        b == (v@ == seq!['.', '.']),
{
    let b = v.len() == 2 && v[0] == '.' && v[1] == '.';
    assert(b ==> v@ =~= seq!['.', '.']);
    b
}

/// Splits a path into its `/`-separated segments.
pub fn split_path_segments(p: &Vec<char>) -> (r: Vec<Vec<char>>)
    ensures
        vviews(r@) == path_segments(p@),
{
    let mut out: Vec<Vec<char>> = Vec::new();
    let mut cur: Vec<char> = Vec::new();
    let mut i: usize = 0;
    assert(vviews(out@) + path_segments(p@) =~= path_segments(p@));
    while i < p.len()
        invariant
            i <= p@.len(),
            path_segments(p@) == vviews(out@) + segments_from(p@, i as int, cur@),
        decreases p@.len() - i,
    {
        if p[i] == '/' {
            let ghost before = vviews(out@);
            let ghost c = cur@;
            let ghost rest = segments_from(p@, i + 1, Seq::empty());
            out.push(cur);
            cur = Vec::new();
            assert(vviews(out@) =~= before.push(c));
            assert(before + (seq![c] + rest) =~= vviews(out@) + rest);
        } else {
            cur.push(p[i]);
        }
        i += 1;
    }
    let ghost before = vviews(out@);
    let ghost c = cur@;
    out.push(cur);
    assert(vviews(out@) =~= before + seq![c]);
    out
}

/// The directory stack of a sequence of segments (see `resolve_all`).
fn resolve_segments(segs: &Vec<Vec<char>>) -> (r: Vec<Vec<char>>)
    ensures
        vviews(r@) == resolve_all(Seq::empty(), vviews(segs@)),
{
    let mut stack: Vec<Vec<char>> = Vec::new();
    let mut k: usize = 0;
    let ghost all = vviews(segs@);
    assert(all.subrange(0, all.len() as int) =~= all);
    assert(vviews(stack@) =~= Seq::<Seq<char>>::empty());
    while k < segs.len()
        invariant
            k <= segs@.len(),
            all == vviews(segs@),
            resolve_all(Seq::empty(), all) == resolve_all(
                vviews(stack@),
                all.subrange(k as int, all.len() as int),
            ),
        decreases segs@.len() - k,
    {
        let ghost rest = all.subrange(k as int, all.len() as int);
        assert(rest[0] == segs@[k as int]@);
        assert(rest.drop_first() =~= all.subrange(k + 1, all.len() as int));
        let ghost before = vviews(stack@);
        let seg = &segs[k];
        if seg.len() == 0 || is_dot(seg) {
        } else if is_dot_dot(seg) {
            if stack.len() > 0 {
                stack.pop();
                assert(vviews(stack@) =~= before.drop_last());
            }
        } else {
            stack.push(crate::text::slice_vec(seg, 0, seg.len()));
            assert(seg@.subrange(0, seg@.len() as int) =~= seg@);
            assert(vviews(stack@) =~= before.push(seg@));
        }
        assert(vviews(stack@) == resolve_step(before, seg@));
        k += 1;
    }
    stack
}

/// Joins names with `/` (see `join_slash`).
fn join_segments(parts: &Vec<Vec<char>>) -> (r: Vec<char>)
    ensures
        r@ == join_slash(vviews(parts@)),
{
    let mut r: Vec<char> = Vec::new();
    let mut k: usize = 0;
    let ghost all = vviews(parts@);
    while k < parts.len()
        invariant
            k <= parts@.len(),
            all == vviews(parts@),
            r@ == join_slash(all.subrange(0, k as int)),
        decreases parts@.len() - k,
    {
        let ghost next = all.subrange(0, k + 1);
        assert(next.drop_last() =~= all.subrange(0, k as int));
        assert(next.last() == parts@[k as int]@);
        if k > 0 {
            r.push('/');
        } else {
            assert(r@ =~= Seq::<char>::empty());
        }
        append_chars(&mut r, &parts[k]);
        if k == 0 {
            assert(r@ =~= next[0]);
        }
        k += 1;
    }
    assert(all.subrange(0, all.len() as int) =~= all);
    r
}

/// The lexical normal form of a path (see `normalized_path`).
pub fn normalized_chars(p: &Vec<char>) -> (r: Vec<char>)
    ensures
        r@ == normalized_path(p@),
{
    let segs = split_path_segments(p);
    let stack = resolve_segments(&segs);
    let joined = join_segments(&stack);
    let mut r: Vec<char> = Vec::new();
    if p.len() > 0 && p[0] == '/' {
        r.push('/');
    }
    append_chars(&mut r, &joined);
    assert(r@ =~= normalized_path(p@));
    r
}

/// The lexical normal form of a path as text.
pub fn normalize_path(path: &str) -> (r: String)
    ensures
        r@ == normalized_path(path@),
{
    string_of(&normalized_chars(&chars_of(path)))
}

/// `rel` appended to `base` (see `path_join`).
pub fn join_path(base: &Vec<char>, rel: &Vec<char>) -> (r: Vec<char>)
    ensures
        r@ == path_join(base@, rel@),
{
    if rel.len() > 0 && rel[0] == '/' {
        return crate::text::slice_vec(rel, 0, rel.len());
    }
    let mut r = crate::text::slice_vec(base, 0, base.len());
    assert(base@.subrange(0, base@.len() as int) =~= base@);
    if !(base.len() == 0 || base[base.len() - 1] == '/') {
        r.push('/');
    }
    append_chars(&mut r, rel);
    r
}

/// The final component of a path (see `file_name`).
pub fn file_name_of(p: &Vec<char>) -> (r: Vec<char>)
    ensures
        r@ == file_name(p@),
{
    let segs = split_path_segments(p);
    let ghost all = vviews(segs@);
    let mut k = segs.len();
    assert(all.subrange(0, all.len() as int) =~= all);
    while k > 0 && (segs[k - 1].len() == 0 || is_dot(&segs[k - 1]))
        invariant
            k <= segs@.len(),
            all == vviews(segs@),
            last_named(all) == last_named(all.subrange(0, k as int)),
        decreases k,
    {
        let ghost pre = all.subrange(0, k as int);
        assert(pre.drop_last() =~= all.subrange(0, k - 1));
        assert(pre.last() == segs@[k - 1]@);
        k -= 1;
    }
    if k == 0 {
        return Vec::new();
    }
    let ghost pre = all.subrange(0, k as int);
    assert(pre.last() == segs@[k - 1]@);
    if is_dot_dot(&segs[k - 1]) {
        Vec::new()
    } else {
        let r = crate::text::slice_vec(&segs[k - 1], 0, segs[k - 1].len());
        assert(segs@[k - 1]@.subrange(0, segs@[k - 1]@.len() as int) =~= segs@[k - 1]@);
        r
    }
}


// ---------------------------------------------------------------------------
// Directory jumps
// ---------------------------------------------------------------------------

/// `cd `, the prefix of a directory change.
pub open spec fn cd_prefix() -> Seq<char> {
    seq!['c', 'd', ' ']
}

/// `builtin `, a prefix the shell allows before `cd`'s argument here.
pub open spec fn builtin_prefix() -> Seq<char> {
    seq!['b', 'u', 'i', 'l', 't', 'i', 'n', ' ']
}

/// The target of a `cd` command: its trimmed argument, unless the command is
/// not a `cd`, the argument is empty, or it is `-`.
pub open spec fn cd_target(command: Seq<char>) -> Option<Seq<char>> {
    if crate::text::starts_with(command, cd_prefix()) {
        let t = trim(command.subrange(3, command.len() as int));
        if t.len() == 0 || t == seq!['-'] {
            None
        } else {
            Some(t)
        }
    } else {
        None
    }
}

/// `v` without one pair of matching surrounding quotes (`'...'` or `"..."`).
pub open spec fn strip_quotes(v: Seq<char>) -> Seq<char> {
    if v.len() >= 2 && ((v[0] == '\'' && v.last() == '\'') || (v[0] == '"' && v.last() == '"')) {
        v.subrange(1, v.len() - 1)
    } else {
        v
    }
}

/// The directory a `cd` to `target` from `cwd` leads to, normalized: `~` and
/// `~/...` go through `home`, absolute targets stand alone, relative ones are
/// joined to `cwd`. `None` without the `home` or `cwd` that is needed.
pub open spec fn resolve_cd(
    cwd: Option<Seq<char>>,
    target: Seq<char>,
    home: Option<Seq<char>>,
) -> Option<Seq<char>> {
    let unprefixed = if crate::text::starts_with(target, builtin_prefix()) {
        target.subrange(8, target.len() as int)
    } else {
        target
    };
    let t = strip_quotes(trim(unprefixed));
    if t.len() == 0 {
        None
    } else if crate::text::starts_with(t, seq!['~', '/']) {
        match home {
            None => None,
            Some(h) => Some(normalized_path(path_join(h, t.subrange(2, t.len() as int)))),
        }
    } else if t == seq!['~'] {
        match home {
            None => None,
            Some(h) => Some(normalized_path(h)),
        }
    } else if is_absolute(t) {
        Some(normalized_path(t))
    } else {
        match cwd {
            None => None,
            Some(c) => Some(normalized_path(path_join(c, t))),
        }
    }
}

/// The directory a history record's command jumps to, if it is a `cd`.
pub open spec fn directory_jump(e: EntryView, home: Option<Seq<char>>) -> Option<Seq<char>> {
    match cd_target(e.0) {
        None => None,
        Some(t) => resolve_cd(e.1, t, home),
    }
}

/// The directory-jump history of a sequence of records: each jump pushed at
/// the back, the oldest dropped once `DIRECTORY_HISTORY_LIMIT` are kept.
pub open spec fn directory_jumps(es: Seq<EntryView>, home: Option<Seq<char>>) -> Seq<Seq<char>>
    decreases es.len(),
{
    if es.len() == 0 {
        Seq::empty()
    } else {
        let j = directory_jumps(es.drop_last(), home);
        match directory_jump(es.last(), home) {
            None => j,
            Some(p) => crate::text::push_capped(j, p, DIRECTORY_HISTORY_LIMIT as nat),
        }
    }
}

fn trimmed_vec(v: &Vec<char>) -> (t: Vec<char>)
    ensures
        t@ == trim(v@),
{
    let (a, b) = trim_bounds(v);
    crate::text::slice_vec(v, a, b)
}

/// The target of a `cd` command (see `cd_target`).
pub fn cd_target_from_command(command: &str) -> (r: Option<String>)
    ensures
        opt_text(r) == cd_target(command@),
{
    let c = chars_of(command);
    let prefix: Vec<char> = vec!['c', 'd', ' '];
    assert(prefix@ =~= cd_prefix());
    if !crate::text::chars_start_with(&c, &prefix) {
        return None;
    }
    let rest = crate::text::slice_vec(&c, 3, c.len());
    let t = trimmed_vec(&rest);
    if t.len() == 0 || (t.len() == 1 && t[0] == '-') {
        assert(t.len() == 1 && t[0] == '-' ==> t@ =~= seq!['-']);
        return None;
    }
    assert(t@ != seq!['-']) by {
        if t@ == seq!['-'] {
            assert(t@.len() == 1 && t@[0] == '-');
        }
    }
    Some(string_of(&t))
}

/// `v` without one pair of matching surrounding quotes (see `strip_quotes`).
fn strip_matching_quotes(v: &Vec<char>) -> (r: Vec<char>)
    ensures
        r@ == strip_quotes(v@),
{
    let n = v.len();
    if n >= 2 && ((v[0] == '\'' && v[n - 1] == '\'') || (v[0] == '"' && v[n - 1] == '"')) {
        crate::text::slice_vec(v, 1, n - 1)
    } else {
        crate::text::slice_vec(v, 0, n)
    }
}

/// The directory a `cd` to `target` from `cwd` leads to (see `resolve_cd`);
/// `home` is the user's home directory, when known.
pub fn resolve_cd_target(cwd: Option<&str>, target: &str, home: Option<&str>) -> (r: Option<
    String,
>)
    ensures
        opt_text(r) == resolve_cd(opt_str_text(cwd), target@, opt_str_text(home)),
{
    let tc = chars_of(target);
    let builtin: Vec<char> = vec!['b', 'u', 'i', 'l', 't', 'i', 'n', ' '];
    assert(builtin@ =~= builtin_prefix());
    let unprefixed = if crate::text::chars_start_with(&tc, &builtin) {
        crate::text::slice_vec(&tc, 8, tc.len())
    } else {
        crate::text::slice_vec(&tc, 0, tc.len())
    };
    assert(tc@.subrange(0, tc@.len() as int) =~= tc@);
    let trimmed = trimmed_vec(&unprefixed);
    let t = strip_matching_quotes(&trimmed);
    if t.len() == 0 {
        return None;
    }
    let tilde_slash: Vec<char> = vec!['~', '/'];
    assert(tilde_slash@ =~= seq!['~', '/']);
    if crate::text::chars_start_with(&t, &tilde_slash) {
        return match home {
            None => None,
            Some(h) => {
                let rel = crate::text::slice_vec(&t, 2, t.len());
                let joined = join_path(&chars_of(h), &rel);
                Some(string_of(&normalized_chars(&joined)))
            },
        };
    }
    if t.len() == 1 && t[0] == '~' {
        assert(t@ =~= seq!['~']);
        return match home {
            None => None,
            Some(h) => Some(string_of(&normalized_chars(&chars_of(h)))),
        };
    }
    assert(t@ != seq!['~']) by {
        if t@ == seq!['~'] {
            assert(t@.len() == 1 && t@[0] == '~');
        }
    }
    if t[0] == '/' {
        return Some(string_of(&normalized_chars(&t)));
    }
    match cwd {
        None => None,
        Some(c) => {
            let joined = join_path(&chars_of(c), &t);
            Some(string_of(&normalized_chars(&joined)))
        },
    }
}

/// The directory a history record's command jumps to (see `directory_jump`).
pub fn resolved_directory_jump(entry: &HistoryEntry, home: Option<&str>) -> (r: Option<String>)
    ensures
        opt_text(r) == directory_jump(entry@, opt_str_text(home)),
{
    let target = match cd_target_from_command(entry.command.as_str()) {
        Some(t) => t,
        None => return None,
    };
    let cwd = match &entry.cwd {
        Some(c) => Some(c.as_str()),
        None => None,
    };
    assert(opt_str_text(cwd) == opt_text(entry.cwd));
    resolve_cd_target(cwd, target.as_str(), home)
}

/// The directory-jump history of the history file's records (see
/// `directory_jumps`); `home` is the user's home directory, when known.
pub fn directory_jump_history_from_entries(entries: &[HistoryEntry], home: Option<&str>) -> (r:
    VecDeque<String>)
    ensures
        views(r@) == directory_jumps(entry_views(entries@), opt_str_text(home)),
{
    let mut jumps: VecDeque<String> = VecDeque::new();
    let mut i: usize = 0;
    let ghost all = entry_views(entries@);
    let ghost h = opt_str_text(home);
    assert(views(jumps@) =~= directory_jumps(all.subrange(0, 0), h));
    while i < entries.len()
        invariant
            i <= entries@.len(),
            all == entry_views(entries@),
            h == opt_str_text(home),
            views(jumps@) == directory_jumps(all.subrange(0, i as int), h),
        decreases entries@.len() - i,
    {
        let ghost pre = all.subrange(0, i as int);
        let ghost next = all.subrange(0, i + 1);
        assert(next.drop_last() =~= pre);
        assert(next.last() == entries@[i as int]@);
        if let Some(path) = resolved_directory_jump(&entries[i], home) {
            let ghost before = jumps@;
            if jumps.len() >= DIRECTORY_HISTORY_LIMIT {
                jumps.pop_front();
                assert(views(jumps@) =~= views(before).drop_first());
            }
            let ghost mid = jumps@;
            jumps.push_back(path);
            assert(views(jumps@) =~= views(mid).push(path@));
        }
        i += 1;
    }
    assert(all.subrange(0, all.len() as int) =~= all);
    jumps
}


// ---------------------------------------------------------------------------
// The best directory jump for a query
// ---------------------------------------------------------------------------

/// How many entries of `h` equal `x`.
pub open spec fn count_of(h: Seq<Seq<char>>, x: Seq<char>) -> nat
    decreases h.len(),
{
    if h.len() == 0 {
        0
    } else {
        count_of(h.drop_last(), x) + if h.last() == x {
            1nat
        } else {
            0nat
        }
    }
}

/// How a path matches a query: its final component starts with the query,
/// its final component contains it, the whole path contains it.
pub open spec fn jump_flags(p: Seq<char>, q: Seq<char>) -> (bool, bool, bool) {
    let b = file_name(p);
    (crate::text::starts_with(b, q), crate::text::contains_seq(b, q), crate::text::contains_seq(p, q))
}

/// `h[i]` is the last visit of its directory.
pub open spec fn last_visit(h: Seq<Seq<char>>, i: int) -> bool {
    forall|j: int| i < j < h.len() ==> h[j] != h[i]
}

/// `h[i]` is a directory that matches `q`, taken at its last visit.
pub open spec fn jump_candidate(h: Seq<Seq<char>>, q: Seq<char>, i: int) -> bool {
    &&& 0 <= i < h.len()
    &&& (jump_flags(h[i], q).0 || jump_flags(h[i], q).1 || jump_flags(h[i], q).2)
    &&& last_visit(h, i)
}

/// 1 for true, 0 for false.
pub open spec fn b2i(b: bool) -> int {
    if b {
        1
    } else {
        0
    }
}

/// The rank of candidate `i`, compared in order: final component starts with
/// the query, final component contains it, path contains it, number of
/// visits, recency of the last visit.
pub open spec fn jump_key(h: Seq<Seq<char>>, q: Seq<char>, i: int) -> (int, int, int, int, int) {
    let f = jump_flags(h[i], q);
    (b2i(f.0), b2i(f.1), b2i(f.2), count_of(h, h[i]) as int, i)
}

/// Lexicographic order of ranks, strict.
pub open spec fn key_lt(a: (int, int, int, int, int), b: (int, int, int, int, int)) -> bool {
    ||| a.0 < b.0
    ||| (a.0 == b.0 && a.1 < b.1)
    ||| (a.0 == b.0 && a.1 == b.1 && a.2 < b.2)
    ||| (a.0 == b.0 && a.1 == b.1 && a.2 == b.2 && a.3 < b.3)
    ||| (a.0 == b.0 && a.1 == b.1 && a.2 == b.2 && a.3 == b.3 && a.4 < b.4)
}

/// Candidate `i` has the highest rank.
pub open spec fn is_best_jump(h: Seq<Seq<char>>, q: Seq<char>, i: int) -> bool {
    &&& jump_candidate(h, q, i)
    &&& forall|j: int|
        #![trigger jump_candidate(h, q, j)]
        jump_candidate(h, q, j) && j != i ==> key_lt(jump_key(h, q, j), jump_key(h, q, i))
}

fn exec_key_lt(a: (bool, bool, bool, usize, usize), b: (bool, bool, bool, usize, usize)) -> (r:
    bool)
    ensures
        r == key_lt(
            (b2i(a.0), b2i(a.1), b2i(a.2), a.3 as int, a.4 as int),
            (b2i(b.0), b2i(b.1), b2i(b.2), b.3 as int, b.4 as int),
        ),
{
    if a.0 != b.0 {
        return !a.0;
    }
    if a.1 != b.1 {
        return !a.1;
    }
    if a.2 != b.2 {
        return !a.2;
    }
    if a.3 != b.3 {
        return a.3 < b.3;
    }
    a.4 < b.4
}

fn visit_count(h: &VecDeque<String>, x: &String) -> (c: usize)
    ensures
        c == count_of(views(h@), x@),
{
    let mut c: usize = 0;
    let mut j: usize = 0;
    let ghost hv = views(h@);
    while j < h.len()
        invariant
            j <= h@.len(),
            hv == views(h@),
            c == count_of(hv.subrange(0, j as int), x@),
            c <= j,
        decreases h@.len() - j,
    {
        let ghost next = hv.subrange(0, j + 1);
        assert(next.drop_last() =~= hv.subrange(0, j as int));
        assert(next.last() == h@[j as int]@);
        if h[j] == *x {
            c += 1;
        }
        j += 1;
    }
    assert(hv.subrange(0, hv.len() as int) =~= hv);
    c
}

fn is_last_visit(h: &VecDeque<String>, i: usize) -> (b: bool)
    requires
        i < h@.len(),
    ensures
        b == last_visit(views(h@), i as int),
{
    let n = h.len();
    let mut j = i + 1;
    while j < n
        invariant
            i < j <= h@.len(),
            n == h@.len(),
            forall|k: int| i < k < j ==> h@[k]@ != h@[i as int]@,
        decreases h@.len() - j,
    {
        if h[j] == h[i] {
            assert(views(h@)[j as int] == views(h@)[i as int]);
            return false;
        }
        j += 1;
    }
    true
}

/// The directory of the history that best matches `query` (trimmed): among
/// the directories whose path or final component matches, the one of highest
/// rank (see `jump_key`). `None` for a blank query or when nothing matches.
pub fn best_directory_jump_match(directory_history: &VecDeque<String>, query: &str) -> (r: Option<
    String,
>)
    ensures
        r is None <==> (trim(query@).len() == 0 || forall|i: int|
            !jump_candidate(views(directory_history@), trim(query@), i)),
        r matches Some(s) ==> exists|i: int|
            is_best_jump(views(directory_history@), trim(query@), i) && views(
                directory_history@,
            )[i] == s@,
{
    let q = crate::text::trimmed_chars(query);
    if q.len() == 0 {
        return None;
    }
    let ghost hv = views(directory_history@);
    let ghost qv = q@;
    let n = directory_history.len();
    let mut best: Option<usize> = None;
    let mut best_key: (bool, bool, bool, usize, usize) = (false, false, false, 0, 0);
    let mut i: usize = 0;
    while i < n
        invariant
            n == directory_history@.len(),
            hv == views(directory_history@),
            qv == q@,
            i <= n,
            best matches Some(b) ==> {
                &&& b < i
                &&& jump_candidate(hv, qv, b as int)
                &&& jump_key(hv, qv, b as int) == (
                    b2i(best_key.0),
                    b2i(best_key.1),
                    b2i(best_key.2),
                    best_key.3 as int,
                    best_key.4 as int,
                )
                &&& forall|j: int|
                    #![trigger jump_candidate(hv, qv, j)]
                    0 <= j < i && jump_candidate(hv, qv, j) && j != b ==> key_lt(
                        jump_key(hv, qv, j),
                        jump_key(hv, qv, b as int),
                    )
            },
            best is None ==> forall|j: int| 0 <= j < i ==> !jump_candidate(hv, qv, j),
        decreases n - i,
    {
        let path = &directory_history[i];
        let p = chars_of(path.as_str());
        let base = file_name_of(&p);
        let bp = crate::text::chars_start_with(&base, &q);
        let bc = crate::text::chars_contain(&base, &q);
        let pc = crate::text::chars_contain(&p, &q);
        assert(hv[i as int] == p@);
        assert(jump_flags(hv[i as int], qv) == (bp, bc, pc));
        if (bp || bc || pc) && is_last_visit(directory_history, i) {
            let count = visit_count(directory_history, path);
            let key = (bp, bc, pc, count, i);
            assert(jump_key(hv, qv, i as int) == (b2i(bp), b2i(bc), b2i(pc), count as int, i as int));
            let better = match best {
                None => true,
                Some(_) => exec_key_lt(best_key, key),
            };
            if better {
                proof {
                    if best is Some {
                        let b = best->0;
                        assert forall|j: int|
                            #![trigger jump_candidate(hv, qv, j)]
                            0 <= j < i + 1 && jump_candidate(hv, qv, j) && j != i implies key_lt(
                            jump_key(hv, qv, j),
                            jump_key(hv, qv, i as int),
                        ) by {
                            if j != b {
                                assert(key_lt(jump_key(hv, qv, j), jump_key(hv, qv, b as int)));
                            }
                        }
                    }
                }
                best = Some(i);
                best_key = key;
            } else {
                proof {
                    let b = best->0;
                    assert(!key_lt(jump_key(hv, qv, b as int), jump_key(hv, qv, i as int)));
                    assert(key_lt(jump_key(hv, qv, i as int), jump_key(hv, qv, b as int)));
                }
            }
        }
        i += 1;
    }
    match best {
        None => None,
        Some(b) => {
            assert(is_best_jump(hv, qv, b as int));
            Some(directory_history[b].clone())
        },
    }
}

/// Every entry of the history has a last visit of the same directory at or after it.
proof fn lemma_last_visit_exists(h: Seq<Seq<char>>, j: int)
    requires
        0 <= j < h.len(),
    ensures
        exists|m: int| j <= m < h.len() && h[m] == h[j] && last_visit(h, m),
    decreases h.len() - j,
{
    if !last_visit(h, j) {
        let m = choose|m: int| j < m < h.len() && h[m] == h[j];
        lemma_last_visit_exists(h, m);
        let m2 = choose|m2: int| m <= m2 < h.len() && h[m2] == h[m] && last_visit(h, m2);
        assert(j <= m2 < h.len() && h[m2] == h[j] && last_visit(h, m2));
    } else {
        assert(j <= j < h.len() && h[j] == h[j] && last_visit(h, j));
    }
}

/// The directory jump prefers final components: when some visited directory's
/// final component (`Path::file_name`) starts with the query, so does the
/// chosen one's; and when some visited directory's final component contains
/// the query, with the same answer to "starts with", so does the chosen one's,
/// whatever only a parent directory of another path holds.
pub proof fn law_jump_prefers_final_component(h: Seq<Seq<char>>, q: Seq<char>, i: int, j: int)
    requires
        is_best_jump(h, q, i),
        0 <= j < h.len(),
    ensures
        crate::text::starts_with(file_name(h[j]), q) ==> crate::text::starts_with(file_name(h[i]), q),
        crate::text::contains_seq(file_name(h[j]), q) && crate::text::starts_with(file_name(h[j]), q)
            == crate::text::starts_with(file_name(h[i]), q) ==> crate::text::contains_seq(file_name(h[i]), q),
{
    lemma_last_visit_exists(h, j);
    let m = choose|m: int| j <= m < h.len() && h[m] == h[j] && last_visit(h, m);
    if crate::text::starts_with(file_name(h[j]), q) || crate::text::contains_seq(file_name(h[j]), q) {
        assert(jump_candidate(h, q, m));
        if m != i {
            assert(key_lt(jump_key(h, q, m), jump_key(h, q, i)));
        }
    }
}

/// The directory jump for `query` returns a directory whose final component
/// starts with the (trimmed) query when any visited one does, and one whose
/// final component contains it when any visited one does with the same
/// answer to "starts with".
pub proof fn law_best_jump_result(h: Seq<Seq<char>>, query: Seq<char>, r: Seq<char>, j: int)
    requires
        exists|i: int| is_best_jump(h, trim(query), i) && h[i] == r,
        0 <= j < h.len(),
    ensures
        crate::text::starts_with(file_name(h[j]), trim(query)) ==> crate::text::starts_with(file_name(r), trim(query)),
        crate::text::contains_seq(file_name(h[j]), trim(query)) && crate::text::starts_with(file_name(h[j]), trim(query))
            == crate::text::starts_with(file_name(r), trim(query)) ==> crate::text::contains_seq(file_name(r), trim(query)),
{
    let i = choose|i: int| is_best_jump(h, trim(query), i) && h[i] == r;
    law_jump_prefers_final_component(h, trim(query), i, j);
}

/// Among directories that match the query in the same ways (final component
/// starts with it, final component contains it, path contains it), the jump
/// takes one visited most often, and among those the one visited last.
pub proof fn law_jump_tie_breaks(h: Seq<Seq<char>>, q: Seq<char>, i: int, j: int)
    requires
        is_best_jump(h, q, i),
        0 <= j < h.len(),
        last_visit(h, j),
        h[j] != h[i],
        crate::text::starts_with(file_name(h[j]), q) == crate::text::starts_with(file_name(h[i]), q),
        crate::text::contains_seq(file_name(h[j]), q) == crate::text::contains_seq(file_name(h[i]), q),
        crate::text::contains_seq(h[j], q) == crate::text::contains_seq(h[i], q),
    ensures
        count_of(h, h[j]) <= count_of(h, h[i]),
        count_of(h, h[j]) == count_of(h, h[i]) ==> j < i,
{
    assert(jump_flags(h[j], q) == jump_flags(h[i], q));
    assert(jump_candidate(h, q, j));
    assert(key_lt(jump_key(h, q, j), jump_key(h, q, i)));
}

proof fn lemma_segments_no_slash(s: Seq<char>, i: int, cur: Seq<char>)
    requires
        0 <= i <= s.len(),
        forall|k: int| i <= k < s.len() ==> s[k] != '/',
    ensures
        segments_from(s, i, cur) == seq![cur + s.subrange(i, s.len() as int)],
    decreases s.len() - i,
{
    if i < s.len() {
        lemma_segments_no_slash(s, i + 1, cur.push(s[i]));
        assert(cur.push(s[i]) + s.subrange(i + 1, s.len() as int) =~= cur + s.subrange(i, s.len() as int));
    } else {
        assert(cur + s.subrange(i, s.len() as int) =~= cur);
    }
}

proof fn lemma_segments_last(s: Seq<char>, i: int, k: int, cur: Seq<char>)
    requires
        0 <= i <= k < s.len(),
        s[k] == '/',
        forall|m: int| k < m < s.len() ==> s[m] != '/',
    ensures
        segments_from(s, i, cur).len() > 0,
        segments_from(s, i, cur).last() == s.subrange(k + 1, s.len() as int),
    decreases k - i,
{
    if i == k {
        lemma_segments_no_slash(s, k + 1, Seq::empty());
        assert(Seq::<char>::empty() + s.subrange(k + 1, s.len() as int) =~= s.subrange(k + 1, s.len() as int));
    } else if s[i] == '/' {
        lemma_segments_last(s, i + 1, k, Seq::empty());
    } else {
        lemma_segments_last(s, i + 1, k, cur.push(s[i]));
    }
}

/// The final component of `dir/name` is `name`, for a name without `/`
/// that is neither empty nor `.` nor `..` (as `Path::file_name` gives).
pub proof fn law_file_name_is_last_component(dir: Seq<char>, name: Seq<char>)
    requires
        name.len() > 0,
        name != seq!['.'],
        name != seq!['.', '.'],
        forall|m: int| 0 <= m < name.len() ==> name[m] != '/',
    ensures
        file_name(dir + seq!['/'] + name) == name,
{
    let p = dir + seq!['/'] + name;
    let k = dir.len() as int;
    assert(p[k] == '/');
    assert forall|m: int| k < m < p.len() implies p[m] != '/' by {
        assert(p[m] == name[m - k - 1]);
    }
    lemma_segments_last(p, 0, k, Seq::empty());
    assert(p.subrange(k + 1, p.len() as int) =~= name);
}

} // verus!
