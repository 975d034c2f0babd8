//! Search highlights in a formatted line: the line's text is cut at every
//! boundary of its ranges, and each piece keeps the format of the section it
//! lies in, marked as the active match, another match, or plain text.
use vstd::prelude::*;
use std::ops::Range;

verus! {

/// How a piece of text is highlighted.
#[derive(Debug, Clone, Copy, PartialEq, Eq, Structural)]
pub enum HighlightKind {
    Plain,
    Match,
    Active,
}

/// A piece of a formatted line: its byte range, the section whose format it
/// takes, and its highlight.
#[derive(Debug, Clone, Copy, PartialEq, Eq, Structural)]
pub struct HighlightPiece {
    pub start: usize,
    pub end: usize,
    pub section: usize,
    pub kind: HighlightKind,
}

/// `p` is one of the ends of `r`.
pub open spec fn is_end_of(r: Range<usize>, p: usize) -> bool {
    r.start == p || r.end == p
}

/// `r` holds all of `start..end`.
pub open spec fn holds(r: Range<usize>, start: usize, end: usize) -> bool {
    r.start <= start && r.end >= end
}

/// The places where the text is cut: its two ends and both ends of every
/// match and of the active match.
pub open spec fn cut_points(text_len: usize, ranges: Seq<Range<usize>>, active: Option<Range<usize>>) -> Set<usize> {
    Set::new(
        |p: usize|
            p == 0 || p == text_len || (exists|i: int|
                0 <= i < ranges.len() && #[trigger] is_end_of(ranges[i], p)) || (
            active matches Some(a) && is_end_of(a, p)),
    )
}

/// Strictly increasing.
pub open spec fn strictly_sorted(s: Seq<usize>) -> bool {
    forall|i: int, j: int| 0 <= i < j < s.len() ==> s[i] < s[j]
}

/// The first section, from `from` on, that holds all of `start..end`.
pub open spec fn covering_section(sections: Seq<Range<usize>>, start: usize, end: usize, from: int) -> Option<int>
    decreases sections.len() - from,
{
    if from < 0 || from >= sections.len() {
        None
    } else if sections[from].start <= start && sections[from].end >= end {
        Some(from)
    } else {
        covering_section(sections, start, end, from + 1)
    }
}

/// How `start..end` is highlighted: active when the active match holds it,
/// a match when some match holds it, else plain.
pub open spec fn highlight_of(
    ranges: Seq<Range<usize>>,
    active: Option<Range<usize>>,
    start: usize,
    end: usize,
) -> HighlightKind {
    if active matches Some(a) && holds(a, start, end) {
        HighlightKind::Active
    } else if exists|i: int| 0 <= i < ranges.len() && #[trigger] holds(ranges[i], start, end) {
        HighlightKind::Match
    } else {
        HighlightKind::Plain
    }
}

/// The pieces between the first `n` + 1 cut points: each pair of neighbouring
/// points whose stretch some section holds.
pub open spec fn pieces_upto(
    points: Seq<usize>,
    n: int,
    sections: Seq<Range<usize>>,
    ranges: Seq<Range<usize>>,
    active: Option<Range<usize>>,
) -> Seq<HighlightPiece>
    decreases n,
{
    if n <= 0 {
        Seq::empty()
    } else {
        let start = points[n - 1];
        let end = points[n];
        let before = pieces_upto(points, n - 1, sections, ranges, active);
        match covering_section(sections, start, end, 0) {
            Some(j) => before.push(
                HighlightPiece { start, end, section: j as usize, kind: highlight_of(ranges, active, start, end) },
            ),
            None => before,
        }
    }
}

/// Inserts `p` into a strictly sorted list, unless it is there already.
fn insert_point(points: &mut Vec<usize>, p: usize)
    requires
        strictly_sorted(old(points)@),
    ensures
        strictly_sorted(final(points)@),
        forall|x: usize| final(points)@.contains(x) <==> (old(points)@.contains(x) || x == p),
{
    let ghost before = points@;
    let mut i: usize = 0;
    while i < points.len() && points[i] < p
        invariant
            i <= points@.len(),
            points@ == before,
            forall|k: int| 0 <= k < i ==> points@[k] < p,
        decreases points@.len() - i,
    {
        i += 1;
    }
    if i < points.len() && points[i] == p {
        return;
    }
    points.insert(i, p);
    proof {
        let after = points@;
        assert(after =~= before.subrange(0, i as int).push(p) + before.subrange(i as int, before.len() as int));
        assert forall|a: int, b: int| 0 <= a < b < after.len() implies after[a] < after[b] by {
            if b < i {
                assert(after[a] == before[a] && after[b] == before[b]);
            } else if b == i {
                assert(after[a] == before[a]);
            } else if a < i {
                assert(after[a] == before[a] && after[b] == before[b - 1]);
                assert(before[b - 1] >= p);
            } else if a == i {
                assert(after[b] == before[b - 1]);
                assert(before[b - 1] >= before[i as int]);
            } else {
                assert(after[a] == before[a - 1] && after[b] == before[b - 1]);
            }
        }
        assert forall|x: usize| after.contains(x) <==> (before.contains(x) || x == p) by {
            if after.contains(x) {
                let k = choose|k: int| 0 <= k < after.len() && after[k] == x;
                if k < i {
                    assert(before[k] == x);
                } else if k > i {
                    assert(before[k - 1] == x);
                }
            }
            if before.contains(x) {
                let k = choose|k: int| 0 <= k < before.len() && before[k] == x;
                if k < i {
                    assert(after[k] == x);
                } else {
                    assert(after[k + 1] == x);
                }
            }
            if x == p {
                assert(after[i as int] == p);
            }
        }
    }
}

/// The first section that holds all of `start..end` (see `covering_section`).
fn find_covering_section(sections: &[Range<usize>], start: usize, end: usize) -> (r: Option<usize>)
    ensures
        match r {
            Some(j) => covering_section(sections@, start, end, 0) == Some(j as int),
            None => covering_section(sections@, start, end, 0) is None,
        },
{
    let mut j: usize = 0;
    while j < sections.len()
        invariant
            j <= sections@.len(),
            covering_section(sections@, start, end, 0) == covering_section(sections@, start, end, j as int),
        decreases sections@.len() - j,
    {
        if sections[j].start <= start && sections[j].end >= end {
            return Some(j);
        }
        j += 1;
    }
    None
}

/// How `start..end` is highlighted (see `highlight_of`).
fn highlight_kind(ranges: &[Range<usize>], active: &Option<Range<usize>>, start: usize, end: usize) -> (k:
    HighlightKind)
    ensures
        k == highlight_of(ranges@, *active, start, end),
{
    if let Some(a) = active {
        if a.start <= start && a.end >= end {
            return HighlightKind::Active;
        }
    }
    let mut i: usize = 0;
    while i < ranges.len()
        invariant
            i <= ranges@.len(),
            !(*active matches Some(a) && holds(a, start, end)),
            forall|k: int| 0 <= k < i ==> !#[trigger] holds(ranges@[k], start, end),
        decreases ranges@.len() - i,
    {
        if ranges[i].start <= start && ranges[i].end >= end {
            assert(holds(ranges@[i as int], start, end));
            return HighlightKind::Match;
        }
        i += 1;
    }
    HighlightKind::Plain
}

/// Cuts a formatted line of `text_len` bytes, made of `sections`, at the
/// boundaries of the search matches and of the active match, and says how
/// each piece is highlighted (see `pieces_upto`); `None`, leaving the line as
/// it is, without ranges.
pub fn match_highlight_pieces(
    text_len: usize,
    sections: &[Range<usize>],
    ranges: &[Range<usize>],
    active: Option<Range<usize>>,
) -> (r: Option<Vec<HighlightPiece>>)
    ensures
        ranges@.len() == 0 <==> r is None,
        r matches Some(pieces) ==> exists|points: Seq<usize>|
            #[trigger] strictly_sorted(points) && (forall|x: usize|
                points.contains(x) <==> cut_points(text_len, ranges@, active).contains(x)) && pieces@
                == pieces_upto(points, points.len() - 1, sections@, ranges@, active),
{
    if ranges.len() == 0 {
        return None;
    }
    let mut points: Vec<usize> = Vec::new();
    insert_point(&mut points, 0);
    insert_point(&mut points, text_len);
    let mut i: usize = 0;
    while i < ranges.len()
        invariant
            i <= ranges@.len(),
            strictly_sorted(points@),
            forall|x: usize|
                points@.contains(x) <==> (x == 0 || x == text_len || exists|k: int|
                    0 <= k < i && #[trigger] is_end_of(ranges@[k], x)),
        decreases ranges@.len() - i,
    {
        let ghost before = points@;
        let m_start = ranges[i].start;
        let m_end = ranges[i].end;
        insert_point(&mut points, m_start);
        insert_point(&mut points, m_end);
        proof {
            assert forall|x: usize|
                points@.contains(x) <==> (x == 0 || x == text_len || exists|k: int|
                    0 <= k < i + 1 && #[trigger] is_end_of(ranges@[k], x)) by {
                assert(points@.contains(x) <==> (before.contains(x) || x == m_start || x == m_end));
                assert(before.contains(x) <==> (x == 0 || x == text_len || exists|k: int|
                    0 <= k < i && #[trigger] is_end_of(ranges@[k], x)));
                if exists|k: int| 0 <= k < i + 1 && #[trigger] is_end_of(ranges@[k], x) {
                    let k = choose|k: int| 0 <= k < i + 1 && #[trigger] is_end_of(ranges@[k], x);
                    if k < i {
                        assert(exists|k2: int| 0 <= k2 < i && #[trigger] is_end_of(ranges@[k2], x));
                    } else {
                        assert(x == m_start || x == m_end);
                    }
                }
                if x == m_start || x == m_end {
                    assert(is_end_of(ranges@[i as int], x));
                }
                if exists|k: int| 0 <= k < i && #[trigger] is_end_of(ranges@[k], x) {
                    let k = choose|k: int| 0 <= k < i && #[trigger] is_end_of(ranges@[k], x);
                    assert(0 <= k < i + 1 && is_end_of(ranges@[k], x));
                }
            }
        }
        i += 1;
    }
    let ghost mid = points@;
    if let Some(a) = &active {
        insert_point(&mut points, a.start);
        insert_point(&mut points, a.end);
    }
    proof {
        assert forall|x: usize| points@.contains(x) <==> cut_points(text_len, ranges@, active).contains(x) by {
            assert(mid.contains(x) <==> (x == 0 || x == text_len || exists|k: int|
                0 <= k < ranges@.len() && #[trigger] is_end_of(ranges@[k], x)));
            match active {
                Some(a) => {
                    assert(points@.contains(x) <==> (mid.contains(x) || x == a.start || x == a.end));
                },
                None => {
                    assert(points@ == mid);
                },
            }
        }
        assert(points@.contains(0usize));
    }
    let mut pieces: Vec<HighlightPiece> = Vec::new();
    let mut k: usize = 1;
    while k < points.len()
        invariant
            1 <= k <= points@.len(),
            strictly_sorted(points@),
            forall|x: usize| points@.contains(x) <==> cut_points(text_len, ranges@, active).contains(x),
            pieces@ == pieces_upto(points@, k - 1, sections@, ranges@, active),
        decreases points@.len() - k,
    {
        let start = points[k - 1];
        let end = points[k];
        if let Some(j) = find_covering_section(sections, start, end) {
            let kind = highlight_kind(ranges, &active, start, end);
            pieces.push(HighlightPiece { start, end, section: j, kind });
        }
        k += 1;
    }
    assert(strictly_sorted(points@));
    Some(pieces)
}

} // verus!
