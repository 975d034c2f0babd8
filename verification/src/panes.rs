//! Split-pane layout tree for terminal sessions.
//!
//! A `PaneTree` is a binary tree whose leaves are terminal session ids. The
//! order of the leaves (left to right) is the focus order. Geometry (turning
//! the tree into rectangles) is floating point work and is done by the
//! application; the tree itself carries the split ratio in thousandths.
use vstd::prelude::*;

verus! {

/// Direction in which a pane is split.
#[derive(Debug, Clone, Copy, PartialEq, Eq, Structural)]
pub enum SplitAxis {
    Horizontal,
    Vertical,
}

/// Share of the first child of a fresh split, in thousandths (one half).
pub const DEFAULT_SPLIT_RATIO_PER_MILLE: u16 = 500;

/// A node of the pane tree: a terminal session, or a split of two sub-trees.
#[derive(Debug)]
pub enum PaneNode {
    Leaf { session_id: usize },
    Split { axis: SplitAxis, ratio_per_mille: u16, first: Box<PaneNode>, second: Box<PaneNode> },
}

/// `s` with every occurrence of `t` left out.
pub open spec fn drop_id(s: Seq<usize>, t: usize) -> Seq<usize>
    decreases s.len(),
{
    if s.len() == 0 {
        s
    } else {
        let rest = drop_id(s.drop_first(), t);
        if s[0] == t {
            rest
        } else {
            seq![s[0]] + rest
        }
    }
}

/// Session id `x` after session `removed` has gone: ids above it move down by one.
pub open spec fn shift_id(x: usize, removed: usize) -> usize {
    if x > removed {
        (x - 1) as usize
    } else {
        x
    }
}

/// Every id of `s` shifted after the removal of `removed`.
pub open spec fn shift_ids(s: Seq<usize>, removed: usize) -> Seq<usize> {
    s.map_values(|x: usize| shift_id(x, removed))
}

/// `s` with `n` inserted right after the first occurrence of `t` (unchanged if `t` is absent).
pub open spec fn insert_after(s: Seq<usize>, t: usize, n: usize) -> Seq<usize>
    decreases s.len(),
{
    if s.len() == 0 {
        s
    } else if s[0] == t {
        seq![t, n] + s.drop_first()
    } else {
        seq![s[0]] + insert_after(s.drop_first(), t, n)
    }
}

/// Leaves of an optional sub-tree.
pub open spec fn opt_leaves(node: Option<PaneNode>) -> Seq<usize> {
    match node {
        Some(n) => n.leaves(),
        None => Seq::empty(),
    }
}

/// The session order after `removed` is closed: the id left out and the ids above it shifted.
pub open spec fn ids_after_removal(s: Seq<usize>, removed: usize) -> Seq<usize> {
    shift_ids(drop_id(s, removed), removed)
}

/// Position of `x` in `s` (meaningful when `s` holds `x`).
pub open spec fn position_of(s: Seq<usize>, x: usize) -> int {
    choose|i: int| 0 <= i < s.len() && s[i] == x
}

/// The session after `active` in focus order `ids`, wrapping around.
pub open spec fn next_focus(ids: Seq<usize>, active: usize) -> usize {
    ids[(position_of(ids, active) + 1) % (ids.len() as int)]
}

/// The session before `active` in focus order `ids`, wrapping around.
pub open spec fn previous_focus(ids: Seq<usize>, active: usize) -> usize {
    let p = position_of(ids, active);
    if p == 0 {
        ids[ids.len() - 1]
    } else {
        ids[p - 1]
    }
}

impl PaneNode {
    /// Session ids of the leaves, left to right.
    pub open spec fn leaves(self) -> Seq<usize>
        decreases self,
    {
        match self {
            PaneNode::Leaf { session_id } => seq![session_id],
            PaneNode::Split { first, second, .. } => first.leaves() + second.leaves(),
        }
    }

    /// The tree after the first leaf `target` is split into `target` and `new_id`.
    pub open spec fn split_spec(self, target: usize, axis: SplitAxis, new_id: usize) -> PaneNode
        decreases self,
    {
        match self {
            PaneNode::Leaf { session_id } => {
                if session_id == target {
                    PaneNode::Split {
                        axis,
                        ratio_per_mille: DEFAULT_SPLIT_RATIO_PER_MILLE,
                        first: Box::new(PaneNode::Leaf { session_id }),
                        second: Box::new(PaneNode::Leaf { session_id: new_id }),
                    }
                } else {
                    self
                }
            },
            PaneNode::Split { axis: a, ratio_per_mille: r, first, second } => {
                if first.leaves().contains(target) {
                    PaneNode::Split {
                        axis: a,
                        ratio_per_mille: r,
                        first: Box::new(first.split_spec(target, axis, new_id)),
                        second,
                    }
                } else {
                    PaneNode::Split {
                        axis: a,
                        ratio_per_mille: r,
                        first,
                        second: Box::new(second.split_spec(target, axis, new_id)),
                    }
                }
            },
        }
    }

    /// The tree with every leaf `target` removed; a split that loses one side collapses.
    pub open spec fn without_spec(self, target: usize) -> Option<PaneNode>
        decreases self,
    {
        match self {
            PaneNode::Leaf { session_id } => {
                if session_id == target {
                    None
                } else {
                    Some(PaneNode::Leaf { session_id })
                }
            },
            PaneNode::Split { axis, ratio_per_mille, first, second } => {
                match (first.without_spec(target), second.without_spec(target)) {
                    (Some(l), Some(r)) => Some(
                        PaneNode::Split {
                            axis,
                            ratio_per_mille,
                            first: Box::new(l),
                            second: Box::new(r),
                        },
                    ),
                    (Some(n), None) => Some(n),
                    (None, Some(n)) => Some(n),
                    (None, None) => None,
                }
            },
        }
    }

    /// The tree with every leaf id shifted after the removal of `removed`.
    pub open spec fn reindex_spec(self, removed: usize) -> PaneNode
        decreases self,
    {
        match self {
            PaneNode::Leaf { session_id } => PaneNode::Leaf {
                session_id: shift_id(session_id, removed),
            },
            PaneNode::Split { axis, ratio_per_mille, first, second } => PaneNode::Split {
                axis,
                ratio_per_mille,
                first: Box::new(first.reindex_spec(removed)),
                second: Box::new(second.reindex_spec(removed)),
            },
        }
    }

    proof fn lemma_leaves_nonempty(self)
        ensures
            self.leaves().len() >= 1,
            self is Split ==> self.leaves().len() >= 2,
        decreases self,
    {
        match self {
            PaneNode::Leaf { .. } => {},
            PaneNode::Split { first, second, .. } => {
                first.lemma_leaves_nonempty();
                second.lemma_leaves_nonempty();
            },
        }
    }

    proof fn lemma_split_absent(self, target: usize, axis: SplitAxis, new_id: usize)
        requires
            !self.leaves().contains(target),
        ensures
            self.split_spec(target, axis, new_id) == self,
        decreases self,
    {
        match self {
            PaneNode::Leaf { session_id } => {
                assert(self.leaves()[0] == session_id);
            },
            PaneNode::Split { first, second, .. } => {
                assert forall|i: int| 0 <= i < first.leaves().len() implies first.leaves()[i]
                    != target by {
                    assert(self.leaves()[i] == first.leaves()[i]);
                }
                assert forall|i: int| 0 <= i < second.leaves().len() implies second.leaves()[i]
                    != target by {
                    assert(self.leaves()[first.leaves().len() + i] == second.leaves()[i]);
                }
                first.lemma_split_absent(target, axis, new_id);
                second.lemma_split_absent(target, axis, new_id);
            },
        }
    }

    proof fn lemma_split_leaves(self, target: usize, axis: SplitAxis, new_id: usize)
        ensures
            self.split_spec(target, axis, new_id).leaves() == insert_after(
                self.leaves(),
                target,
                new_id,
            ),
        decreases self,
    {
        match self {
            PaneNode::Leaf { session_id } => {
                assert(seq![session_id].drop_first() =~= Seq::<usize>::empty());
                assert(seq![session_id][0] == session_id);
                let l1 = PaneNode::Leaf { session_id };
                let l2 = PaneNode::Leaf { session_id: new_id };
                assert(l1.leaves() == seq![session_id]);
                assert(l2.leaves() == seq![new_id]);
                if session_id == target {
                    assert(seq![session_id] + seq![new_id] =~= seq![target, new_id] + seq![
                        session_id,
                    ].drop_first());
                } else {
                    assert(insert_after(seq![session_id].drop_first(), target, new_id)
                        =~= Seq::<usize>::empty());
                    assert(seq![session_id] + Seq::<usize>::empty() =~= seq![session_id]);
                }
            },
            PaneNode::Split { first, second, .. } => {
                first.lemma_split_leaves(target, axis, new_id);
                second.lemma_split_leaves(target, axis, new_id);
                lemma_insert_after_concat(first.leaves(), second.leaves(), target, new_id);
                if !first.leaves().contains(target) {
                    first.lemma_split_absent(target, axis, new_id);
                }
            },
        }
    }

    proof fn lemma_without_leaves(self, target: usize)
        ensures
            opt_leaves(self.without_spec(target)) == drop_id(self.leaves(), target),
        decreases self,
    {
        match self {
            PaneNode::Leaf { session_id } => {
                assert(seq![session_id].drop_first() =~= Seq::<usize>::empty());
                assert(drop_id(Seq::<usize>::empty(), target) == Seq::<usize>::empty());
                assert(seq![session_id] + Seq::<usize>::empty() =~= seq![session_id]);
            },
            PaneNode::Split { first, second, .. } => {
                first.lemma_without_leaves(target);
                second.lemma_without_leaves(target);
                lemma_drop_id_concat(first.leaves(), second.leaves(), target);
                assert(Seq::<usize>::empty() + drop_id(second.leaves(), target) =~= drop_id(
                    second.leaves(),
                    target,
                ));
                assert(drop_id(first.leaves(), target) + Seq::<usize>::empty() =~= drop_id(
                    first.leaves(),
                    target,
                ));
                match (first.without_spec(target), second.without_spec(target)) {
                    (Some(l), None) => {
                        assert(opt_leaves(second.without_spec(target)) =~= Seq::<usize>::empty());
                    },
                    (None, Some(r)) => {
                        assert(opt_leaves(first.without_spec(target)) =~= Seq::<usize>::empty());
                    },
                    (None, None) => {
                        assert(opt_leaves(second.without_spec(target)) =~= Seq::<usize>::empty());
                    },
                    _ => {},
                }
            },
        }
    }

    proof fn lemma_reindex_leaves(self, removed: usize)
        ensures
            self.reindex_spec(removed).leaves() == shift_ids(self.leaves(), removed),
        decreases self,
    {
        match self {
            PaneNode::Leaf { session_id } => {
                assert(shift_ids(seq![session_id], removed) =~= seq![
                    shift_id(session_id, removed),
                ]);
            },
            PaneNode::Split { first, second, .. } => {
                first.lemma_reindex_leaves(removed);
                second.lemma_reindex_leaves(removed);
                assert(shift_ids(first.leaves() + second.leaves(), removed) =~= shift_ids(
                    first.leaves(),
                    removed,
                ) + shift_ids(second.leaves(), removed));
            },
        }
    }

    /// Appends the session ids of the leaves, left to right, to `ids`.
    fn collect_session_ids(&self, ids: &mut Vec<usize>)
        ensures
            final(ids)@ == old(ids)@ + self.leaves(),
        decreases self,
    {
        match self {
            PaneNode::Leaf { session_id } => {
                ids.push(*session_id);
            },
            PaneNode::Split { first, second, .. } => {
                first.collect_session_ids(ids);
                second.collect_session_ids(ids);
                assert(old(ids)@ + first.leaves() + second.leaves() =~= old(ids)@ + (
                first.leaves() + second.leaves()));
            },
        }
    }

    /// Whether some leaf holds `session_id`.
    fn contains_session(&self, session_id: usize) -> (b: bool)
        ensures
            b == self.leaves().contains(session_id),
        decreases self,
    {
        match self {
            PaneNode::Leaf { session_id: leaf } => {
                assert(self.leaves()[0] == *leaf);
                *leaf == session_id
            },
            PaneNode::Split { first, second, .. } => {
                let a = first.contains_session(session_id);
                let b = second.contains_session(session_id);
                proof {
                    let l = first.leaves();
                    let r = second.leaves();
                    if a {
                        let i = choose|i: int| 0 <= i < l.len() && l[i] == session_id;
                        assert((l + r)[i] == session_id);
                    }
                    if b {
                        let i = choose|i: int| 0 <= i < r.len() && r[i] == session_id;
                        assert((l + r)[l.len() + i] == session_id);
                    }
                    if (l + r).contains(session_id) {
                        let i = choose|i: int| 0 <= i < (l + r).len() && (l + r)[i] == session_id;
                        if i < l.len() {
                            assert(l[i] == session_id);
                        } else {
                            assert(r[i - l.len()] == session_id);
                        }
                    }
                }
                a || b
            },
        }
    }

    /// Splits the first leaf `target`; reports whether one was found.
    fn split_leaf(self, target: usize, axis: SplitAxis, new_id: usize) -> (res: (PaneNode, bool))
        ensures
            res.0 == self.split_spec(target, axis, new_id),
            res.1 == self.leaves().contains(target),
        decreases self,
    {
        let ghost old_self = self;
        match self {
            PaneNode::Leaf { session_id } => {
                assert(old_self.leaves() =~= seq![session_id]);
                assert(old_self.leaves()[0] == session_id);
                if session_id == target {
                    assert(old_self.leaves().contains(target));
                    (
                        PaneNode::Split {
                            axis,
                            ratio_per_mille: DEFAULT_SPLIT_RATIO_PER_MILLE,
                            first: Box::new(PaneNode::Leaf { session_id }),
                            second: Box::new(PaneNode::Leaf { session_id: new_id }),
                        },
                        true,
                    )
                } else {
                    assert(!old_self.leaves().contains(target)) by {
                        if old_self.leaves().contains(target) {
                            let i = choose|i: int|
                                0 <= i < old_self.leaves().len() && old_self.leaves()[i] == target;
                            assert(i == 0);
                        }
                    }
                    (PaneNode::Leaf { session_id }, false)
                }
            },
            PaneNode::Split { axis: a, ratio_per_mille: r, first, second } => {
                let ghost l = first.leaves();
                let ghost rl = second.leaves();
                let (f, found) = (*first).split_leaf(target, axis, new_id);
                if found {
                    proof {
                        let i = choose|i: int| 0 <= i < l.len() && l[i] == target;
                        assert((l + rl)[i] == target);
                    }
                    (PaneNode::Split { axis: a, ratio_per_mille: r, first: Box::new(f), second }, true)
                } else {
                    proof {
                        first.lemma_split_absent(target, axis, new_id);
                    }
                    let (s, found2) = (*second).split_leaf(target, axis, new_id);
                    proof {
                        if (l + rl).contains(target) {
                            let i = choose|i: int| 0 <= i < (l + rl).len() && (l + rl)[i] == target;
                            if i < l.len() {
                                assert(l[i] == target);
                            } else {
                                assert(rl[i - l.len()] == target);
                            }
                        }
                        if found2 {
                            let i = choose|i: int| 0 <= i < rl.len() && rl[i] == target;
                            assert((l + rl)[l.len() + i] == target);
                        }
                    }
                    (
                        PaneNode::Split {
                            axis: a,
                            ratio_per_mille: r,
                            first: Box::new(f),
                            second: Box::new(s),
                        },
                        found2,
                    )
                }
            },
        }
    }

    /// The tree without leaf `target` (`None` when nothing is left).
    fn without_session(&self, target: usize) -> (res: Option<PaneNode>)
        ensures
            res == self.without_spec(target),
        decreases self,
    {
        match self {
            PaneNode::Leaf { session_id } => {
                if *session_id == target {
                    None
                } else {
                    Some(PaneNode::Leaf { session_id: *session_id })
                }
            },
            PaneNode::Split { axis, ratio_per_mille, first, second } => {
                let left = first.without_session(target);
                let right = second.without_session(target);
                match (left, right) {
                    (Some(l), Some(r)) => Some(
                        PaneNode::Split {
                            axis: *axis,
                            ratio_per_mille: *ratio_per_mille,
                            first: Box::new(l),
                            second: Box::new(r),
                        },
                    ),
                    (Some(n), None) => Some(n),
                    (None, Some(n)) => Some(n),
                    (None, None) => None,
                }
            },
        }
    }

    /// The tree with every leaf id above `removed` moved down by one.
    fn reindex_after_removal(self, removed: usize) -> (res: PaneNode)
        ensures
            res == self.reindex_spec(removed),
        decreases self,
    {
        match self {
            PaneNode::Leaf { session_id } => {
                if session_id > removed {
                    PaneNode::Leaf { session_id: session_id - 1 }
                } else {
                    PaneNode::Leaf { session_id }
                }
            },
            PaneNode::Split { axis, ratio_per_mille, first, second } => {
                let f = (*first).reindex_after_removal(removed);
                let s = (*second).reindex_after_removal(removed);
                PaneNode::Split { axis, ratio_per_mille, first: Box::new(f), second: Box::new(s) }
            },
        }
    }
}

proof fn lemma_insert_after_concat(a: Seq<usize>, b: Seq<usize>, t: usize, n: usize)
    ensures
        insert_after(a + b, t, n) == if a.contains(t) {
            insert_after(a, t, n) + b
        } else {
            a + insert_after(b, t, n)
        },
    decreases a.len(),
{
    if a.len() == 0 {
        assert(a + b =~= b);
        assert(a + insert_after(b, t, n) =~= insert_after(b, t, n));
    } else {
        assert((a + b).drop_first() =~= a.drop_first() + b);
        assert((a + b)[0] == a[0]);
        lemma_insert_after_concat(a.drop_first(), b, t, n);
        if a[0] == t {
            assert(a.contains(t));
            assert(seq![t, n] + (a.drop_first() + b) =~= seq![t, n] + a.drop_first() + b);
        } else {
            if a.drop_first().contains(t) {
                let i = choose|i: int| 0 <= i < a.drop_first().len() && a.drop_first()[i] == t;
                assert(a[i + 1] == t);
            }
            if a.contains(t) {
                let i = choose|i: int| 0 <= i < a.len() && a[i] == t;
                assert(a.drop_first()[i - 1] == t);
            }
            if a.contains(t) {
                assert(seq![a[0]] + (insert_after(a.drop_first(), t, n) + b) =~= seq![a[0]]
                    + insert_after(a.drop_first(), t, n) + b);
            } else {
                assert(seq![a[0]] + (a.drop_first() + insert_after(b, t, n)) =~= a + insert_after(
                    b,
                    t,
                    n,
                ));
            }
        }
    }
}

proof fn lemma_drop_id_concat(a: Seq<usize>, b: Seq<usize>, t: usize)
    ensures
        drop_id(a + b, t) == drop_id(a, t) + drop_id(b, t),
    decreases a.len(),
{
    if a.len() == 0 {
        assert(a + b =~= b);
        assert(drop_id(a, t) + drop_id(b, t) =~= drop_id(b, t));
    } else {
        assert((a + b).drop_first() =~= a.drop_first() + b);
        assert((a + b)[0] == a[0]);
        lemma_drop_id_concat(a.drop_first(), b, t);
        if a[0] != t {
            assert(seq![a[0]] + (drop_id(a.drop_first(), t) + drop_id(b, t)) =~= seq![a[0]]
                + drop_id(a.drop_first(), t) + drop_id(b, t));
        }
    }
}

/// Facts about `insert_after` on a sequence that holds `t` and not `n`.
pub proof fn lemma_insert_after_facts(s: Seq<usize>, t: usize, n: usize)
    requires
        s.contains(t),
    ensures
        insert_after(s, t, n).len() == s.len() + 1,
        forall|x: usize| #[trigger]
            insert_after(s, t, n).contains(x) <==> (s.contains(x) || x == n),
        s.no_duplicates() && !s.contains(n) ==> insert_after(s, t, n).no_duplicates(),
    decreases s.len(),
{
    let r = insert_after(s, t, n);
    if s[0] == t {
        assert(r =~= seq![t, n] + s.drop_first());
        assert forall|x: usize| #[trigger] r.contains(x) <==> (s.contains(x) || x == n) by {
            if r.contains(x) {
                let i = choose|i: int| 0 <= i < r.len() && r[i] == x;
                if i >= 2 {
                    assert(s[i - 1] == x);
                } else if i == 0 {
                    assert(s[0] == x);
                }
            }
            if s.contains(x) {
                let i = choose|i: int| 0 <= i < s.len() && s[i] == x;
                if i == 0 {
                    assert(r[0] == x);
                } else {
                    assert(r[i + 1] == x);
                }
            }
            if x == n {
                assert(r[1] == x);
            }
        }
        if s.no_duplicates() && !s.contains(n) {
            assert forall|i: int, j: int| 0 <= i < r.len() && 0 <= j < r.len() && i != j implies r[i]
                != r[j] by {
                if i >= 2 && j >= 2 {
                    assert(r[i] == s[i - 1] && r[j] == s[j - 1]);
                } else if i == 1 || j == 1 {
                    if i == 1 && j != 1 {
                        if j == 0 {
                            assert(r[j] == s[0]);
                        } else {
                            assert(r[j] == s[j - 1]);
                        }
                    } else if j == 1 && i != 1 {
                        if i == 0 {
                            assert(r[i] == s[0]);
                        } else {
                            assert(r[i] == s[i - 1]);
                        }
                    }
                } else if i == 0 {
                    assert(r[j] == s[j - 1]);
                } else {
                    assert(r[i] == s[i - 1]);
                }
            }
        }
    } else {
        let tail = s.drop_first();
        let i0 = choose|i: int| 0 <= i < s.len() && s[i] == t;
        assert(tail[i0 - 1] == t);
        lemma_insert_after_facts(tail, t, n);
        let rt = insert_after(tail, t, n);
        assert(r =~= seq![s[0]] + rt);
        assert forall|x: usize| #[trigger] r.contains(x) <==> (s.contains(x) || x == n) by {
            if r.contains(x) {
                let i = choose|i: int| 0 <= i < r.len() && r[i] == x;
                if i == 0 {
                    assert(s[0] == x);
                } else {
                    assert(rt[i - 1] == x);
                    assert(rt.contains(x));
                    if tail.contains(x) {
                        let k = choose|k: int| 0 <= k < tail.len() && tail[k] == x;
                        assert(s[k + 1] == x);
                    }
                }
            }
            if s.contains(x) {
                let i = choose|i: int| 0 <= i < s.len() && s[i] == x;
                if i == 0 {
                    assert(r[0] == x);
                } else {
                    assert(tail[i - 1] == x);
                    assert(rt.contains(x));
                    let k = choose|k: int| 0 <= k < rt.len() && rt[k] == x;
                    assert(r[k + 1] == x);
                }
            }
            if x == n {
                assert(rt.contains(x));
                let k = choose|k: int| 0 <= k < rt.len() && rt[k] == x;
                assert(r[k + 1] == x);
            }
        }
        if s.no_duplicates() && !s.contains(n) {
            assert(tail.no_duplicates()) by {
                assert forall|i: int, j: int|
                    0 <= i < tail.len() && 0 <= j < tail.len() && i != j implies tail[i]
                    != tail[j] by {
                    assert(tail[i] == s[i + 1] && tail[j] == s[j + 1]);
                }
            }
            assert(!tail.contains(n)) by {
                if tail.contains(n) {
                    let k = choose|k: int| 0 <= k < tail.len() && tail[k] == n;
                    assert(s[k + 1] == n);
                }
            }
            assert(!rt.contains(s[0])) by {
                if rt.contains(s[0]) {
                    assert(tail.contains(s[0]) || s[0] == n);
                    if tail.contains(s[0]) {
                        let k = choose|k: int| 0 <= k < tail.len() && tail[k] == s[0];
                        assert(s[k + 1] == s[0]);
                    }
                    assert(s[0] != n);
                }
            }
            assert forall|i: int, j: int| 0 <= i < r.len() && 0 <= j < r.len() && i != j implies r[i]
                != r[j] by {
                if i > 0 && j > 0 {
                    assert(r[i] == rt[i - 1] && r[j] == rt[j - 1]);
                } else if i == 0 {
                    assert(r[j] == rt[j - 1]);
                } else {
                    assert(r[i] == rt[i - 1]);
                }
            }
        }
    }
}

/// Facts about `drop_id` on a sequence that holds `t` exactly once.
pub proof fn lemma_drop_id_facts(s: Seq<usize>, t: usize)
    requires
        s.no_duplicates(),
    ensures
        drop_id(s, t).len() == if s.contains(t) { s.len() - 1 } else { s.len() as int },
        forall|x: usize| #[trigger] drop_id(s, t).contains(x) <==> (s.contains(x) && x != t),
        drop_id(s, t).no_duplicates(),
    decreases s.len(),
{
    if s.len() > 0 {
        let tail = s.drop_first();
        assert(tail.no_duplicates()) by {
            assert forall|i: int, j: int|
                0 <= i < tail.len() && 0 <= j < tail.len() && i != j implies tail[i] != tail[j] by {
                assert(tail[i] == s[i + 1] && tail[j] == s[j + 1]);
            }
        }
        lemma_drop_id_facts(tail, t);
        let rt = drop_id(tail, t);
        assert forall|x: usize| #[trigger] tail.contains(x) <==> (s.contains(x) && x != s[0]) by {
            if tail.contains(x) {
                let k = choose|k: int| 0 <= k < tail.len() && tail[k] == x;
                assert(s[k + 1] == x);
            }
            if s.contains(x) && x != s[0] {
                let k = choose|k: int| 0 <= k < s.len() && s[k] == x;
                assert(tail[k - 1] == x);
            }
        }
        assert(s.contains(s[0]));
        if s[0] == t {
            assert(!tail.contains(t));
        } else {
            let r = drop_id(s, t);
            assert(r =~= seq![s[0]] + rt);
            assert(tail.contains(t) == s.contains(t));
            assert forall|x: usize| #[trigger] r.contains(x) <==> (s.contains(x) && x != t) by {
                if r.contains(x) {
                    let i = choose|i: int| 0 <= i < r.len() && r[i] == x;
                    if i > 0 {
                        assert(rt[i - 1] == x);
                        assert(rt.contains(x));
                    }
                }
                if s.contains(x) && x != t {
                    if x == s[0] {
                        assert(r[0] == x);
                    } else {
                        assert(rt.contains(x));
                        let k = choose|k: int| 0 <= k < rt.len() && rt[k] == x;
                        assert(r[k + 1] == x);
                    }
                }
            }
            assert(!rt.contains(s[0]));
            assert forall|i: int, j: int| 0 <= i < r.len() && 0 <= j < r.len() && i != j implies r[i]
                != r[j] by {
                if i > 0 && j > 0 {
                    assert(r[i] == rt[i - 1] && r[j] == rt[j - 1]);
                } else if i == 0 {
                    assert(r[j] == rt[j - 1]);
                } else {
                    assert(r[i] == rt[i - 1]);
                }
            }
        }
    }
}

/// Shifting ids after a removal keeps distinct ids distinct, as long as the removed id is absent.
pub proof fn lemma_shift_ids_facts(s: Seq<usize>, removed: usize)
    requires
        s.no_duplicates(),
        !s.contains(removed),
    ensures
        shift_ids(s, removed).len() == s.len(),
        shift_ids(s, removed).no_duplicates(),
        forall|x: usize| #[trigger]
            s.contains(x) ==> shift_ids(s, removed).contains(shift_id(x, removed)),
        forall|y: usize| #[trigger]
            shift_ids(s, removed).contains(y) ==> exists|x: usize|
                s.contains(x) && y == shift_id(x, removed),
{
    let r = shift_ids(s, removed);
    assert forall|i: int, j: int| 0 <= i < r.len() && 0 <= j < r.len() && i != j implies r[i]
        != r[j] by {
        assert(s[i] != s[j]);
        assert(s[i] != removed) by {
            assert(s.contains(s[i]));
        }
        assert(s[j] != removed) by {
            assert(s.contains(s[j]));
        }
    }
    assert forall|x: usize| #[trigger] s.contains(x) implies r.contains(shift_id(x, removed)) by {
        let k = choose|k: int| 0 <= k < s.len() && s[k] == x;
        assert(r[k] == shift_id(x, removed));
    }
    assert forall|y: usize| #[trigger] r.contains(y) implies exists|x: usize|
        s.contains(x) && y == shift_id(x, removed) by {
        let k = choose|k: int| 0 <= k < r.len() && r[k] == y;
        assert(s.contains(s[k]));
    }
}

impl Clone for PaneNode {
    fn clone(&self) -> (res: Self)
        ensures
            res == *self,
        decreases self,
    {
        match self {
            PaneNode::Leaf { session_id } => PaneNode::Leaf { session_id: *session_id },
            PaneNode::Split { axis, ratio_per_mille, first, second } => {
                let f = (**first).clone();
                let s = (**second).clone();
                PaneNode::Split {
                    axis: *axis,
                    ratio_per_mille: *ratio_per_mille,
                    first: Box::new(f),
                    second: Box::new(s),
                }
            },
        }
    }
}

/// A tree of terminal panes with one focused (active) session.
#[derive(Debug)]
pub struct PaneTree {
    root: PaneNode,
    active_session_id: usize,
}

impl PaneTree {
    /// Session ids of the panes in focus order.
    pub closed spec fn session_seq(self) -> Seq<usize> {
        self.root.leaves()
    }

    /// The focused session.
    pub closed spec fn active(self) -> usize {
        self.active_session_id
    }

    /// The root node.
    pub closed spec fn root_spec(self) -> PaneNode {
        self.root
    }

    /// Every session appears once, and the focused session is one of them.
    pub open spec fn wf(self) -> bool {
        &&& self.session_seq().no_duplicates()
        &&& self.session_seq().contains(self.active())
    }

    /// A tree with a single pane for `root_session_id`, which is focused.
    pub fn new(root_session_id: usize) -> (t: Self)
        ensures
            t.wf(),
            t.session_seq() == seq![root_session_id],
            t.active() == root_session_id,
    {
        let t = PaneTree {
            root: PaneNode::Leaf { session_id: root_session_id },
            active_session_id: root_session_id,
        };
        assert(t.session_seq()[0] == root_session_id);
        t
    }

    /// The focused session.
    pub fn active_session_id(&self) -> (id: usize)
        ensures
            id == self.active(),
    {
        self.active_session_id
    }

    /// The root node of the tree.
    pub fn root(&self) -> (r: &PaneNode)
        ensures
            *r == self.root_spec(),
            r.leaves() == self.session_seq(),
    {
        &self.root
    }

    /// Session ids of the panes in focus order (left to right).
    pub fn session_ids(&self) -> (ids: Vec<usize>)
        ensures
            ids@ == self.session_seq(),
    {
        let mut ids: Vec<usize> = Vec::new();
        self.root.collect_session_ids(&mut ids);
        assert(Seq::<usize>::empty() + self.root.leaves() =~= self.root.leaves());
        ids
    }

    /// Whether a pane shows `session_id`.
    pub fn contains_session(&self, session_id: usize) -> (b: bool)
        ensures
            b == self.session_seq().contains(session_id),
    {
        self.root.contains_session(session_id)
    }

    /// Focuses `session_id` when a pane shows it; reports whether it did.
    pub fn set_active_session(&mut self, session_id: usize) -> (changed: bool)
        requires
            old(self).wf(),
        ensures
            final(self).wf(),
            changed == old(self).session_seq().contains(session_id),
            final(self).session_seq() == old(self).session_seq(),
            final(self).root_spec() == old(self).root_spec(),
            final(self).active() == if changed {
                session_id
            } else {
                old(self).active()
            },
    {
        if !self.contains_session(session_id) {
            return false;
        }
        self.active_session_id = session_id;
        true
    }

    /// Splits the focused pane, putting `new_session_id` beside it and focusing it.
    /// Refused (`false`, no change) when a pane already shows `new_session_id`.
    pub fn split_active(&mut self, axis: SplitAxis, new_session_id: usize) -> (ok: bool)
        requires
            old(self).wf(),
        ensures
            final(self).wf(),
            ok == !old(self).session_seq().contains(new_session_id),
            ok ==> final(self).session_seq() == insert_after(
                old(self).session_seq(),
                old(self).active(),
                new_session_id,
            ),
            ok ==> final(self).root_spec() == old(self).root_spec().split_spec(
                old(self).active(),
                axis,
                new_session_id,
            ),
            ok ==> final(self).active() == new_session_id,
            !ok ==> *final(self) == *old(self),
    {
        if self.contains_session(new_session_id) {
            return false;
        }
        let active = self.active_session_id;
        let mut old_root = PaneNode::Leaf { session_id: 0 };
        std::mem::swap(&mut old_root, &mut self.root);
        let ghost old_leaves = old_root.leaves();
        let (new_root, found) = old_root.split_leaf(active, axis, new_session_id);
        proof {
            old_root.lemma_split_leaves(active, axis, new_session_id);
            lemma_insert_after_facts(old_leaves, active, new_session_id);
        }
        assert(found);
        self.root = new_root;
        self.active_session_id = new_session_id;
        true
    }

    /// Closes the pane of `session_id`: the tree collapses around it and every
    /// session id above it moves down by one. Refused when no pane shows it or
    /// when it is the last pane.
    pub fn remove_session(&mut self, session_id: usize) -> (ok: bool)
        requires
            old(self).wf(),
        ensures
            final(self).wf(),
            ok == (old(self).session_seq().contains(session_id) && old(
                self,
            ).session_seq().len() > 1),
            ok ==> final(self).session_seq() == ids_after_removal(
                old(self).session_seq(),
                session_id,
            ),
            ok ==> final(self).active() == ({
                let remaining = ids_after_removal(old(self).session_seq(), session_id);
                let a = old(self).active();
                if a == session_id || !remaining.contains(a) {
                    remaining[0]
                } else if a > session_id {
                    (a - 1) as usize
                } else {
                    a
                }
            }),
            !ok ==> *final(self) == *old(self),
    {
        proof {
            self.root.lemma_leaves_nonempty();
        }
        if !self.contains_session(session_id) {
            return false;
        }
        let is_single = match &self.root {
            PaneNode::Leaf { .. } => true,
            PaneNode::Split { .. } => false,
        };
        if is_single {
            assert(self.session_seq().len() == 1);
            return false;
        }
        let ghost old_leaves = self.root.leaves();
        let ghost old_active = self.active_session_id;
        let replacement = self.root.without_session(session_id);
        proof {
            self.root.lemma_without_leaves(session_id);
            lemma_drop_id_facts(old_leaves, session_id);
        }
        let pruned = match replacement {
            Some(node) => node,
            None => {
                assert(false);
                PaneNode::Leaf { session_id: 0 }
            },
        };
        let ghost dropped = drop_id(old_leaves, session_id);
        assert(pruned.leaves() == dropped);
        let new_root = pruned.reindex_after_removal(session_id);
        proof {
            pruned.lemma_reindex_leaves(session_id);
            lemma_shift_ids_facts(dropped, session_id);
        }
        let remaining = new_root_ids(&new_root);
        let ghost rem = remaining@;
        assert(rem == ids_after_removal(old_leaves, session_id));
        let active = self.active_session_id;
        let mut new_active = active;
        if remaining.len() > 0 {
            let first = remaining[0];
            if active == session_id || !vec_contains(&remaining, active) {
                new_active = first;
            } else if active > session_id {
                new_active = active - 1;
                proof {
                    assert(dropped.contains(active));
                    assert(rem.contains(shift_id(active, session_id)));
                }
            } else {
                proof {
                    assert(rem.contains(active));
                }
            }
        }
        assert(rem.len() > 0);
        assert(rem.contains(rem[0]));
        self.root = new_root;
        self.active_session_id = new_active;
        true
    }

    /// Moves focus to the next pane in focus order, wrapping around.
    pub fn focus_next(&mut self) -> (ok: bool)
        requires
            old(self).wf(),
        ensures
            final(self).wf(),
            ok,
            final(self).session_seq() == old(self).session_seq(),
            final(self).root_spec() == old(self).root_spec(),
            final(self).active() == next_focus(old(self).session_seq(), old(self).active()),
    {
        let ids = self.session_ids();
        let position = vec_position(&ids, self.active_session_id);
        match position {
            Some(p) => {
                proof {
                    lemma_position_unique(ids@, self.active_session_id, p as int);
                }
                let next = ids[(p + 1) % ids.len()];
                assert(ids@.contains(next));
                self.active_session_id = next;
                true
            },
            None => {
                assert(false);
                false
            },
        }
    }

    /// Moves focus to the previous pane in focus order, wrapping around.
    pub fn focus_previous(&mut self) -> (ok: bool)
        requires
            old(self).wf(),
        ensures
            final(self).wf(),
            ok,
            final(self).session_seq() == old(self).session_seq(),
            final(self).root_spec() == old(self).root_spec(),
            final(self).active() == previous_focus(old(self).session_seq(), old(self).active()),
    {
        let ids = self.session_ids();
        let position = vec_position(&ids, self.active_session_id);
        match position {
            Some(p) => {
                proof {
                    lemma_position_unique(ids@, self.active_session_id, p as int);
                }
                let prev = if p == 0 {
                    ids[ids.len() - 1]
                } else {
                    ids[p - 1]
                };
                assert(ids@.contains(prev));
                self.active_session_id = prev;
                true
            },
            None => {
                assert(false);
                false
            },
        }
    }
}

impl Clone for PaneTree {
    fn clone(&self) -> (res: Self)
        ensures
            res == *self,
    {
        PaneTree { root: self.root.clone(), active_session_id: self.active_session_id }
    }
}

/// Leaf ids of a freshly built tree.
fn new_root_ids(node: &PaneNode) -> (ids: Vec<usize>)
    ensures
        ids@ == node.leaves(),
{
    let mut ids: Vec<usize> = Vec::new();
    node.collect_session_ids(&mut ids);
    assert(Seq::<usize>::empty() + node.leaves() =~= node.leaves());
    ids
}

/// Whether `v` holds `x`.
fn vec_contains(v: &Vec<usize>, x: usize) -> (b: bool)
    ensures
        b == v@.contains(x),
{
    let mut i: usize = 0;
    while i < v.len()
        invariant
            i <= v.len(),
            forall|k: int| 0 <= k < i ==> v@[k] != x,
        decreases v.len() - i,
    {
        if v[i] == x {
            return true;
        }
        i += 1;
    }
    false
}

/// First position of `x` in `v`.
fn vec_position(v: &Vec<usize>, x: usize) -> (p: Option<usize>)
    ensures
        p is None <==> !v@.contains(x),
        p matches Some(i) ==> i < v.len() && v@[i as int] == x,
{
    let mut i: usize = 0;
    while i < v.len()
        invariant
            i <= v.len(),
            forall|k: int| 0 <= k < i ==> v@[k] != x,
        decreases v.len() - i,
    {
        if v[i] == x {
            return Some(i);
        }
        i += 1;
    }
    None
}

/// In a sequence without duplicates, the position of an element is the one found.
pub proof fn lemma_position_unique(s: Seq<usize>, x: usize, p: int)
    requires
        s.no_duplicates(),
        0 <= p < s.len(),
        s[p] == x,
    ensures
        position_of(s, x) == p,
{
    assert(s.contains(x));
    let q = position_of(s, x);
    assert(s[q] == x);
}

/// Law: moving focus forward and then back returns to the pane focused before.
pub proof fn law_focus_next_then_previous(ids: Seq<usize>, active: usize)
    requires
        ids.no_duplicates(),
        ids.contains(active),
    ensures
        previous_focus(ids, next_focus(ids, active)) == active,
        next_focus(ids, previous_focus(ids, active)) == active,
{
    let p = position_of(ids, active);
    assert(ids[p] == active);
    let n = ids.len() as int;
    let np = (p + 1) % n;
    if p + 1 < n {
        vstd::arithmetic::div_mod::lemma_small_mod((p + 1) as nat, n as nat);
    } else {
        vstd::arithmetic::div_mod::lemma_mod_self_0(n);
    }
    assert(0 <= np < n);
    lemma_position_unique(ids, ids[np], np);
    if p + 1 < n {
        assert(np == p + 1);
    } else {
        assert(np == 0);
    }
    let pp = if p == 0 {
        n - 1
    } else {
        p - 1
    };
    lemma_position_unique(ids, ids[pp], pp);
    if p == 0 {
        vstd::arithmetic::div_mod::lemma_mod_self_0(n);
        assert(pp + 1 == n);
    } else {
        vstd::arithmetic::div_mod::lemma_small_mod((pp + 1) as nat, n as nat);
    }
}

} // verus!
