//! Terminal sessions: their transcripts, command history, and the pane tree
//! that lays them out.
use vstd::prelude::*;
use std::collections::VecDeque;
use crate::panes::{
    PaneTree, SplitAxis, insert_after, ids_after_removal, lemma_insert_after_facts,
    lemma_drop_id_facts, lemma_shift_ids_facts, drop_id, shift_id, next_focus, previous_focus,
};
use crate::terminal::TerminalSize;
use crate::text::{
    views, decimal, push_decimal, push_str, owned, push_recent_unique, recent_unique_push,
    starts_with, is_blank, trimmed_chars, chars_of, chars_start_with,
};

verus! {

broadcast use vstd::string::group_string_axioms;

/// Transcript lines kept per session.
pub const TERMINAL_LINE_LIMIT: usize = 400;

/// Most sessions a manager holds.
pub const MAX_TERMINAL_SESSIONS: usize = 32;

/// Commands kept in a session's history.
pub const HISTORY_LIMIT: usize = 50;

/// Directory visits kept for jump suggestions.
pub const DIRECTORY_HISTORY_LIMIT: usize = 256;

/// One terminal session as the application shows it.
#[derive(Clone)]
pub struct TerminalState {
    pub title: String,
    pub cwd: String,
    pub status: String,
    pub last_command: Option<String>,
    pub last_exit_code: Option<i32>,
    pub viewport_size: Option<TerminalSize>,
    pub lines: VecDeque<String>,
    pub history: VecDeque<String>,
    pub pending_context_line: Option<String>,
}

/// A session as published to remote viewers.
#[derive(Debug, Clone)]
pub struct TerminalSnapshot {
    pub id: usize,
    pub title: String,
    pub cwd: String,
    pub status: String,
    pub recent_lines: Vec<String>,
}

/// A session just opened with `title` and `history`: no output, no cwd, status "starting".
pub open spec fn is_fresh_session(s: TerminalState, title: Seq<char>, history: Seq<Seq<char>>) -> bool {
    &&& s.title@ == title
    &&& s.cwd@ == Seq::<char>::empty()
    &&& s.status@ == "starting"@
    &&& s.last_command is None
    &&& s.last_exit_code is None
    &&& s.viewport_size is None
    &&& s.lines@.len() == 0
    &&& views(s.history@) == history
    &&& s.pending_context_line is None
}

/// Title of the `i`-th session of a new manager: `shell-<i+1>`.
pub open spec fn session_title(i: nat) -> Seq<char> {
    "shell-"@ + decimal(i + 1)
}

/// Number of sessions a manager asked for `count` sessions opens.
pub open spec fn clamp_sessions(count: usize) -> usize {
    if count < 1 {
        1
    } else if count > MAX_TERMINAL_SESSIONS {
        MAX_TERMINAL_SESSIONS
    } else {
        count
    }
}

/// The most recent entry of `history` that starts with `input`.
pub open spec fn latest_with_prefix(history: Seq<Seq<char>>, input: Seq<char>) -> Option<Seq<char>>
    decreases history.len(),
{
    if history.len() == 0 {
        None
    } else if starts_with(history.last(), input) {
        Some(history.last())
    } else {
        latest_with_prefix(history.drop_last(), input)
    }
}

/// Index of the last entry of `s` equal to `x`, if any.
pub open spec fn last_index_of(s: Seq<Seq<char>>, x: Seq<char>) -> Option<int>
    decreases s.len(),
{
    if s.len() == 0 {
        None
    } else if s.last() == x {
        Some(s.len() - 1)
    } else {
        last_index_of(s.drop_last(), x)
    }
}

/// `lines` after the pending context line gets its timing: the last copy of
/// `pending` becomes `pending (<label>s)`.
pub open spec fn finalized_lines(lines: Seq<Seq<char>>, pending: Seq<char>, label: Seq<char>) -> Seq<
    Seq<char>,
> {
    match last_index_of(lines, pending) {
        Some(i) => lines.update(i, pending + " ("@ + label + "s)"@),
        None => lines,
    }
}

/// `x` pushed at the back, dropping the front entry first when `limit` are already held.
pub open spec fn push_bounded<T>(s: Seq<T>, x: T, limit: nat) -> Seq<T> {
    if s.len() >= limit {
        s.subrange(1, s.len() as int).push(x)
    } else {
        s.push(x)
    }
}

/// A bounded push never lets a list grow past its limit, and ends with the
/// pushed item (transcripts, histories and the directory history are kept
/// this way).
pub proof fn law_push_bounded_stays_within<T>(s: Seq<T>, x: T, limit: nat)
    requires
        s.len() <= limit,
        limit > 0,
    ensures
        push_bounded(s, x, limit).len() <= limit,
        push_bounded(s, x, limit).last() == x,
        push_bounded(s, x, limit).len() == if s.len() < limit {
            s.len() + 1
        } else {
            limit
        },
{
}

/// Where `last_index_of` points, `x` stands.
pub proof fn lemma_last_index_of(s: Seq<Seq<char>>, x: Seq<char>)
    ensures
        last_index_of(s, x) matches Some(i) ==> 0 <= i < s.len() && s[i] == x,
    decreases s.len(),
{
    if s.len() > 0 && s.last() != x {
        lemma_last_index_of(s.drop_last(), x);
    }
}

/// A fresh session.
pub fn fresh_session(title: String, history: VecDeque<String>) -> (s: TerminalState)
    ensures
        is_fresh_session(s, title@, views(history@)),
{
    TerminalState {
        title,
        cwd: String::new(),
        status: owned("starting"),
        last_command: None,
        last_exit_code: None,
        viewport_size: None,
        lines: VecDeque::new(),
        history,
        pending_context_line: None,
    }
}

impl Default for TerminalState {
    fn default() -> (s: Self)
        ensures
            is_fresh_session(s, "shell-1"@, Seq::empty()),
    {
        let s = fresh_session(owned("shell-1"), VecDeque::new());
        assert(views(s.history@) =~= Seq::<Seq<char>>::empty());
        s
    }
}

/// The sessions of the application and the pane tree that shows them.
pub struct TerminalManager {
    pub sessions: Vec<TerminalState>,
    pub directory_history: VecDeque<String>,
    pub pane_tree: PaneTree,
}

proof fn lemma_range_insert(k: nat)
    requires
        1 <= k < usize::MAX,
    ensures
        insert_after(Seq::new(k, |j: int| j as usize), (k - 1) as usize, k as usize) == Seq::new(
            k + 1,
            |j: int| j as usize,
        ),
{
    let s = Seq::new(k, |j: int| j as usize);
    assert(!s.drop_last().contains((k - 1) as usize)) by {
        if s.drop_last().contains((k - 1) as usize) {
            let i = choose|i: int| 0 <= i < s.drop_last().len() && s.drop_last()[i] == (k - 1) as usize;
            assert(s[i] == i as usize);
        }
    }
    lemma_insert_after_last(s, (k - 1) as usize, k as usize);
    assert(s.push(k as usize) =~= Seq::new(k + 1, |j: int| j as usize));
}

proof fn lemma_insert_after_last(s: Seq<usize>, t: usize, n: usize)
    requires
        s.len() > 0,
        s.last() == t,
        !s.drop_last().contains(t),
    ensures
        insert_after(s, t, n) == s.push(n),
    decreases s.len(),
{
    if s.len() == 1 {
        assert(s.drop_first() =~= Seq::<usize>::empty());
        assert(seq![t, n] + Seq::<usize>::empty() =~= s.push(n));
    } else {
        assert(s[0] != t) by {
            assert(s.drop_last()[0] == s[0]);
        }
        let tail = s.drop_first();
        assert(tail.last() == t);
        assert(!tail.drop_last().contains(t)) by {
            if tail.drop_last().contains(t) {
                let i = choose|i: int| 0 <= i < tail.drop_last().len() && tail.drop_last()[i] == t;
                assert(s.drop_last()[i + 1] == t);
            }
        }
        lemma_insert_after_last(tail, t, n);
        assert(seq![s[0]] + tail.push(n) =~= s.push(n));
    }
}

proof fn lemma_two_members(s: Seq<usize>, a: usize, b: usize)
    requires
        s.contains(a),
        s.contains(b),
        a != b,
    ensures
        s.len() >= 2,
{
    let i = choose|i: int| 0 <= i < s.len() && s[i] == a;
    let j = choose|j: int| 0 <= j < s.len() && s[j] == b;
    assert(i != j);
}

/// What `append_line` leaves: the line appended to the session's transcript
/// (the oldest going once `TERMINAL_LINE_LIMIT` are kept); unknown sessions
/// leave everything as it was.
pub open spec fn line_appended(o: TerminalManager, n: TerminalManager, session_id: usize, line: String) -> bool {
    &&& n.same_except_session(&o, session_id as int)
    &&& session_id < o.sessions.len() ==> ({
        let os = o.sessions[session_id as int];
        let ns = n.sessions[session_id as int];
        &&& ns.lines@ == push_bounded(os.lines@, line, TERMINAL_LINE_LIMIT as nat)
        &&& ns == (TerminalState { lines: ns.lines, ..os })
    })
    &&& session_id >= o.sessions.len() ==> n == o
}

/// What `clear_lines` leaves: the session's transcript empty and no pending
/// context line.
pub open spec fn lines_cleared(o: TerminalManager, n: TerminalManager, session_id: usize) -> bool {
    &&& n.same_except_session(&o, session_id as int)
    &&& session_id < o.sessions.len() ==> ({
        let os = o.sessions[session_id as int];
        let ns = n.sessions[session_id as int];
        &&& ns.lines@.len() == 0
        &&& ns.pending_context_line is None
        &&& ns == (TerminalState { lines: ns.lines, pending_context_line: None, ..os })
    })
    &&& session_id >= o.sessions.len() ==> n == o
}

/// What `append_context_line` leaves: the line appended and pending.
pub open spec fn context_line_appended(o: TerminalManager, n: TerminalManager, session_id: usize, line: String) -> bool {
    &&& n.same_except_session(&o, session_id as int)
    &&& session_id < o.sessions.len() ==> ({
        let os = o.sessions[session_id as int];
        let ns = n.sessions[session_id as int];
        &&& ns.lines@ == push_bounded(os.lines@, line, TERMINAL_LINE_LIMIT as nat)
        &&& ns.pending_context_line == Some(line)
        &&& ns == (TerminalState { lines: ns.lines, pending_context_line: ns.pending_context_line, ..os })
    })
    &&& session_id >= o.sessions.len() ==> n == o
}

/// What `finalize_context_line` leaves: the last copy of the pending context
/// line completed with `(<elapsed>s)`, nothing pending.
pub open spec fn context_line_finalized(o: TerminalManager, n: TerminalManager, session_id: usize, elapsed: Seq<char>) -> bool {
    &&& n.same_except_session(&o, session_id as int)
    &&& session_id < o.sessions.len() ==> ({
        let os = o.sessions[session_id as int];
        let ns = n.sessions[session_id as int];
        &&& ns.pending_context_line is None
        &&& views(ns.lines@) == match os.pending_context_line {
            Some(p) => finalized_lines(views(os.lines@), p@, elapsed),
            None => views(os.lines@),
        }
        &&& ns == (TerminalState { lines: ns.lines, pending_context_line: None, ..os })
    })
    &&& session_id >= o.sessions.len() ==> n == o
}

/// What `append_history` leaves: the command moved to the back of the
/// session's history (at most `HISTORY_LIMIT` kept).
pub open spec fn history_appended(o: TerminalManager, n: TerminalManager, session_id: usize, command: Seq<char>) -> bool {
    &&& n.same_except_session(&o, session_id as int)
    &&& session_id < o.sessions.len() ==> ({
        let os = o.sessions[session_id as int];
        let ns = n.sessions[session_id as int];
        &&& views(ns.history@) == push_recent_unique(views(os.history@), command, HISTORY_LIMIT as nat)
        &&& ns == (TerminalState { history: ns.history, ..os })
    })
    &&& session_id >= o.sessions.len() ==> n == o
}

/// What `set_viewport_size` leaves, and whether it reports a change.
pub open spec fn viewport_set(o: TerminalManager, n: TerminalManager, session_id: usize, size: TerminalSize, changed: bool) -> bool {
    &&& n.same_except_session(&o, session_id as int)
    &&& changed == (session_id < o.sessions.len() && o.sessions[session_id as int].viewport_size != Some(size))
    &&& session_id < o.sessions.len() ==> n.sessions[session_id as int] == (TerminalState {
        viewport_size: Some(size),
        ..o.sessions[session_id as int]
    })
    &&& session_id >= o.sessions.len() ==> n == o
}

/// What `seed_history` leaves: every session with the same history.
pub open spec fn history_seeded(o: TerminalManager, n: TerminalManager, history: Seq<Seq<char>>) -> bool {
    &&& n.sessions.len() == o.sessions.len()
    &&& forall|j: int|
        0 <= j < n.sessions.len() ==> #[trigger] n.sessions[j] == (TerminalState {
            history: n.sessions[j].history,
            ..o.sessions[j]
        })
    &&& forall|j: int| 0 <= j < n.sessions.len() ==> views(#[trigger] n.sessions[j].history@) == history
    &&& n.directory_history == o.directory_history
    &&& n.pane_tree == o.pane_tree
}

/// What `record_directory_visit` leaves: a non-blank path pushed at the back
/// of the directory history (at most `DIRECTORY_HISTORY_LIMIT` kept).
pub open spec fn directory_recorded(o: TerminalManager, n: TerminalManager, path: String) -> bool {
    &&& views(n.directory_history@) == if is_blank(path@) {
        views(o.directory_history@)
    } else {
        views(push_bounded(o.directory_history@, path, DIRECTORY_HISTORY_LIMIT as nat))
    }
    &&& n.sessions == o.sessions
    &&& n.pane_tree == o.pane_tree
}

impl TerminalManager {
    /// The pane tree shows each session exactly once, and the manager holds
    /// between one and `MAX_TERMINAL_SESSIONS` sessions.
    pub open spec fn wf(&self) -> bool {
        &&& self.pane_tree.wf()
        &&& 1 <= self.sessions.len() <= MAX_TERMINAL_SESSIONS
        &&& forall|x: usize| #[trigger]
            self.pane_tree.session_seq().contains(x) <==> x < self.sessions.len()
    }

    /// Everything but session `i` and the pane tree is as in `other`.
    pub open spec fn same_except_session(&self, other: &Self, i: int) -> bool {
        &&& self.sessions.len() == other.sessions.len()
        &&& forall|j: int| 0 <= j < self.sessions.len() && j != i ==> self.sessions[j] == other.sessions[j]
        &&& self.directory_history == other.directory_history
        &&& self.pane_tree == other.pane_tree
    }

    /// A manager with `count` sessions (clamped to `1..=MAX_TERMINAL_SESSIONS`),
    /// named `shell-1`, `shell-2`, ..., laid out side by side, the last one focused.
    pub fn new(count: usize) -> (m: Self)
        ensures
            m.wf(),
            m.sessions.len() == clamp_sessions(count),
            forall|i: int|
                0 <= i < m.sessions.len() ==> is_fresh_session(
                    #[trigger] m.sessions[i],
                    session_title(i as nat),
                    Seq::empty(),
                ),
            m.directory_history@.len() == 0,
            m.pane_tree.session_seq() == Seq::new(m.sessions.len() as nat, |j: int| j as usize),
            m.pane_tree.active() == m.sessions.len() - 1,
    {
        let n = if count < 1 {
            1
        } else if count > MAX_TERMINAL_SESSIONS {
            MAX_TERMINAL_SESSIONS
        } else {
            count
        };
        let mut sessions: Vec<TerminalState> = Vec::new();
        let mut i: usize = 0;
        while i < n
            invariant
                i <= n <= MAX_TERMINAL_SESSIONS,
                sessions.len() == i,
                forall|k: int|
                    0 <= k < i ==> is_fresh_session(
                        #[trigger] sessions[k],
                        session_title(k as nat),
                        Seq::empty(),
                    ),
            decreases n - i,
        {
            let mut title = owned("shell-");
            push_decimal(&mut title, (i + 1) as u64);
            let s = fresh_session(title, VecDeque::new());
            assert(views(s.history@) =~= Seq::<Seq<char>>::empty());
            sessions.push(s);
            i += 1;
        }
        let mut pane_tree = PaneTree::new(0);
        assert(seq![0usize] =~= Seq::new(1, |j: int| j as usize));
        let mut session_id: usize = 1;
        while session_id < n
            invariant
                1 <= session_id <= n <= MAX_TERMINAL_SESSIONS,
                pane_tree.wf(),
                pane_tree.session_seq() == Seq::new(session_id as nat, |j: int| j as usize),
                pane_tree.active() == session_id - 1,
            decreases n - session_id,
        {
            let ghost before = pane_tree.session_seq();
            assert(!before.contains(session_id)) by {
                if before.contains(session_id) {
                    let k = choose|k: int| 0 <= k < before.len() && before[k] == session_id;
                }
            }
            let _ = pane_tree.split_active(SplitAxis::Vertical, session_id);
            proof {
                lemma_range_insert(session_id as nat);
            }
            session_id += 1;
        }
        let m = TerminalManager { sessions, directory_history: VecDeque::new(), pane_tree };
        assert forall|x: usize| #[trigger] m.pane_tree.session_seq().contains(x) <==> x < n by {
            let s = m.pane_tree.session_seq();
            if x < n {
                assert(s[x as int] == x);
            }
        }
        m
    }

    /// Opens a session titled `title` in a vertical split of the focused pane.
    pub fn add_session(&mut self, title: String) -> (r: Option<usize>)
        requires
            old(self).wf(),
        ensures
            final(self).wf(),
            r == (if old(self).sessions.len() < MAX_TERMINAL_SESSIONS {
                Some(old(self).sessions.len())
            } else {
                None
            }),
            r is Some ==> final(self).sessions@.drop_last() == old(self).sessions@,
            r is Some ==> is_fresh_session(
                final(self).sessions@.last(),
                title@,
                views(old(self).sessions[0].history@),
            ),
            r is Some ==> final(self).pane_tree.session_seq() == insert_after(
                old(self).pane_tree.session_seq(),
                old(self).pane_tree.active(),
                old(self).sessions.len(),
            ),
            r is Some ==> final(self).pane_tree.root_spec() == old(self).pane_tree.root_spec().split_spec(
                old(self).pane_tree.active(),
                SplitAxis::Vertical,
                old(self).sessions.len(),
            ),
            r is Some ==> final(self).pane_tree.active() == old(self).sessions.len(),
            r is Some ==> final(self).directory_history == old(self).directory_history,
            r is None ==> *final(self) == *old(self),
    {
        self.add_session_split(title, SplitAxis::Vertical)
    }

    /// Opens a session titled `title` by splitting the focused pane along
    /// `axis`; the new session starts with the history of the first session and
    /// takes the focus. Refused (`None`) when `MAX_TERMINAL_SESSIONS` are open.
    pub fn add_session_split(&mut self, title: String, axis: SplitAxis) -> (r: Option<usize>)
        requires
            old(self).wf(),
        ensures
            final(self).wf(),
            r == (if old(self).sessions.len() < MAX_TERMINAL_SESSIONS {
                Some(old(self).sessions.len())
            } else {
                None
            }),
            r is Some ==> final(self).sessions@.drop_last() == old(self).sessions@,
            r is Some ==> is_fresh_session(
                final(self).sessions@.last(),
                title@,
                views(old(self).sessions[0].history@),
            ),
            r is Some ==> final(self).pane_tree.session_seq() == insert_after(
                old(self).pane_tree.session_seq(),
                old(self).pane_tree.active(),
                old(self).sessions.len(),
            ),
            r is Some ==> final(self).pane_tree.root_spec() == old(self).pane_tree.root_spec().split_spec(
                old(self).pane_tree.active(),
                axis,
                old(self).sessions.len(),
            ),
            r is Some ==> final(self).pane_tree.active() == old(self).sessions.len(),
            r is Some ==> final(self).directory_history == old(self).directory_history,
            r is None ==> *final(self) == *old(self),
    {
        if self.sessions.len() >= MAX_TERMINAL_SESSIONS {
            return None;
        }
        let index = self.sessions.len();
        let history = self.sessions[0].history.clone();
        assert(history@ =~= self.sessions[0].history@);
        let ghost old_seq = self.pane_tree.session_seq();
        let ghost old_sessions = self.sessions@;
        self.sessions.push(fresh_session(title, history));
        assert(self.sessions@.drop_last() =~= old_sessions);
        proof {
            assert(!old_seq.contains(index));
            lemma_insert_after_facts(old_seq, self.pane_tree.active(), index);
        }
        let _ = self.pane_tree.split_active(axis, index);
        Some(index)
    }

    /// Closes session `index`: its pane goes and later sessions move down one
    /// place. Refused (`false`) for the last remaining session or an index out of range.
    pub fn remove_session(&mut self, index: usize) -> (ok: bool)
        requires
            old(self).wf(),
        ensures
            final(self).wf(),
            ok == (old(self).sessions.len() > 1 && index < old(self).sessions.len()),
            ok ==> final(self).sessions@ == old(self).sessions@.remove(index as int),
            ok ==> final(self).pane_tree.session_seq() == ids_after_removal(
                old(self).pane_tree.session_seq(),
                index,
            ),
            ok ==> final(self).directory_history == old(self).directory_history,
            !ok ==> *final(self) == *old(self),
    {
        if self.sessions.len() <= 1 || index >= self.sessions.len() {
            return false;
        }
        let ghost old_seq = self.pane_tree.session_seq();
        let ghost n = self.sessions.len();
        proof {
            assert(old_seq.contains(0usize));
            assert(old_seq.contains(1usize));
            lemma_two_members(old_seq, 0, 1);
            assert(old_seq.contains(index));
            lemma_drop_id_facts(old_seq, index);
            lemma_shift_ids_facts(drop_id(old_seq, index), index);
        }
        if !self.pane_tree.remove_session(index) {
            assert(false);
            return false;
        }
        self.sessions.remove(index);
        proof {
            let new_seq = self.pane_tree.session_seq();
            let dropped = drop_id(old_seq, index);
            assert forall|y: usize| #[trigger] new_seq.contains(y) <==> y < n - 1 by {
                if new_seq.contains(y) {
                    let x = choose|x: usize| dropped.contains(x) && y == shift_id(x, index);
                    assert(old_seq.contains(x) && x != index);
                }
                if y < n - 1 {
                    if y < index {
                        assert(old_seq.contains(y));
                        assert(dropped.contains(y));
                        assert(new_seq.contains(shift_id(y, index)));
                    } else {
                        let x = (y + 1) as usize;
                        assert(old_seq.contains(x));
                        assert(dropped.contains(x));
                        assert(new_seq.contains(shift_id(x, index)));
                    }
                }
            }
        }
        true
    }

    /// Focuses session `index`, if a pane shows it.
    pub fn select_session(&mut self, index: usize) -> (ok: bool)
        requires
            old(self).wf(),
        ensures
            final(self).wf(),
            ok == (index < old(self).sessions.len()),
            final(self).sessions == old(self).sessions,
            final(self).directory_history == old(self).directory_history,
            final(self).pane_tree.session_seq() == old(self).pane_tree.session_seq(),
            final(self).pane_tree.active() == if ok {
                index
            } else {
                old(self).pane_tree.active()
            },
    {
        self.pane_tree.set_active_session(index)
    }

    /// Focuses the next pane in focus order.
    pub fn focus_next_session(&mut self) -> (ok: bool)
        requires
            old(self).wf(),
        ensures
            final(self).wf(),
            ok,
            final(self).sessions == old(self).sessions,
            final(self).directory_history == old(self).directory_history,
            final(self).pane_tree.session_seq() == old(self).pane_tree.session_seq(),
            final(self).pane_tree.active() == next_focus(
                old(self).pane_tree.session_seq(),
                old(self).pane_tree.active(),
            ),
    {
        self.pane_tree.focus_next()
    }

    /// Focuses the previous pane in focus order.
    pub fn focus_previous_session(&mut self) -> (ok: bool)
        requires
            old(self).wf(),
        ensures
            final(self).wf(),
            ok,
            final(self).sessions == old(self).sessions,
            final(self).directory_history == old(self).directory_history,
            final(self).pane_tree.session_seq() == old(self).pane_tree.session_seq(),
            final(self).pane_tree.active() == previous_focus(
                old(self).pane_tree.session_seq(),
                old(self).pane_tree.active(),
            ),
    {
        self.pane_tree.focus_previous()
    }

    /// The focused session.
    pub fn active_session_id(&self) -> (id: usize)
        ensures
            id == self.pane_tree.active(),
    {
        self.pane_tree.active_session_id()
    }

    /// Appends a transcript line to a session (the oldest line goes once
    /// `TERMINAL_LINE_LIMIT` are kept). Unknown sessions are ignored.
    pub fn append_line(&mut self, session_id: usize, line: String)
        ensures
            line_appended(*old(self), *final(self), session_id, line),
    {
        if session_id < self.sessions.len() {
            let session = &mut self.sessions[session_id];
            if session.lines.len() >= TERMINAL_LINE_LIMIT {
                session.lines.pop_front();
            }
            session.lines.push_back(line);
        }
    }

    /// Clears a session's transcript and forgets its pending context line.
    pub fn clear_lines(&mut self, session_id: usize)
        ensures
            lines_cleared(*old(self), *final(self), session_id),
    {
        if session_id < self.sessions.len() {
            let session = &mut self.sessions[session_id];
            session.lines.clear();
            session.pending_context_line = None;
        }
    }

    /// Appends a context line (cwd and git state) and remembers it as the line
    /// that the next command timing completes.
    pub fn append_context_line(&mut self, session_id: usize, line: String)
        ensures
            context_line_appended(*old(self), *final(self), session_id, line),
    {
        let copy = line.clone();
        self.append_line(session_id, copy);
        if session_id < self.sessions.len() {
            let session = &mut self.sessions[session_id];
            session.pending_context_line = Some(line);
        }
    }

    /// Completes the pending context line with the duration of the command:
    /// its last copy in the transcript becomes `<line> (<elapsed>s)`, where
    /// `elapsed` is the duration already formatted (four decimals).
    pub fn finalize_context_line(&mut self, session_id: usize, elapsed: &str)
        ensures
            context_line_finalized(*old(self), *final(self), session_id, elapsed@),
    {
        if session_id >= self.sessions.len() {
            return;
        }
        let session = &mut self.sessions[session_id];
        let pending = session.pending_context_line.take();
        match pending {
            None => {},
            Some(pending_line) => {
                let found = last_position_of(&session.lines, &pending_line);
                proof {
                    lemma_last_index_of(views(session.lines@), pending_line@);
                }
                if let Some(idx) = found {
                    let mut replaced = pending_line.clone();
                    push_str(&mut replaced, " (");
                    push_str(&mut replaced, elapsed);
                    push_str(&mut replaced, "s)");
                    let ghost before = session.lines@;
                    session.lines.remove(idx);
                    session.lines.insert(idx, replaced);
                    assert(views(session.lines@) =~= views(before).update(idx as int, replaced@));
                }
            },
        }
    }

    /// Records a command in a session's history: an older copy moves to the
    /// back, and the oldest entry goes once `HISTORY_LIMIT` are kept.
    pub fn append_history(&mut self, session_id: usize, command: String)
        ensures
            history_appended(*old(self), *final(self), session_id, command@),
    {
        if session_id < self.sessions.len() {
            let session = &mut self.sessions[session_id];
            recent_unique_push(&mut session.history, command, HISTORY_LIMIT);
        }
    }

    /// Records a session's viewport size; reports whether it changed.
    pub fn set_viewport_size(&mut self, session_id: usize, size: TerminalSize) -> (changed: bool)
        ensures
            viewport_set(*old(self), *final(self), session_id, size, changed),
    {
        if session_id >= self.sessions.len() {
            return false;
        }
        let session = &mut self.sessions[session_id];
        let same = match session.viewport_size {
            Some(current) => current == size,
            None => false,
        };
        if same {
            return false;
        }
        session.viewport_size = Some(size);
        true
    }

    /// Gives every session the same command history.
    pub fn seed_history(&mut self, history: Vec<String>)
        ensures
            history_seeded(*old(self), *final(self), views(history@)),
    {
        let seeded = deque_of(&history);
        let mut j: usize = 0;
        while j < self.sessions.len()
            invariant
                j <= self.sessions.len() == old(self).sessions.len(),
                views(seeded@) == views(history@),
                forall|k: int|
                    0 <= k < self.sessions.len() && k >= j ==> self.sessions[k] == old(self).sessions[k],
                forall|k: int|
                    0 <= k < j ==> #[trigger] self.sessions[k] == (TerminalState {
                        history: self.sessions[k].history,
                        ..old(self).sessions[k]
                    }),
                forall|k: int| 0 <= k < j ==> views(#[trigger] self.sessions[k].history@) == views(history@),
                self.directory_history == old(self).directory_history,
                self.pane_tree == old(self).pane_tree,
            decreases self.sessions.len() - j,
        {
            let copy = seeded.clone();
            assert(copy@ =~= seeded@);
            let session = &mut self.sessions[j];
            session.history = copy;
            j += 1;
        }
    }

    /// The most recent history entry of a session that starts with `input`
    /// (none for empty input or an unknown session).
    pub fn get_suggestion(&self, session_id: usize, input: &str) -> (r: Option<String>)
        ensures
            r.is_none() <==> (input@.len() == 0 || session_id >= self.sessions.len()
                || latest_with_prefix(views(self.sessions[session_id as int].history@), input@) is None),
            r matches Some(s) ==> Some(s@) == latest_with_prefix(
                views(self.sessions[session_id as int].history@),
                input@,
            ),
    {
        let input_chars = chars_of(input);
        if input_chars.len() == 0 {
            return None;
        }
        if session_id >= self.sessions.len() {
            return None;
        }
        let history = &self.sessions[session_id].history;
        let ghost hv = views(history@);
        assert(hv == views(self.sessions[session_id as int].history@));
        let mut idx = history.len();
        assert(hv.subrange(0, idx as int) =~= hv);
        while idx > 0
            invariant
                idx <= history@.len(),
                hv == views(history@),
                session_id < self.sessions.len(),
                hv == views(self.sessions[session_id as int].history@),
                input@.len() > 0,
                input_chars@ == input@,
                latest_with_prefix(hv, input@) == latest_with_prefix(hv.subrange(0, idx as int), input@),
            decreases idx,
        {
            let ghost pre = hv.subrange(0, idx as int);
            assert(pre.drop_last() =~= hv.subrange(0, idx - 1));
            assert(pre.last() == history@[idx - 1]@);
            let entry = chars_of(history[idx - 1].as_str());
            if chars_start_with(&entry, &input_chars) {
                let found = history[idx - 1].clone();
                assert(found@ == pre.last());
                assert(starts_with(pre.last(), input@));
                assert(latest_with_prefix(pre, input@) == Some(pre.last()));
                assert(latest_with_prefix(hv, input@) == Some(found@));
                return Some(found);
            }
            idx -= 1;
        }
        assert(hv.subrange(0, 0) =~= Seq::<Seq<char>>::empty());
        None
    }

    /// Replaces the directory-jump history.
    pub fn seed_directory_history(&mut self, history: Vec<String>)
        ensures
            views(final(self).directory_history@) == views(history@),
            final(self).sessions == old(self).sessions,
            final(self).pane_tree == old(self).pane_tree,
    {
        self.directory_history = deque_of(&history);
    }

    /// Records a visited directory (blank paths are ignored; the oldest visit
    /// goes once `DIRECTORY_HISTORY_LIMIT` are kept).
    pub fn record_directory_visit(&mut self, path: String)
        ensures
            directory_recorded(*old(self), *final(self), path),
    {
        let trimmed = trimmed_chars(path.as_str());
        if trimmed.len() == 0 {
            return;
        }
        if self.directory_history.len() >= DIRECTORY_HISTORY_LIMIT {
            self.directory_history.pop_front();
        }
        self.directory_history.push_back(path);
    }
}

impl Default for TerminalManager {
    fn default() -> (m: Self)
        ensures
            m.wf(),
            m.sessions.len() == 1,
    {
        Self::new(1)
    }
}

/// Position of the last string of `q` equal to `x`.
pub fn last_position_of(q: &VecDeque<String>, x: &String) -> (r: Option<usize>)
    ensures
        match r {
            Some(i) => last_index_of(views(q@), x@) == Some(i as int),
            None => last_index_of(views(q@), x@) is None,
        },
{
    let ghost v = views(q@);
    let mut idx = q.len();
    assert(v.subrange(0, idx as int) =~= v);
    while idx > 0
        invariant
            idx <= q@.len(),
            v == views(q@),
            last_index_of(v, x@) == last_index_of(v.subrange(0, idx as int), x@),
        decreases idx,
    {
        let ghost pre = v.subrange(0, idx as int);
        assert(pre.drop_last() =~= v.subrange(0, idx - 1));
        assert(pre.last() == q@[idx - 1]@);
        if q[idx - 1] == *x {
            return Some(idx - 1);
        }
        idx -= 1;
    }
    assert(v.subrange(0, 0) =~= Seq::<Seq<char>>::empty());
    None
}

/// A deque holding clones of the strings of `v`, in order.
pub fn deque_of(v: &Vec<String>) -> (q: VecDeque<String>)
    ensures
        views(q@) == views(v@),
        q@ == v@,
{
    let mut q: VecDeque<String> = VecDeque::new();
    let mut i: usize = 0;
    while i < v.len()
        invariant
            i <= v.len(),
            q@ == v@.subrange(0, i as int),
        decreases v.len() - i,
    {
        q.push_back(v[i].clone());
        assert(v@.subrange(0, i + 1) =~= v@.subrange(0, i as int).push(v@[i as int]));
        i += 1;
    }
    assert(v@.subrange(0, v.len() as int) =~= v@);
    q
}

} // verus!
