//! Terminal sessions of the viewer: a plain list of sessions with their
//! transcripts and command histories, without panes or shell metadata.
use vstd::prelude::*;
use std::collections::VecDeque;
pub use crate::terminals::TerminalSnapshot;
use crate::terminals::{
    clamp_sessions, finalized_lines, last_position_of, latest_with_prefix, lemma_last_index_of, push_bounded,
    session_title, HISTORY_LIMIT, MAX_TERMINAL_SESSIONS, TERMINAL_LINE_LIMIT,
};
use crate::text::{
    chars_of, chars_start_with, owned, push_decimal, push_recent_unique, push_str, recent_unique_push,
    starts_with, views,
};

verus! {

broadcast use vstd::string::group_string_axioms;

/// One session of the viewer.
#[derive(Clone)]
pub struct TerminalState {
    pub title: String,
    pub cwd: String,
    pub status: String,
    pub lines: VecDeque<String>,
    pub history: VecDeque<String>,
    pub pending_context_line: Option<String>,
}

/// A session just opened with `title`: no output, no history, no cwd, status "starting".
pub open spec fn is_new_session(s: TerminalState, title: Seq<char>) -> bool {
    &&& s.title@ == title
    &&& s.cwd@ == Seq::<char>::empty()
    &&& s.status@ == "starting"@
    &&& s.lines@.len() == 0
    &&& s.history@.len() == 0
    &&& s.pending_context_line is None
}

/// A new session titled `title`.
pub fn new_session(title: String) -> (s: TerminalState)
    ensures
        is_new_session(s, title@),
{
    TerminalState {
        title,
        cwd: String::new(),
        status: owned("starting"),
        lines: VecDeque::new(),
        history: VecDeque::new(),
        pending_context_line: None,
    }
}

impl Default for TerminalState {
    fn default() -> (s: Self)
        ensures
            is_new_session(s, "shell-1"@),
    {
        new_session(owned("shell-1"))
    }
}

/// The viewer's sessions.
pub struct TerminalManager {
    pub sessions: Vec<TerminalState>,
}

/// Everything but session `i` is as in `o`; an unknown `i` changes nothing.
pub open spec fn only_session_changed(o: TerminalManager, n: TerminalManager, i: usize) -> bool {
    &&& n.sessions.len() == o.sessions.len()
    &&& forall|j: int| 0 <= j < n.sessions.len() && j != i ==> n.sessions[j] == o.sessions[j]
    &&& i >= o.sessions.len() ==> n.sessions == o.sessions
}

impl TerminalManager {
    /// A manager with `count` sessions (clamped to `1..=MAX_TERMINAL_SESSIONS`)
    /// named `shell-1`, `shell-2`, ...
    pub fn new(count: usize) -> (m: Self)
        ensures
            m.sessions.len() == clamp_sessions(count),
            forall|i: int|
                0 <= i < m.sessions.len() ==> is_new_session(#[trigger] m.sessions[i], session_title(i as nat)),
    {
        let n = if count < 1 {
            1
        } else if count > MAX_TERMINAL_SESSIONS {
            MAX_TERMINAL_SESSIONS
        } else {
            count
        };
        let mut sessions: Vec<TerminalState> = Vec::new();
        let mut i: usize = 0;
        while i < n
            invariant
                i <= n <= MAX_TERMINAL_SESSIONS,
                sessions.len() == i,
                forall|k: int| 0 <= k < i ==> is_new_session(#[trigger] sessions[k], session_title(k as nat)),
            decreases n - i,
        {
            let mut title = owned("shell-");
            push_decimal(&mut title, (i + 1) as u64);
            sessions.push(new_session(title));
            i += 1;
        }
        TerminalManager { sessions }
    }

    /// Opens a session titled `title` at the end; refused once
    /// `MAX_TERMINAL_SESSIONS` are open.
    pub fn add_session(&mut self, title: String) -> (r: Option<usize>)
        ensures
            r == (if old(self).sessions.len() < MAX_TERMINAL_SESSIONS {
                Some(old(self).sessions.len())
            } else {
                None
            }),
            r is Some ==> final(self).sessions@.drop_last() == old(self).sessions@,
            r is Some ==> final(self).sessions@.len() == old(self).sessions@.len() + 1,
            r is Some ==> is_new_session(final(self).sessions@.last(), title@),
            r is None ==> final(self).sessions == old(self).sessions,
    {
        if self.sessions.len() >= MAX_TERMINAL_SESSIONS {
            return None;
        }
        let index = self.sessions.len();
        self.sessions.push(new_session(title));
        assert(self.sessions@.drop_last() =~= old(self).sessions@);
        Some(index)
    }

    /// Closes session `index`; refused for the last remaining session or an
    /// index out of range.
    pub fn remove_session(&mut self, index: usize) -> (ok: bool)
        ensures
            ok == (old(self).sessions.len() > 1 && index < old(self).sessions.len()),
            ok ==> final(self).sessions@ == old(self).sessions@.remove(index as int),
            !ok ==> final(self).sessions == old(self).sessions,
    {
        if self.sessions.len() <= 1 || index >= self.sessions.len() {
            return false;
        }
        self.sessions.remove(index);
        true
    }

    /// Appends a transcript line to a session (the oldest line goes once
    /// `TERMINAL_LINE_LIMIT` are kept). Unknown sessions are ignored.
    pub fn append_line(&mut self, session_id: usize, line: String)
        ensures
            only_session_changed(*old(self), *final(self), session_id),
            session_id < old(self).sessions.len() ==> ({
                let os = old(self).sessions[session_id as int];
                let ns = final(self).sessions[session_id as int];
                &&& ns.lines@ == push_bounded(os.lines@, line, TERMINAL_LINE_LIMIT as nat)
                &&& ns == (TerminalState { lines: ns.lines, ..os })
            }),
    {
        if session_id < self.sessions.len() {
            let session = &mut self.sessions[session_id];
            if session.lines.len() >= TERMINAL_LINE_LIMIT {
                session.lines.pop_front();
            }
            session.lines.push_back(line);
        }
    }

    /// Clears a session's transcript and forgets its pending context line.
    pub fn clear_lines(&mut self, session_id: usize)
        ensures
            only_session_changed(*old(self), *final(self), session_id),
            session_id < old(self).sessions.len() ==> ({
                let os = old(self).sessions[session_id as int];
                let ns = final(self).sessions[session_id as int];
                &&& ns.lines@.len() == 0
                &&& ns == (TerminalState { lines: ns.lines, pending_context_line: None, ..os })
            }),
    {
        if session_id < self.sessions.len() {
            let session = &mut self.sessions[session_id];
            session.lines.clear();
            session.pending_context_line = None;
        }
    }

    /// Appends a context line and remembers it as the line that the next
    /// command timing completes.
    pub fn append_context_line(&mut self, session_id: usize, line: String)
        ensures
            only_session_changed(*old(self), *final(self), session_id),
            session_id < old(self).sessions.len() ==> ({
                let os = old(self).sessions[session_id as int];
                let ns = final(self).sessions[session_id as int];
                &&& ns.lines@ == push_bounded(os.lines@, line, TERMINAL_LINE_LIMIT as nat)
                &&& ns.pending_context_line == Some(line)
                &&& ns == (TerminalState { lines: ns.lines, pending_context_line: ns.pending_context_line, ..os })
            }),
    {
        let copy = line.clone();
        self.append_line(session_id, copy);
        if session_id < self.sessions.len() {
            let session = &mut self.sessions[session_id];
            session.pending_context_line = Some(line);
        }
    }

    /// Completes the pending context line with the command's duration, given
    /// already formatted (four decimals): its last copy becomes
    /// `<line> (<elapsed>s)`; nothing stays pending.
    pub fn finalize_context_line(&mut self, session_id: usize, elapsed: &str)
        ensures
            only_session_changed(*old(self), *final(self), session_id),
            session_id < old(self).sessions.len() ==> ({
                let os = old(self).sessions[session_id as int];
                let ns = final(self).sessions[session_id as int];
                &&& views(ns.lines@) == match os.pending_context_line {
                    Some(p) => finalized_lines(views(os.lines@), p@, elapsed@),
                    None => views(os.lines@),
                }
                &&& ns == (TerminalState { lines: ns.lines, pending_context_line: None, ..os })
            }),
    {
        if session_id >= self.sessions.len() {
            return;
        }
        let session = &mut self.sessions[session_id];
        let pending = session.pending_context_line.take();
        match pending {
            None => {},
            Some(pending_line) => {
                let found = last_position_of(&session.lines, &pending_line);
                proof {
                    lemma_last_index_of(views(session.lines@), pending_line@);
                }
                if let Some(idx) = found {
                    let mut replaced = pending_line.clone();
                    push_str(&mut replaced, " (");
                    push_str(&mut replaced, elapsed);
                    push_str(&mut replaced, "s)");
                    let ghost before = session.lines@;
                    session.lines.remove(idx);
                    session.lines.insert(idx, replaced);
                    assert(views(session.lines@) =~= views(before).update(idx as int, replaced@));
                }
            },
        }
    }

    /// Records a command in a session's history: an older copy moves to the
    /// back, and the oldest entry goes once `HISTORY_LIMIT` are kept.
    pub fn append_history(&mut self, session_id: usize, command: String)
        ensures
            only_session_changed(*old(self), *final(self), session_id),
            session_id < old(self).sessions.len() ==> ({
                let os = old(self).sessions[session_id as int];
                let ns = final(self).sessions[session_id as int];
                &&& views(ns.history@) == push_recent_unique(views(os.history@), command@, HISTORY_LIMIT as nat)
                &&& ns == (TerminalState { history: ns.history, ..os })
            }),
    {
        if session_id < self.sessions.len() {
            let session = &mut self.sessions[session_id];
            recent_unique_push(&mut session.history, command, HISTORY_LIMIT);
        }
    }

    /// The most recent history entry of a session that starts with `input`
    /// (none for empty input or an unknown session).
    pub fn get_suggestion(&self, session_id: usize, input: &str) -> (r: Option<String>)
        ensures
            r.is_none() <==> (input@.len() == 0 || session_id >= self.sessions.len()
                || latest_with_prefix(views(self.sessions[session_id as int].history@), input@) is None),
            r matches Some(s) ==> Some(s@) == latest_with_prefix(
                views(self.sessions[session_id as int].history@),
                input@,
            ),
    {
        let input_chars = chars_of(input);
        if input_chars.len() == 0 {
            return None;
        }
        if session_id >= self.sessions.len() {
            return None;
        }
        let history = &self.sessions[session_id].history;
        let ghost hv = views(history@);
        let mut idx = history.len();
        assert(hv.subrange(0, idx as int) =~= hv);
        while idx > 0
            invariant
                idx <= history@.len(),
                hv == views(history@),
                session_id < self.sessions.len(),
                hv == views(self.sessions[session_id as int].history@),
                input@.len() > 0,
                input_chars@ == input@,
                latest_with_prefix(hv, input@) == latest_with_prefix(hv.subrange(0, idx as int), input@),
            decreases idx,
        {
            let ghost pre = hv.subrange(0, idx as int);
            assert(pre.drop_last() =~= hv.subrange(0, idx - 1));
            assert(pre.last() == history@[idx - 1]@);
            let entry = chars_of(history[idx - 1].as_str());
            if chars_start_with(&entry, &input_chars) {
                let found = history[idx - 1].clone();
                assert(starts_with(pre.last(), input@));
                assert(latest_with_prefix(pre, input@) == Some(pre.last()));
                return Some(found);
            }
            idx -= 1;
        }
        assert(hv.subrange(0, 0) =~= Seq::<Seq<char>>::empty());
        None
    }
}

impl Default for TerminalManager {
    fn default() -> (m: Self)
        ensures
            m.sessions.len() == 0,
    {
        TerminalManager { sessions: Vec::new() }
    }
}

} // verus!
