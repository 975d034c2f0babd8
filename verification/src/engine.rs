//! The engine's decisions: what the views ask of it, how terminal events
//! change the state, and which viewport resizes are due.
//!
//! The engine's loop (channels, processes, timers) runs at the edge of the
//! program and hands each input to `engine_step`; it reads the clocks as
//! milliseconds (wall-clock time for agents, a monotonic scale for resizes).
use vstd::prelude::*;
use crate::app_state::{agent_update_applied, AppState};
use crate::terminal::{TerminalEvent, TerminalSize};
use crate::registry::{activity_ticked, event_added, Agent, Event};
use crate::terminals::{
    context_line_finalized, history_appended, line_appended, push_bounded, TerminalState,
    DIRECTORY_HISTORY_LIMIT, HISTORY_LIMIT,
};
use crate::text::{chars_equal, chars_of, is_blank, push_recent_unique, views};

verus! {

broadcast use vstd::string::group_string_axioms;

/// How long a viewport must stay the same size before the shell is told.
pub const RESIZE_DEBOUNCE_MS: u64 = 140;

/// What the views ask the engine to do.
#[derive(Debug, Clone)]
pub enum Action {
    /// Start a shell session in `cwd`.
    SpawnTerminal { cwd: String },
    /// Send a command line to a session.
    SubmitCommand { session_id: usize, command: String },
    /// Resize a session's viewport (applied once the size settles).
    ResizeTerminal { session_id: usize, size: TerminalSize },
    /// Store a command in the shared history file.
    PersistHistory { command: String, cwd: String },
}

/// What applying a shell session's report leaves: see `apply_terminal_event`.
pub open spec fn terminal_event_applied(o: AppState, n: AppState, terminal_event: TerminalEvent) -> bool {
    &&& (o.wf() ==> n.wf())
    &&& n.registry == o.registry
    &&& n.ui == o.ui
    &&& match terminal_event {
            TerminalEvent::Line { session_id, line } => line_appended(
                o.terminals,
                n.terminals,
                session_id,
                line,
            ),
            TerminalEvent::Status { session_id, status } => {
                &&& n.terminals.same_except_session(&o.terminals, session_id as int)
                &&& session_id < o.terminals.sessions.len() ==> n.terminals.sessions[session_id as int]
                    == (TerminalState { status, ..o.terminals.sessions[session_id as int] })
                &&& session_id >= o.terminals.sessions.len() ==> n.terminals == o.terminals
            },
            TerminalEvent::Cwd { session_id, cwd } => {
                let changed = session_id < o.terminals.sessions.len() && o.terminals.sessions[session_id as int].cwd@ != cwd@;
                &&& n.terminals.sessions.len() == o.terminals.sessions.len()
                &&& n.terminals.pane_tree == o.terminals.pane_tree
                &&& forall|j: int|
                    0 <= j < o.terminals.sessions.len() && j != session_id ==> n.terminals.sessions[j]
                        == o.terminals.sessions[j]
                &&& changed ==> n.terminals.sessions[session_id as int] == (TerminalState {
                    cwd,
                    ..o.terminals.sessions[session_id as int]
                })
                &&& !changed ==> n.terminals.sessions == o.terminals.sessions
                &&& views(n.terminals.directory_history@) == if changed && !is_blank(cwd@) {
                    push_bounded(
                        views(o.terminals.directory_history@),
                        cwd@,
                        DIRECTORY_HISTORY_LIMIT as nat,
                    )
                } else {
                    views(o.terminals.directory_history@)
                }
            },
            TerminalEvent::Timing { session_id, seconds } => context_line_finalized(
                o.terminals,
                n.terminals,
                session_id,
                seconds@,
            ),
            TerminalEvent::LastCommand { session_id, command } => {
                &&& n.terminals.same_except_session(&o.terminals, session_id as int)
                &&& session_id < o.terminals.sessions.len() ==> ({
                    let os = o.terminals.sessions[session_id as int];
                    let ns = n.terminals.sessions[session_id as int];
                    &&& views(ns.history@) == push_recent_unique(
                        views(os.history@),
                        command@,
                        HISTORY_LIMIT as nat,
                    )
                    &&& ns == (TerminalState {
                        history: ns.history,
                        last_command: Some(command),
                        ..os
                    })
                })
                &&& session_id >= o.terminals.sessions.len() ==> n.terminals == o.terminals
            },
            TerminalEvent::ExitCode { session_id, exit_code } => {
                &&& n.terminals.same_except_session(&o.terminals, session_id as int)
                &&& session_id < o.terminals.sessions.len() ==> n.terminals.sessions[session_id as int]
                    == (TerminalState {
                    last_exit_code: Some(exit_code),
                    ..o.terminals.sessions[session_id as int]
                })
                &&& session_id >= o.terminals.sessions.len() ==> n.terminals == o.terminals
            },
        }
}

/// Applies what a shell session reported to the state.
pub fn apply_terminal_event(app: &mut AppState, terminal_event: TerminalEvent)
    ensures
        terminal_event_applied(*old(app), *final(app), terminal_event),
{
    let ghost start = *app;
    match terminal_event {
        TerminalEvent::Line { session_id, line } => app.append_terminal_line(session_id, line),
        TerminalEvent::Status { session_id, status } => app.set_terminal_status(session_id, status),
        TerminalEvent::Cwd { session_id, cwd } => {
            let visit = cwd.clone();
            if app.set_terminal_cwd(session_id, cwd) {
                let ghost mid = app.terminals.directory_history@;
                app.record_directory_visit(visit);
                proof {
                    if !is_blank(visit@) {
                        assert(views(push_bounded(mid, visit, DIRECTORY_HISTORY_LIMIT as nat))
                            =~= push_bounded(views(mid), visit@, DIRECTORY_HISTORY_LIMIT as nat));
                    }
                }
            }
        },
        TerminalEvent::Timing { session_id, seconds } => {
            app.finalize_terminal_context_line(session_id, seconds.as_str())
        },
        TerminalEvent::LastCommand { session_id, command } => {
            app.append_terminal_history(session_id, command.clone());
            app.set_terminal_last_command(session_id, command);
        },
        TerminalEvent::ExitCode { session_id, exit_code } => {
            app.set_terminal_last_exit_code(session_id, exit_code);
        },
    }
    proof {
        lemma_shape_keeps_wf(start, *app);
    }
}

/// A state whose registry, session count and pane tree are those of a
/// well-formed state is well-formed.
proof fn lemma_shape_keeps_wf(o: AppState, n: AppState)
    requires
        n.registry == o.registry,
        n.terminals.sessions.len() == o.terminals.sessions.len(),
        n.terminals.pane_tree == o.terminals.pane_tree,
    ensures
        o.wf() ==> n.wf(),
{
}

/// A viewport size waiting to be applied to a session.
#[derive(Debug, Clone, Copy, PartialEq, Eq, Structural)]
pub struct PendingResize {
    pub session_id: usize,
    pub size: TerminalSize,
    pub ready_at_ms: u64,
}

/// Viewport sizes waiting to settle, at most one per session.
pub struct DeferredTerminalResizes {
    pending: Vec<PendingResize>,
}

/// The entries of `es` for which `taken` is false, in order.
pub open spec fn kept_entries(es: Seq<PendingResize>, taken: Seq<bool>) -> Seq<PendingResize>
    decreases es.len(),
{
    if es.len() == 0 {
        es
    } else if taken.last() {
        kept_entries(es.drop_last(), taken.drop_last())
    } else {
        kept_entries(es.drop_last(), taken.drop_last()).push(es.last())
    }
}

/// Session and size of the entries of `es` for which `taken` is true, in order.
pub open spec fn taken_entries(es: Seq<PendingResize>, taken: Seq<bool>) -> Seq<(usize, TerminalSize)>
    decreases es.len(),
{
    if es.len() == 0 {
        Seq::empty()
    } else if taken.last() {
        taken_entries(es.drop_last(), taken.drop_last()).push((es.last().session_id, es.last().size))
    } else {
        taken_entries(es.drop_last(), taken.drop_last())
    }
}

/// Session ids of pending entries.
pub open spec fn pending_ids(es: Seq<PendingResize>) -> Seq<usize> {
    es.map_values(|p: PendingResize| p.session_id)
}

/// What scheduling `e` leaves: it replaces the waiting entry of its session
/// in place, or is added at the end.
pub open spec fn resize_scheduled(o: Seq<PendingResize>, n: Seq<PendingResize>, e: PendingResize) -> bool {
    &&& forall|i: int| 0 <= i < o.len() && o[i].session_id == e.session_id ==> n == o.update(i, e)
    &&& !pending_ids(o).contains(e.session_id) ==> n == o.push(e)
}

impl DeferredTerminalResizes {
    /// The waiting sizes, in the order they were first scheduled.
    pub closed spec fn entries(self) -> Seq<PendingResize> {
        self.pending@
    }

    /// At most one waiting size per session.
    pub open spec fn wf(self) -> bool {
        pending_ids(self.entries()).no_duplicates()
    }

    /// Nothing waiting.
    pub fn new() -> (d: Self)
        ensures
            d.wf(),
            d.entries().len() == 0,
    {
        DeferredTerminalResizes { pending: Vec::new() }
    }

    /// Number of waiting sizes.
    pub fn len(&self) -> (n: usize)
        ensures
            n == self.entries().len(),
    {
        self.pending.len()
    }

    /// Schedules `size` for a session, to be applied `delay_ms` after
    /// `now_ms`; a size already waiting for that session is replaced in place.
    pub fn schedule(&mut self, session_id: usize, size: TerminalSize, now_ms: u64, delay_ms: u64)
        requires
            old(self).wf(),
            now_ms + delay_ms <= u64::MAX,
        ensures
            final(self).wf(),
            resize_scheduled(
                old(self).entries(),
                final(self).entries(),
                PendingResize { session_id, size, ready_at_ms: (now_ms + delay_ms) as u64 },
            ),
    {
        let e = PendingResize { session_id, size, ready_at_ms: now_ms + delay_ms };
        let ghost es = self.pending@;
        let ghost ids = pending_ids(es);
        let mut i: usize = 0;
        while i < self.pending.len()
            invariant
                i <= es.len(),
                self.pending@ == es,
                es == old(self).pending@,
                ids == pending_ids(es),
                ids.no_duplicates(),
                e == (PendingResize { session_id, size, ready_at_ms: (now_ms + delay_ms) as u64 }),
                forall|k: int| 0 <= k < i ==> ids[k] != session_id,
            decreases es.len() - i,
        {
            if self.pending[i].session_id == session_id {
                self.pending.set(i, e);
                proof {
                    let ns = self.pending@;
                    assert(ns =~= es.update(i as int, e));
                    assert forall|k: int| 0 <= k < ns.len() implies pending_ids(ns)[k] == ids[k] by {
                        if k != i {
                            assert(ns[k] == es[k]);
                        }
                    }
                    assert(pending_ids(ns) =~= ids);
                    assert forall|j: int| 0 <= j < es.len() && es[j].session_id == session_id implies j
                        == i by {
                        assert(ids[j] == es[j].session_id);
                        assert(ids[i as int] == es[i as int].session_id);
                    }
                    assert(ids[i as int] == session_id);
                    assert(ids.contains(session_id));
                }
                return;
            }
            i += 1;
        }
        assert(!ids.contains(session_id));
        assert forall|j: int| 0 <= j < es.len() implies es[j].session_id != session_id by {
            assert(ids[j] == es[j].session_id);
        }
        self.pending.push(e);
        assert(pending_ids(self.pending@) =~= ids.push(session_id));
    }

    /// Takes the waiting sizes that are due at `now_ms` and whose session
    /// `is_ready` accepts (it is asked only about due ones); the others keep
    /// waiting, in order.
    pub fn take_ready<F: Fn(usize) -> bool>(&mut self, now_ms: u64, is_ready: F) -> (r: Vec<
        (usize, TerminalSize),
    >)
        requires
            old(self).wf(),
            forall|id: usize| is_ready.requires((id,)),
        ensures
            final(self).wf(),
            exists|taken: Seq<bool>|
                {
                    &&& taken.len() == old(self).entries().len()
                    &&& forall|i: int|
                        0 <= i < taken.len() && #[trigger] taken[i] ==> old(self).entries()[i].ready_at_ms
                            <= now_ms && is_ready.ensures((old(self).entries()[i].session_id,), true)
                    &&& forall|i: int|
                        0 <= i < taken.len() && !#[trigger] taken[i] && old(self).entries()[i].ready_at_ms
                            <= now_ms ==> is_ready.ensures(
                            (old(self).entries()[i].session_id,),
                            false,
                        )
                    &&& final(self).entries() == kept_entries(old(self).entries(), taken)
                    &&& r@ == taken_entries(old(self).entries(), taken)
                },
    {
        let ghost es = self.pending@;
        let mut kept: Vec<PendingResize> = Vec::new();
        let mut out: Vec<(usize, TerminalSize)> = Vec::new();
        let ghost mut taken: Seq<bool> = Seq::empty();
        let mut i: usize = 0;
        while i < self.pending.len()
            invariant
                self.pending@ == es,
                i <= es.len(),
                taken.len() == i,
                forall|id: usize| is_ready.requires((id,)),
                forall|k: int|
                    0 <= k < i && #[trigger] taken[k] ==> es[k].ready_at_ms <= now_ms
                        && is_ready.ensures((es[k].session_id,), true),
                forall|k: int|
                    0 <= k < i && !#[trigger] taken[k] && es[k].ready_at_ms <= now_ms
                        ==> is_ready.ensures((es[k].session_id,), false),
                kept@ == kept_entries(es.subrange(0, i as int), taken),
                out@ == taken_entries(es.subrange(0, i as int), taken),
            decreases es.len() - i,
        {
            let p = self.pending[i];
            let ghost pre = es.subrange(0, i as int);
            let ghost next = es.subrange(0, i + 1);
            assert(next.drop_last() =~= pre);
            assert(next.last() == p);
            let due = if p.ready_at_ms <= now_ms {
                is_ready(p.session_id)
            } else {
                false
            };
            let ghost old_taken = taken;
            proof {
                taken = taken.push(due);
                assert(taken.drop_last() =~= old_taken);
                assert(taken.last() == due);
            }
            if due {
                out.push((p.session_id, p.size));
            } else {
                kept.push(p);
            }
            i += 1;
        }
        proof {
            assert(es.subrange(0, es.len() as int) =~= es);
            lemma_kept_ids_unique(es, taken);
        }
        self.pending = kept;
        out
    }
}

/// Keeping some entries keeps their session ids distinct.
proof fn lemma_kept_ids_unique(es: Seq<PendingResize>, taken: Seq<bool>)
    requires
        pending_ids(es).no_duplicates(),
        taken.len() == es.len(),
    ensures
        pending_ids(kept_entries(es, taken)).no_duplicates(),
        forall|p: PendingResize| kept_entries(es, taken).contains(p) ==> es.contains(p),
    decreases es.len(),
{
    if es.len() > 0 {
        let init = es.drop_last();
        let ids = pending_ids(es);
        assert(pending_ids(init) =~= ids.drop_last());
        lemma_kept_ids_unique(init, taken.drop_last());
        let k = kept_entries(init, taken.drop_last());
        assert forall|p: PendingResize| k.contains(p) implies es.contains(p) by {
            assert(init.contains(p));
            let j = choose|j: int| 0 <= j < init.len() && init[j] == p;
            assert(es[j] == p);
        }
        if !taken.last() {
            let r = k.push(es.last());
            assert forall|p: PendingResize| k.contains(p) implies p.session_id != es.last().session_id by {
                assert(init.contains(p));
                let j = choose|j: int| 0 <= j < init.len() && init[j] == p;
                assert(ids[j] == p.session_id);
                assert(ids[es.len() - 1] == es.last().session_id);
            }
            assert(pending_ids(r) =~= pending_ids(k).push(es.last().session_id));
            assert forall|a: int, b: int| 0 <= a < b < pending_ids(r).len() implies pending_ids(r)[a]
                != pending_ids(r)[b] by {
                if b == pending_ids(r).len() - 1 {
                    assert(k.contains(k[a]));
                    assert(pending_ids(r)[a] == k[a].session_id);
                } else {
                    assert(pending_ids(r)[a] == pending_ids(k)[a]);
                    assert(pending_ids(r)[b] == pending_ids(k)[b]);
                }
            }
            assert forall|p: PendingResize| r.contains(p) implies es.contains(p) by {
                let j = choose|j: int| 0 <= j < r.len() && r[j] == p;
                if j < k.len() {
                    assert(k[j] == p);
                    assert(k.contains(p));
                } else {
                    assert(es[es.len() - 1] == p);
                }
            }
        }
    }
}

/// Whether `x` is the session and size of an entry of `es` that `taken` marks.
pub open spec fn is_taken_from(es: Seq<PendingResize>, taken: Seq<bool>, x: (usize, TerminalSize)) -> bool {
    exists|i: int| 0 <= i < es.len() && taken[i] && x == (#[trigger] es[i].session_id, es[i].size)
}

/// The sessions of the taken entries are distinct, and each taken entry is one of `es`.
proof fn lemma_taken_ids_unique(es: Seq<PendingResize>, taken: Seq<bool>)
    requires
        pending_ids(es).no_duplicates(),
        taken.len() == es.len(),
    ensures
        forall|a: int, b: int|
            0 <= a < b < taken_entries(es, taken).len() ==> taken_entries(es, taken)[a].0
                != taken_entries(es, taken)[b].0,
        forall|j: int|
            0 <= j < taken_entries(es, taken).len() ==> is_taken_from(es, taken, #[trigger] taken_entries(es, taken)[j]),
    decreases es.len(),
{
    if es.len() > 0 {
        let init = es.drop_last();
        let ids = pending_ids(es);
        assert(pending_ids(init) =~= ids.drop_last());
        let tk = taken.drop_last();
        lemma_taken_ids_unique(init, tk);
        let t = taken_entries(init, tk);
        assert forall|j: int| 0 <= j < t.len() implies is_taken_from(es, taken, t[j]) by {
            assert(is_taken_from(init, tk, t[j]));
            let i = choose|i: int| 0 <= i < init.len() && tk[i] && t[j] == (#[trigger] init[i].session_id, init[i].size);
            assert(es[i] == init[i] && taken[i] == tk[i]);
        }
        if taken.last() {
            let last = es.len() - 1;
            let r = t.push((es[last].session_id, es[last].size));
            assert(taken_entries(es, taken) == r);
            assert forall|j: int| 0 <= j < t.len() implies t[j].0 != es[last].session_id by {
                assert(is_taken_from(init, tk, t[j]));
                let i = choose|i: int| 0 <= i < init.len() && tk[i] && t[j] == (#[trigger] init[i].session_id, init[i].size);
                assert(ids[i] == init[i].session_id);
                assert(ids[last] == es[last].session_id);
            }
            assert forall|a: int, b: int| 0 <= a < b < r.len() implies r[a].0 != r[b].0 by {
                if b < t.len() {
                    assert(r[a] == t[a] && r[b] == t[b]);
                } else {
                    assert(r[a] == t[a]);
                }
            }
            assert forall|j: int| 0 <= j < r.len() implies is_taken_from(es, taken, r[j]) by {
                if j < t.len() {
                    assert(r[j] == t[j]);
                } else {
                    assert(r[j] == (es[last].session_id, es[last].size));
                    assert(taken[last]);
                }
            }
        } else {
            assert(taken_entries(es, taken) == t);
        }
    }
}

/// Whether a session is ready for a resize: it exists and its shell is ready.
pub open spec fn session_ready(app: AppState, id: usize) -> bool {
    id < app.terminals.sessions.len() && app.terminals.sessions[id as int].status@ == "ready"@
}

fn is_session_ready(app: &AppState, id: usize) -> (b: bool)
    ensures
        b == session_ready(*app, id),
{
    id < app.terminals.sessions.len() && chars_equal(
        &chars_of(app.terminals.sessions[id].status.as_str()),
        &chars_of("ready"),
    )
}

/// What flushing the due resizes leaves: the entries due at `now_ms` for
/// ready sessions are taken, the others keep waiting in order; of the taken
/// ones, those of sessions that have a shell (`shell_count`) are sent, in
/// order, and recorded as the sessions' viewport sizes.
pub open spec fn resizes_flushed(
    o: AppState,
    n: AppState,
    o_entries: Seq<PendingResize>,
    n_entries: Seq<PendingResize>,
    shell_count: usize,
    now_ms: u64,
    sent: Seq<(usize, TerminalSize)>,
) -> bool {
    &&& (o.wf() ==> n.wf())
    &&& n.registry == o.registry
    &&& n.ui == o.ui
    &&& n.terminals.sessions.len() == o.terminals.sessions.len()
    &&& n.terminals.pane_tree == o.terminals.pane_tree
    &&& n.terminals.directory_history == o.terminals.directory_history
    &&& exists|taken: Seq<bool>|
        {
            &&& taken.len() == o_entries.len()
            &&& forall|i: int|
                0 <= i < taken.len() ==> #[trigger] taken[i] == (o_entries[i].ready_at_ms <= now_ms
                    && session_ready(o, o_entries[i].session_id))
            &&& n_entries == kept_entries(o_entries, taken)
            &&& sent == shells_only(taken_entries(o_entries, taken), shell_count)
        }
    &&& forall|i: int|
        0 <= i < sent.len() ==> #[trigger] sent[i].0 < n.terminals.sessions.len()
            && n.terminals.sessions[sent[i].0 as int].viewport_size == Some(sent[i].1)
}

/// Takes the resizes that are due at `now_ms` for ready sessions (see
/// `session_ready`), records the new viewport size of each such session that
/// has a shell (`shell_count` of them), and returns those resizes, to be sent
/// to the shells, in order.
pub fn flush_ready_terminal_resizes(
    app: &mut AppState,
    pending: &mut DeferredTerminalResizes,
    shell_count: usize,
    now_ms: u64,
) -> (sent: Vec<(usize, TerminalSize)>)
    requires
        old(pending).wf(),
    ensures
        final(pending).wf(),
        resizes_flushed(
            *old(app),
            *final(app),
            old(pending).entries(),
            final(pending).entries(),
            shell_count,
            now_ms,
            sent@,
        ),
{
    let ghost es = pending.pending@;
    let ghost start_app = *app;
    let mut kept: Vec<PendingResize> = Vec::new();
    let mut ready: Vec<(usize, TerminalSize)> = Vec::new();
    let ghost mut taken: Seq<bool> = Seq::empty();
    let mut i: usize = 0;
    while i < pending.pending.len()
        invariant
            pending.pending@ == es,
            *app == start_app,
            i <= es.len(),
            taken.len() == i,
            forall|k: int|
                0 <= k < i ==> #[trigger] taken[k] == (es[k].ready_at_ms <= now_ms && session_ready(
                    start_app,
                    es[k].session_id,
                )),
            kept@ == kept_entries(es.subrange(0, i as int), taken),
            ready@ == taken_entries(es.subrange(0, i as int), taken),
        decreases es.len() - i,
    {
        let p = pending.pending[i];
        let ghost pre = es.subrange(0, i as int);
        let ghost next = es.subrange(0, i + 1);
        assert(next.drop_last() =~= pre);
        assert(next.last() == p);
        let due = p.ready_at_ms <= now_ms && is_session_ready(app, p.session_id);
        let ghost old_taken = taken;
        proof {
            taken = taken.push(due);
            assert(taken.drop_last() =~= old_taken);
        }
        if due {
            ready.push((p.session_id, p.size));
        } else {
            kept.push(p);
        }
        i += 1;
    }
    proof {
        assert(es.subrange(0, es.len() as int) =~= es);
        lemma_kept_ids_unique(es, taken);
        lemma_taken_ids_unique(es, taken);
    }
    pending.pending = kept;
    let mut sent: Vec<(usize, TerminalSize)> = Vec::new();
    let mut k: usize = 0;
    while k < ready.len()
        invariant
            k <= ready@.len(),
            ready@ == taken_entries(es, taken),
            forall|a: int, b: int| 0 <= a < b < ready@.len() ==> ready@[a].0 != ready@[b].0,
            forall|j: int|
                0 <= j < ready@.len() ==> #[trigger] ready@[j].0 < start_app.terminals.sessions.len(),
            app.registry == start_app.registry,
            app.ui == start_app.ui,
            app.terminals.sessions.len() == start_app.terminals.sessions.len(),
            app.terminals.pane_tree == start_app.terminals.pane_tree,
            app.terminals.directory_history == start_app.terminals.directory_history,
            sent@ == shells_only(ready@.subrange(0, k as int), shell_count),
            forall|j: int|
                0 <= j < sent@.len() ==> exists|m: int| 0 <= m < k && #[trigger] sent@[j] == ready@[m],
            forall|j: int|
                0 <= j < sent@.len() ==> #[trigger] sent@[j].0 < app.terminals.sessions.len()
                    && app.terminals.sessions[sent@[j].0 as int].viewport_size == Some(sent@[j].1),
        decreases ready@.len() - k,
    {
        let (session_id, size) = ready[k];
        let ghost pre = ready@.subrange(0, k as int);
        assert(ready@.subrange(0, k + 1).drop_last() =~= pre);
        assert(ready@.subrange(0, k + 1).last() == ready@[k as int]);
        if session_id < shell_count {
            let ghost before = sent@;
            let ghost prev_app = *app;
            let _ = app.set_terminal_viewport_size(session_id, size);
            sent.push((session_id, size));
            proof {
                assert forall|j: int| 0 <= j < sent@.len() implies #[trigger] sent@[j].0
                    < app.terminals.sessions.len() && app.terminals.sessions[sent@[j].0 as int].viewport_size
                    == Some(sent@[j].1) by {
                    if j < before.len() {
                        let m = choose|m: int| 0 <= m < k && #[trigger] before[j] == ready@[m];
                        assert(ready@[m].0 != ready@[k as int].0);
                        assert(sent@[j] == before[j]);
                    }
                }
                assert forall|j: int| 0 <= j < sent@.len() implies exists|m: int|
                    0 <= m < k + 1 && #[trigger] sent@[j] == ready@[m] by {
                    if j < before.len() {
                        let m = choose|m: int| 0 <= m < k && #[trigger] before[j] == ready@[m];
                        assert(sent@[j] == ready@[m]);
                    } else {
                        assert(sent@[j] == ready@[k as int]);
                    }
                }
            }
        }
        k += 1;
    }
    assert(ready@.subrange(0, ready@.len() as int) =~= ready@);
    proof {
        lemma_shape_keeps_wf(start_app, *app);
    }
    sent
}

/// The resizes of sessions that have a shell (`shell_count` of them), in order.
pub open spec fn shells_only(rs: Seq<(usize, TerminalSize)>, shell_count: usize) -> Seq<
    (usize, TerminalSize),
>
    decreases rs.len(),
{
    if rs.len() == 0 {
        rs
    } else if rs.last().0 < shell_count {
        shells_only(rs.drop_last(), shell_count).push(rs.last())
    } else {
        shells_only(rs.drop_last(), shell_count)
    }
}

// ---------------------------------------------------------------------------
// The engine's step
// ---------------------------------------------------------------------------

/// What drives the engine: an action of the views, what the mesh or a shell
/// reported, or one of its timers.
pub enum EngineInput {
    Action(Action),
    MeshEvent(Event),
    AgentUpdate(Agent),
    Terminal(TerminalEvent),
    /// The one-second activity timer.
    ActivityTick,
    /// The timer that flushes settled resizes.
    ResizeTick,
}

/// What the engine asks the edge of the program to do.
pub enum EngineOutput {
    /// Start shell `session_id` in `cwd`.
    StartShell { session_id: usize, cwd: String },
    /// Send a command line to a shell.
    SendInput { session_id: usize, command: String },
    /// Tell a shell its new viewport size.
    SendResize { session_id: usize, size: TerminalSize },
    /// Append a command to the history file.
    PersistHistory { command: String, cwd: String },
}

/// The engine's own state: how many shells it started (shell `i` serves
/// session `i`) and the viewport sizes waiting to settle.
pub struct EngineState {
    pub shell_count: usize,
    pub resizes: DeferredTerminalResizes,
}

impl EngineState {
    /// No shell started, nothing waiting.
    pub fn new() -> (e: Self)
        ensures
            e.shell_count == 0,
            e.resizes.wf(),
            e.resizes.entries().len() == 0,
    {
        EngineState { shell_count: 0, resizes: DeferredTerminalResizes::new() }
    }
}

/// The messages that tell shells their new sizes.
pub open spec fn resize_outputs(sent: Seq<(usize, TerminalSize)>) -> Seq<EngineOutput> {
    sent.map_values(|r: (usize, TerminalSize)| EngineOutput::SendResize { session_id: r.0, size: r.1 })
}

/// The inputs the engine can take in a state: without leaving the machine's
/// integers (one more shell, a resize deadline, one more counted event), and
/// agents whose metadata holds each key once.
pub open spec fn step_possible(engine: EngineState, app: AppState, input: EngineInput, mono_ms: u64) -> bool {
    match input {
        EngineInput::Action(Action::SpawnTerminal { .. }) => engine.shell_count < usize::MAX,
        EngineInput::Action(Action::ResizeTerminal { .. }) => mono_ms + RESIZE_DEBOUNCE_MS <= u64::MAX,
        EngineInput::MeshEvent(e) => app.registry.can_count_event(e.agent_id@),
        EngineInput::AgentUpdate(a) => a.wf(),
        _ => true,
    }
}

/// What a flush leaves, with the messages it sends.
pub open spec fn flushed_with_outputs(
    o: AppState,
    n: AppState,
    o_entries: Seq<PendingResize>,
    n_entries: Seq<PendingResize>,
    shell_count: usize,
    now_ms: u64,
    out: Seq<EngineOutput>,
) -> bool {
    exists|sent: Seq<(usize, TerminalSize)>|
        #[trigger] resizes_flushed(o, n, o_entries, n_entries, shell_count, now_ms, sent) && out
            == resize_outputs(sent)
}

fn resize_messages(sent: Vec<(usize, TerminalSize)>) -> (out: Vec<EngineOutput>)
    ensures
        out@ == resize_outputs(sent@),
{
    let mut out: Vec<EngineOutput> = Vec::new();
    let mut i: usize = 0;
    while i < sent.len()
        invariant
            i <= sent@.len(),
            out@ == resize_outputs(sent@.subrange(0, i as int)),
        decreases sent@.len() - i,
    {
        let (session_id, size) = sent[i];
        out.push(EngineOutput::SendResize { session_id, size });
        assert(resize_outputs(sent@.subrange(0, i + 1)) =~= resize_outputs(sent@.subrange(0, i as int)).push(
            EngineOutput::SendResize { session_id, size },
        ));
        i += 1;
    }
    assert(sent@.subrange(0, sent@.len() as int) =~= sent@);
    out
}

/// One step of the engine: what an input does to the state and what the
/// edge must do about it. Wall-clock time (`wall_ms`) stamps agents;
/// monotonic time (`mono_ms`) times resizes.
pub fn engine_step(
    engine: &mut EngineState,
    app: &mut AppState,
    input: EngineInput,
    wall_ms: i64,
    mono_ms: u64,
) -> (out: Vec<EngineOutput>)
    requires
        old(app).wf(),
        old(engine).resizes.wf(),
        step_possible(*old(engine), *old(app), input, mono_ms),
    ensures
        final(app).wf(),
        final(engine).resizes.wf(),
        match input {
            EngineInput::Action(action) => match action {
                Action::SpawnTerminal { cwd } => {
                    &&& out@ == seq![EngineOutput::StartShell { session_id: old(engine).shell_count, cwd }]
                    &&& final(engine).shell_count == old(engine).shell_count + 1
                    &&& final(engine).resizes == old(engine).resizes
                    &&& *final(app) == *old(app)
                },
                Action::SubmitCommand { session_id, command } => {
                    &&& out@ == if session_id < old(engine).shell_count {
                        seq![EngineOutput::SendInput { session_id, command }]
                    } else {
                        Seq::empty()
                    }
                    &&& *final(engine) == *old(engine)
                    &&& *final(app) == *old(app)
                },
                Action::ResizeTerminal { session_id, size } => {
                    &&& out@.len() == 0
                    &&& final(engine).shell_count == old(engine).shell_count
                    &&& resize_scheduled(
                        old(engine).resizes.entries(),
                        final(engine).resizes.entries(),
                        PendingResize { session_id, size, ready_at_ms: (mono_ms + RESIZE_DEBOUNCE_MS) as u64 },
                    )
                    &&& *final(app) == *old(app)
                },
                Action::PersistHistory { command, cwd } => {
                    &&& out@ == seq![EngineOutput::PersistHistory { command, cwd }]
                    &&& *final(engine) == *old(engine)
                    &&& *final(app) == *old(app)
                },
            },
            EngineInput::MeshEvent(event) => {
                &&& out@.len() == 0
                &&& event_added(old(app).registry, final(app).registry, event)
                &&& final(app).terminals == old(app).terminals
                &&& final(app).ui == old(app).ui
                &&& *final(engine) == *old(engine)
            },
            EngineInput::AgentUpdate(agent) => {
                &&& out@.len() == 0
                &&& agent_update_applied(*old(app), *final(app), agent, wall_ms)
                &&& *final(engine) == *old(engine)
            },
            EngineInput::Terminal(terminal_event) => {
                &&& final(engine).shell_count == old(engine).shell_count
                &&& exists|mid: AppState|
                    #[trigger] terminal_event_applied(*old(app), mid, terminal_event) && flushed_with_outputs(
                        mid,
                        *final(app),
                        old(engine).resizes.entries(),
                        final(engine).resizes.entries(),
                        old(engine).shell_count,
                        mono_ms,
                        out@,
                    )
            },
            EngineInput::ActivityTick => {
                &&& out@.len() == 0
                &&& activity_ticked(old(app).registry, final(app).registry)
                &&& final(app).terminals == old(app).terminals
                &&& final(app).ui == old(app).ui
                &&& *final(engine) == *old(engine)
            },
            EngineInput::ResizeTick => {
                &&& final(engine).shell_count == old(engine).shell_count
                &&& flushed_with_outputs(
                    *old(app),
                    *final(app),
                    old(engine).resizes.entries(),
                    final(engine).resizes.entries(),
                    old(engine).shell_count,
                    mono_ms,
                    out@,
                )
            },
        },
{
    match input {
        EngineInput::Action(action) => match action {
            Action::SpawnTerminal { cwd } => {
                let session_id = engine.shell_count;
                engine.shell_count = engine.shell_count + 1;
                vec![EngineOutput::StartShell { session_id, cwd }]
            },
            Action::SubmitCommand { session_id, command } => {
                if session_id < engine.shell_count {
                    vec![EngineOutput::SendInput { session_id, command }]
                } else {
                    Vec::new()
                }
            },
            Action::ResizeTerminal { session_id, size } => {
                engine.resizes.schedule(session_id, size, mono_ms, RESIZE_DEBOUNCE_MS);
                Vec::new()
            },
            Action::PersistHistory { command, cwd } => vec![EngineOutput::PersistHistory { command, cwd }],
        },
        EngineInput::MeshEvent(event) => {
            app.add_event(event);
            Vec::new()
        },
        EngineInput::AgentUpdate(agent) => {
            app.update_agent(agent, wall_ms);
            Vec::new()
        },
        EngineInput::Terminal(terminal_event) => {
            let ghost start = *app;
            let ghost entries = engine.resizes.entries();
            apply_terminal_event(app, terminal_event);
            let ghost mid = *app;
            let sent = flush_ready_terminal_resizes(app, &mut engine.resizes, engine.shell_count, mono_ms);
            let ghost sent_view = sent@;
            let out = resize_messages(sent);
            assert(resizes_flushed(mid, *app, entries, engine.resizes.entries(), engine.shell_count, mono_ms, sent_view));
            assert(terminal_event_applied(start, mid, terminal_event));
            out
        },
        EngineInput::ActivityTick => {
            app.tick_activity();
            Vec::new()
        },
        EngineInput::ResizeTick => {
            let ghost entries = engine.resizes.entries();
            let ghost start = *app;
            let sent = flush_ready_terminal_resizes(app, &mut engine.resizes, engine.shell_count, mono_ms);
            let ghost sent_view = sent@;
            let out = resize_messages(sent);
            assert(resizes_flushed(start, *app, entries, engine.resizes.entries(), engine.shell_count, mono_ms, sent_view));
            out
        },
    }
}

} // verus!
