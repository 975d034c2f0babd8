//! The application's state: the agent registry, the terminal sessions and the
//! state of the views, with the operations the views and the engine perform.
use vstd::prelude::*;
use std::collections::VecDeque;
use crate::panes::{PaneTree, SplitAxis};
use crate::registry::{
    activity_ticked, agent_updated, event_added, level_summary, same_agent, same_event,
    status_summary, Agent, AgentRegistry, AgentStatusSummary, Event, EventLevelSummary,
};
use crate::terminal::TerminalSize;
use crate::terminals::{
    clamp_sessions, context_line_appended, context_line_finalized, directory_recorded,
    history_appended, history_seeded, latest_with_prefix, line_appended, lines_cleared,
    viewport_set, TerminalManager, TerminalSnapshot, TerminalState,
};
use crate::text::{
    ascii_lower_seq, chars_ascii_lower, chars_contain, chars_of, contains_seq, eq_ignore_ascii_case,
    is_blank, owned, trimmed_chars, views,
};
use crate::ui::{filter_text, next_filter, other_view, AgentFilterMode, UiState, ViewMode};

verus! {

broadcast use vstd::string::group_string_axioms;

/// Number of transcript lines of each session a snapshot carries.
pub const SNAPSHOT_LINES: usize = 50;

/// Number of events a snapshot carries (the newest).
pub const SNAPSHOT_EVENTS: usize = 20;

/// What remote viewers are sent.
pub struct WebSnapshot {
    pub agents: Vec<Agent>,
    pub events: Vec<Event>,
    pub terminals: Vec<TerminalSnapshot>,
    pub total_events_received: u64,
    pub timestamp_ms: i64,
}

/// The registry, the terminals and the views.
pub struct AppState {
    pub registry: AgentRegistry,
    pub terminals: TerminalManager,
    pub ui: UiState,
}

/// Whether the filter shows an agent with `status` (compared ignoring ASCII case).
pub open spec fn filter_accepts(mode: AgentFilterMode, status: Seq<char>) -> bool {
    match mode {
        AgentFilterMode::All => true,
        AgentFilterMode::Busy => ascii_lower_seq(status) == ascii_lower_seq("busy"@),
        AgentFilterMode::Active => ascii_lower_seq(status) != ascii_lower_seq("offline"@),
        AgentFilterMode::Offline => ascii_lower_seq(status) == ascii_lower_seq("offline"@),
    }
}

/// Whether the search shows `a`: a blank query shows everything, else the
/// query (ignoring ASCII case) occurs in the agent's id, project, role,
/// branch or instance name.
pub open spec fn search_accepts(query: Seq<char>, a: Agent) -> bool {
    let q = ascii_lower_seq(query);
    ||| is_blank(query)
    ||| contains_seq(ascii_lower_seq(a.id@), q)
    ||| contains_seq(ascii_lower_seq(a.project@), q)
    ||| contains_seq(ascii_lower_seq(a.role@), q)
    ||| contains_seq(ascii_lower_seq(a.branch@), q)
    ||| contains_seq(ascii_lower_seq(a.instance_name@), q)
}

/// Ids of the agents the views show, in the registry's order.
pub open spec fn visible_ids(agents: Seq<Agent>, mode: AgentFilterMode, query: Seq<char>) -> Seq<
    Seq<char>,
>
    decreases agents.len(),
{
    if agents.len() == 0 {
        Seq::empty()
    } else {
        let r = visible_ids(agents.drop_last(), mode, query);
        let a = agents.last();
        if filter_accepts(mode, a.status@) && search_accepts(query, a) {
            r.push(a.id@)
        } else {
            r
        }
    }
}

/// Under the `All` filter, an agent is listed whenever the query, ASCII
/// lower-cased, occurs in its ASCII lower-cased id, project, role, branch
/// or instance name, and every agent is listed while the query is blank.
pub proof fn law_search_finds_matching_fields(agents: Seq<Agent>, query: Seq<char>, k: int)
    requires
        0 <= k < agents.len(),
        ({
            let q = ascii_lower_seq(query);
            let a = agents[k];
            ||| is_blank(query)
            ||| contains_seq(ascii_lower_seq(a.id@), q)
            ||| contains_seq(ascii_lower_seq(a.project@), q)
            ||| contains_seq(ascii_lower_seq(a.role@), q)
            ||| contains_seq(ascii_lower_seq(a.branch@), q)
            ||| contains_seq(ascii_lower_seq(a.instance_name@), q)
        }),
    ensures
        visible_ids(agents, AgentFilterMode::All, query).contains(agents[k].id@),
    decreases agents.len(),
{
    let r = visible_ids(agents.drop_last(), AgentFilterMode::All, query);
    if k == agents.len() - 1 {
        assert(search_accepts(query, agents.last()));
        assert(visible_ids(agents, AgentFilterMode::All, query) == r.push(agents[k].id@));
        assert(r.push(agents[k].id@)[r.len() as int] == agents[k].id@);
    } else {
        assert(agents.drop_last()[k] == agents[k]);
        law_search_finds_matching_fields(agents.drop_last(), query, k);
        let v = visible_ids(agents, AgentFilterMode::All, query);
        let j = choose|j: int| 0 <= j < r.len() && r[j] == agents[k].id@;
        if filter_accepts(AgentFilterMode::All, agents.last().status@) && search_accepts(query, agents.last()) {
            assert(v == r.push(agents.last().id@));
            assert(v[j] == r[j]);
        } else {
            assert(v == r);
        }
    }
}

/// An agent accepted by the filter and the search is listed.
proof fn lemma_accepted_is_listed(agents: Seq<Agent>, mode: AgentFilterMode, query: Seq<char>, k: int)
    requires
        0 <= k < agents.len(),
        filter_accepts(mode, agents[k].status@),
        search_accepts(query, agents[k]),
    ensures
        visible_ids(agents, mode, query).contains(agents[k].id@),
    decreases agents.len(),
{
    let r = visible_ids(agents.drop_last(), mode, query);
    if k == agents.len() - 1 {
        assert(visible_ids(agents, mode, query) == r.push(agents[k].id@));
        assert(r.push(agents[k].id@)[r.len() as int] == agents[k].id@);
    } else {
        assert(agents.drop_last()[k] == agents[k]);
        lemma_accepted_is_listed(agents.drop_last(), mode, query, k);
        let v = visible_ids(agents, mode, query);
        let j = choose|j: int| 0 <= j < r.len() && r[j] == agents[k].id@;
        if filter_accepts(mode, agents.last().status@) && search_accepts(query, agents.last()) {
            assert(v == r.push(agents.last().id@));
            assert(v[j] == r[j]);
        }
    }
}

/// With distinct ids, a listed agent is accepted by the filter and the search.
proof fn lemma_listed_is_accepted(agents: Seq<Agent>, mode: AgentFilterMode, query: Seq<char>, k: int)
    requires
        0 <= k < agents.len(),
        forall|a: int, b: int| 0 <= a < b < agents.len() ==> #[trigger] agents[a].id@ != #[trigger] agents[b].id@,
        visible_ids(agents, mode, query).contains(agents[k].id@),
    ensures
        filter_accepts(mode, agents[k].status@),
        search_accepts(query, agents[k]),
    decreases agents.len(),
{
    let d = agents.drop_last();
    let r = visible_ids(d, mode, query);
    let v = visible_ids(agents, mode, query);
    let last = agents.len() - 1;
    let accepted = filter_accepts(mode, agents.last().status@) && search_accepts(query, agents.last());
    if k == last {
        if !accepted {
            assert(v == r);
            lemma_visible_ids_from(d, mode, query, agents[k].id@);
            let m = choose|m: int| 0 <= m < d.len() && d[m].id@ == agents[k].id@;
            assert(d[m] == agents[m]);
        }
    } else {
        assert(d[k] == agents[k]);
        let j = choose|j: int| 0 <= j < v.len() && v[j] == agents[k].id@;
        if accepted {
            assert(v == r.push(agents.last().id@));
            if j == r.len() {
                assert(agents[last].id@ == agents[k].id@);
            } else {
                assert(r[j] == v[j]);
            }
        } else {
            assert(v == r);
        }
        assert(r.contains(d[k].id@));
        assert forall|a: int, b: int| 0 <= a < b < d.len() implies #[trigger] d[a].id@ != #[trigger] d[b].id@ by {
            assert(d[a] == agents[a] && d[b] == agents[b]);
        }
        lemma_listed_is_accepted(d, mode, query, k);
    }
}

/// Every listed id is the id of one of the agents.
proof fn lemma_visible_ids_from(agents: Seq<Agent>, mode: AgentFilterMode, query: Seq<char>, id: Seq<char>)
    requires
        visible_ids(agents, mode, query).contains(id),
    ensures
        exists|m: int| 0 <= m < agents.len() && agents[m].id@ == id,
    decreases agents.len(),
{
    let d = agents.drop_last();
    let r = visible_ids(d, mode, query);
    let v = visible_ids(agents, mode, query);
    let j = choose|j: int| 0 <= j < v.len() && v[j] == id;
    if filter_accepts(mode, agents.last().status@) && search_accepts(query, agents.last()) {
        assert(v == r.push(agents.last().id@));
        if j == r.len() {
            assert(agents[agents.len() - 1].id@ == id);
        } else {
            assert(r[j] == id);
            lemma_visible_ids_from(d, mode, query, id);
            let m = choose|m: int| 0 <= m < d.len() && d[m].id@ == id;
            assert(agents[m] == d[m]);
        }
    } else {
        assert(v == r);
        lemma_visible_ids_from(d, mode, query, id);
        let m = choose|m: int| 0 <= m < d.len() && d[m].id@ == id;
        assert(agents[m] == d[m]);
    }
}

/// The status filters, with a blank query and distinct ids: `All` lists
/// every agent; `Busy` exactly those whose status is `busy`, `Offline`
/// exactly those whose status is `offline`, `Active` exactly the others
/// (statuses compared ignoring ASCII case).
pub proof fn law_status_filters(agents: Seq<Agent>, query: Seq<char>, k: int)
    requires
        0 <= k < agents.len(),
        is_blank(query),
        forall|a: int, b: int| 0 <= a < b < agents.len() ==> #[trigger] agents[a].id@ != #[trigger] agents[b].id@,
    ensures
        visible_ids(agents, AgentFilterMode::All, query).contains(agents[k].id@),
        visible_ids(agents, AgentFilterMode::Busy, query).contains(agents[k].id@) <==> ascii_lower_seq(
            agents[k].status@,
        ) == "busy"@,
        visible_ids(agents, AgentFilterMode::Offline, query).contains(agents[k].id@) <==> ascii_lower_seq(
            agents[k].status@,
        ) == "offline"@,
        visible_ids(agents, AgentFilterMode::Active, query).contains(agents[k].id@) <==> ascii_lower_seq(
            agents[k].status@,
        ) != "offline"@,
{
    reveal_strlit("busy");
    reveal_strlit("offline");
    assert(ascii_lower_seq("busy"@) =~= "busy"@);
    assert(ascii_lower_seq("offline"@) =~= "offline"@);
    assert(search_accepts(query, agents[k]));
    lemma_accepted_is_listed(agents, AgentFilterMode::All, query, k);
    let modes = seq![AgentFilterMode::Busy, AgentFilterMode::Offline, AgentFilterMode::Active];
    assert forall|i: int| 0 <= i < 3 implies (visible_ids(agents, #[trigger] modes[i], query).contains(agents[k].id@)
        <==> filter_accepts(modes[i], agents[k].status@)) by {
        if filter_accepts(modes[i], agents[k].status@) {
            lemma_accepted_is_listed(agents, modes[i], query, k);
        }
        if visible_ids(agents, modes[i], query).contains(agents[k].id@) {
            lemma_listed_is_accepted(agents, modes[i], query, k);
        }
    }
    assert(modes[0] == AgentFilterMode::Busy && modes[1] == AgentFilterMode::Offline && modes[2]
        == AgentFilterMode::Active);
}

/// With distinct ids and a query that is not blank, an agent is listed only
/// when the query, ASCII lower-cased, occurs in one of its ASCII lower-cased
/// id, project, role, branch or instance name.
pub proof fn law_search_lists_only_matches(agents: Seq<Agent>, query: Seq<char>, mode: AgentFilterMode, k: int)
    requires
        0 <= k < agents.len(),
        !is_blank(query),
        forall|a: int, b: int| 0 <= a < b < agents.len() ==> #[trigger] agents[a].id@ != #[trigger] agents[b].id@,
        visible_ids(agents, mode, query).contains(agents[k].id@),
    ensures
        ({
            let q = ascii_lower_seq(query);
            let a = agents[k];
            ||| contains_seq(ascii_lower_seq(a.id@), q)
            ||| contains_seq(ascii_lower_seq(a.project@), q)
            ||| contains_seq(ascii_lower_seq(a.role@), q)
            ||| contains_seq(ascii_lower_seq(a.branch@), q)
            ||| contains_seq(ascii_lower_seq(a.instance_name@), q)
        }),
{
    lemma_listed_is_accepted(agents, mode, query, k);
}

/// The visible list holds no more ids than there are agents.
pub proof fn lemma_visible_len(agents: Seq<Agent>, mode: AgentFilterMode, query: Seq<char>)
    ensures
        visible_ids(agents, mode, query).len() <= agents.len(),
    decreases agents.len(),
{
    if agents.len() > 0 {
        lemma_visible_len(agents.drop_last(), mode, query);
    }
}

/// A selection kept within a list of `count` items (0 for an empty list).
pub open spec fn clamped(selected: int, count: int) -> int {
    if count == 0 {
        0
    } else if selected >= count {
        count - 1
    } else {
        selected
    }
}

/// The events of `events` (newest first) from `agent_id` (or all of them).
pub open spec fn events_of(events: Seq<Event>, agent_id: Option<Seq<char>>) -> Seq<Event>
    decreases events.len(),
{
    if events.len() == 0 {
        Seq::empty()
    } else {
        let rest = events_of(events.drop_first(), agent_id);
        match agent_id {
            Some(id) => if events[0].agent_id@ == id {
                seq![events[0]] + rest
            } else {
                rest
            },
            None => seq![events[0]] + rest,
        }
    }
}

/// The first `n` items of `s` (all of them when there are fewer).
pub open spec fn first_n<T>(s: Seq<T>, n: int) -> Seq<T> {
    if n < s.len() {
        s.subrange(0, n)
    } else {
        s
    }
}

/// The ids on the grid page that holds the selection, `page_size` per page.
pub open spec fn page_of(visible: Seq<Seq<char>>, selected: int, page_size: int) -> Seq<Seq<char>> {
    if page_size <= 0 {
        Seq::empty()
    } else {
        let start = (selected / page_size) * page_size;
        if start >= visible.len() {
            Seq::empty()
        } else {
            visible.subrange(start, if start + page_size < visible.len() {
                start + page_size
            } else {
                visible.len() as int
            })
        }
    }
}

/// The last `n` lines of a transcript (all of them when there are fewer).
pub open spec fn last_lines(lines: Seq<Seq<char>>, n: int) -> Seq<Seq<char>> {
    if lines.len() > n {
        lines.subrange(lines.len() - n, lines.len() as int)
    } else {
        lines
    }
}

/// Views of string slices.
pub open spec fn slice_views(v: Seq<&str>) -> Seq<Seq<char>> {
    v.map_values(|s: &str| s@)
}

fn matches_filter(mode: AgentFilterMode, status: &String) -> (b: bool)
    ensures
        b == filter_accepts(mode, status@),
{
    match mode {
        AgentFilterMode::All => true,
        AgentFilterMode::Busy => eq_ignore_ascii_case(status.as_str(), "busy"),
        AgentFilterMode::Active => !eq_ignore_ascii_case(status.as_str(), "offline"),
        AgentFilterMode::Offline => eq_ignore_ascii_case(status.as_str(), "offline"),
    }
}

fn lower_contains(field: &String, q: &Vec<char>) -> (b: bool)
    ensures
        b == contains_seq(ascii_lower_seq(field@), q@),
{
    chars_contain(&chars_ascii_lower(&chars_of(field.as_str())), q)
}

fn matches_search(query: &String, a: &Agent) -> (b: bool)
    ensures
        b == search_accepts(query@, *a),
{
    if trimmed_chars(query.as_str()).len() == 0 {
        return true;
    }
    let q = chars_ascii_lower(&chars_of(query.as_str()));
    lower_contains(&a.id, &q) || lower_contains(&a.project, &q) || lower_contains(&a.role, &q)
        || lower_contains(&a.branch, &q) || lower_contains(&a.instance_name, &q)
}

/// Only the agent selection changed, to `idx`.
pub open spec fn agent_selection_moved(o: AppState, n: AppState, idx: usize) -> bool {
    &&& n.registry == o.registry
    &&& n.terminals == o.terminals
    &&& n.ui == (UiState { selected_agent_idx: idx, ..o.ui })
}

/// The next visible agent, the first after the last.
pub open spec fn next_visible_selection(o: AppState) -> usize {
    if o.visible().len() == 0 {
        0usize
    } else {
        ((o.ui.selected_agent_idx + 1) % (o.visible().len() as int)) as usize
    }
}

/// The previous visible agent, the last before the first.
pub open spec fn previous_visible_selection(o: AppState) -> usize {
    if o.visible().len() == 0 {
        0usize
    } else if o.ui.selected_agent_idx == 0 {
        (o.visible().len() - 1) as usize
    } else {
        (o.ui.selected_agent_idx - 1) as usize
    }
}

/// Five visible agents down, at most the last (no change when none is visible).
pub open spec fn next_page_visible_selection(o: AppState) -> usize {
    if o.visible().len() == 0 {
        o.ui.selected_agent_idx
    } else if o.ui.selected_agent_idx + 5 < o.visible().len() - 1 {
        (o.ui.selected_agent_idx + 5) as usize
    } else {
        (o.visible().len() - 1) as usize
    }
}

/// Five visible agents up, at least the first (no change when none is visible).
pub open spec fn previous_page_visible_selection(o: AppState) -> usize {
    if o.visible().len() == 0 {
        o.ui.selected_agent_idx
    } else if o.ui.selected_agent_idx >= 5 {
        (o.ui.selected_agent_idx - 5) as usize
    } else {
        0usize
    }
}

/// What `cycle_filter_mode` leaves: the next filter, the selection kept in range.
pub open spec fn filter_cycled(o: AppState, n: AppState) -> bool {
    &&& n.wf()
    &&& n.registry == o.registry
    &&& n.terminals == o.terminals
    &&& n.ui.filter_mode == next_filter(o.ui.filter_mode)
    &&& n.ui == (UiState {
        filter_mode: n.ui.filter_mode,
        selected_agent_idx: clamped(o.ui.selected_agent_idx as int, n.visible().len() as int) as usize,
        ..o.ui
    })
}

/// What `toggle_view_mode` leaves: the other view.
pub open spec fn view_toggled(o: AppState, n: AppState) -> bool {
    &&& n.registry == o.registry
    &&& n.terminals == o.terminals
    &&& n.ui == (UiState { view_mode: other_view(o.ui.view_mode), ..o.ui })
}

/// What `split_selected_terminal` leaves: below `MAX_TERMINAL_SESSIONS`, a
/// fresh session titled `title` (with the first session's history) in a
/// split of the focused pane along `axis`, focused and selected; else
/// nothing changed.
pub open spec fn terminal_split(o: AppState, n: AppState, title: Seq<char>, axis: SplitAxis) -> bool {
    &&& n.wf()
    &&& n.registry == o.registry
    &&& o.terminals.sessions.len() < crate::terminals::MAX_TERMINAL_SESSIONS ==> {
        &&& n.terminals.sessions@.drop_last() == o.terminals.sessions@
        &&& n.terminals.sessions@.len() == o.terminals.sessions@.len() + 1
        &&& crate::terminals::is_fresh_session(
            n.terminals.sessions@.last(),
            title,
            views(o.terminals.sessions[0].history@),
        )
        &&& n.terminals.pane_tree.session_seq() == crate::panes::insert_after(
            o.terminals.pane_tree.session_seq(),
            o.terminals.pane_tree.active(),
            o.terminals.sessions.len(),
        )
        &&& n.terminals.pane_tree.root_spec() == o.terminals.pane_tree.root_spec().split_spec(
            o.terminals.pane_tree.active(),
            axis,
            o.terminals.sessions.len(),
        )
        &&& n.terminals.pane_tree.active() == o.terminals.sessions.len()
        &&& n.terminals.directory_history == o.terminals.directory_history
        &&& n.ui == (UiState { selected_terminal_idx: n.terminals.pane_tree.active(), ..o.ui })
    }
    &&& o.terminals.sessions.len() >= crate::terminals::MAX_TERMINAL_SESSIONS ==> n.terminals == o.terminals
        && n.ui == o.ui
}

/// What `remove_terminal_session` leaves: unless it is the last one or
/// unknown, session `index` gone and the focused session selected; else
/// nothing changed.
pub open spec fn terminal_removed(o: AppState, n: AppState, index: usize) -> bool {
    let ok = o.terminals.sessions.len() > 1 && index < o.terminals.sessions.len();
    &&& n.wf()
    &&& n.registry == o.registry
    &&& ok ==> n.terminals.sessions@ == o.terminals.sessions@.remove(index as int)
    &&& ok ==> n.terminals.pane_tree.session_seq() == crate::panes::ids_after_removal(
        o.terminals.pane_tree.session_seq(),
        index,
    )
    &&& ok ==> n.terminals.directory_history == o.terminals.directory_history
    &&& ok ==> n.ui == (UiState { selected_terminal_idx: n.terminals.pane_tree.active(), ..o.ui })
    &&& !ok ==> n.terminals == o.terminals && n.ui == o.ui
}

/// What `select_terminal_index` leaves: session `index` (the last one for an
/// index past the end) focused and selected, in focus view.
pub open spec fn terminal_index_selected(o: AppState, n: AppState, index: usize) -> bool {
    &&& n.wf()
    &&& n.registry == o.registry
    &&& n.terminals.sessions == o.terminals.sessions
    &&& n.terminals.directory_history == o.terminals.directory_history
    &&& n.terminals.pane_tree.session_seq() == o.terminals.pane_tree.session_seq()
    &&& n.terminals.pane_tree.active() == if index < o.terminals.sessions.len() {
        index
    } else {
        (o.terminals.sessions.len() - 1) as usize
    }
    &&& n.ui == (UiState {
        selected_terminal_idx: n.terminals.pane_tree.active(),
        view_mode: ViewMode::Focus,
        ..o.ui
    })
}

/// The focus moved to session `active`, which is selected.
pub open spec fn terminal_focus_moved(o: AppState, n: AppState, active: usize) -> bool {
    &&& n.wf()
    &&& n.registry == o.registry
    &&& n.terminals.sessions == o.terminals.sessions
    &&& n.terminals.directory_history == o.terminals.directory_history
    &&& n.terminals.pane_tree.session_seq() == o.terminals.pane_tree.session_seq()
    &&& n.terminals.pane_tree.active() == active
    &&& n.ui == (UiState { selected_terminal_idx: active, ..o.ui })
}

/// What recording an agent's announcement leaves: see `AppState::update_agent`.
pub open spec fn agent_update_applied(o: AppState, n: AppState, agent: Agent, now_ms: i64) -> bool {
    &&& n.wf()
    &&& agent_updated(o.registry, n.registry, agent, now_ms)
    &&& n.terminals == o.terminals
    &&& n.ui == (UiState {
        selected_agent_idx: clamped(o.ui.selected_agent_idx as int, n.visible().len() as int) as usize,
        ..o.ui
    })
}

impl AppState {
    /// The registry and the terminals keep their invariants.
    pub open spec fn wf(&self) -> bool {
        self.registry.wf() && self.terminals.wf()
    }

    /// Ids of the agents the views show.
    pub open spec fn visible(&self) -> Seq<Seq<char>> {
        visible_ids(self.registry.agents@, self.ui.filter_mode, self.ui.search_query@)
    }

    /// A state with one terminal session.
    pub fn new() -> (s: Self)
        ensures
            s.wf(),
            s.registry.agents@.len() == 0,
            s.registry.events@.len() == 0,
            s.terminals.sessions.len() == 1,
            s.ui == (UiState { selected_terminal_idx: 0, ..s.ui }),
            s.ui.selected_terminal_idx == 0,
            s.ui.selected_agent_idx == 0,
            s.ui.filter_mode == AgentFilterMode::All,
            s.ui.view_mode == ViewMode::Grid,
    {
        Self::new_with_sessions(1)
    }

    /// A state with `count` terminal sessions (clamped as the terminal
    /// manager does), the last one focused, no agents, the views at rest.
    pub fn new_with_sessions(count: usize) -> (s: Self)
        ensures
            s.wf(),
            s.registry.agents@.len() == 0,
            s.registry.events@.len() == 0,
            s.registry.total_events_received == 0,
            s.terminals.sessions.len() == clamp_sessions(count),
            s.terminals.pane_tree.active() == clamp_sessions(count) - 1,
            s.ui.selected_terminal_idx == s.terminals.pane_tree.active(),
            s.ui.selected_agent_idx == 0,
            !s.ui.should_quit,
            s.ui.search_query@.len() == 0,
            !s.ui.search_mode,
            s.ui.filter_mode == AgentFilterMode::All,
            s.ui.view_mode == ViewMode::Grid,
    {
        let terminals = TerminalManager::new(count);
        let selected_terminal_idx = terminals.active_session_id();
        let mut ui = UiState::new();
        ui.selected_terminal_idx = selected_terminal_idx;
        AppState { registry: AgentRegistry::new(), terminals, ui }
    }

    /// Keeps the agent selection within the visible list.
    fn clamp_selection(&mut self)
        requires
            old(self).wf(),
        ensures
            final(self).wf(),
            final(self).registry == old(self).registry,
            final(self).terminals == old(self).terminals,
            final(self).ui == (UiState {
                selected_agent_idx: clamped(
                    old(self).ui.selected_agent_idx as int,
                    old(self).visible().len() as int,
                ) as usize,
                ..old(self).ui
            }),
    {
        let count = self.visible_agent_count();
        if count == 0 {
            self.ui.selected_agent_idx = 0;
        } else if self.ui.selected_agent_idx >= count {
            self.ui.selected_agent_idx = count - 1;
        }
    }

    /// A snapshot for remote viewers at `now_ms`: copies of the agents, the
    /// newest `SNAPSHOT_EVENTS` events, and each session with its last
    /// `SNAPSHOT_LINES` lines.
    pub fn web_snapshot(&self, now_ms: i64) -> (w: WebSnapshot)
        ensures
            w.agents@.len() == self.registry.agents@.len(),
            forall|i: int|
                0 <= i < w.agents@.len() ==> same_agent(
                    #[trigger] w.agents@[i],
                    self.registry.agents@[i],
                ),
            w.events@.len() == first_n(self.registry.events@, SNAPSHOT_EVENTS as int).len(),
            forall|i: int|
                0 <= i < w.events@.len() ==> same_event(
                    #[trigger] w.events@[i],
                    self.registry.events@[i],
                ),
            w.terminals@.len() == self.terminals.sessions@.len(),
            forall|i: int|
                #![trigger w.terminals@[i]]
                0 <= i < w.terminals@.len() ==> {
                    let t = w.terminals@[i];
                    let s = self.terminals.sessions@[i];
                    &&& t.id == i
                    &&& t.title@ == s.title@
                    &&& t.cwd@ == s.cwd@
                    &&& t.status@ == s.status@
                    &&& views(t.recent_lines@) == last_lines(views(s.lines@), SNAPSHOT_LINES as int)
                },
            w.total_events_received == self.registry.total_events_received,
            w.timestamp_ms == now_ms,
    {
        let mut agents: Vec<Agent> = Vec::new();
        let mut i: usize = 0;
        while i < self.registry.agents.len()
            invariant
                i <= self.registry.agents@.len(),
                agents@.len() == i,
                forall|k: int|
                    0 <= k < i ==> same_agent(#[trigger] agents@[k], self.registry.agents@[k]),
            decreases self.registry.agents@.len() - i,
        {
            agents.push(self.registry.agents[i].clone());
            i += 1;
        }
        let mut events: Vec<Event> = Vec::new();
        let mut j: usize = 0;
        while j < self.registry.events.len() && j < SNAPSHOT_EVENTS
            invariant
                j <= self.registry.events@.len(),
                j <= SNAPSHOT_EVENTS,
                events@.len() == j,
                forall|k: int|
                    0 <= k < j ==> same_event(#[trigger] events@[k], self.registry.events@[k]),
            decreases self.registry.events@.len() - j,
        {
            events.push(self.registry.events[j].clone());
            j += 1;
        }
        let mut terminals: Vec<TerminalSnapshot> = Vec::new();
        let mut t: usize = 0;
        while t < self.terminals.sessions.len()
            invariant
                t <= self.terminals.sessions@.len(),
                terminals@.len() == t,
                forall|k: int|
                    #![trigger terminals@[k]]
                    0 <= k < t ==> {
                        let ts = terminals@[k];
                        let s = self.terminals.sessions@[k];
                        &&& ts.id == k
                        &&& ts.title@ == s.title@
                        &&& ts.cwd@ == s.cwd@
                        &&& ts.status@ == s.status@
                        &&& views(ts.recent_lines@) == last_lines(
                            views(s.lines@),
                            SNAPSHOT_LINES as int,
                        )
                    },
            decreases self.terminals.sessions@.len() - t,
        {
            let session = &self.terminals.sessions[t];
            let recent = last_lines_of(&session.lines, SNAPSHOT_LINES);
            terminals.push(
                TerminalSnapshot {
                    id: t,
                    title: session.title.clone(),
                    cwd: session.cwd.clone(),
                    status: session.status.clone(),
                    recent_lines: recent,
                },
            );
            t += 1;
        }
        WebSnapshot {
            agents,
            events,
            terminals,
            total_events_received: self.registry.total_events_received,
            timestamp_ms: now_ms,
        }
    }

    /// Records an event (see `AgentRegistry::add_event`).
    pub fn add_event(&mut self, event: Event)
        requires
            old(self).wf(),
            old(self).registry.can_count_event(event.agent_id@),
        ensures
            final(self).wf(),
            event_added(old(self).registry, final(self).registry, event),
            final(self).terminals == old(self).terminals,
            final(self).ui == old(self).ui,
    {
        self.registry.add_event(event);
    }

    /// Records an agent's announcement at `now_ms`, keeping the selection in range.
    pub fn update_agent(&mut self, agent: Agent, now_ms: i64)
        requires
            old(self).wf(),
            agent.wf(),
        ensures
            agent_update_applied(*old(self), *final(self), agent, now_ms),
    {
        self.registry.update_agent(agent, now_ms);
        self.clamp_selection();
    }

    /// The first `limit` events, newest first, of `agent_id` (or of all agents).
    pub fn get_recent_events(&self, agent_id: Option<&str>, limit: usize) -> (r: Vec<&Event>)
        ensures
            r@.len() == first_n(
                events_of(self.registry.events@, crate::history::opt_str_text(agent_id)),
                limit as int,
            ).len(),
            forall|i: int|
                0 <= i < r@.len() ==> *r@[i] == first_n(
                    events_of(self.registry.events@, crate::history::opt_str_text(agent_id)),
                    limit as int,
                )[i],
    {
        let ghost id = crate::history::opt_str_text(agent_id);
        let ghost all = self.registry.events@;
        let key: Option<Vec<char>> = match agent_id {
            Some(a) => Some(chars_of(a)),
            None => None,
        };
        let mut out: Vec<&Event> = Vec::new();
        let mut i: usize = 0;
        let n = self.registry.events.len();
        assert(all.subrange(0, all.len() as int) =~= all);
        while i < n && out.len() < limit
            invariant
                n == all.len(),
                all == self.registry.events@,
                i <= n,
                out@.len() <= limit,
                match key {
                    Some(k) => id == Some(k@),
                    None => id is None,
                },
                events_of(all, id) == out@.map_values(|e: &Event| *e) + events_of(
                    all.subrange(i as int, n as int),
                    id,
                ),
            decreases n - i,
        {
            let ghost rest = all.subrange(i as int, n as int);
            assert(rest[0] == all[i as int]);
            assert(rest.drop_first() =~= all.subrange(i + 1, n as int));
            let e = &self.registry.events[i];
            let keep = match &key {
                Some(k) => crate::text::chars_equal(&chars_of(e.agent_id.as_str()), k),
                None => true,
            };
            let ghost before = out@.map_values(|x: &Event| *x);
            if keep {
                out.push(e);
                assert(out@.map_values(|x: &Event| *x) =~= before.push(*e));
                assert(before + (seq![*e] + events_of(all.subrange(i + 1, n as int), id)) =~= out@.map_values(
                    |x: &Event| *x,
                ) + events_of(all.subrange(i + 1, n as int), id));
            }
            i += 1;
        }
        proof {
            let m = out@.map_values(|e: &Event| *e);
            let full = events_of(all, id);
            assert forall|k: int| 0 <= k < out@.len() implies *out@[k] == first_n(
                full,
                limit as int,
            )[k] by {
                assert(m[k] == *out@[k]);
                assert(full[k] == m[k]);
            }
            if out@.len() < limit {
                assert(i == n);
                assert(all.subrange(n as int, n as int) =~= Seq::<Event>::empty());
                assert(full =~= m);
            }
        }
        out
    }

    /// The id of the selected agent, if the selection is within the visible list.
    pub fn get_selected_agent_id(&self) -> (r: Option<String>)
        ensures
            crate::text::opt_text(r) == if self.ui.selected_agent_idx < self.visible().len() {
                Some(self.visible()[self.ui.selected_agent_idx as int])
            } else {
                None
            },
    {
        let ids = self.visible_agent_ids();
        if self.ui.selected_agent_idx < ids.len() {
            Some(ids[self.ui.selected_agent_idx].clone())
        } else {
            None
        }
    }

    /// The selected agent, if any.
    pub fn get_selected_agent(&self) -> (r: Option<&Agent>)
        ensures
            r matches Some(a) ==> self.ui.selected_agent_idx < self.visible().len() && a.id@
                == self.visible()[self.ui.selected_agent_idx as int] && self.registry.agents@.contains(
                *a,
            ),
            r is None ==> self.ui.selected_agent_idx >= self.visible().len() || forall|i: int|
                0 <= i < self.registry.agents@.len() ==> self.registry.agents@[i].id@ != self.visible()[self.ui.selected_agent_idx as int],
    {
        match self.get_selected_agent_id() {
            None => None,
            Some(id) => match self.registry.find_agent(id.as_str()) {
                Some(i) => {
                    assert(self.registry.agents@[i as int] == self.registry.agents@[i as int]);
                    Some(&self.registry.agents[i])
                },
                None => None,
            },
        }
    }

    /// Ids of the agents the views show (see `visible_ids`).
    pub fn visible_agent_ids(&self) -> (r: Vec<String>)
        ensures
            views(r@) == self.visible(),
    {
        let agents = &self.registry.agents;
        let mut out: Vec<String> = Vec::new();
        let mut i: usize = 0;
        while i < agents.len()
            invariant
                i <= agents@.len(),
                agents == &self.registry.agents,
                views(out@) == visible_ids(
                    agents@.subrange(0, i as int),
                    self.ui.filter_mode,
                    self.ui.search_query@,
                ),
            decreases agents@.len() - i,
        {
            let ghost pre = agents@.subrange(0, i as int);
            let ghost next = agents@.subrange(0, i + 1);
            assert(next.drop_last() =~= pre);
            assert(next.last() == agents@[i as int]);
            let a = &agents[i];
            if matches_filter(self.ui.filter_mode, &a.status) && matches_search(&self.ui.search_query, a) {
                let ghost before = views(out@);
                out.push(a.id.clone());
                assert(views(out@) =~= before.push(a.id@));
            }
            i += 1;
        }
        assert(agents@.subrange(0, agents@.len() as int) =~= agents@);
        out
    }

    /// Number of agents the views show.
    pub fn visible_agent_count(&self) -> (n: usize)
        ensures
            n == self.visible().len(),
    {
        self.visible_agent_ids().len()
    }

    /// The ids on the grid page holding the selection (see `page_of`).
    pub fn visible_agents_page(&self, page_size: usize) -> (r: Vec<String>)
        ensures
            views(r@) == page_of(self.visible(), self.ui.selected_agent_idx as int, page_size as int),
    {
        if page_size == 0 {
            return Vec::new();
        }
        let ids = self.visible_agent_ids();
        let page = self.current_grid_page(page_size);
        proof {
            assert(page * page_size <= self.ui.selected_agent_idx) by (nonlinear_arith)
                requires
                    page == self.ui.selected_agent_idx / page_size,
                    page_size > 0,
            ;
        }
        let start = page * page_size;
        let mut out: Vec<String> = Vec::new();
        if start >= ids.len() {
            return out;
        }
        let end = if page_size < ids.len() - start {
            start + page_size
        } else {
            ids.len()
        };
        let mut k = start;
        while k < end
            invariant
                start <= k <= end <= ids@.len(),
                views(out@) == views(ids@).subrange(start as int, k as int),
            decreases end - k,
        {
            let ghost before = out@;
            let c = ids[k].clone();
            out.push(c);
            assert(views(out@) =~= views(before).push(ids@[k as int]@));
            assert(views(ids@).subrange(start as int, k + 1) =~= views(ids@).subrange(
                start as int,
                k as int,
            ).push(ids@[k as int]@));
            k += 1;
        }
        out
    }

    /// The grid page holding the selection (0 when pages are empty).
    pub fn current_grid_page(&self, page_size: usize) -> (p: usize)
        ensures
            p == if page_size == 0 {
                0
            } else {
                self.ui.selected_agent_idx / page_size
            },
    {
        if page_size == 0 {
            0
        } else {
            self.ui.selected_agent_idx / page_size
        }
    }

    /// Number of grid pages (at least one).
    pub fn grid_page_count(&self, page_size: usize) -> (n: usize)
        ensures
            n == if self.visible().len() == 0 || page_size == 0 {
                1
            } else {
                ((self.visible().len() + page_size - 1) / (page_size as int)) as usize
            },
    {
        let total = self.visible_agent_count();
        if total == 0 || page_size == 0 {
            1
        } else {
            let q = total / page_size;
            if total % page_size == 0 {
                proof {
                    assert((total + page_size - 1) / (page_size as int) == q) by (nonlinear_arith)
                        requires
                            total % page_size == 0,
                            q == total / page_size,
                            page_size >= 1,
                    ;
                }
                q
            } else {
                proof {
                    assert((total + page_size - 1) / (page_size as int) == q + 1) by (nonlinear_arith)
                        requires
                            total % page_size != 0,
                            q == total / page_size,
                            page_size >= 1,
                    ;
                    assert(q < total) by (nonlinear_arith)
                        requires
                            q == total / page_size,
                            page_size >= 2,
                            total >= 1,
                    ;
                }
                q + 1
            }
        }
    }

    /// The label of the current filter.
    pub fn filter_label(&self) -> (s: &'static str)
        ensures
            s@ == filter_text(self.ui.filter_mode),
    {
        self.ui.filter_label()
    }

    /// Moves to the next filter, keeping the selection in range.
    pub fn cycle_filter_mode(&mut self)
        requires
            old(self).wf(),
        ensures
            filter_cycled(*old(self), *final(self)),
    {
        self.ui.cycle_filter_mode();
        self.clamp_selection();
    }

    /// Starts typing a search.
    pub fn begin_search(&mut self)
        ensures
            final(self).registry == old(self).registry,
            final(self).terminals == old(self).terminals,
            final(self).ui == (UiState { search_mode: true, ..old(self).ui }),
    {
        self.ui.search_mode = true;
    }

    /// Stops typing a search.
    pub fn end_search(&mut self)
        ensures
            final(self).registry == old(self).registry,
            final(self).terminals == old(self).terminals,
            final(self).ui == (UiState { search_mode: false, ..old(self).ui }),
    {
        self.ui.search_mode = false;
    }

    /// Empties the search query, keeping the selection in range.
    pub fn clear_search_query(&mut self)
        requires
            old(self).wf(),
        ensures
            final(self).wf(),
            final(self).registry == old(self).registry,
            final(self).terminals == old(self).terminals,
            final(self).ui.search_query@.len() == 0,
            final(self).ui == (UiState {
                search_query: final(self).ui.search_query,
                selected_agent_idx: clamped(
                    old(self).ui.selected_agent_idx as int,
                    final(self).visible().len() as int,
                ) as usize,
                ..old(self).ui
            }),
    {
        self.ui.clear_search_query();
        self.clamp_selection();
    }

    /// Replaces the search query, keeping the selection in range.
    pub fn set_search_query(&mut self, query: &str)
        requires
            old(self).wf(),
        ensures
            final(self).wf(),
            final(self).registry == old(self).registry,
            final(self).terminals == old(self).terminals,
            final(self).ui.search_query@ == query@,
            final(self).ui == (UiState {
                search_query: final(self).ui.search_query,
                selected_agent_idx: clamped(
                    old(self).ui.selected_agent_idx as int,
                    final(self).visible().len() as int,
                ) as usize,
                ..old(self).ui
            }),
    {
        self.ui.search_query = owned(query);
        self.clamp_selection();
    }

    /// Types one character of the search query, keeping the selection in range.
    pub fn append_search_char(&mut self, ch: char)
        requires
            old(self).wf(),
        ensures
            final(self).wf(),
            final(self).registry == old(self).registry,
            final(self).terminals == old(self).terminals,
            final(self).ui.search_query@ == old(self).ui.search_query@.push(ch),
            final(self).ui == (UiState {
                search_query: final(self).ui.search_query,
                selected_agent_idx: clamped(
                    old(self).ui.selected_agent_idx as int,
                    final(self).visible().len() as int,
                ) as usize,
                ..old(self).ui
            }),
    {
        self.ui.append_search_char(ch);
        self.clamp_selection();
    }

    /// Erases the last character of the search query, keeping the selection in range.
    pub fn pop_search_char(&mut self)
        requires
            old(self).wf(),
        ensures
            final(self).wf(),
            final(self).registry == old(self).registry,
            final(self).terminals == old(self).terminals,
            final(self).ui.search_query@ == if old(self).ui.search_query@.len() > 0 {
                old(self).ui.search_query@.drop_last()
            } else {
                old(self).ui.search_query@
            },
            final(self).ui == (UiState {
                search_query: final(self).ui.search_query,
                selected_agent_idx: clamped(
                    old(self).ui.selected_agent_idx as int,
                    final(self).visible().len() as int,
                ) as usize,
                ..old(self).ui
            }),
    {
        self.ui.pop_search_char();
        self.clamp_selection();
    }

    /// Selects the `index`-th visible agent (kept in range).
    pub fn select_visible_index(&mut self, index: usize)
        requires
            old(self).wf(),
        ensures
            final(self).wf(),
            final(self).registry == old(self).registry,
            final(self).terminals == old(self).terminals,
            final(self).ui == (UiState {
                selected_agent_idx: clamped(index as int, old(self).visible().len() as int) as usize,
                ..old(self).ui
            }),
    {
        self.ui.selected_agent_idx = index;
        self.clamp_selection();
    }

    /// Switches between grid and focus.
    pub fn toggle_view_mode(&mut self)
        ensures
            view_toggled(*old(self), *final(self)),
    {
        self.ui.view_mode = match self.ui.view_mode {
            ViewMode::Grid => ViewMode::Focus,
            ViewMode::Focus => ViewMode::Grid,
        };
    }

    /// Counts of the agents by status.
    pub fn get_agent_status_summary(&self) -> (s: AgentStatusSummary)
        ensures
            s == status_summary(self.registry.agents@),
    {
        self.registry.get_status_summary()
    }

    /// Counts of the kept events by level.
    pub fn get_event_level_summary(&self) -> (s: EventLevelSummary)
        ensures
            s == level_summary(self.registry.events@),
    {
        self.registry.get_event_summary()
    }

    /// Starts a new second of activity for every agent.
    pub fn tick_activity(&mut self)
        requires
            old(self).wf(),
        ensures
            final(self).wf(),
            activity_ticked(old(self).registry, final(self).registry),
            final(self).terminals == old(self).terminals,
            final(self).ui == old(self).ui,
    {
        self.registry.tick_activity();
    }

    /// Selects the next visible agent, wrapping to the first.
    pub fn select_next(&mut self)
        requires
            old(self).visible().len() > 0 ==> old(self).ui.selected_agent_idx < usize::MAX,
        ensures
            agent_selection_moved(*old(self), *final(self), next_visible_selection(*old(self))),
    {
        let count = self.visible_agent_count();
        if count == 0 {
            self.ui.selected_agent_idx = 0;
            return;
        }
        self.ui.selected_agent_idx = (self.ui.selected_agent_idx + 1) % count;
    }

    /// Selects the previous visible agent, wrapping to the last.
    pub fn select_previous(&mut self)
        ensures
            agent_selection_moved(*old(self), *final(self), previous_visible_selection(*old(self))),
    {
        let count = self.visible_agent_count();
        if count == 0 {
            self.ui.selected_agent_idx = 0;
            return;
        }
        if self.ui.selected_agent_idx == 0 {
            self.ui.selected_agent_idx = count - 1;
        } else {
            self.ui.selected_agent_idx = self.ui.selected_agent_idx - 1;
        }
    }

    /// Selects the first visible agent.
    pub fn select_first(&mut self)
        ensures
            final(self).registry == old(self).registry,
            final(self).terminals == old(self).terminals,
            final(self).ui == (UiState { selected_agent_idx: 0, ..old(self).ui }),
    {
        self.ui.selected_agent_idx = 0;
    }

    /// Selects the last visible agent (no change when none is visible).
    pub fn select_last(&mut self)
        ensures
            final(self).registry == old(self).registry,
            final(self).terminals == old(self).terminals,
            final(self).ui == (UiState {
                selected_agent_idx: if old(self).visible().len() == 0 {
                    old(self).ui.selected_agent_idx
                } else {
                    (old(self).visible().len() - 1) as usize
                },
                ..old(self).ui
            }),
    {
        let count = self.visible_agent_count();
        if count != 0 {
            self.ui.selected_agent_idx = count - 1;
        }
    }

    /// Moves the selection five agents down, stopping at the last one.
    pub fn select_next_page(&mut self)
        requires
            old(self).visible().len() > 0 ==> old(self).ui.selected_agent_idx + 5 <= usize::MAX,
        ensures
            agent_selection_moved(*old(self), *final(self), next_page_visible_selection(*old(self))),
    {
        let count = self.visible_agent_count();
        if count != 0 {
            let target = self.ui.selected_agent_idx + 5;
            self.ui.selected_agent_idx = if target < count - 1 {
                target
            } else {
                count - 1
            };
        }
    }

    /// Moves the selection five agents up, stopping at the first one.
    pub fn select_previous_page(&mut self)
        ensures
            agent_selection_moved(*old(self), *final(self), previous_page_visible_selection(*old(self))),
    {
        if self.visible_agent_count() != 0 {
            self.ui.selected_agent_idx = if self.ui.selected_agent_idx >= 5 {
                self.ui.selected_agent_idx - 5
            } else {
                0
            };
        }
    }
}

impl AppState {
    /// Appends a transcript line to a session.
    pub fn append_terminal_line(&mut self, session_id: usize, line: String)
        ensures
            line_appended(old(self).terminals, final(self).terminals, session_id, line),
            final(self).registry == old(self).registry,
            final(self).ui == old(self).ui,
    {
        self.terminals.append_line(session_id, line);
    }

    /// Clears a session's transcript.
    pub fn clear_terminal_lines(&mut self, session_id: usize)
        ensures
            lines_cleared(old(self).terminals, final(self).terminals, session_id),
            final(self).registry == old(self).registry,
            final(self).ui == old(self).ui,
    {
        self.terminals.clear_lines(session_id);
    }

    /// Appends a context line, pending its command's timing.
    pub fn append_terminal_context_line(&mut self, session_id: usize, line: String)
        ensures
            context_line_appended(old(self).terminals, final(self).terminals, session_id, line),
            final(self).registry == old(self).registry,
            final(self).ui == old(self).ui,
    {
        self.terminals.append_context_line(session_id, line);
    }

    /// Completes the pending context line with the command's duration
    /// (`elapsed`: seconds with four decimals).
    pub fn finalize_terminal_context_line(&mut self, session_id: usize, elapsed: &str)
        ensures
            context_line_finalized(old(self).terminals, final(self).terminals, session_id, elapsed@),
            final(self).registry == old(self).registry,
            final(self).ui == old(self).ui,
    {
        self.terminals.finalize_context_line(session_id, elapsed);
    }

    /// Sets a session's status (unknown sessions are ignored).
    pub fn set_terminal_status(&mut self, session_id: usize, status: String)
        ensures
            final(self).terminals.same_except_session(&old(self).terminals, session_id as int),
            session_id < old(self).terminals.sessions.len() ==> final(self).terminals.sessions[session_id as int]
                == (TerminalState { status, ..old(self).terminals.sessions[session_id as int] }),
            session_id >= old(self).terminals.sessions.len() ==> final(self).terminals == old(self).terminals,
            final(self).registry == old(self).registry,
            final(self).ui == old(self).ui,
    {
        if session_id < self.terminals.sessions.len() {
            let session = &mut self.terminals.sessions[session_id];
            session.status = status;
        }
    }

    /// Records the command a session started.
    pub fn set_terminal_last_command(&mut self, session_id: usize, command: String)
        ensures
            final(self).terminals.same_except_session(&old(self).terminals, session_id as int),
            session_id < old(self).terminals.sessions.len() ==> final(self).terminals.sessions[session_id as int]
                == (TerminalState {
                last_command: Some(command),
                ..old(self).terminals.sessions[session_id as int]
            }),
            session_id >= old(self).terminals.sessions.len() ==> final(self).terminals == old(self).terminals,
            final(self).registry == old(self).registry,
            final(self).ui == old(self).ui,
    {
        if session_id < self.terminals.sessions.len() {
            let session = &mut self.terminals.sessions[session_id];
            session.last_command = Some(command);
        }
    }

    /// Records the exit code of a session's last command.
    pub fn set_terminal_last_exit_code(&mut self, session_id: usize, exit_code: i32)
        ensures
            final(self).terminals.same_except_session(&old(self).terminals, session_id as int),
            session_id < old(self).terminals.sessions.len() ==> final(self).terminals.sessions[session_id as int]
                == (TerminalState {
                last_exit_code: Some(exit_code),
                ..old(self).terminals.sessions[session_id as int]
            }),
            session_id >= old(self).terminals.sessions.len() ==> final(self).terminals == old(self).terminals,
            final(self).registry == old(self).registry,
            final(self).ui == old(self).ui,
    {
        if session_id < self.terminals.sessions.len() {
            let session = &mut self.terminals.sessions[session_id];
            session.last_exit_code = Some(exit_code);
        }
    }

    /// Records a session's viewport size; reports whether it changed.
    pub fn set_terminal_viewport_size(&mut self, session_id: usize, size: TerminalSize) -> (changed:
        bool)
        ensures
            viewport_set(old(self).terminals, final(self).terminals, session_id, size, changed),
            final(self).registry == old(self).registry,
            final(self).ui == old(self).ui,
    {
        self.terminals.set_viewport_size(session_id, size)
    }

    /// Sets a session's working directory; reports whether it changed.
    pub fn set_terminal_cwd(&mut self, session_id: usize, cwd: String) -> (changed: bool)
        ensures
            final(self).terminals.same_except_session(&old(self).terminals, session_id as int),
            changed == (session_id < old(self).terminals.sessions.len()
                && old(self).terminals.sessions[session_id as int].cwd@ != cwd@),
            changed ==> final(self).terminals.sessions[session_id as int] == (TerminalState {
                cwd,
                ..old(self).terminals.sessions[session_id as int]
            }),
            !changed ==> final(self).terminals == old(self).terminals,
            final(self).registry == old(self).registry,
            final(self).ui == old(self).ui,
    {
        if session_id >= self.terminals.sessions.len() {
            return false;
        }
        if self.terminals.sessions[session_id].cwd == cwd {
            return false;
        }
        let session = &mut self.terminals.sessions[session_id];
        session.cwd = cwd;
        true
    }

    /// The last `limit` transcript lines of a session (none for an unknown session).
    pub fn recent_terminal_lines(&self, session_id: usize, limit: usize) -> (r: Vec<&str>)
        ensures
            slice_views(r@) == if session_id < self.terminals.sessions.len() {
                last_lines(views(self.terminals.sessions[session_id as int].lines@), limit as int)
            } else {
                Seq::empty()
            },
    {
        if session_id >= self.terminals.sessions.len() {
            return Vec::new();
        }
        let lines = &self.terminals.sessions[session_id].lines;
        let len = lines.len();
        let start = if len > limit {
            len - limit
        } else {
            0
        };
        let ghost lv = views(lines@);
        let mut out: Vec<&str> = Vec::new();
        let mut k = start;
        while k < len
            invariant
                start <= k <= len,
                len == lines@.len(),
                lv == views(lines@),
                slice_views(out@) == lv.subrange(start as int, k as int),
            decreases len - k,
        {
            let ghost before = out@;
            out.push(lines[k].as_str());
            assert(slice_views(out@) =~= slice_views(before).push(lines@[k as int]@));
            assert(lv.subrange(start as int, k + 1) =~= lv.subrange(start as int, k as int).push(
                lines@[k as int]@,
            ));
            k += 1;
        }
        assert(len <= limit ==> lv.subrange(0, len as int) =~= lv);
        out
    }

    /// Records a command in a session's history.
    pub fn append_terminal_history(&mut self, session_id: usize, command: String)
        ensures
            history_appended(old(self).terminals, final(self).terminals, session_id, command@),
            final(self).registry == old(self).registry,
            final(self).ui == old(self).ui,
    {
        self.terminals.append_history(session_id, command);
    }

    /// Gives every session the same command history.
    pub fn seed_terminal_history(&mut self, history: Vec<String>)
        ensures
            history_seeded(old(self).terminals, final(self).terminals, views(history@)),
            final(self).registry == old(self).registry,
            final(self).ui == old(self).ui,
    {
        self.terminals.seed_history(history);
    }

    /// Replaces the directory-jump history.
    pub fn seed_directory_history(&mut self, history: Vec<String>)
        ensures
            views(final(self).terminals.directory_history@) == views(history@),
            final(self).terminals.sessions == old(self).terminals.sessions,
            final(self).terminals.pane_tree == old(self).terminals.pane_tree,
            final(self).registry == old(self).registry,
            final(self).ui == old(self).ui,
    {
        self.terminals.seed_directory_history(history);
    }

    /// Records a visited directory.
    pub fn record_directory_visit(&mut self, path: String)
        ensures
            directory_recorded(old(self).terminals, final(self).terminals, path),
            final(self).registry == old(self).registry,
            final(self).ui == old(self).ui,
    {
        self.terminals.record_directory_visit(path);
    }

    /// The directory-jump history.
    pub fn terminal_directory_history(&self) -> (h: &VecDeque<String>)
        ensures
            h == &self.terminals.directory_history,
    {
        &self.terminals.directory_history
    }

    /// The most recent history entry of a session that starts with `input`.
    pub fn get_terminal_suggestion(&self, session_id: usize, input: &str) -> (r: Option<String>)
        ensures
            r.is_none() <==> (input@.len() == 0 || session_id >= self.terminals.sessions.len()
                || latest_with_prefix(views(self.terminals.sessions[session_id as int].history@), input@)
                is None),
            r matches Some(s) ==> Some(s@) == latest_with_prefix(
                views(self.terminals.sessions[session_id as int].history@),
                input@,
            ),
    {
        self.terminals.get_suggestion(session_id, input)
    }

    /// The terminal sessions.
    pub fn terminal_sessions(&self) -> (s: &[TerminalState])
        ensures
            s@ == self.terminals.sessions@,
    {
        self.terminals.sessions.as_slice()
    }

    /// Opens a session titled `title` and selects it (see `TerminalManager::add_session`).
    pub fn add_terminal_session(&mut self, title: String) -> (r: Option<usize>)
        requires
            old(self).wf(),
        ensures
            terminal_split(*old(self), *final(self), title@, SplitAxis::Vertical),
            r == (if old(self).terminals.sessions.len() < crate::terminals::MAX_TERMINAL_SESSIONS {
                Some(old(self).terminals.sessions.len())
            } else {
                None
            }),
    {
        let index = self.terminals.add_session(title);
        if index.is_none() {
            return None;
        }
        self.ui.selected_terminal_idx = self.terminals.active_session_id();
        index
    }

    /// Opens a session by splitting the focused pane along `axis`, and selects it.
    pub fn split_selected_terminal(&mut self, title: String, axis: SplitAxis) -> (r: Option<usize>)
        requires
            old(self).wf(),
        ensures
            terminal_split(*old(self), *final(self), title@, axis),
            r == (if old(self).terminals.sessions.len() < crate::terminals::MAX_TERMINAL_SESSIONS {
                Some(old(self).terminals.sessions.len())
            } else {
                None
            }),
    {
        let index = self.terminals.add_session_split(title, axis);
        if index.is_none() {
            return None;
        }
        self.ui.selected_terminal_idx = self.terminals.active_session_id();
        index
    }

    /// Closes session `index` (refused for the last session or an unknown
    /// index) and selects the focused session.
    pub fn remove_terminal_session(&mut self, index: usize) -> (ok: bool)
        requires
            old(self).wf(),
        ensures
            terminal_removed(*old(self), *final(self), index),
            ok == (old(self).terminals.sessions.len() > 1 && index < old(self).terminals.sessions.len()),
    {
        if self.terminals.remove_session(index) {
            self.ui.selected_terminal_idx = self.terminals.active_session_id();
            true
        } else {
            false
        }
    }

    /// The focused session.
    pub fn selected_terminal(&self) -> (r: Option<&TerminalState>)
        requires
            self.wf(),
        ensures
            r matches Some(t) ==> *t == self.terminals.sessions[self.terminals.pane_tree.active() as int],
            r is None <==> self.terminals.pane_tree.active() >= self.terminals.sessions.len(),
    {
        let id = self.terminals.active_session_id();
        if id < self.terminals.sessions.len() {
            Some(&self.terminals.sessions[id])
        } else {
            None
        }
    }

    /// Focuses session `index` (the last one for an index past the end) and
    /// shows it in focus mode.
    pub fn select_terminal_index(&mut self, index: usize)
        requires
            old(self).wf(),
        ensures
            terminal_index_selected(*old(self), *final(self), index),
    {
        let last = self.terminals.sessions.len() - 1;
        let target = if index < last {
            index
        } else {
            last
        };
        let _ = self.terminals.select_session(target);
        self.ui.selected_terminal_idx = self.terminals.active_session_id();
        self.ui.view_mode = ViewMode::Focus;
    }

    /// Focuses the next pane and selects its session.
    pub fn focus_next_terminal(&mut self) -> (ok: bool)
        requires
            old(self).wf(),
        ensures
            ok,
            terminal_focus_moved(
                *old(self),
                *final(self),
                crate::panes::next_focus(old(self).terminals.pane_tree.session_seq(), old(self).terminals.pane_tree.active()),
            ),
    {
        let ok = self.terminals.focus_next_session();
        self.ui.selected_terminal_idx = self.terminals.active_session_id();
        ok
    }

    /// Focuses the previous pane and selects its session.
    pub fn focus_previous_terminal(&mut self) -> (ok: bool)
        requires
            old(self).wf(),
        ensures
            ok,
            terminal_focus_moved(
                *old(self),
                *final(self),
                crate::panes::previous_focus(old(self).terminals.pane_tree.session_seq(), old(self).terminals.pane_tree.active()),
            ),
    {
        let ok = self.terminals.focus_previous_session();
        self.ui.selected_terminal_idx = self.terminals.active_session_id();
        ok
    }

    /// The pane tree of the terminals.
    pub fn terminal_pane_tree(&self) -> (t: &PaneTree)
        ensures
            *t == self.terminals.pane_tree,
    {
        &self.terminals.pane_tree
    }
}

/// The last `n` lines of a transcript.
pub fn last_lines_of(lines: &VecDeque<String>, n: usize) -> (r: Vec<String>)
    ensures
        views(r@) == last_lines(views(lines@), n as int),
{
    let len = lines.len();
    let start = if len > n {
        len - n
    } else {
        0
    };
    let mut out: Vec<String> = Vec::new();
    let mut k = start;
    let ghost lv = views(lines@);
    while k < len
        invariant
            start <= k <= len,
            len == lines@.len(),
            lv == views(lines@),
            views(out@) == lv.subrange(start as int, k as int),
        decreases len - k,
    {
        let ghost before = out@;
        let c = lines[k].clone();
        out.push(c);
        assert(views(out@) =~= views(before).push(lines@[k as int]@));
        assert(lv.subrange(start as int, k + 1) =~= lv.subrange(start as int, k as int).push(
            lines@[k as int]@,
        ));
        k += 1;
    }
    assert(len <= n ==> lv.subrange(0, len as int) =~= lv);
    out
}

} // verus!
