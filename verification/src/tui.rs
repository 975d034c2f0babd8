//! State of the terminal dashboard: the agent registry and which agent of
//! the (id-ordered) list is selected. The selection wraps around at both
//! ends and moves by pages of five.
use vstd::prelude::*;
use crate::app_state::events_of;
use crate::registry::{
    activity_ticked, agent_updated, event_added, Agent, AgentRegistry, Event,
};
use crate::listener::{is_join_or_update, leave_reason, meta_or, metadata_or, EventRecord};
use crate::registry::{meta_get, meta_view, metadata_value, same_agent};
use crate::text::{chars_equal, chars_of, opt_text, owned, push_char, push_str, to_uppercase, uppercase_of, views};

verus! {

broadcast use vstd::string::group_string_axioms;

/// How far a page moves the selection.
pub const PAGE_STEP: usize = 5;

/// The dashboard's state.
pub struct AppState {
    pub registry: AgentRegistry,
    pub selected_agent_idx: usize,
    pub should_quit: bool,
}

/// The selection after moving down a list of `n`: the next one, the first
/// after the last.
pub open spec fn next_selection(idx: int, n: int) -> int {
    if n == 0 {
        0
    } else {
        (idx + 1) % n
    }
}

/// The selection after moving up a list of `n`: the previous one, the last
/// before the first.
pub open spec fn previous_selection(idx: int, n: int) -> int {
    if n == 0 {
        0
    } else if idx == 0 {
        n - 1
    } else {
        idx - 1
    }
}

/// The selection after moving down a page: five further, at most the last.
pub open spec fn next_page_selection(idx: int, n: int) -> int {
    if n == 0 {
        idx
    } else if idx + PAGE_STEP < n - 1 {
        idx + PAGE_STEP
    } else {
        n - 1
    }
}

/// The selection after moving up a page: five back, at least the first.
pub open spec fn previous_page_selection(idx: int, n: int) -> int {
    if n == 0 {
        idx
    } else if idx >= PAGE_STEP {
        idx - PAGE_STEP
    } else {
        0
    }
}

impl AppState {
    /// Number of agents.
    pub open spec fn agent_count(&self) -> int {
        self.registry.agents@.len() as int
    }

    /// An empty dashboard: no agents, the first row selected.
    pub fn new() -> (s: Self)
        ensures
            s.registry.wf(),
            s.registry.agents@.len() == 0,
            s.registry.events@.len() == 0,
            s.registry.total_events_received == 0,
            s.selected_agent_idx == 0,
            !s.should_quit,
    {
        AppState { registry: AgentRegistry::new(), selected_agent_idx: 0, should_quit: false }
    }

    /// Records an event (see `AgentRegistry::add_event`).
    pub fn add_event(&mut self, event: Event)
        requires
            old(self).registry.wf(),
            old(self).registry.can_count_event(event.agent_id@),
        ensures
            event_added(old(self).registry, final(self).registry, event),
            final(self).selected_agent_idx == old(self).selected_agent_idx,
            final(self).should_quit == old(self).should_quit,
    {
        self.registry.add_event(event);
    }

    /// Records an agent's announcement at `now_ms` (see `AgentRegistry::update_agent`).
    pub fn update_agent(&mut self, agent: Agent, now_ms: i64)
        requires
            old(self).registry.wf(),
            agent.wf(),
        ensures
            agent_updated(old(self).registry, final(self).registry, agent, now_ms),
            final(self).selected_agent_idx == old(self).selected_agent_idx,
            final(self).should_quit == old(self).should_quit,
    {
        self.registry.update_agent(agent, now_ms);
    }

    /// The kept events of one agent, newest first.
    pub fn get_events_for_agent(&self, agent_id: &str) -> (r: Vec<&Event>)
        ensures
            r@.len() == events_of(self.registry.events@, Some(agent_id@)).len(),
            forall|i: int| 0 <= i < r@.len() ==> *r@[i] == events_of(self.registry.events@, Some(agent_id@))[i],
    {
        let ghost all = self.registry.events@;
        let ghost id = Some(agent_id@);
        let key = chars_of(agent_id);
        let mut out: Vec<&Event> = Vec::new();
        let n = self.registry.events.len();
        let mut i: usize = 0;
        assert(all.subrange(0, n as int) =~= all);
        assert(out@.map_values(|e: &Event| *e) =~= Seq::<Event>::empty());
        while i < n
            invariant
                n == all.len(),
                all == self.registry.events@,
                i <= n,
                id == Some(key@),
                events_of(all, id) == out@.map_values(|e: &Event| *e) + events_of(
                    all.subrange(i as int, n as int),
                    id,
                ),
            decreases n - i,
        {
            let ghost rest = all.subrange(i as int, n as int);
            assert(rest[0] == all[i as int]);
            assert(rest.drop_first() =~= all.subrange(i + 1, n as int));
            let e = &self.registry.events[i];
            let ghost before = out@.map_values(|x: &Event| *x);
            if chars_equal(&chars_of(e.agent_id.as_str()), &key) {
                out.push(e);
                assert(out@.map_values(|x: &Event| *x) =~= before.push(*e));
                assert(before + (seq![*e] + events_of(all.subrange(i + 1, n as int), id)) =~= out@.map_values(
                    |x: &Event| *x,
                ) + events_of(all.subrange(i + 1, n as int), id));
            }
            i += 1;
        }
        proof {
            let m = out@.map_values(|e: &Event| *e);
            assert(all.subrange(n as int, n as int) =~= Seq::<Event>::empty());
            assert(events_of(all, id) =~= m);
            assert forall|k: int| 0 <= k < out@.len() implies *out@[k] == events_of(all, id)[k] by {
                assert(m[k] == *out@[k]);
            }
        }
        out
    }

    /// Starts a new activity counter for every agent (see `AgentRegistry::tick_activity`).
    pub fn tick_activity(&mut self)
        requires
            old(self).registry.wf(),
        ensures
            activity_ticked(old(self).registry, final(self).registry),
            final(self).selected_agent_idx == old(self).selected_agent_idx,
            final(self).should_quit == old(self).should_quit,
    {
        self.registry.tick_activity();
    }

    /// Selects the next agent, the first after the last.
    pub fn select_next(&mut self)
        requires
            old(self).agent_count() > 0 ==> old(self).selected_agent_idx < usize::MAX,
        ensures
            final(self).selected_agent_idx == next_selection(old(self).selected_agent_idx as int, old(self).agent_count()),
            final(self).registry == old(self).registry,
            final(self).should_quit == old(self).should_quit,
    {
        let n = self.registry.agents.len();
        if n == 0 {
            self.selected_agent_idx = 0;
        } else {
            self.selected_agent_idx = (self.selected_agent_idx + 1) % n;
        }
    }

    /// Selects the previous agent, the last before the first.
    pub fn select_previous(&mut self)
        ensures
            final(self).selected_agent_idx == previous_selection(
                old(self).selected_agent_idx as int,
                old(self).agent_count(),
            ),
            final(self).registry == old(self).registry,
            final(self).should_quit == old(self).should_quit,
    {
        let n = self.registry.agents.len();
        if n == 0 {
            self.selected_agent_idx = 0;
        } else if self.selected_agent_idx == 0 {
            self.selected_agent_idx = n - 1;
        } else {
            self.selected_agent_idx = self.selected_agent_idx - 1;
        }
    }

    /// Selects the first agent.
    pub fn select_first(&mut self)
        ensures
            final(self).selected_agent_idx == 0,
            final(self).registry == old(self).registry,
            final(self).should_quit == old(self).should_quit,
    {
        self.selected_agent_idx = 0;
    }

    /// Selects the last agent, if there is one.
    pub fn select_last(&mut self)
        ensures
            final(self).selected_agent_idx == if old(self).agent_count() > 0 {
                old(self).agent_count() - 1
            } else {
                old(self).selected_agent_idx as int
            },
            final(self).registry == old(self).registry,
            final(self).should_quit == old(self).should_quit,
    {
        let n = self.registry.agents.len();
        if n > 0 {
            self.selected_agent_idx = n - 1;
        }
    }

    /// Moves the selection a page down, at most to the last agent.
    pub fn select_next_page(&mut self)
        requires
            old(self).agent_count() > 0 ==> old(self).selected_agent_idx + PAGE_STEP <= usize::MAX,
        ensures
            final(self).selected_agent_idx == next_page_selection(
                old(self).selected_agent_idx as int,
                old(self).agent_count(),
            ),
            final(self).registry == old(self).registry,
            final(self).should_quit == old(self).should_quit,
    {
        let n = self.registry.agents.len();
        if n > 0 {
            let moved = self.selected_agent_idx + PAGE_STEP;
            self.selected_agent_idx = if moved < n - 1 {
                moved
            } else {
                n - 1
            };
        }
    }

    /// Moves the selection a page up, at least to the first agent.
    pub fn select_previous_page(&mut self)
        ensures
            final(self).selected_agent_idx == previous_page_selection(
                old(self).selected_agent_idx as int,
                old(self).agent_count(),
            ),
            final(self).registry == old(self).registry,
            final(self).should_quit == old(self).should_quit,
    {
        if self.registry.agents.len() > 0 {
            self.selected_agent_idx = self.selected_agent_idx.saturating_sub(PAGE_STEP);
        }
    }

    /// The id of the selected agent, if the selection is within the list.
    pub fn get_selected_agent_id(&self) -> (r: Option<String>)
        ensures
            crate::text::opt_text(r) == if self.selected_agent_idx < self.agent_count() {
                Some(self.registry.agents@[self.selected_agent_idx as int].id@)
            } else {
                None::<Seq<char>>
            },
    {
        if self.selected_agent_idx < self.registry.agents.len() {
            Some(self.registry.agents[self.selected_agent_idx].id.clone())
        } else {
            None
        }
    }
}

/// Moving down and then up returns to the same agent, and so does moving up
/// and then down; either way the selection stays within the list.
pub proof fn law_selection_round_trip(idx: int, n: int)
    requires
        0 <= idx < n,
    ensures
        previous_selection(next_selection(idx, n), n) == idx,
        next_selection(previous_selection(idx, n), n) == idx,
        0 <= next_selection(idx, n) < n,
        0 <= previous_selection(idx, n) < n,
{
    if idx + 1 < n {
        vstd::arithmetic::div_mod::lemma_small_mod((idx + 1) as nat, n as nat);
    } else {
        vstd::arithmetic::div_mod::lemma_mod_self_0(n);
    }
    if idx > 0 {
        vstd::arithmetic::div_mod::lemma_small_mod(idx as nat, n as nat);
    } else {
        vstd::arithmetic::div_mod::lemma_mod_self_0(n);
    }
}

/// Paging keeps a selection that is within the list within it.
pub proof fn law_paging_stays_in_list(idx: int, n: int)
    requires
        0 <= idx < n,
    ensures
        0 <= next_page_selection(idx, n) < n,
        0 <= previous_page_selection(idx, n) < n,
        idx <= next_page_selection(idx, n),
        previous_page_selection(idx, n) <= idx,
{
}

/// The fields of an event that the dashboard shows: kind, component, level
/// and message.
pub open spec fn event_fields(e: Event) -> (Seq<char>, Seq<char>, Seq<char>, Seq<char>) {
    (e.kind@, e.component@, e.level@, e.payload@)
}

/// The events of the older metadata keys: one for `action`, then one for
/// `wasp_log`, each where the key is set.
pub open spec fn sniffed_events(m: Seq<(Seq<char>, Seq<char>)>) -> Seq<
    (Seq<char>, Seq<char>, Seq<char>, Seq<char>),
> {
    (match meta_get(m, "action"@) {
        Some(a) => seq![("ACTION"@, "ACTION"@, "info"@, a)],
        None => Seq::empty(),
    }) + (match meta_get(m, "wasp_log"@) {
        Some(l) => seq![("WASP"@, "WASP"@, "info"@, l)],
        None => Seq::empty(),
    })
}

/// The events shown for an agent that joined or was updated, with metadata
/// `m`: one structured log line where `rai_component` is set (its level
/// `rai_level`, else `info`; its message `log`, else "No log message");
/// else those of the older keys; where none of them is set, one mesh event.
pub open spec fn announced_events(kind: Seq<char>, origin: Seq<char>, m: Seq<(Seq<char>, Seq<char>)>) -> Seq<
    (Seq<char>, Seq<char>, Seq<char>, Seq<char>),
> {
    match meta_get(m, "rai_component"@) {
        Some(c) => seq![
            (uppercase_of(kind), c, meta_or(m, "rai_level"@, "info"@), meta_or(m, "log"@, "No log message"@)),
        ],
        None => if sniffed_events(m).len() == 0 {
            seq![(uppercase_of(kind), "MESH"@, "info"@, "Agent "@ + kind + " via "@ + origin)]
        } else {
            sniffed_events(m)
        },
    }
}

/// The events the dashboard shows for a watch record whose agent is `agent`.
pub open spec fn record_events(record: EventRecord, agent: Agent) -> Seq<
    (Seq<char>, Seq<char>, Seq<char>, Seq<char>),
> {
    if is_join_or_update(record.kind@) {
        announced_events(record.kind@, record.origin@, meta_view(agent.metadata@))
    } else {
        seq![("LEFT"@, "MESH"@, "info"@, "Agent left mesh (reason: "@ + leave_reason(record) + ")"@)]
    }
}

/// An event of agent `agent_id` at `now_ms` with level `info`.
fn info_event(agent_id: &String, kind: String, component: String, payload: String, now_ms: i64) -> (e: Event)
    ensures
        e.timestamp_ms == now_ms,
        e.agent_id@ == agent_id@,
        event_fields(e) == (kind@, component@, "info"@, payload@),
{
    Event { timestamp_ms: now_ms, agent_id: agent_id.clone(), kind, component, level: owned("info"), payload }
}

/// What the dashboard makes of a record of the watch stream: for an agent
/// that joined or was updated, its events (see `announced_events`) and the
/// agent as announced; for one that left, a `LEFT` event and the agent
/// marked `Offline`; nothing for other records or records that carry no agent.
pub fn dashboard_record_effect(record: &EventRecord, now_ms: i64) -> (r: Option<(Vec<Event>, Agent)>)
    ensures
        r is Some <==> (record.current is Some && (is_join_or_update(record.kind@) || record.kind@ == "left"@)),
        match r {
            Some((events, a)) => {
                let cur = record.current->0;
                &&& events@.len() == record_events(*record, cur).len()
                &&& forall|i: int|
                    0 <= i < events@.len() ==> {
                        &&& (#[trigger] events@[i]).timestamp_ms == now_ms
                        &&& events@[i].agent_id@ == cur.id@
                        &&& event_fields(events@[i]) == record_events(*record, cur)[i]
                    }
                &&& is_join_or_update(record.kind@) ==> same_agent(a, cur)
                &&& !is_join_or_update(record.kind@) ==> {
                    &&& a.status@ == "Offline"@
                    &&& same_agent(Agent { status: cur.status, ..a }, cur)
                }
            },
            None => true,
        },
{
    let kind = chars_of(record.kind.as_str());
    let joined_or_updated = chars_equal(&kind, &chars_of("joined")) || chars_equal(&kind, &chars_of("updated"));
    let agent = match &record.current {
        Some(agent) => agent,
        None => return None,
    };
    if joined_or_updated {
        let ghost m = meta_view(agent.metadata@);
        let mut events: Vec<Event> = Vec::new();
        match metadata_value(&agent.metadata, "rai_component") {
            Some(component) => {
                let level = metadata_or(&agent.metadata, "rai_level", owned("info"));
                let payload = metadata_or(&agent.metadata, "log", owned("No log message"));
                events.push(
                    Event {
                        timestamp_ms: now_ms,
                        agent_id: agent.id.clone(),
                        kind: to_uppercase(record.kind.as_str()),
                        component,
                        level,
                        payload,
                    },
                );
            },
            None => {
                if let Some(action) = metadata_value(&agent.metadata, "action") {
                    events.push(info_event(&agent.id, owned("ACTION"), owned("ACTION"), action, now_ms));
                }
                if let Some(log) = metadata_value(&agent.metadata, "wasp_log") {
                    events.push(info_event(&agent.id, owned("WASP"), owned("WASP"), log, now_ms));
                }
                assert(events@.len() == sniffed_events(m).len());
                if events.len() == 0 {
                    let mut payload = owned("Agent ");
                    push_str(&mut payload, record.kind.as_str());
                    push_str(&mut payload, " via ");
                    push_str(&mut payload, record.origin.as_str());
                    events.push(
                        info_event(&agent.id, to_uppercase(record.kind.as_str()), owned("MESH"), payload, now_ms),
                    );
                }
            },
        }
        assert(events@.len() == record_events(*record, *agent).len());
        Some((events, agent.clone()))
    } else if chars_equal(&kind, &chars_of("left")) {
        let mut offline = agent.clone();
        offline.status = owned("Offline");
        let mut payload = owned("Agent left mesh (reason: ");
        match &record.reason {
            Some(r) => push_str(&mut payload, r.as_str()),
            None => push_str(&mut payload, "unknown"),
        }
        push_str(&mut payload, ")");
        let mut events: Vec<Event> = Vec::new();
        events.push(info_event(&offline.id, owned("LEFT"), owned("MESH"), payload, now_ms));
        Some((events, offline))
    } else {
        None
    }
}

/// Lines joined with a newline between each two.
pub open spec fn join_lines(ls: Seq<Seq<char>>) -> Seq<char>
    decreases ls.len(),
{
    if ls.len() == 0 {
        Seq::empty()
    } else if ls.len() == 1 {
        ls[0]
    } else {
        join_lines(ls.drop_last()) + seq!['\n'] + ls.last()
    }
}

/// The title of the log panel: the selected agent's id, or `N/A`.
pub fn log_focus_title(selected_id: Option<&str>) -> (r: String)
    ensures
        r@ == " [ Log Focus: "@ + match selected_id {
            Some(id) => id@,
            None => "N/A"@,
        } + " ] "@,
{
    let mut title = owned(" [ Log Focus: ");
    match selected_id {
        Some(id) => push_str(&mut title, id),
        None => push_str(&mut title, "N/A"),
    }
    push_str(&mut title, " ] ");
    title
}

/// One line of the log panel: `[time] kind: payload`.
pub fn log_focus_line(time: &str, kind: &str, payload: &str) -> (r: String)
    ensures
        r@ == "["@ + time@ + "] "@ + kind@ + ": "@ + payload@,
{
    let mut line = owned("[");
    push_str(&mut line, time);
    push_str(&mut line, "] ");
    push_str(&mut line, kind);
    push_str(&mut line, ": ");
    push_str(&mut line, payload);
    line
}

/// The text of the log panel: the selected agent's event lines, one per
/// line; a note when it has none; another when no agent is selected.
pub fn log_focus_body(selected_id: Option<&str>, event_lines: &Vec<String>) -> (r: String)
    ensures
        r@ == match selected_id {
            None => "No agent selected."@,
            Some(id) => if event_lines@.len() == 0 {
                "No recent activity recorded for agent '"@ + id@ + "'."@
            } else {
                join_lines(views(event_lines@))
            },
        },
{
    match selected_id {
        None => owned("No agent selected."),
        Some(id) => {
            if event_lines.len() == 0 {
                let mut note = owned("No recent activity recorded for agent '");
                push_str(&mut note, id);
                push_str(&mut note, "'.");
                note
            } else {
                let mut text = event_lines[0].clone();
                let mut i: usize = 1;
                assert(views(event_lines@.subrange(0, 1)) =~= seq![event_lines@[0]@]);
                while i < event_lines.len()
                    invariant
                        1 <= i <= event_lines@.len(),
                        text@ == join_lines(views(event_lines@.subrange(0, i as int))),
                    decreases event_lines@.len() - i,
                {
                    let ghost pre = views(event_lines@.subrange(0, i as int));
                    push_char(&mut text, '\n');
                    push_str(&mut text, event_lines[i].as_str());
                    let ghost next = views(event_lines@.subrange(0, i + 1));
                    assert(next.drop_last() =~= pre);
                    assert(next.last() == event_lines@[i as int]@);
                    i += 1;
                }
                assert(event_lines@.subrange(0, event_lines@.len() as int) =~= event_lines@);
                text
            }
        },
    }
}

} // verus!
