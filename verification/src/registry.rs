//! The agents of the mesh and the events they report: the registry that keeps
//! them, with activity counters, token counts and summaries.
//!
//! Times are milliseconds since the Unix epoch; the caller reads the clock.
use vstd::prelude::*;
use std::collections::VecDeque;
use crate::text::{
    ascii_lower_seq, chars_ascii_lower, chars_equal, chars_of, owned, views,
};

verus! {

broadcast use vstd::string::group_string_axioms;

/// Number of events the registry keeps (the newest ones).
pub const EVENT_LIMIT: usize = 100;

/// Number of one-second activity counters kept per agent.
pub const ACTIVITY_WINDOW: usize = 50;

/// An agent of the mesh as it announces itself.
pub struct Agent {
    pub id: String,
    pub instance_name: String,
    pub role: String,
    pub project: String,
    pub branch: String,
    pub status: String,
    pub capabilities: Vec<String>,
    pub port: u16,
    pub addresses: Vec<String>,
    /// Key/value pairs, each key at most once (see `Agent::wf`).
    pub metadata: Vec<(String, String)>,
    pub last_seen_ms: i64,
    pub tokens: u64,
    /// Events counted per second, oldest first.
    pub activity: VecDeque<u64>,
}

/// Something an agent reported.
pub struct Event {
    pub timestamp_ms: i64,
    pub agent_id: String,
    pub kind: String,
    pub component: String,
    pub level: String,
    pub payload: String,
}

/// Counts of agents by status.
#[derive(Debug, Clone, Copy, PartialEq, Eq, Structural)]
pub struct AgentStatusSummary {
    pub total: usize,
    pub online: usize,
    pub busy: usize,
    pub offline: usize,
}

/// Counts of events by level.
#[derive(Debug, Clone, Copy, PartialEq, Eq, Structural)]
pub struct EventLevelSummary {
    pub info: usize,
    pub warn: usize,
    pub error: usize,
    pub success: usize,
}

impl Default for AgentStatusSummary {
    fn default() -> (s: Self)
        ensures
            s == (AgentStatusSummary { total: 0, online: 0, busy: 0, offline: 0 }),
    {
        AgentStatusSummary { total: 0, online: 0, busy: 0, offline: 0 }
    }
}

impl Default for EventLevelSummary {
    fn default() -> (s: Self)
        ensures
            s == (EventLevelSummary { info: 0, warn: 0, error: 0, success: 0 }),
    {
        EventLevelSummary { info: 0, warn: 0, error: 0, success: 0 }
    }
}

// ---------------------------------------------------------------------------
// Metadata and ordering of ids
// ---------------------------------------------------------------------------

/// Metadata as plain values.
pub open spec fn meta_view(m: Seq<(String, String)>) -> Seq<(Seq<char>, Seq<char>)> {
    m.map_values(|p: (String, String)| (p.0@, p.1@))
}

/// No key occurs twice among the pairs.
pub open spec fn meta_keys_unique(m: Seq<(Seq<char>, Seq<char>)>) -> bool {
    forall|i: int, j: int| 0 <= i < j < m.len() ==> #[trigger] m[i].0 != #[trigger] m[j].0
}

impl Agent {
    /// An agent's metadata holds each key at most once, as a map does.
    pub open spec fn wf(&self) -> bool {
        meta_keys_unique(meta_view(self.metadata@))
    }
}

/// Whether no key occurs twice in the metadata (see `meta_keys_unique`).
pub fn metadata_keys_unique(m: &Vec<(String, String)>) -> (b: bool)
    ensures
        b == meta_keys_unique(meta_view(m@)),
{
    let ghost mv = meta_view(m@);
    let n = m.len();
    let mut j: usize = 0;
    while j < n
        invariant
            n == m@.len(),
            mv == meta_view(m@),
            j <= n,
            forall|a: int, b: int| 0 <= a < b < j ==> #[trigger] mv[a].0 != #[trigger] mv[b].0,
        decreases n - j,
    {
        let kj = chars_of(m[j].0.as_str());
        let mut i: usize = 0;
        while i < j
            invariant
                n == m@.len(),
                mv == meta_view(m@),
                i <= j < n,
                kj@ == mv[j as int].0,
                forall|a: int| 0 <= a < i ==> #[trigger] mv[a].0 != mv[j as int].0,
            decreases j - i,
        {
            if chars_equal(&chars_of(m[i].0.as_str()), &kj) {
                assert(mv[i as int].0 == mv[j as int].0);
                return false;
            }
            i += 1;
        }
        j += 1;
    }
    true
}

/// The value of `key`: that of the last pair with that key.
pub open spec fn meta_get(m: Seq<(Seq<char>, Seq<char>)>, key: Seq<char>) -> Option<Seq<char>>
    decreases m.len(),
{
    if m.len() == 0 {
        None
    } else if m.last().0 == key {
        Some(m.last().1)
    } else {
        meta_get(m.drop_last(), key)
    }
}

/// The value of metadata `key` (see `meta_get`).
pub fn metadata_value(m: &Vec<(String, String)>, key: &str) -> (r: Option<String>)
    ensures
        crate::text::opt_text(r) == meta_get(meta_view(m@), key@),
{
    let k = chars_of(key);
    let mut i = m.len();
    let ghost mv = meta_view(m@);
    assert(mv.subrange(0, mv.len() as int) =~= mv);
    while i > 0
        invariant
            i <= m@.len(),
            mv == meta_view(m@),
            k@ == key@,
            meta_get(mv, key@) == meta_get(mv.subrange(0, i as int), key@),
        decreases i,
    {
        let ghost pre = mv.subrange(0, i as int);
        assert(pre.drop_last() =~= mv.subrange(0, i - 1));
        assert(pre.last() == (m@[i - 1].0@, m@[i - 1].1@));
        if chars_equal(&chars_of(m[i - 1].0.as_str()), &k) {
            return Some(m[i - 1].1.clone());
        }
        i -= 1;
    }
    None
}

/// `a` comes before `b` in the order of `String`: character by character
/// (the byte order of their UTF-8 text), a prefix first.
pub open spec fn text_lt(a: Seq<char>, b: Seq<char>) -> bool
    decreases a.len(),
{
    if a.len() == 0 {
        b.len() > 0
    } else if b.len() == 0 {
        false
    } else if a[0] != b[0] {
        a[0] < b[0]
    } else {
        text_lt(a.drop_first(), b.drop_first())
    }
}

/// The order of texts is strict and total.
pub proof fn lemma_text_order(a: Seq<char>, b: Seq<char>)
    ensures
        !(text_lt(a, b) && text_lt(b, a)),
        a != b ==> text_lt(a, b) || text_lt(b, a),
        !text_lt(a, a),
    decreases a.len(),
{
    if a.len() > 0 && b.len() > 0 && a[0] == b[0] {
        lemma_text_order(a.drop_first(), b.drop_first());
        if a != b {
            assert(a.drop_first() != b.drop_first()) by {
                if a.drop_first() == b.drop_first() {
                    assert(a =~= seq![a[0]] + a.drop_first());
                    assert(b =~= seq![b[0]] + b.drop_first());
                }
            }
        }
    }
    if a.len() > 0 {
        lemma_text_order(a.drop_first(), a.drop_first());
    }
    if a.len() == 0 && b.len() == 0 {
        assert(a =~= b);
    }
}

/// The order of texts is transitive.
pub proof fn lemma_text_lt_trans(a: Seq<char>, b: Seq<char>, c: Seq<char>)
    requires
        text_lt(a, b),
        text_lt(b, c),
    ensures
        text_lt(a, c),
    decreases a.len(),
{
    if a.len() > 0 && b.len() > 0 && c.len() > 0 && a[0] == b[0] && b[0] == c[0] {
        lemma_text_lt_trans(a.drop_first(), b.drop_first(), c.drop_first());
    }
}

/// Whether `a` comes before `b` (see `text_lt`).
pub fn text_less(a: &str, b: &str) -> (r: bool)
    ensures
        r == text_lt(a@, b@),
{
    let x = chars_of(a);
    let y = chars_of(b);
    let mut i: usize = 0;
    assert(a@.subrange(0, a@.len() as int) =~= a@);
    assert(b@.subrange(0, b@.len() as int) =~= b@);
    while i < x.len() && i < y.len() && x[i] == y[i]
        invariant
            i <= x@.len(),
            i <= y@.len(),
            x@ == a@,
            y@ == b@,
            text_lt(a@, b@) == text_lt(a@.subrange(i as int, a@.len() as int), b@.subrange(
                i as int,
                b@.len() as int,
            )),
        decreases x@.len() - i,
    {
        let ghost sa = a@.subrange(i as int, a@.len() as int);
        let ghost sb = b@.subrange(i as int, b@.len() as int);
        assert(sa.drop_first() =~= a@.subrange(i + 1, a@.len() as int));
        assert(sb.drop_first() =~= b@.subrange(i + 1, b@.len() as int));
        i += 1;
    }
    let ghost sa = a@.subrange(i as int, a@.len() as int);
    let ghost sb = b@.subrange(i as int, b@.len() as int);
    if i == x.len() {
        i < y.len()
    } else if i == y.len() {
        false
    } else {
        assert(sa[0] == x@[i as int] && sb[0] == y@[i as int]);
        x[i] < y[i]
    }
}

/// Ids of agents.
pub open spec fn agent_ids(agents: Seq<Agent>) -> Seq<Seq<char>> {
    agents.map_values(|a: Agent| a.id@)
}

/// Ids in strictly increasing order (so each id once).
pub open spec fn ids_sorted(ids: Seq<Seq<char>>) -> bool {
    forall|i: int, j: int| 0 <= i < j < ids.len() ==> text_lt(ids[i], ids[j])
}

/// Number of ids before `id` in the order of texts.
pub open spec fn insert_position(ids: Seq<Seq<char>>, id: Seq<char>) -> int
    decreases ids.len(),
{
    if ids.len() == 0 {
        0
    } else if text_lt(ids[0], id) {
        1 + insert_position(ids.drop_first(), id)
    } else {
        0
    }
}

// ---------------------------------------------------------------------------
// Integers in metadata
// ---------------------------------------------------------------------------

/// The digits of an unsigned number: `s` after an optional `+`.
pub open spec fn unsigned_body(s: Seq<char>) -> Seq<char> {
    if s.len() > 0 && s[0] == '+' {
        s.drop_first()
    } else {
        s
    }
}

/// `s` parsed as a `u64` the way `str::parse::<u64>` does (see `unsigned_body`).
pub open spec fn parsed_u64(s: Seq<char>) -> Option<u64> {
    let body = unsigned_body(s);
    if body.len() == 0 || !crate::terminal::all_digits(body) {
        None
    } else if crate::terminal::digits_value(body) <= u64::MAX {
        Some(crate::terminal::digits_value(body) as u64)
    } else {
        None
    }
}

/// `s` without its commas.
pub open spec fn without_commas(s: Seq<char>) -> Seq<char>
    decreases s.len(),
{
    if s.len() == 0 {
        s
    } else if s.last() == ',' {
        without_commas(s.drop_last())
    } else {
        without_commas(s.drop_last()).push(s.last())
    }
}

/// Parses a `u64` (see `parsed_u64`).
pub fn parse_u64(text: &Vec<char>) -> (r: Option<u64>)
    ensures
        r == parsed_u64(text@),
{
    let n = text.len();
    let start: usize = if n > 0 && text[0] == '+' {
        1
    } else {
        0
    };
    let ghost body = text@.subrange(start as int, n as int);
    assert(body =~= unsigned_body(text@));
    if start == n {
        return None;
    }
    let mut acc: u64 = 0;
    let mut i = start;
    while i < n
        invariant
            n == text@.len(),
            start <= i <= n,
            start < n,
            body == text@.subrange(start as int, n as int),
            body == unsigned_body(text@),
            forall|m: int| start <= m < i ==> crate::terminal::is_digit(text@[m]),
            acc == crate::terminal::digits_value(text@.subrange(start as int, i as int)),
        decreases n - i,
    {
        let c = text[i];
        if !('0' <= c && c <= '9') {
            assert(body[i - start] == c);
            assert(!crate::terminal::all_digits(body));
            return None;
        }
        let d = (c as u32 - 48) as u64;
        assert(text@.subrange(start as int, i + 1).drop_last() =~= text@.subrange(
            start as int,
            i as int,
        ));
        if acc > (u64::MAX - d) / 10 {
            proof {
                assert(acc * 10 + d > u64::MAX) by (nonlinear_arith)
                    requires
                        acc > (u64::MAX - d) / 10,
                        d <= 9,
                ;
                assert(crate::terminal::digits_value(text@.subrange(start as int, i + 1)) == acc
                    * 10 + d);
                if crate::terminal::all_digits(body) {
                    crate::terminal::lemma_digits_bounds(body, i + 1 - start);
                    assert(body.subrange(0, i + 1 - start) =~= text@.subrange(start as int, i + 1));
                }
            }
            return None;
        }
        acc = acc * 10 + d;
        i += 1;
    }
    assert(forall|m: int| 0 <= m < body.len() ==> #[trigger] body[m] == text@[start + m]);
    assert(crate::terminal::all_digits(body));
    Some(acc)
}

/// The token count an agent's metadata reports, if its `tokens` entry is a
/// number (commas allowed).
pub open spec fn metadata_tokens(m: Seq<(Seq<char>, Seq<char>)>) -> Option<u64> {
    match meta_get(m, "tokens"@) {
        Some(t) => parsed_u64(without_commas(t)),
        None => None,
    }
}

fn strip_commas(v: &Vec<char>) -> (r: Vec<char>)
    ensures
        r@ == without_commas(v@),
{
    let mut r: Vec<char> = Vec::new();
    let mut i: usize = 0;
    while i < v.len()
        invariant
            i <= v@.len(),
            r@ == without_commas(v@.subrange(0, i as int)),
        decreases v@.len() - i,
    {
        let ghost next = v@.subrange(0, i + 1);
        assert(next.drop_last() =~= v@.subrange(0, i as int));
        if v[i] != ',' {
            r.push(v[i]);
        }
        i += 1;
    }
    assert(v@.subrange(0, v@.len() as int) =~= v@);
    r
}

/// The token count reported in metadata (see `metadata_tokens`).
pub fn tokens_from_metadata(m: &Vec<(String, String)>) -> (r: Option<u64>)
    ensures
        r == metadata_tokens(meta_view(m@)),
{
    match metadata_value(m, "tokens") {
        Some(t) => parse_u64(&strip_commas(&chars_of(t.as_str()))),
        None => None,
    }
}


// ---------------------------------------------------------------------------
// The registry
// ---------------------------------------------------------------------------

/// The agents (ordered by id) and the latest events (newest first).
pub struct AgentRegistry {
    pub agents: Vec<Agent>,
    pub events: VecDeque<Event>,
    pub total_events_received: u64,
}

/// Everything an agent announced, apart from its counters and last sighting.
pub open spec fn same_profile(a: Agent, b: Agent) -> bool {
    &&& a.id == b.id
    &&& a.instance_name == b.instance_name
    &&& a.role == b.role
    &&& a.project == b.project
    &&& a.branch == b.branch
    &&& a.status == b.status
    &&& a.capabilities == b.capabilities
    &&& a.port == b.port
    &&& a.addresses == b.addresses
    &&& a.metadata == b.metadata
}

/// `a` and `b` differ at most in their activity counters.
pub open spec fn same_but_activity(a: Agent, b: Agent) -> bool {
    same_profile(a, b) && a.last_seen_ms == b.last_seen_ms && a.tokens == b.tokens
}

/// The events after `e` arrives: it goes in front, the oldest goes once
/// `EVENT_LIMIT` are kept.
pub open spec fn events_after(events: Seq<Event>, e: Event) -> Seq<Event> {
    if events.len() >= EVENT_LIMIT {
        seq![e] + events.drop_last()
    } else {
        seq![e] + events
    }
}

/// A fresh activity window: `ACTIVITY_WINDOW` zeros.
pub open spec fn zero_activity() -> Seq<u64> {
    Seq::new(ACTIVITY_WINDOW as nat, |i: int| 0u64)
}

/// The token count an announcement leaves: the metadata's count, else the
/// announced one; a zero does not replace a known non-zero count.
pub open spec fn updated_tokens(input: Agent, existing: Option<Agent>) -> u64 {
    let t = match metadata_tokens(meta_view(input.metadata@)) {
        Some(v) => v,
        None => input.tokens,
    };
    match existing {
        Some(e) => if t == 0 && e.tokens > 0 {
            e.tokens
        } else {
            t
        },
        None => t,
    }
}

/// The activity an announcement leaves: that of the known agent, else the
/// announced one, or a zero window when none was announced.
pub open spec fn updated_activity(input: Agent, existing: Option<Agent>) -> Seq<u64> {
    match existing {
        Some(e) => e.activity@,
        None => if input.activity@.len() == 0 {
            zero_activity()
        } else {
            input.activity@
        },
    }
}

/// Facts about where an id goes among sorted ids.
pub proof fn lemma_insert_position(ids: Seq<Seq<char>>, id: Seq<char>)
    requires
        ids_sorted(ids),
    ensures
        0 <= insert_position(ids, id) <= ids.len(),
        forall|i: int| 0 <= i < insert_position(ids, id) ==> text_lt(#[trigger] ids[i], id),
        forall|j: int|
            insert_position(ids, id) <= j < ids.len() ==> !text_lt(#[trigger] ids[j], id),
    decreases ids.len(),
{
    if ids.len() > 0 {
        let rest = ids.drop_first();
        assert(ids_sorted(rest)) by {
            assert forall|i: int, j: int| 0 <= i < j < rest.len() implies text_lt(rest[i], rest[j]) by {
                assert(rest[i] == ids[i + 1] && rest[j] == ids[j + 1]);
            }
        }
        lemma_insert_position(rest, id);
        if text_lt(ids[0], id) {
            assert forall|i: int| 0 <= i < insert_position(ids, id) implies text_lt(
                #[trigger] ids[i],
                id,
            ) by {
                if i > 0 {
                    assert(ids[i] == rest[i - 1]);
                }
            }
            assert forall|j: int| insert_position(ids, id) <= j < ids.len() implies !text_lt(
                #[trigger] ids[j],
                id,
            ) by {
                assert(ids[j] == rest[j - 1]);
            }
        } else {
            assert forall|j: int| 0 <= j < ids.len() implies !text_lt(#[trigger] ids[j], id) by {
                if j > 0 && text_lt(ids[j], id) {
                    lemma_text_lt_trans(ids[0], ids[j], id);
                }
            }
        }
    }
}


/// What `add_event` leaves: the event counted, kept in front, and one more
/// activity for its agent.
pub open spec fn event_added(o: AgentRegistry, n: AgentRegistry, event: Event) -> bool {
    &&& n.wf()
    &&& n.total_events_received == o.total_events_received + 1
    &&& n.events@ == events_after(o.events@, event)
    &&& n.agents@.len() == o.agents@.len()
    &&& forall|i: int|
        #![trigger n.agents@[i]]
        0 <= i < o.agents@.len() ==> {
            let oa = o.agents@[i];
            let na = n.agents@[i];
            if oa.id@ == event.agent_id@ && oa.activity@.len() > 0 {
                same_but_activity(na, oa) && na.activity@ == oa.activity@.update(
                    oa.activity@.len() - 1,
                    (oa.activity@.last() + 1) as u64,
                )
            } else {
                na == oa
            }
        }
}

/// What `update_agent` leaves: the announcement in place of the known agent
/// with that id, or inserted where its id belongs (see `updated_tokens` and
/// `updated_activity`); events untouched.
pub open spec fn agent_updated(o: AgentRegistry, n: AgentRegistry, agent: Agent, now_ms: i64) -> bool {
    let ids = agent_ids(o.agents@);
    let p = insert_position(ids, agent.id@);
    let found = p < ids.len() && ids[p] == agent.id@;
    let existing = if found {
        Some(o.agents@[p])
    } else {
        None
    };
    let na = n.agents@[p];
    &&& n.wf()
    &&& n.events@ == o.events@
    &&& n.total_events_received == o.total_events_received
    &&& n.agents@.len() == o.agents@.len() + if found {
        0int
    } else {
        1
    }
    &&& forall|i: int| 0 <= i < p ==> n.agents@[i] == o.agents@[i]
    &&& forall|i: int|
        p < i < n.agents@.len() ==> n.agents@[i] == o.agents@[if found {
            i
        } else {
            i - 1
        }]
    &&& same_profile(na, agent)
    &&& na.last_seen_ms == now_ms
    &&& na.tokens == updated_tokens(agent, existing)
    &&& na.activity@ == updated_activity(agent, existing)
}

/// What `tick_activity` leaves: every agent with a new zero counter.
pub open spec fn activity_ticked(o: AgentRegistry, n: AgentRegistry) -> bool {
    &&& n.wf()
    &&& n.events@ == o.events@
    &&& n.total_events_received == o.total_events_received
    &&& n.agents@.len() == o.agents@.len()
    &&& forall|i: int|
        #![trigger n.agents@[i]]
        0 <= i < o.agents@.len() ==> same_but_activity(n.agents@[i], o.agents@[i])
            && n.agents@[i].activity@ == crate::text::push_capped(
            o.agents@[i].activity@,
            0u64,
            ACTIVITY_WINDOW as nat,
        )
}

impl AgentRegistry {
    /// Agents are ordered by id (so ids are unique) and at most
    /// `EVENT_LIMIT` events are kept.
    pub open spec fn wf(&self) -> bool {
        &&& ids_sorted(agent_ids(self.agents@))
        &&& self.events@.len() <= EVENT_LIMIT
        &&& forall|i: int| 0 <= i < self.agents@.len() ==> (#[trigger] self.agents@[i]).wf()
    }

    /// An empty registry.
    pub fn new() -> (r: Self)
        ensures
            r.wf(),
            r.agents@.len() == 0,
            r.events@.len() == 0,
            r.total_events_received == 0,
    {
        AgentRegistry { agents: Vec::new(), events: VecDeque::new(), total_events_received: 0 }
    }

    /// Where the agent with `id` is, if known.
    pub fn find_agent(&self, id: &str) -> (r: Option<usize>)
        ensures
            r matches Some(i) ==> i < self.agents@.len() && self.agents@[i as int].id@ == id@,
            r is None ==> forall|i: int| 0 <= i < self.agents@.len() ==> self.agents@[i].id@ != id@,
    {
        let mut i: usize = 0;
        while i < self.agents.len()
            invariant
                i <= self.agents@.len(),
                forall|k: int| 0 <= k < i ==> self.agents@[k].id@ != id@,
            decreases self.agents@.len() - i,
        {
            if chars_equal(&chars_of(self.agents[i].id.as_str()), &chars_of(id)) {
                return Some(i);
            }
            i += 1;
        }
        None
    }

    /// Counting an event from `agent_id` stays within `u64`: the total, and
    /// the agent's current activity counter.
    pub open spec fn can_count_event(&self, agent_id: Seq<char>) -> bool {
        &&& self.total_events_received < u64::MAX
        &&& forall|i: int|
            #![trigger self.agents@[i]]
            0 <= i < self.agents@.len() && self.agents@[i].id@ == agent_id
                && self.agents@[i].activity@.len() > 0 ==> self.agents@[i].activity@.last()
                < u64::MAX
    }

    /// Whether an event from `agent_id` can be counted (see `can_count_event`).
    pub fn event_countable(&self, agent_id: &str) -> (b: bool)
        requires
            self.wf(),
        ensures
            b == self.can_count_event(agent_id@),
    {
        if self.total_events_received == u64::MAX {
            return false;
        }
        match self.find_agent(agent_id) {
            None => true,
            Some(i) => {
                proof {
                    lemma_text_order(agent_id@, agent_id@);
                    assert forall|k: int|
                        0 <= k < self.agents@.len() && self.agents@[k].id@ == agent_id@ implies k
                        == i by {
                        if k < i {
                            assert(text_lt(agent_ids(self.agents@)[k], agent_ids(self.agents@)[i as int]));
                        } else if k > i {
                            assert(text_lt(agent_ids(self.agents@)[i as int], agent_ids(self.agents@)[k]));
                        }
                    }
                }
                let act = &self.agents[i].activity;
                let n = act.len();
                n == 0 || act[n - 1] < u64::MAX
            },
        }
    }

    /// Records an event: counts it, adds one to its agent's current activity
    /// counter, and keeps it in front of the latest events.
    pub fn add_event(&mut self, event: Event)
        requires
            old(self).wf(),
            old(self).can_count_event(event.agent_id@),
        ensures
            event_added(*old(self), *final(self), event),
    {
        self.total_events_received = self.total_events_received + 1;
        let ghost old_agents = self.agents@;
        let ghost ids = agent_ids(old_agents);
        let found = self.find_agent(event.agent_id.as_str());
        if let Some(i) = found {
            proof {
                lemma_text_order(event.agent_id@, event.agent_id@);
                assert forall|k: int| 0 <= k < old_agents.len() && old_agents[k].id@
                    == event.agent_id@ implies k == i by {
                    if k < i {
                        assert(text_lt(ids[k], ids[i as int]));
                    } else if k > i {
                        assert(text_lt(ids[i as int], ids[k]));
                    }
                }
            }
            let n = self.agents[i].activity.len();
            if n > 0 {
                let agent = &mut self.agents[i];
                let ghost before = agent.activity@;
                let last = agent.activity.pop_back();
                if let Some(v) = last {
                    agent.activity.push_back(v + 1);
                    assert(agent.activity@ =~= before.update(before.len() - 1, (v + 1) as u64));
                }
            }
            assert(agent_ids(self.agents@) =~= ids);
        }
        let ghost before_events = self.events@;
        if self.events.len() >= EVENT_LIMIT {
            self.events.pop_back();
        }
        self.events.push_front(event);
        assert(self.events@ =~= events_after(before_events, event));
    }

    /// Records an agent's announcement at `now_ms` (see `updated_tokens` and
    /// `updated_activity`): a known agent is replaced in place, a new one goes
    /// where its id belongs.
    pub fn update_agent(&mut self, agent: Agent, now_ms: i64)
        requires
            old(self).wf(),
            agent.wf(),
        ensures
            agent_updated(*old(self), *final(self), agent, now_ms),
    {
        let ghost ids = agent_ids(self.agents@);
        let ghost input = agent;
        proof {
            lemma_insert_position(ids, agent.id@);
        }
        let mut agent = agent;
        if let Some(t) = tokens_from_metadata(&agent.metadata) {
            agent.tokens = t;
        }
        let mut i: usize = 0;
        while i < self.agents.len() && text_less(self.agents[i].id.as_str(), agent.id.as_str())
            invariant
                i <= self.agents@.len(),
                ids == agent_ids(self.agents@),
                agent.id == input.id,
                ids_sorted(ids),
                i <= insert_position(ids, input.id@),
                forall|j: int|
                    insert_position(ids, input.id@) <= j < ids.len() ==> !text_lt(
                        #[trigger] ids[j],
                        input.id@,
                    ),
            decreases self.agents@.len() - i,
        {
            assert(ids[i as int] == self.agents@[i as int].id@);
            i += 1;
        }
        let p = i;
        assert(p == insert_position(ids, input.id@)) by {
            if p < ids.len() {
                assert(ids[p as int] == self.agents@[p as int].id@);
            }
        }
        let found = p < self.agents.len() && chars_equal(
            &chars_of(self.agents[p].id.as_str()),
            &chars_of(agent.id.as_str()),
        );
        if found {
            assert(ids[p as int] == self.agents@[p as int].id@);
            let existing = &self.agents[p];
            agent.activity = copy_counters(&existing.activity);
            if agent.tokens == 0 && existing.tokens > 0 {
                agent.tokens = existing.tokens;
            }
        } else if agent.activity.len() == 0 {
            agent.activity = zero_window();
        }
        agent.last_seen_ms = now_ms;
        let ghost old_agents = self.agents@;
        if found {
            self.agents.set(p, agent);
            assert(agent_ids(self.agents@) =~= ids);
        } else {
            self.agents.insert(p, agent);
            proof {
                let nids = agent_ids(self.agents@);
                assert(nids =~= ids.insert(p as int, input.id@));
                assert forall|a: int, b: int| 0 <= a < b < nids.len() implies text_lt(
                    nids[a],
                    nids[b],
                ) by {
                    if b < p {
                        assert(nids[a] == ids[a] && nids[b] == ids[b]);
                    } else if b == p {
                        assert(nids[a] == ids[a]);
                        assert(text_lt(ids[a], input.id@));
                    } else if a == p {
                        assert(nids[b] == ids[b - 1]);
                        assert(!text_lt(ids[p as int], input.id@));
                        lemma_text_order(ids[p as int], input.id@);
                        if b - 1 > p {
                            assert(text_lt(ids[p as int], ids[b - 1]));
                            lemma_text_lt_trans(input.id@, ids[p as int], ids[b - 1]);
                        }
                    } else if a < p {
                        assert(nids[a] == ids[a] && nids[b] == ids[b - 1]);
                        assert(text_lt(ids[a], input.id@));
                        assert(!text_lt(ids[b - 1], input.id@));
                        lemma_text_order(ids[b - 1], input.id@);
                        lemma_text_lt_trans(ids[a], input.id@, ids[b - 1]);
                    } else {
                        assert(nids[a] == ids[a - 1] && nids[b] == ids[b - 1]);
                    }
                }
            }
        }
    }

    /// Starts a new second of activity for every agent: a zero counter is
    /// added, the oldest going once `ACTIVITY_WINDOW` are kept.
    pub fn tick_activity(&mut self)
        requires
            old(self).wf(),
        ensures
            activity_ticked(*old(self), *final(self)),
    {
        let ghost old_agents = self.agents@;
        let mut i: usize = 0;
        while i < self.agents.len()
            invariant
                i <= self.agents@.len(),
                self.agents@.len() == old_agents.len(),
                self.events@ == old(self).events@,
                self.total_events_received == old(self).total_events_received,
                ids_sorted(agent_ids(old_agents)),
                self.events@.len() <= EVENT_LIMIT,
                forall|k: int|
                    #![trigger self.agents@[k]]
                    0 <= k < i ==> same_but_activity(self.agents@[k], old_agents[k])
                        && self.agents@[k].activity@ == crate::text::push_capped(
                        old_agents[k].activity@,
                        0u64,
                        ACTIVITY_WINDOW as nat,
                    ),
                forall|k: int| #![trigger self.agents@[k]] i <= k < self.agents@.len() ==> self.agents@[k] == old_agents[k],
            decreases self.agents@.len() - i,
        {
            let agent = &mut self.agents[i];
            let ghost before = agent.activity@;
            if agent.activity.len() >= ACTIVITY_WINDOW {
                agent.activity.pop_front();
            }
            agent.activity.push_back(0);
            assert(agent.activity@ =~= crate::text::push_capped(before, 0u64, ACTIVITY_WINDOW as nat));
            i += 1;
        }
        assert(agent_ids(self.agents@) =~= agent_ids(old_agents));
    }

    /// Counts of the agents by status (see `status_summary`).
    pub fn get_status_summary(&self) -> (s: AgentStatusSummary)
        ensures
            s == status_summary(self.agents@),
    {
        let mut busy: usize = 0;
        let mut offline: usize = 0;
        let mut i: usize = 0;
        let busy_key = chars_of("busy");
        let offline_key = chars_of("offline");
        while i < self.agents.len()
            invariant
                i <= self.agents@.len(),
                busy_key@ == "busy"@,
                offline_key@ == "offline"@,
                busy == count_status(self.agents@.subrange(0, i as int), "busy"@),
                offline == count_status(self.agents@.subrange(0, i as int), "offline"@),
                busy <= i,
                offline <= i,
            decreases self.agents@.len() - i,
        {
            let ghost next = self.agents@.subrange(0, i + 1);
            assert(next.drop_last() =~= self.agents@.subrange(0, i as int));
            let key = chars_ascii_lower(&chars_of(self.agents[i].status.as_str()));
            proof {
                reveal_strlit("busy");
                reveal_strlit("offline");
                assert("busy"@.len() == 4 && "offline"@.len() == 7);
            }
            if chars_equal(&key, &busy_key) {
                busy += 1;
            } else if chars_equal(&key, &offline_key) {
                offline += 1;
            }
            i += 1;
        }
        assert(self.agents@.subrange(0, self.agents@.len() as int) =~= self.agents@);
        let total = self.agents.len();
        AgentStatusSummary { total, online: total - offline, busy, offline }
    }

    /// Counts of the kept events by level (see `level_summary`).
    pub fn get_event_summary(&self) -> (s: EventLevelSummary)
        ensures
            s == level_summary(self.events@),
    {
        let mut warn: usize = 0;
        let mut error: usize = 0;
        let mut success: usize = 0;
        let mut i: usize = 0;
        let warn_key = chars_of("warn");
        let error_key = chars_of("error");
        let success_key = chars_of("success");
        proof {
            reveal_strlit("warn");
            reveal_strlit("error");
            reveal_strlit("success");
        }
        while i < self.events.len()
            invariant
                i <= self.events@.len(),
                warn_key@ == "warn"@,
                error_key@ == "error"@,
                success_key@ == "success"@,
                warn == count_level(self.events@.subrange(0, i as int), "warn"@),
                error == count_level(self.events@.subrange(0, i as int), "error"@),
                success == count_level(self.events@.subrange(0, i as int), "success"@),
                warn + error + success <= i,
            decreases self.events@.len() - i,
        {
            let ghost next = self.events@.subrange(0, i + 1);
            assert(next.drop_last() =~= self.events@.subrange(0, i as int));
            let key = chars_ascii_lower(&chars_of(self.events[i].level.as_str()));
            proof {
                reveal_strlit("warn");
                reveal_strlit("error");
                reveal_strlit("success");
                assert("warn"@.len() == 4 && "error"@.len() == 5 && "success"@.len() == 7);
            }
            if chars_equal(&key, &warn_key) {
                warn += 1;
            } else if chars_equal(&key, &error_key) {
                error += 1;
            } else if chars_equal(&key, &success_key) {
                success += 1;
            }
            i += 1;
        }
        assert(self.events@.subrange(0, self.events@.len() as int) =~= self.events@);
        let total = self.events.len();
        EventLevelSummary { info: total - warn - error - success, warn, error, success }
    }
}

/// A copy of activity counters.
fn copy_counters(v: &VecDeque<u64>) -> (r: VecDeque<u64>)
    ensures
        r@ == v@,
{
    let mut r: VecDeque<u64> = VecDeque::new();
    let mut i: usize = 0;
    while i < v.len()
        invariant
            i <= v@.len(),
            r@ == v@.subrange(0, i as int),
        decreases v@.len() - i,
    {
        r.push_back(v[i]);
        assert(r@ =~= v@.subrange(0, i + 1));
        i += 1;
    }
    assert(v@.subrange(0, v@.len() as int) =~= v@);
    r
}

/// A fresh activity window.
fn zero_window() -> (r: VecDeque<u64>)
    ensures
        r@ == zero_activity(),
{
    let mut r: VecDeque<u64> = VecDeque::new();
    let mut i: usize = 0;
    while i < ACTIVITY_WINDOW
        invariant
            i <= ACTIVITY_WINDOW,
            r@ == Seq::new(i as nat, |k: int| 0u64),
        decreases ACTIVITY_WINDOW - i,
    {
        r.push_back(0);
        i += 1;
        assert(r@ =~= Seq::new(i as nat, |k: int| 0u64));
    }
    r
}

/// How many agents have `key` as their lower-cased status.
pub open spec fn count_status(agents: Seq<Agent>, key: Seq<char>) -> nat
    decreases agents.len(),
{
    if agents.len() == 0 {
        0
    } else {
        count_status(agents.drop_last(), key) + if ascii_lower_seq(agents.last().status@) == key {
            1nat
        } else {
            0nat
        }
    }
}

/// Counts of agents: busy ones (which are online), offline ones, and all
/// others online.
pub open spec fn status_summary(agents: Seq<Agent>) -> AgentStatusSummary {
    let offline = count_status(agents, "offline"@);
    AgentStatusSummary {
        total: agents.len() as usize,
        online: (agents.len() - offline) as usize,
        busy: count_status(agents, "busy"@) as usize,
        offline: offline as usize,
    }
}

/// How many events have `key` as their lower-cased level.
pub open spec fn count_level(events: Seq<Event>, key: Seq<char>) -> nat
    decreases events.len(),
{
    if events.len() == 0 {
        0
    } else {
        count_level(events.drop_last(), key) + if ascii_lower_seq(events.last().level@) == key {
            1nat
        } else {
            0nat
        }
    }
}

/// Counts of events by level: `warn`, `error`, `success`, and `info` for all others.
pub open spec fn level_summary(events: Seq<Event>) -> EventLevelSummary {
    let warn = count_level(events, "warn"@);
    let error = count_level(events, "error"@);
    let success = count_level(events, "success"@);
    EventLevelSummary {
        info: (events.len() - warn - error - success) as usize,
        warn: warn as usize,
        error: error as usize,
        success: success as usize,
    }
}


// ---------------------------------------------------------------------------
// Copies
// ---------------------------------------------------------------------------

/// `a` and `b` hold the same values.
pub open spec fn same_agent(a: Agent, b: Agent) -> bool {
    &&& a.id@ == b.id@
    &&& a.instance_name@ == b.instance_name@
    &&& a.role@ == b.role@
    &&& a.project@ == b.project@
    &&& a.branch@ == b.branch@
    &&& a.status@ == b.status@
    &&& views(a.capabilities@) == views(b.capabilities@)
    &&& a.port == b.port
    &&& views(a.addresses@) == views(b.addresses@)
    &&& meta_view(a.metadata@) == meta_view(b.metadata@)
    &&& a.last_seen_ms == b.last_seen_ms
    &&& a.tokens == b.tokens
    &&& a.activity@ == b.activity@
}

/// `a` and `b` hold the same values.
pub open spec fn same_event(a: Event, b: Event) -> bool {
    &&& a.timestamp_ms == b.timestamp_ms
    &&& a.agent_id@ == b.agent_id@
    &&& a.kind@ == b.kind@
    &&& a.component@ == b.component@
    &&& a.level@ == b.level@
    &&& a.payload@ == b.payload@
}

/// A copy of a list of strings.
pub fn copy_strings(v: &Vec<String>) -> (r: Vec<String>)
    ensures
        views(r@) == views(v@),
{
    let mut r: Vec<String> = Vec::new();
    let mut i: usize = 0;
    while i < v.len()
        invariant
            i <= v@.len(),
            views(r@) == views(v@.subrange(0, i as int)),
        decreases v@.len() - i,
    {
        let c = v[i].clone();
        let ghost prev = r@;
        r.push(c);
        assert(views(r@) =~= views(prev).push(v@[i as int]@));
        assert(views(v@.subrange(0, i + 1)) =~= views(v@.subrange(0, i as int)).push(v@[i as int]@));
        i += 1;
    }
    assert(v@.subrange(0, v@.len() as int) =~= v@);
    r
}

/// A copy of metadata.
pub fn copy_metadata(v: &Vec<(String, String)>) -> (r: Vec<(String, String)>)
    ensures
        meta_view(r@) == meta_view(v@),
{
    let mut r: Vec<(String, String)> = Vec::new();
    let mut i: usize = 0;
    while i < v.len()
        invariant
            i <= v@.len(),
            meta_view(r@) == meta_view(v@.subrange(0, i as int)),
        decreases v@.len() - i,
    {
        let k = v[i].0.clone();
        let x = v[i].1.clone();
        let ghost prev = r@;
        r.push((k, x));
        assert(meta_view(r@) =~= meta_view(prev).push((v@[i as int].0@, v@[i as int].1@)));
        assert(meta_view(v@.subrange(0, i + 1)) =~= meta_view(v@.subrange(0, i as int)).push(
            (v@[i as int].0@, v@[i as int].1@),
        ));
        i += 1;
    }
    assert(v@.subrange(0, v@.len() as int) =~= v@);
    r
}

impl Clone for Agent {
    fn clone(&self) -> (r: Self)
        ensures
            same_agent(r, *self),
    {
        Agent {
            id: self.id.clone(),
            instance_name: self.instance_name.clone(),
            role: self.role.clone(),
            project: self.project.clone(),
            branch: self.branch.clone(),
            status: self.status.clone(),
            capabilities: copy_strings(&self.capabilities),
            port: self.port,
            addresses: copy_strings(&self.addresses),
            metadata: copy_metadata(&self.metadata),
            last_seen_ms: self.last_seen_ms,
            tokens: self.tokens,
            activity: copy_counters(&self.activity),
        }
    }
}

impl Clone for Event {
    fn clone(&self) -> (r: Self)
        ensures
            same_event(r, *self),
    {
        Event {
            timestamp_ms: self.timestamp_ms,
            agent_id: self.agent_id.clone(),
            kind: self.kind.clone(),
            component: self.component.clone(),
            level: self.level.clone(),
            payload: self.payload.clone(),
        }
    }
}

} // verus!
