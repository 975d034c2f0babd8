//! What the mesh listener makes of the records of `camp watch`, and the
//! data set of the demo mode.
//!
//! Reading the watch process, parsing its JSON lines and the demo timer run
//! at the edge of the program; times are milliseconds since the Unix epoch.
use vstd::prelude::*;
use std::collections::VecDeque;
use crate::registry::{meta_get, meta_view, metadata_value, same_agent, Agent, Event};
use crate::text::{
    ascii_lower_seq, chars_ascii_lower, chars_equal, chars_of, decimal, decimal_string, owned, push_str,
    str_views, to_uppercase, trim, trimmed_chars, uppercase_of, views,
};

verus! {

broadcast use vstd::string::group_string_axioms;

/// How the `camp` watch process is started.
#[derive(Debug, Clone, PartialEq, Eq)]
pub struct CampWatchCommandConfig {
    pub args: &'static [&'static str],
    pub silence_stderr: bool,
}

/// A record of the watch stream: an agent joined, was updated or left.
pub struct EventRecord {
    pub kind: String,
    pub origin: String,
    pub reason: Option<String>,
    pub previous: Option<Agent>,
    pub current: Option<Agent>,
}

/// The first record of the watch stream: every agent of the mesh.
pub struct SnapshotRecord {
    pub kind: String,
    pub agents: Vec<Agent>,
}

/// The values that switch the demo mode on, after trimming and ASCII lower-casing.
pub open spec fn truthy_words() -> Seq<Seq<char>> {
    seq!["1"@, "true"@, "yes"@, "on"@, "demo"@]
}

/// Whether a setting's value switches the demo mode on.
pub open spec fn demo_mode_value(value: Seq<char>) -> bool {
    truthy_words().contains(ascii_lower_seq(trim(value)))
}

/// Whether `value` switches the demo mode on: one of `1`, `true`, `yes`,
/// `on`, `demo`, ignoring surrounding whitespace and ASCII case.
pub fn demo_mode_from_value(value: &str) -> (b: bool)
    ensures
        b == demo_mode_value(value@),
{
    let t = chars_ascii_lower(&trimmed_chars(value));
    let ghost words = truthy_words();
    let r = chars_equal(&t, &chars_of("1")) || chars_equal(&t, &chars_of("true")) || chars_equal(
        &t,
        &chars_of("yes"),
    ) || chars_equal(&t, &chars_of("on")) || chars_equal(&t, &chars_of("demo"));
    proof {
        if r {
            if t@ == words[0] {
            } else if t@ == words[1] {
            } else if t@ == words[2] {
            } else if t@ == words[3] {
            } else {
                assert(t@ == words[4]);
            }
        } else {
            assert forall|i: int| 0 <= i < words.len() implies words[i] != t@ by {}
        }
    }
    r
}

/// The watch process runs `camp watch` (its plain output, not JSON) and its
/// error output is discarded.
pub fn camp_watch_command_config() -> (c: CampWatchCommandConfig)
    ensures
        str_views(c.args@) == seq!["watch"@],
        c.silence_stderr,
{
    let args: &'static [&'static str] = &["watch"];
    CampWatchCommandConfig { args, silence_stderr: true }
}

/// The value of metadata `key`, or `default` where the key is missing.
pub open spec fn meta_or(m: Seq<(Seq<char>, Seq<char>)>, key: Seq<char>, default: Seq<char>) -> Seq<char> {
    match meta_get(m, key) {
        Some(v) => v,
        None => default,
    }
}

/// The value of metadata `key`, or `default`.
pub(crate) fn metadata_or(m: &Vec<(String, String)>, key: &str, default: String) -> (r: String)
    ensures
        r@ == meta_or(meta_view(m@), key@, default@),
{
    match metadata_value(m, key) {
        Some(v) => v,
        None => default,
    }
}

/// The event shown for an agent that joined or was updated: its component
/// (`rai_component`, else `mesh`), level (`rai_level`, else `info`) and
/// message (`log`, else "Agent <kind> via <origin>"); the kind upper-cased.
pub fn build_event_from_agent_record(record: &EventRecord, agent: &Agent, now_ms: i64) -> (e: Event)
    ensures
        e.timestamp_ms == now_ms,
        e.agent_id@ == agent.id@,
        e.kind@ == uppercase_of(record.kind@),
        e.component@ == meta_or(meta_view(agent.metadata@), "rai_component"@, "mesh"@),
        e.level@ == meta_or(meta_view(agent.metadata@), "rai_level"@, "info"@),
        e.payload@ == meta_or(
            meta_view(agent.metadata@),
            "log"@,
            "Agent "@ + record.kind@ + " via "@ + record.origin@,
        ),
{
    let component = metadata_or(&agent.metadata, "rai_component", owned("mesh"));
    let level = metadata_or(&agent.metadata, "rai_level", owned("info"));
    let mut fallback = owned("Agent ");
    push_str(&mut fallback, record.kind.as_str());
    push_str(&mut fallback, " via ");
    push_str(&mut fallback, record.origin.as_str());
    let payload = metadata_or(&agent.metadata, "log", fallback);
    Event {
        timestamp_ms: now_ms,
        agent_id: agent.id.clone(),
        kind: to_uppercase(record.kind.as_str()),
        component,
        level,
        payload,
    }
}

/// The reason given for leaving, or `unknown`.
pub open spec fn leave_reason(record: EventRecord) -> Seq<char> {
    match record.reason {
        Some(r) => r@,
        None => "unknown"@,
    }
}

/// The event shown for an agent that left the mesh.
pub fn build_left_event(record: &EventRecord, agent_id: String, now_ms: i64) -> (e: Event)
    ensures
        e.timestamp_ms == now_ms,
        e.agent_id@ == agent_id@,
        e.kind@ == "LEFT"@,
        e.component@ == "mesh"@,
        e.level@ == "info"@,
        e.payload@ == "Agent left mesh (reason: "@ + leave_reason(*record) + ")"@,
{
    let mut payload = owned("Agent left mesh (reason: ");
    match &record.reason {
        Some(r) => push_str(&mut payload, r.as_str()),
        None => push_str(&mut payload, "unknown"),
    }
    push_str(&mut payload, ")");
    Event {
        timestamp_ms: now_ms,
        agent_id,
        kind: owned("LEFT"),
        component: owned("mesh"),
        level: owned("info"),
        payload,
    }
}

/// Whether a record announces an agent that joined or was updated.
pub open spec fn is_join_or_update(kind: Seq<char>) -> bool {
    kind == "joined"@ || kind == "updated"@
}

/// What a watch record leads to: for an agent that joined or was updated,
/// its event and the agent as announced; for one that left, its event and
/// the agent marked `Offline`; nothing for other records or records that
/// carry no agent.
pub fn watch_record_effect(record: &EventRecord, now_ms: i64) -> (r: Option<(Event, Agent)>)
    ensures
        match r {
            Some((e, a)) => {
                &&& record.current is Some
                &&& is_join_or_update(record.kind@) ==> {
                    let e2 = e;
                    &&& e.timestamp_ms == now_ms
                    &&& same_agent(a, record.current->0)
                    &&& e2.agent_id@ == record.current->0.id@
                    &&& e2.kind@ == uppercase_of(record.kind@)
                    &&& e2.component@ == meta_or(meta_view(record.current->0.metadata@), "rai_component"@, "mesh"@)
                    &&& e2.level@ == meta_or(meta_view(record.current->0.metadata@), "rai_level"@, "info"@)
                    &&& e2.payload@ == meta_or(
                        meta_view(record.current->0.metadata@),
                        "log"@,
                        "Agent "@ + record.kind@ + " via "@ + record.origin@,
                    )
                }
                &&& !is_join_or_update(record.kind@) ==> {
                    &&& record.kind@ == "left"@
                    &&& a.status@ == "Offline"@
                    &&& same_agent(Agent { status: record.current->0.status, ..a }, record.current->0)
                    &&& e.timestamp_ms == now_ms
                    &&& e.agent_id@ == record.current->0.id@
                    &&& e.kind@ == "LEFT"@
                    &&& e.component@ == "mesh"@
                    &&& e.level@ == "info"@
                    &&& e.payload@ == "Agent left mesh (reason: "@ + leave_reason(*record) + ")"@
                }
            },
            None => record.current is None || !(is_join_or_update(record.kind@) || record.kind@ == "left"@),
        },
{
    let kind = chars_of(record.kind.as_str());
    let joined_or_updated = chars_equal(&kind, &chars_of("joined")) || chars_equal(&kind, &chars_of("updated"));
    if joined_or_updated {
        match &record.current {
            Some(agent) => {
                let event = build_event_from_agent_record(record, agent, now_ms);
                Some((event, agent.clone()))
            },
            None => None,
        }
    } else if chars_equal(&kind, &chars_of("left")) {
        match &record.current {
            Some(agent) => {
                let mut offline = agent.clone();
                offline.status = owned("Offline");
                let event = build_left_event(record, offline.id.clone(), now_ms);
                Some((event, offline))
            },
            None => None,
        }
    } else {
        None
    }
}

// ---------------------------------------------------------------------------
// Demo data set
// ---------------------------------------------------------------------------

/// Number of agents of the demo mesh.
pub const DEMO_AGENT_COUNT: usize = 6;

/// Number of scripted demo events per step.
pub const DEMO_EVENT_COUNT: usize = 5;

/// Number of activity counters of a demo agent.
pub const DEMO_ACTIVITY_LEN: usize = 50;

/// Demo agent `index`: id, status, role, project and branch.
pub open spec fn demo_row(index: int) -> (Seq<char>, Seq<char>, Seq<char>, Seq<char>, Seq<char>) {
    if index == 0 {
        ("agentic-coding"@, "busy"@, "orchestrator"@, "workspace"@, "feature/session-grid"@)
    } else if index == 1 {
        ("docs-site"@, "idle"@, "worker"@, "workspace"@, "feat/reference-pass"@)
    } else if index == 2 {
        ("api-server"@, "busy"@, "planner"@, "workspace"@, "plan/runtime-cleanup"@)
    } else if index == 3 {
        ("mobile-app"@, "offline"@, "auditor"@, "workspace"@, "main"@)
    } else if index == 4 {
        ("infra-terraform"@, "busy"@, "inspector"@, "workspace"@, "fix/state-drift"@)
    } else {
        ("shared-lib"@, "idle"@, "builder"@, "workspace"@, "feat/desktop-preview"@)
    }
}

fn demo_row_of(index: usize) -> (r: (&'static str, &'static str, &'static str, &'static str, &'static str))
    ensures
        (r.0@, r.1@, r.2@, r.3@, r.4@) == demo_row(index as int),
{
    match index {
        0 => ("agentic-coding", "busy", "orchestrator", "workspace", "feature/session-grid"),
        1 => ("docs-site", "idle", "worker", "workspace", "feat/reference-pass"),
        2 => ("api-server", "busy", "planner", "workspace", "plan/runtime-cleanup"),
        3 => ("mobile-app", "offline", "auditor", "workspace", "main"),
        4 => ("infra-terraform", "busy", "inspector", "workspace", "fix/state-drift"),
        _ => ("shared-lib", "idle", "builder", "workspace", "feat/desktop-preview"),
    }
}

/// The model a demo agent reports.
pub open spec fn demo_model(index: int) -> Seq<char> {
    if index == 0 {
        "gpt-5.4"@
    } else if index == 1 {
        "gpt-5.4-mini"@
    } else if index == 2 {
        "gpt-5.3-codex-spark"@
    } else {
        "gpt-5.4-mini"@
    }
}

fn demo_model_of(index: usize) -> (r: &'static str)
    ensures
        r@ == demo_model(index as int),
{
    match index {
        0 => "gpt-5.4",
        1 => "gpt-5.4-mini",
        2 => "gpt-5.3-codex-spark",
        _ => "gpt-5.4-mini",
    }
}

/// The last tool a demo agent reports.
pub open spec fn demo_tool(index: int) -> Seq<char> {
    if index == 0 {
        "Edit"@
    } else if index == 1 {
        "Search"@
    } else if index == 2 {
        "Plan"@
    } else if index == 3 {
        "Idle"@
    } else if index == 4 {
        "Review"@
    } else {
        "Build"@
    }
}

fn demo_tool_of(index: usize) -> (r: &'static str)
    ensures
        r@ == demo_tool(index as int),
{
    match index {
        0 => "Edit",
        1 => "Search",
        2 => "Plan",
        3 => "Idle",
        4 => "Review",
        _ => "Build",
    }
}

/// File `j` of the files that demo project `i` works on (`i`, `j` below 5).
pub open spec fn demo_file(i: int, j: int) -> Seq<char> {
    if i == 0 {
        if j == 0 { "src/main.rs"@ } else if j == 1 { "src/session.rs"@ } else if j == 2 { "Cargo.toml"@ }
        else if j == 3 { "README.md"@ } else { "src/ui.rs"@ }
    } else if i == 1 {
        if j == 0 { "app/routes/docs.tsx"@ } else if j == 1 { "content/api.md"@ } else if j == 2 { "package.json"@ }
        else if j == 3 { "README.md"@ } else { "app/layout.tsx"@ }
    } else if i == 2 {
        if j == 0 { "src/auth.rs"@ } else if j == 1 { "src/server.rs"@ } else if j == 2 { "src/routes.rs"@ }
        else if j == 3 { "Cargo.toml"@ } else { "src/lib.rs"@ }
    } else if i == 3 {
        if j == 0 { "infra/main.tf"@ } else if j == 1 { "infra/variables.tf"@ } else if j == 2 { "README.md"@ }
        else if j == 3 { "envs/staging.tfvars"@ } else { "modules/vpc/main.tf"@ }
    } else {
        if j == 0 { "src/lib.rs"@ } else if j == 1 { "src/terminal.rs"@ } else if j == 2 { "README.md"@ }
        else if j == 3 { "src/theme.rs"@ } else { "Cargo.toml"@ }
    }
}

/// The file a demo agent last touched at a step: file `step % 5` of
/// project `index % 5`.
pub fn demo_file_name(index: usize, step: usize) -> (r: &'static str)
    ensures
        r@ == demo_file((index % 5) as int, (step % 5) as int),
{
    let i = index % 5;
    let j = step % 5;
    if i == 0 {
        if j == 0 { "src/main.rs" } else if j == 1 { "src/session.rs" } else if j == 2 { "Cargo.toml" }
        else if j == 3 { "README.md" } else { "src/ui.rs" }
    } else if i == 1 {
        if j == 0 { "app/routes/docs.tsx" } else if j == 1 { "content/api.md" } else if j == 2 { "package.json" }
        else if j == 3 { "README.md" } else { "app/layout.tsx" }
    } else if i == 2 {
        if j == 0 { "src/auth.rs" } else if j == 1 { "src/server.rs" } else if j == 2 { "src/routes.rs" }
        else if j == 3 { "Cargo.toml" } else { "src/lib.rs" }
    } else if i == 3 {
        if j == 0 { "infra/main.tf" } else if j == 1 { "infra/variables.tf" } else if j == 2 { "README.md" }
        else if j == 3 { "envs/staging.tfvars" } else { "modules/vpc/main.tf" }
    } else {
        if j == 0 { "src/lib.rs" } else if j == 1 { "src/terminal.rs" } else if j == 2 { "README.md" }
        else if j == 3 { "src/theme.rs" } else { "Cargo.toml" }
    }
}

/// Token count of a demo agent at a step.
pub open spec fn demo_tokens(index: int, step: int) -> int {
    24_000 + index * 13_500 + step * 750
}

/// Activity counter `offset` of a demo agent at a step: nothing while
/// offline, else a wave over an eleven-step cycle.
pub open spec fn demo_activity_point(index: int, step: int, offline: bool, offset: int) -> u64 {
    let phase = (step + offset + index * 3) % 11;
    if offline {
        0
    } else if phase > 7 {
        (4 + index) as u64
    } else if phase > 3 {
        (2 + index) as u64
    } else {
        (index % 2) as u64
    }
}

/// The activity counters of a demo agent at a step.
pub open spec fn demo_activity(index: int, step: int, offline: bool) -> Seq<u64> {
    Seq::new(DEMO_ACTIVITY_LEN as nat, |o: int| demo_activity_point(index, step, offline, o))
}

/// Where the demo projects live.
pub open spec fn demo_root() -> Seq<char> {
    "/Users/demo/projects/"@
}

/// Metadata of demo agent `index` at a step (keys in order), without its
/// cost, which is a floating-point amount formatted by the caller.
pub open spec fn demo_metadata(index: int, step: int) -> Seq<(Seq<char>, Seq<char>)> {
    let id = demo_row(index).0;
    seq![
        ("cwd"@, demo_root() + id),
        ("last_file"@, demo_root() + id + "/"@ + demo_file(index % 5, step % 5)),
        ("last_tool"@, demo_tool(index)),
        ("messages"@, decimal((12 + index * 4 + step % 3) as nat)),
        ("model"@, demo_model(index)),
        ("tokens"@, decimal(demo_tokens(index, step) as nat)),
    ]
}

/// The demo metadata holds each key once.
proof fn lemma_demo_metadata_keys(index: int, step: int)
    ensures
        crate::registry::meta_keys_unique(demo_metadata(index, step)),
{
    reveal_strlit("cwd");
    reveal_strlit("last_file");
    reveal_strlit("last_tool");
    reveal_strlit("messages");
    reveal_strlit("model");
    reveal_strlit("tokens");
    let m = demo_metadata(index, step);
    let keys = seq!["cwd"@, "last_file"@, "last_tool"@, "messages"@, "model"@, "tokens"@];
    assert forall|i: int| 0 <= i < m.len() implies #[trigger] m[i].0 == keys[i] by {}
    let lens = seq![3int, 9, 9, 8, 5, 6];
    assert forall|i: int| 0 <= i < m.len() implies #[trigger] keys[i].len() == lens[i] by {}
    assert("last_file"@[5] != "last_tool"@[5]);
    assert forall|i: int, j: int| 0 <= i < j < m.len() implies #[trigger] m[i].0 != #[trigger] m[j].0 by {
        assert(m[i].0 == keys[i] && m[j].0 == keys[j]);
        assert(keys[i].len() == lens[i] && keys[j].len() == lens[j]);
        if i == 1 && j == 2 {
            assert(keys[i][5] != keys[j][5]);
        }
    }
}

/// `a` is demo agent `index` at `step`, seen at `now_ms`.
pub open spec fn is_demo_agent(a: Agent, index: int, step: int, now_ms: i64) -> bool {
    let row = demo_row(index);
    &&& a.id@ == row.0
    &&& a.instance_name@ == row.0 + ".rai"@
    &&& a.role@ == row.2
    &&& a.project@ == row.3
    &&& a.branch@ == row.4
    &&& a.status@ == row.1
    &&& views(a.capabilities@) == seq!["observe"@, "stream-json"@, "tool-"@ + decimal((index + 1) as nat)]
    &&& a.port == 4100 + index
    &&& views(a.addresses@) == seq!["127.0.0.1:"@ + decimal((4100 + index) as nat)]
    &&& meta_view(a.metadata@) == demo_metadata(index, step)
    &&& a.last_seen_ms == now_ms
    &&& a.tokens == demo_tokens(index, step)
    &&& a.activity@ == demo_activity(index, step, row.1 == "offline"@)
}

/// The steps for which the demo data set can be computed.
pub open spec fn demo_step_in_range(step: usize) -> bool {
    &&& step + DEMO_ACTIVITY_LEN + 3 * DEMO_AGENT_COUNT <= usize::MAX
    &&& demo_tokens(DEMO_AGENT_COUNT as int, step as int) <= u64::MAX
}

fn demo_activity_of(index: usize, step: usize, offline: bool) -> (q: VecDeque<u64>)
    requires
        index < DEMO_AGENT_COUNT,
        demo_step_in_range(step),
    ensures
        q@ == demo_activity(index as int, step as int, offline),
{
    let mut q: VecDeque<u64> = VecDeque::new();
    let mut offset: usize = 0;
    while offset < DEMO_ACTIVITY_LEN
        invariant
            offset <= DEMO_ACTIVITY_LEN,
            index < DEMO_AGENT_COUNT,
            demo_step_in_range(step),
            q@ == demo_activity(index as int, step as int, offline).take(offset as int),
        decreases DEMO_ACTIVITY_LEN - offset,
    {
        let phase = (step + offset + index * 3) % 11;
        let value: u64 = if offline {
            0
        } else if phase > 7 {
            4 + index as u64
        } else if phase > 3 {
            2 + index as u64
        } else {
            (index % 2) as u64
        };
        q.push_back(value);
        assert(demo_activity(index as int, step as int, offline).take(offset + 1) =~= demo_activity(
            index as int,
            step as int,
            offline,
        ).take(offset as int).push(value));
        offset += 1;
    }
    assert(demo_activity(index as int, step as int, offline).take(DEMO_ACTIVITY_LEN as int) =~= demo_activity(
        index as int,
        step as int,
        offline,
    ));
    q
}

/// `prefix` followed by `text`.
fn joined(prefix: &str, text: &str) -> (s: String)
    ensures
        s@ == prefix@ + text@,
{
    let mut s = owned(prefix);
    push_str(&mut s, text);
    s
}

/// Demo agent `index` at `step`, seen at `now_ms` (its cost left out: see
/// `demo_metadata`).
pub fn demo_agent(index: usize, step: usize, now_ms: i64) -> (a: Agent)
    requires
        index < DEMO_AGENT_COUNT,
        demo_step_in_range(step),
    ensures
        is_demo_agent(a, index as int, step as int, now_ms),
        a.wf(),
{
    proof {
        lemma_demo_metadata_keys(index as int, step as int);
    }
    let (id, status, role, project, branch) = demo_row_of(index);
    let tokens: u64 = 24_000 + index as u64 * 13_500 + step as u64 * 750;
    let cwd = joined("/Users/demo/projects/", id);
    let mut last_file = joined("/Users/demo/projects/", id);
    push_str(&mut last_file, "/");
    push_str(&mut last_file, demo_file_name(index, step));
    let messages = decimal_string((12 + index * 4 + step % 3) as u64);
    let mut metadata: Vec<(String, String)> = Vec::new();
    metadata.push((owned("cwd"), cwd));
    metadata.push((owned("last_file"), last_file));
    metadata.push((owned("last_tool"), owned(demo_tool_of(index))));
    metadata.push((owned("messages"), messages));
    metadata.push((owned("model"), owned(demo_model_of(index))));
    metadata.push((owned("tokens"), decimal_string(tokens)));
    let ghost m = metadata@;
    assert(meta_view(m) =~= demo_metadata(index as int, step as int));
    let port: u16 = 4100 + index as u16;
    let mut address = owned("127.0.0.1:");
    push_str(&mut address, decimal_string(port as u64).as_str());
    let mut tool = owned("tool-");
    push_str(&mut tool, decimal_string((index + 1) as u64).as_str());
    let capabilities = vec![owned("observe"), owned("stream-json"), tool];
    assert(views(capabilities@) =~= seq!["observe"@, "stream-json"@, "tool-"@ + decimal((index + 1) as nat)]);
    let addresses = vec![address];
    assert(views(addresses@) =~= seq!["127.0.0.1:"@ + decimal((4100 + index) as nat)]);
    let offline = chars_equal(&chars_of(status), &chars_of("offline"));
    Agent {
        id: owned(id),
        instance_name: joined(id, ".rai"),
        role: owned(role),
        project: owned(project),
        branch: owned(branch),
        status: owned(status),
        capabilities,
        port,
        addresses,
        metadata,
        last_seen_ms: now_ms,
        tokens,
        activity: demo_activity_of(index, step, offline),
    }
}

/// The agents of the demo mesh at `step`, seen at `now_ms`.
pub fn demo_agents(step: usize, now_ms: i64) -> (r: Vec<Agent>)
    requires
        demo_step_in_range(step),
    ensures
        r@.len() == DEMO_AGENT_COUNT,
        forall|i: int| 0 <= i < DEMO_AGENT_COUNT ==> is_demo_agent(#[trigger] r@[i], i, step as int, now_ms),
        forall|i: int| 0 <= i < DEMO_AGENT_COUNT ==> (#[trigger] r@[i]).wf(),
{
    let mut r: Vec<Agent> = Vec::new();
    let mut index: usize = 0;
    while index < DEMO_AGENT_COUNT
        invariant
            index <= DEMO_AGENT_COUNT,
            demo_step_in_range(step),
            r@.len() == index,
            forall|i: int| 0 <= i < index ==> is_demo_agent(#[trigger] r@[i], i, step as int, now_ms),
            forall|i: int| 0 <= i < index ==> (#[trigger] r@[i]).wf(),
        decreases DEMO_AGENT_COUNT - index,
    {
        r.push(demo_agent(index, step, now_ms));
        index += 1;
    }
    r
}

/// Scripted demo source `index`: its agent and the three (level, message)
/// lines it cycles through.
pub open spec fn demo_script(index: int, k: int) -> (Seq<char>, Seq<char>, Seq<char>) {
    if index == 0 {
        if k == 0 { ("agentic-coding"@, "info"@, "$ cargo test --workspace"@) }
        else if k == 1 { ("agentic-coding"@, "success"@, "Tests completed with 0 failures"@) }
        else { ("agentic-coding"@, "error"@, "Retry budget exhausted for release sync"@) }
    } else if index == 1 {
        if k == 0 { ("docs-site"@, "success"@, "$ pnpm dev"@) }
        else if k == 1 { ("docs-site"@, "info"@, "Preview server listening on :3000"@) }
        else { ("docs-site"@, "success"@, "Reference page updated cleanly"@) }
    } else if index == 2 {
        if k == 0 { ("api-server"@, "warn"@, "$ cargo check"@) }
        else if k == 1 { ("api-server"@, "warn"@, "Borrow checker still unhappy in auth flow"@) }
        else { ("api-server"@, "success"@, "Handler plan merged into runtime lane"@) }
    } else if index == 3 {
        if k == 0 { ("infra-terraform"@, "warn"@, "$ terraform plan"@) }
        else if k == 1 { ("infra-terraform"@, "info"@, "State drift detected in staging"@) }
        else { ("infra-terraform"@, "success"@, "Review checklist completed"@) }
    } else {
        if k == 0 { ("shared-lib"@, "info"@, "$ cargo doc --open"@) }
        else if k == 1 { ("shared-lib"@, "success"@, "Desktop preview rendered successfully"@) }
        else { ("shared-lib"@, "info"@, "Public API draft ready for review"@) }
    }
}

fn demo_script_of(index: usize, k: usize) -> (r: (&'static str, &'static str, &'static str))
    ensures
        (r.0@, r.1@, r.2@) == demo_script(index as int, k as int),
{
    if index == 0 {
        if k == 0 { ("agentic-coding", "info", "$ cargo test --workspace") }
        else if k == 1 { ("agentic-coding", "success", "Tests completed with 0 failures") }
        else { ("agentic-coding", "error", "Retry budget exhausted for release sync") }
    } else if index == 1 {
        if k == 0 { ("docs-site", "success", "$ pnpm dev") }
        else if k == 1 { ("docs-site", "info", "Preview server listening on :3000") }
        else { ("docs-site", "success", "Reference page updated cleanly") }
    } else if index == 2 {
        if k == 0 { ("api-server", "warn", "$ cargo check") }
        else if k == 1 { ("api-server", "warn", "Borrow checker still unhappy in auth flow") }
        else { ("api-server", "success", "Handler plan merged into runtime lane") }
    } else if index == 3 {
        if k == 0 { ("infra-terraform", "warn", "$ terraform plan") }
        else if k == 1 { ("infra-terraform", "info", "State drift detected in staging") }
        else { ("infra-terraform", "success", "Review checklist completed") }
    } else {
        if k == 0 { ("shared-lib", "info", "$ cargo doc --open") }
        else if k == 1 { ("shared-lib", "success", "Desktop preview rendered successfully") }
        else { ("shared-lib", "info", "Public API draft ready for review") }
    }
}

/// `e` is the demo event of source `index` at `step`, made at `now_ms`:
/// line `(step + index) % 3` of its script, from its shell.
pub open spec fn is_demo_event(e: Event, index: int, step: int, now_ms: i64) -> bool {
    let line = demo_script(index, (step + index) % 3);
    &&& e.timestamp_ms == now_ms
    &&& e.agent_id@ == line.0
    &&& e.kind@ == "UPDATED"@
    &&& e.component@ == "shell"@
    &&& e.level@ == line.1
    &&& e.payload@ == line.2
}

/// The scripted demo events of `step`, made at `now_ms`.
pub fn demo_events(step: usize, now_ms: i64) -> (r: Vec<Event>)
    requires
        step + DEMO_EVENT_COUNT <= usize::MAX,
    ensures
        r@.len() == DEMO_EVENT_COUNT,
        forall|i: int| 0 <= i < DEMO_EVENT_COUNT ==> is_demo_event(#[trigger] r@[i], i, step as int, now_ms),
{
    let mut r: Vec<Event> = Vec::new();
    let mut index: usize = 0;
    while index < DEMO_EVENT_COUNT
        invariant
            index <= DEMO_EVENT_COUNT,
            step + DEMO_EVENT_COUNT <= usize::MAX,
            r@.len() == index,
            forall|i: int| 0 <= i < index ==> is_demo_event(#[trigger] r@[i], i, step as int, now_ms),
        decreases DEMO_EVENT_COUNT - index,
    {
        let (agent_id, level, payload) = demo_script_of(index, (step + index) % 3);
        r.push(
            Event {
                timestamp_ms: now_ms,
                agent_id: owned(agent_id),
                kind: owned("UPDATED"),
                component: owned("shell"),
                level: owned(level),
                payload: owned(payload),
            },
        );
        index += 1;
    }
    r
}

} // verus!
