//! The application-wide keyboard shortcuts of the desktop window: which
//! keys of a frame trigger which changes of the state, in which order.
//!
//! The window reads the keys pressed in a frame and the held modifiers; the
//! bindings and their effects are decided here.
use vstd::prelude::*;
use crate::app_state::{
    agent_selection_moved, filter_cycled, next_page_visible_selection, next_visible_selection,
    previous_page_visible_selection, previous_visible_selection, terminal_focus_moved, terminal_index_selected,
    terminal_removed, terminal_split, view_toggled, AppState,
};
use crate::panes::{next_focus, previous_focus, SplitAxis};
use crate::text::{decimal, owned, push_decimal};

verus! {

broadcast use vstd::string::group_string_axioms;

/// The keys pressed in one frame and the modifiers held.
#[derive(Clone, Copy)]
pub struct ShortcutKeys {
    pub arrow_down: bool,
    pub arrow_up: bool,
    pub arrow_left: bool,
    pub arrow_right: bool,
    pub page_down: bool,
    pub page_up: bool,
    pub j: bool,
    pub k: bool,
    pub f: bool,
    pub g: bool,
    pub t: bool,
    pub w: bool,
    /// The digit keys 1 to 9.
    pub digits: [bool; 9],
    pub ctrl: bool,
    pub command: bool,
    pub shift: bool,
}

/// A change a shortcut asks for.
#[derive(Clone, Copy)]
pub enum ShortcutAction {
    SelectNextAgent,
    SelectPreviousAgent,
    SelectNextPage,
    SelectPreviousPage,
    CycleFilter,
    /// Open a session in a split of the focused pane.
    SplitTerminal(SplitAxis),
    /// Close the selected session.
    CloseTerminal,
    /// Focus the session with this index.
    SelectTerminal(usize),
    FocusNextTerminal,
    FocusPreviousTerminal,
    ToggleView,
}

/// Number of shortcut bindings, in the order they are checked.
pub const SHORTCUT_SLOTS: usize = 20;

/// The change binding `k` asks for, if its keys are pressed: Down or J, Up
/// or K, Page Down, Page Up, F (without Ctrl or Command), Command+Shift+T,
/// Command+T, Command+W, Command+1 to Command+9, Command+Right,
/// Command+Left, Command+G.
pub open spec fn slot(keys: ShortcutKeys, k: int) -> Option<ShortcutAction> {
    let pick = |b: bool, a: ShortcutAction| if b { Some(a) } else { None::<ShortcutAction> };
    if k == 0 {
        pick(keys.arrow_down || keys.j, ShortcutAction::SelectNextAgent)
    } else if k == 1 {
        pick(keys.arrow_up || keys.k, ShortcutAction::SelectPreviousAgent)
    } else if k == 2 {
        pick(keys.page_down, ShortcutAction::SelectNextPage)
    } else if k == 3 {
        pick(keys.page_up, ShortcutAction::SelectPreviousPage)
    } else if k == 4 {
        pick(keys.f && !keys.ctrl && !keys.command, ShortcutAction::CycleFilter)
    } else if k == 5 {
        pick(keys.t && keys.command && keys.shift, ShortcutAction::SplitTerminal(SplitAxis::Horizontal))
    } else if k == 6 {
        pick(keys.t && keys.command && !keys.shift, ShortcutAction::SplitTerminal(SplitAxis::Vertical))
    } else if k == 7 {
        pick(keys.w && keys.command, ShortcutAction::CloseTerminal)
    } else if 8 <= k < 17 {
        pick(keys.digits@[k - 8] && keys.command, ShortcutAction::SelectTerminal((k - 8) as usize))
    } else if k == 17 {
        pick(keys.arrow_right && keys.command, ShortcutAction::FocusNextTerminal)
    } else if k == 18 {
        pick(keys.arrow_left && keys.command, ShortcutAction::FocusPreviousTerminal)
    } else if k == 19 {
        pick(keys.g && keys.command, ShortcutAction::ToggleView)
    } else {
        None
    }
}

/// The changes the first `n` bindings ask for, in order.
pub open spec fn actions_upto(keys: ShortcutKeys, n: int) -> Seq<ShortcutAction>
    decreases n,
{
    if n <= 0 {
        Seq::empty()
    } else {
        match slot(keys, n - 1) {
            Some(a) => actions_upto(keys, n - 1).push(a),
            None => actions_upto(keys, n - 1),
        }
    }
}

/// The changes the keys of a frame ask for, in the order they are made
/// (see `slot`).
pub open spec fn shortcut_actions(keys: ShortcutKeys) -> Seq<ShortcutAction> {
    actions_upto(keys, SHORTCUT_SLOTS as int)
}

/// Title of the session a split opens: `shell-<count + 1>`.
pub open spec fn split_title(o: AppState) -> Seq<char> {
    "shell-"@ + decimal((o.terminals.sessions.len() + 1) as nat)
}

/// What one change does to the state.
pub open spec fn shortcut_applied(o: AppState, n: AppState, a: ShortcutAction) -> bool {
    match a {
        ShortcutAction::SelectNextAgent => agent_selection_moved(o, n, next_visible_selection(o)),
        ShortcutAction::SelectPreviousAgent => agent_selection_moved(o, n, previous_visible_selection(o)),
        ShortcutAction::SelectNextPage => agent_selection_moved(o, n, next_page_visible_selection(o)),
        ShortcutAction::SelectPreviousPage => agent_selection_moved(o, n, previous_page_visible_selection(o)),
        ShortcutAction::CycleFilter => filter_cycled(o, n),
        ShortcutAction::SplitTerminal(axis) => terminal_split(o, n, split_title(o), axis),
        ShortcutAction::CloseTerminal => terminal_removed(o, n, o.ui.selected_terminal_idx),
        ShortcutAction::SelectTerminal(i) => terminal_index_selected(o, n, i),
        ShortcutAction::FocusNextTerminal => terminal_focus_moved(
            o,
            n,
            next_focus(o.terminals.pane_tree.session_seq(), o.terminals.pane_tree.active()),
        ),
        ShortcutAction::FocusPreviousTerminal => terminal_focus_moved(
            o,
            n,
            previous_focus(o.terminals.pane_tree.session_seq(), o.terminals.pane_tree.active()),
        ),
        ShortcutAction::ToggleView => view_toggled(o, n),
    }
}

/// Whether a change can be made without leaving the machine's integers.
pub open spec fn shortcut_possible(o: AppState, a: ShortcutAction) -> bool {
    match a {
        ShortcutAction::SelectNextAgent => o.visible().len() > 0 ==> o.ui.selected_agent_idx < usize::MAX,
        ShortcutAction::SelectNextPage => o.visible().len() > 0 ==> o.ui.selected_agent_idx + 5 <= usize::MAX,
        _ => true,
    }
}

/// Makes one change.
pub fn apply_shortcut(state: &mut AppState, action: ShortcutAction)
    requires
        old(state).wf(),
        shortcut_possible(*old(state), action),
    ensures
        final(state).wf(),
        shortcut_applied(*old(state), *final(state), action),
{
    match action {
        ShortcutAction::SelectNextAgent => state.select_next(),
        ShortcutAction::SelectPreviousAgent => state.select_previous(),
        ShortcutAction::SelectNextPage => state.select_next_page(),
        ShortcutAction::SelectPreviousPage => state.select_previous_page(),
        ShortcutAction::CycleFilter => state.cycle_filter_mode(),
        ShortcutAction::SplitTerminal(axis) => {
            let mut title = owned("shell-");
            push_decimal(&mut title, (state.terminals.sessions.len() + 1) as u64);
            let _ = state.split_selected_terminal(title, axis);
        },
        ShortcutAction::CloseTerminal => {
            let idx = state.ui.selected_terminal_idx;
            let _ = state.remove_terminal_session(idx);
        },
        ShortcutAction::SelectTerminal(i) => state.select_terminal_index(i),
        ShortcutAction::FocusNextTerminal => {
            let _ = state.focus_next_terminal();
        },
        ShortcutAction::FocusPreviousTerminal => {
            let _ = state.focus_previous_terminal();
        },
        ShortcutAction::ToggleView => state.toggle_view_mode(),
    }
}

/// The change binding `k` asks for (see `slot`).
fn slot_of(keys: &ShortcutKeys, k: usize) -> (r: Option<ShortcutAction>)
    requires
        k < SHORTCUT_SLOTS,
    ensures
        r == slot(*keys, k as int),
{
    let pick = |b: bool, a: ShortcutAction| -> (r: Option<ShortcutAction>)
        ensures
            r == (if b { Some(a) } else { None::<ShortcutAction> }),
        {
            if b {
                Some(a)
            } else {
                None
            }
        };
    if k == 0 {
        pick(keys.arrow_down || keys.j, ShortcutAction::SelectNextAgent)
    } else if k == 1 {
        pick(keys.arrow_up || keys.k, ShortcutAction::SelectPreviousAgent)
    } else if k == 2 {
        pick(keys.page_down, ShortcutAction::SelectNextPage)
    } else if k == 3 {
        pick(keys.page_up, ShortcutAction::SelectPreviousPage)
    } else if k == 4 {
        pick(keys.f && !keys.ctrl && !keys.command, ShortcutAction::CycleFilter)
    } else if k == 5 {
        pick(keys.t && keys.command && keys.shift, ShortcutAction::SplitTerminal(SplitAxis::Horizontal))
    } else if k == 6 {
        pick(keys.t && keys.command && !keys.shift, ShortcutAction::SplitTerminal(SplitAxis::Vertical))
    } else if k == 7 {
        pick(keys.w && keys.command, ShortcutAction::CloseTerminal)
    } else if k < 17 {
        pick(keys.digits[k - 8] && keys.command, ShortcutAction::SelectTerminal(k - 8))
    } else if k == 17 {
        pick(keys.arrow_right && keys.command, ShortcutAction::FocusNextTerminal)
    } else if k == 18 {
        pick(keys.arrow_left && keys.command, ShortcutAction::FocusPreviousTerminal)
    } else {
        pick(keys.g && keys.command, ShortcutAction::ToggleView)
    }
}

/// The changes the keys of a frame ask for (see `shortcut_actions`).
pub fn shortcut_actions_of(keys: &ShortcutKeys) -> (r: Vec<ShortcutAction>)
    ensures
        r@ == shortcut_actions(*keys),
{
    let mut r: Vec<ShortcutAction> = Vec::new();
    let mut k: usize = 0;
    while k < SHORTCUT_SLOTS
        invariant
            k <= SHORTCUT_SLOTS,
            r@ == actions_upto(*keys, k as int),
        decreases SHORTCUT_SLOTS - k,
    {
        if let Some(a) = slot_of(keys, k) {
            r.push(a);
        }
        k += 1;
    }
    r
}

/// The states a sequence of changes passes through, from `states[0]`.
pub open spec fn applied_in_turn(states: Seq<AppState>, actions: Seq<ShortcutAction>) -> bool {
    &&& states.len() == actions.len() + 1
    &&& forall|i: int| 0 <= i < actions.len() ==> shortcut_applied(#[trigger] states[i], states[i + 1], actions[i])
}

/// The agent selection after moving down a list of `n`.
pub open spec fn moved_down(idx: int, n: int) -> int {
    if n == 0 {
        0
    } else {
        (idx + 1) % n
    }
}

/// The agent selection after moving up a list of `n`.
pub open spec fn moved_up(idx: int, n: int) -> int {
    if n == 0 {
        0
    } else if idx == 0 {
        n - 1
    } else {
        idx - 1
    }
}

/// Whether the changes can be made in turn from `o` without leaving the
/// machine's integers: selecting the next agent needs room for one more,
/// paging down (after the moves up and down of the same frame) for five more.
pub open spec fn shortcuts_possible(o: AppState, keys: ShortcutKeys) -> bool {
    let n = o.visible().len() as int;
    let i0 = o.ui.selected_agent_idx as int;
    let i1 = if keys.arrow_down || keys.j {
        moved_down(i0, n)
    } else {
        i0
    };
    let i2 = if keys.arrow_up || keys.k {
        moved_up(i1, n)
    } else {
        i1
    };
    &&& (keys.arrow_down || keys.j) ==> i0 < usize::MAX
    &&& keys.page_down ==> i2 + 5 <= usize::MAX
}

/// Makes one change after those that led from `states[0]` to the current
/// state, and extends the record of states passed through.
fn apply_in_turn(
    state: &mut AppState,
    action: ShortcutAction,
    Ghost(states): Ghost<Seq<AppState>>,
    Ghost(actions): Ghost<Seq<ShortcutAction>>,
) -> (r: Ghost<Seq<AppState>>)
    requires
        old(state).wf(),
        shortcut_possible(*old(state), action),
        applied_in_turn(states, actions),
        states.last() == *old(state),
    ensures
        final(state).wf(),
        shortcut_applied(*old(state), *final(state), action),
        applied_in_turn(r@, actions.push(action)),
        r@ == states.push(*final(state)),
{
    apply_shortcut(state, action);
    let ghost next = states.push(*state);
    proof {
        let acts = actions.push(action);
        assert forall|j: int| 0 <= j < acts.len() implies shortcut_applied(
            #[trigger] next[j],
            next[j + 1],
            acts[j],
        ) by {
            if j < actions.len() {
                assert(next[j] == states[j] && next[j + 1] == states[j + 1] && acts[j] == actions[j]);
            }
        }
    }
    Ghost(next)
}

/// Handles the shortcuts of a frame: makes the changes its keys ask for, in
/// order, and reports whether any was asked for.
pub fn handle(state: &mut AppState, keys: &ShortcutKeys) -> (consumed: bool)
    requires
        old(state).wf(),
        shortcuts_possible(*old(state), *keys),
    ensures
        final(state).wf(),
        consumed == (shortcut_actions(*keys).len() > 0),
        exists|states: Seq<AppState>|
            #[trigger] applied_in_turn(states, shortcut_actions(*keys)) && states[0] == *old(state)
                && states.last() == *final(state),
{
    let ghost start = *state;
    let ghost n = start.visible().len() as int;
    let ghost i0 = start.ui.selected_agent_idx as int;
    let ghost i1 = if keys.arrow_down || keys.j {
        moved_down(i0, n)
    } else {
        i0
    };
    let ghost i2 = if keys.arrow_up || keys.k {
        moved_up(i1, n)
    } else {
        i1
    };
    let ghost mut states: Seq<AppState> = seq![*state];
    let ghost mut acts: Seq<ShortcutAction> = Seq::empty();
    let mut consumed = false;
    let mut k: usize = 0;
    let _agent_count = state.registry.agents.len();
    proof {
        crate::app_state::lemma_visible_len(start.registry.agents@, start.ui.filter_mode, start.ui.search_query@);
    }
    while k < SHORTCUT_SLOTS
        invariant
            k <= SHORTCUT_SLOTS,
            state.wf(),
            applied_in_turn(states, acts),
            states[0] == start,
            states.last() == *state,
            acts == actions_upto(*keys, k as int),
            consumed == (acts.len() > 0),
            shortcuts_possible(start, *keys),
            n == start.visible().len(),
            n <= usize::MAX,
            i0 == start.ui.selected_agent_idx,
            i1 == (if keys.arrow_down || keys.j { moved_down(i0, n) } else { i0 }),
            i2 == (if keys.arrow_up || keys.k { moved_up(i1, n) } else { i1 }),
            k <= 2 ==> state.visible() == start.visible(),
            k == 0 ==> state.ui.selected_agent_idx == i0,
            k == 1 ==> state.ui.selected_agent_idx == i1,
            k == 2 ==> state.ui.selected_agent_idx == i2,
        decreases SHORTCUT_SLOTS - k,
    {
        if let Some(a) = slot_of(keys, k) {
            let ghost before = *state;
            consumed = true;
            let g = apply_in_turn(state, a, Ghost(states), Ghost(acts));
            proof {
                states = g@;
                acts = acts.push(a);
                if k <= 1 {
                    assert(state.registry == before.registry && state.ui.filter_mode == before.ui.filter_mode
                        && state.ui.search_query == before.ui.search_query);
                }
                if k == 0 && n > 0 {
                    assert(a == ShortcutAction::SelectNextAgent);
                    assert(shortcut_applied(before, *state, a));
                    assert(state.ui.selected_agent_idx == next_visible_selection(before));
                    assert(before.visible().len() == n);
                    assert(before.ui.selected_agent_idx == i0);
                    vstd::arithmetic::div_mod::lemma_mod_pos_bound(i0 + 1, n);
                    assert(state.ui.selected_agent_idx == moved_down(i0, n));
                }
                if k == 1 {
                    assert(a == ShortcutAction::SelectPreviousAgent);
                    assert(shortcut_applied(before, *state, a));
                    assert(before.visible().len() == n);
                    assert(state.ui.selected_agent_idx == moved_up(i1, n));
                }
            }
        }
        k += 1;
    }
    consumed
}

/// No key of the frame is pressed and no modifier is held.
pub open spec fn no_keys(keys: ShortcutKeys) -> bool {
    &&& !keys.arrow_down && !keys.arrow_up && !keys.arrow_left && !keys.arrow_right
    &&& !keys.page_down && !keys.page_up
    &&& !keys.j && !keys.k && !keys.f && !keys.g && !keys.t && !keys.w
    &&& forall|d: int| 0 <= d < 9 ==> !keys.digits@[d]
    &&& !keys.ctrl && !keys.command && !keys.shift
}

proof fn lemma_single_action(keys: ShortcutKeys, k: int)
    requires
        0 <= k < SHORTCUT_SLOTS,
        slot(keys, k) is Some,
        forall|m: int| 0 <= m < SHORTCUT_SLOTS && m != k ==> slot(keys, m) is None,
    ensures
        shortcut_actions(keys) == seq![slot(keys, k)->0],
{
    lemma_actions_upto_single(keys, k, SHORTCUT_SLOTS as int);
}

proof fn lemma_actions_upto_single(keys: ShortcutKeys, k: int, n: int)
    requires
        0 <= k < n,
        slot(keys, k) is Some,
        forall|m: int| 0 <= m < n && m != k ==> slot(keys, m) is None,
    ensures
        actions_upto(keys, n) == seq![slot(keys, k)->0],
    decreases n,
{
    if n - 1 > k {
        lemma_actions_upto_single(keys, k, n - 1);
    } else {
        lemma_actions_upto_none(keys, k);
        assert(actions_upto(keys, k).push(slot(keys, k)->0) =~= seq![slot(keys, k)->0]);
    }
}

proof fn lemma_actions_upto_none(keys: ShortcutKeys, n: int)
    requires
        forall|m: int| 0 <= m < n ==> slot(keys, m) is None,
    ensures
        actions_upto(keys, n) == Seq::<ShortcutAction>::empty(),
    decreases n,
{
    if n > 0 {
        lemma_actions_upto_none(keys, n - 1);
    }
}

/// Command+Right alone moves the focus to the next pane, and Command+Left
/// alone to the previous one: each frame asks for exactly that change.
pub proof fn law_arrows_move_pane_focus(keys: ShortcutKeys)
    requires
        no_keys(ShortcutKeys { arrow_right: false, arrow_left: false, command: false, ..keys }),
        keys.command,
        keys.arrow_right != keys.arrow_left,
    ensures
        keys.arrow_right ==> shortcut_actions(keys) == seq![ShortcutAction::FocusNextTerminal],
        keys.arrow_left ==> shortcut_actions(keys) == seq![ShortcutAction::FocusPreviousTerminal],
{
    let k: int = if keys.arrow_right { 17 } else { 18 };
    let rest = ShortcutKeys { arrow_right: false, arrow_left: false, command: false, ..keys };
    assert(rest.digits == keys.digits);
    assert forall|m: int| 0 <= m < SHORTCUT_SLOTS && m != k implies slot(keys, m) is None by {
        if 8 <= m < 17 {
            assert(!rest.digits@[m - 8]);
        }
    }
    lemma_single_action(keys, k);
}

/// `keys` has exactly the keys and modifiers named, and no other.
pub open spec fn only_keys(
    keys: ShortcutKeys,
    down: bool,
    up: bool,
    page_down: bool,
    page_up: bool,
    f: bool,
    g: bool,
    t: bool,
    w: bool,
    right: bool,
    left: bool,
    digit: int,
    command: bool,
    shift: bool,
) -> bool {
    &&& keys.arrow_down == down && keys.arrow_up == up && keys.arrow_left == left && keys.arrow_right == right
    &&& keys.page_down == page_down && keys.page_up == page_up
    &&& !keys.j && !keys.k && keys.f == f && keys.g == g && keys.t == t && keys.w == w
    &&& forall|d: int| 0 <= d < 9 ==> (keys.digits@[d] <==> d == digit)
    &&& !keys.ctrl && keys.command == command && keys.shift == shift
}

/// Each binding pressed alone asks for exactly its change: Down → next
/// agent, Up → previous agent, Page Down / Page Up → a page down / up, F →
/// next filter, Command+Shift+T → a horizontal split, Command+T → a
/// vertical split, Command+W → close the session, Command+`d` → session `d`
/// (keys 1 to 9 give sessions 0 to 8), Command+G → other view.
pub proof fn law_each_binding_alone(keys: ShortcutKeys, d: int)
    ensures
        only_keys(keys, true, false, false, false, false, false, false, false, false, false, -1, false, false)
            ==> shortcut_actions(keys) == seq![ShortcutAction::SelectNextAgent],
        only_keys(keys, false, true, false, false, false, false, false, false, false, false, -1, false, false)
            ==> shortcut_actions(keys) == seq![ShortcutAction::SelectPreviousAgent],
        only_keys(keys, false, false, true, false, false, false, false, false, false, false, -1, false, false)
            ==> shortcut_actions(keys) == seq![ShortcutAction::SelectNextPage],
        only_keys(keys, false, false, false, true, false, false, false, false, false, false, -1, false, false)
            ==> shortcut_actions(keys) == seq![ShortcutAction::SelectPreviousPage],
        only_keys(keys, false, false, false, false, true, false, false, false, false, false, -1, false, false)
            ==> shortcut_actions(keys) == seq![ShortcutAction::CycleFilter],
        only_keys(keys, false, false, false, false, false, false, true, false, false, false, -1, true, true)
            ==> shortcut_actions(keys) == seq![ShortcutAction::SplitTerminal(SplitAxis::Horizontal)],
        only_keys(keys, false, false, false, false, false, false, true, false, false, false, -1, true, false)
            ==> shortcut_actions(keys) == seq![ShortcutAction::SplitTerminal(SplitAxis::Vertical)],
        only_keys(keys, false, false, false, false, false, false, false, true, false, false, -1, true, false)
            ==> shortcut_actions(keys) == seq![ShortcutAction::CloseTerminal],
        0 <= d < 9 && only_keys(keys, false, false, false, false, false, false, false, false, false, false, d, true, false)
            ==> shortcut_actions(keys) == seq![ShortcutAction::SelectTerminal(d as usize)],
        only_keys(keys, false, false, false, false, false, true, false, false, false, false, -1, true, false)
            ==> shortcut_actions(keys) == seq![ShortcutAction::ToggleView],
        only_keys(keys, false, false, false, false, false, false, false, false, true, false, -1, true, false)
            ==> shortcut_actions(keys) == seq![ShortcutAction::FocusNextTerminal],
        only_keys(keys, false, false, false, false, false, false, false, false, false, true, -1, true, false)
            ==> shortcut_actions(keys) == seq![ShortcutAction::FocusPreviousTerminal],
{
    if only_keys(keys, true, false, false, false, false, false, false, false, false, false, -1, false, false) {
        single_at(keys, 0);
    }
    if only_keys(keys, false, true, false, false, false, false, false, false, false, false, -1, false, false) {
        single_at(keys, 1);
    }
    if only_keys(keys, false, false, true, false, false, false, false, false, false, false, -1, false, false) {
        single_at(keys, 2);
    }
    if only_keys(keys, false, false, false, true, false, false, false, false, false, false, -1, false, false) {
        single_at(keys, 3);
    }
    if only_keys(keys, false, false, false, false, true, false, false, false, false, false, -1, false, false) {
        single_at(keys, 4);
    }
    if only_keys(keys, false, false, false, false, false, false, true, false, false, false, -1, true, true) {
        single_at(keys, 5);
    }
    if only_keys(keys, false, false, false, false, false, false, true, false, false, false, -1, true, false) {
        single_at(keys, 6);
    }
    if only_keys(keys, false, false, false, false, false, false, false, true, false, false, -1, true, false) {
        single_at(keys, 7);
    }
    if 0 <= d < 9 && only_keys(keys, false, false, false, false, false, false, false, false, false, false, d, true, false) {
        single_at(keys, d + 8);
    }
    if only_keys(keys, false, false, false, false, false, true, false, false, false, false, -1, true, false) {
        single_at(keys, 19);
    }
    if only_keys(keys, false, false, false, false, false, false, false, false, true, false, -1, true, false) {
        single_at(keys, 17);
    }
    if only_keys(keys, false, false, false, false, false, false, false, false, false, true, -1, true, false) {
        single_at(keys, 18);
    }
}

/// Where binding `k` is the only one whose keys are pressed, it alone is asked for.
proof fn single_at(keys: ShortcutKeys, k: int)
    requires
        0 <= k < SHORTCUT_SLOTS,
        slot(keys, k) is Some,
        forall|m: int| 0 <= m < SHORTCUT_SLOTS && m != k ==> #[trigger] slot(keys, m) is None,
    ensures
        shortcut_actions(keys) == seq![slot(keys, k)->0],
{
    lemma_single_action(keys, k);
}

} // verus!
