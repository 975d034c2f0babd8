//! What the agent views show: the status filter, the search box, grid or
//! focus mode, and the selected agent and terminal.
use vstd::prelude::*;
use crate::text::{owned, push_char};

verus! {

broadcast use vstd::string::group_string_axioms;

/// Which agents the views list, by status.
#[derive(Debug, Clone, Copy, PartialEq, Eq, Structural)]
pub enum AgentFilterMode {
    All,
    Busy,
    Active,
    Offline,
}

impl Default for AgentFilterMode {
    fn default() -> (m: Self)
        ensures
            m == AgentFilterMode::All,
    {
        AgentFilterMode::All
    }
}

/// How the agents are laid out: all of them in a grid, or one in focus.
#[derive(Debug, Clone, Copy, PartialEq, Eq, Structural)]
pub enum ViewMode {
    Grid,
    Focus,
}

impl Default for ViewMode {
    fn default() -> (m: Self)
        ensures
            m == ViewMode::Grid,
    {
        ViewMode::Grid
    }
}

/// The state of the views.
pub struct UiState {
    pub should_quit: bool,
    pub filter_mode: AgentFilterMode,
    pub search_query: String,
    pub search_mode: bool,
    pub view_mode: ViewMode,
    pub selected_agent_idx: usize,
    pub selected_terminal_idx: usize,
}

/// The filter that follows `m` in the cycle all → busy → active → offline → all.
pub open spec fn next_filter(m: AgentFilterMode) -> AgentFilterMode {
    match m {
        AgentFilterMode::All => AgentFilterMode::Busy,
        AgentFilterMode::Busy => AgentFilterMode::Active,
        AgentFilterMode::Active => AgentFilterMode::Offline,
        AgentFilterMode::Offline => AgentFilterMode::All,
    }
}

/// The label of a filter.
pub open spec fn filter_text(m: AgentFilterMode) -> Seq<char> {
    match m {
        AgentFilterMode::All => "all"@,
        AgentFilterMode::Busy => "busy"@,
        AgentFilterMode::Active => "active"@,
        AgentFilterMode::Offline => "offline"@,
    }
}

/// The other view mode.
pub open spec fn other_view(m: ViewMode) -> ViewMode {
    match m {
        ViewMode::Grid => ViewMode::Focus,
        ViewMode::Focus => ViewMode::Grid,
    }
}

impl UiState {
    /// The state at start: all agents listed in a grid, no search, nothing selected.
    pub open spec fn is_initial(&self) -> bool {
        &&& !self.should_quit
        &&& self.filter_mode == AgentFilterMode::All
        &&& self.search_query@.len() == 0
        &&& !self.search_mode
        &&& self.view_mode == ViewMode::Grid
        &&& self.selected_agent_idx == 0
        &&& self.selected_terminal_idx == 0
    }

    /// `self` and `other` agree on everything but the filter.
    pub open spec fn same_but_filter(&self, other: &UiState) -> bool {
        &&& self.should_quit == other.should_quit
        &&& self.search_query@ == other.search_query@
        &&& self.search_mode == other.search_mode
        &&& self.view_mode == other.view_mode
        &&& self.selected_agent_idx == other.selected_agent_idx
        &&& self.selected_terminal_idx == other.selected_terminal_idx
    }

    /// `self` and `other` agree on everything but the search text and mode.
    pub open spec fn same_but_search(&self, other: &UiState) -> bool {
        &&& self.should_quit == other.should_quit
        &&& self.filter_mode == other.filter_mode
        &&& self.view_mode == other.view_mode
        &&& self.selected_agent_idx == other.selected_agent_idx
        &&& self.selected_terminal_idx == other.selected_terminal_idx
    }

    /// The state at start.
    pub fn new() -> (s: Self)
        ensures
            s.is_initial(),
    {
        UiState {
            should_quit: false,
            filter_mode: AgentFilterMode::All,
            search_query: String::new(),
            search_mode: false,
            view_mode: ViewMode::Grid,
            selected_agent_idx: 0,
            selected_terminal_idx: 0,
        }
    }

    /// Moves to the next filter of the cycle.
    pub fn cycle_filter_mode(&mut self)
        ensures
            final(self).filter_mode == next_filter(old(self).filter_mode),
            final(self).same_but_filter(old(self)),
            *final(self) == (UiState { filter_mode: next_filter(old(self).filter_mode), ..*old(self) }),
    {
        self.filter_mode = match self.filter_mode {
            AgentFilterMode::All => AgentFilterMode::Busy,
            AgentFilterMode::Busy => AgentFilterMode::Active,
            AgentFilterMode::Active => AgentFilterMode::Offline,
            AgentFilterMode::Offline => AgentFilterMode::All,
        };
    }

    /// The label of the current filter.
    pub fn filter_label(&self) -> (s: &'static str)
        ensures
            s@ == filter_text(self.filter_mode),
    {
        match self.filter_mode {
            AgentFilterMode::All => "all",
            AgentFilterMode::Busy => "busy",
            AgentFilterMode::Active => "active",
            AgentFilterMode::Offline => "offline",
        }
    }

    /// Starts typing a search.
    pub fn begin_search(&mut self)
        ensures
            final(self).search_mode,
            final(self).search_query@ == old(self).search_query@,
            final(self).same_but_search(old(self)),
            *final(self) == (UiState { search_mode: true, ..*old(self) }),
    {
        self.search_mode = true;
    }

    /// Stops typing a search (the query stays).
    pub fn end_search(&mut self)
        ensures
            !final(self).search_mode,
            final(self).search_query@ == old(self).search_query@,
            final(self).same_but_search(old(self)),
            *final(self) == (UiState { search_mode: false, ..*old(self) }),
    {
        self.search_mode = false;
    }

    /// Empties the search query.
    pub fn clear_search_query(&mut self)
        ensures
            final(self).search_query@.len() == 0,
            final(self).search_mode == old(self).search_mode,
            final(self).same_but_search(old(self)),
            *final(self) == (UiState { search_query: final(self).search_query, ..*old(self) }),
    {
        self.search_query = String::new();
    }

    /// Types one character of the search query.
    pub fn append_search_char(&mut self, ch: char)
        ensures
            final(self).search_query@ == old(self).search_query@.push(ch),
            final(self).search_mode == old(self).search_mode,
            final(self).same_but_search(old(self)),
            *final(self) == (UiState { search_query: final(self).search_query, ..*old(self) }),
    {
        push_char(&mut self.search_query, ch);
    }

    /// Erases the last character of the search query, if any.
    pub fn pop_search_char(&mut self)
        ensures
            final(self).search_query@ == if old(self).search_query@.len() > 0 {
                old(self).search_query@.drop_last()
            } else {
                old(self).search_query@
            },
            final(self).search_mode == old(self).search_mode,
            final(self).same_but_search(old(self)),
            *final(self) == (UiState { search_query: final(self).search_query, ..*old(self) }),
    {
        let chars = crate::text::chars_of(self.search_query.as_str());
        if chars.len() > 0 {
            self.search_query = crate::text::string_of_range(&chars, 0, chars.len() - 1);
        }
    }

    /// Switches between grid and focus.
    pub fn toggle_view_mode(&mut self)
        ensures
            final(self).view_mode == other_view(old(self).view_mode),
            *final(self) == (UiState { view_mode: other_view(old(self).view_mode), ..*old(self) }),
            final(self).should_quit == old(self).should_quit,
            final(self).filter_mode == old(self).filter_mode,
            final(self).search_query@ == old(self).search_query@,
            final(self).search_mode == old(self).search_mode,
            final(self).selected_agent_idx == old(self).selected_agent_idx,
            final(self).selected_terminal_idx == old(self).selected_terminal_idx,
    {
        self.view_mode = match self.view_mode {
            ViewMode::Grid => ViewMode::Focus,
            ViewMode::Focus => ViewMode::Grid,
        };
    }
}

impl Default for UiState {
    fn default() -> (s: Self)
        ensures
            s.is_initial(),
    {
        UiState::new()
    }
}

/// Law: four steps of the filter cycle come back to the start.
pub proof fn law_filter_cycle(m: AgentFilterMode)
    ensures
        next_filter(next_filter(next_filter(next_filter(m)))) == m,
        next_filter(m) != m,
{
}

/// Law: toggling the view mode twice restores it.
pub proof fn law_toggle_view_twice(m: ViewMode)
    ensures
        other_view(other_view(m)) == m,
{
}

} // verus!
