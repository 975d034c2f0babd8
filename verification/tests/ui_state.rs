use cmd_core::ui::{AgentFilterMode, UiState, ViewMode};

#[test]
fn filter_mode_cycles_through_all_four_modes() {
    let mut ui = UiState::new();
    assert_eq!(ui.filter_label(), "all");
    ui.cycle_filter_mode();
    assert_eq!(ui.filter_mode, AgentFilterMode::Busy);
    assert_eq!(ui.filter_label(), "busy");
    ui.cycle_filter_mode();
    assert_eq!(ui.filter_label(), "active");
    ui.cycle_filter_mode();
    assert_eq!(ui.filter_label(), "offline");
    ui.cycle_filter_mode();
    assert_eq!(ui.filter_mode, AgentFilterMode::All);
}

#[test]
fn search_query_is_edited_character_by_character() {
    let mut ui = UiState::default();
    ui.begin_search();
    assert!(ui.search_mode);
    ui.append_search_char('a');
    ui.append_search_char('é');
    assert_eq!(ui.search_query, "aé");
    ui.pop_search_char();
    assert_eq!(ui.search_query, "a");
    ui.clear_search_query();
    assert_eq!(ui.search_query, "");
    ui.pop_search_char();
    assert_eq!(ui.search_query, "");
    ui.end_search();
    assert!(!ui.search_mode);
}

#[test]
fn view_mode_toggles_between_grid_and_focus() {
    let mut ui = UiState::new();
    assert_eq!(ui.view_mode, ViewMode::Grid);
    ui.toggle_view_mode();
    assert_eq!(ui.view_mode, ViewMode::Focus);
    ui.toggle_view_mode();
    assert_eq!(ui.view_mode, ViewMode::Grid);
}
