use cmd_core::panes::{PaneTree, SplitAxis};

#[test]
fn remove_session_should_collapse_tree_and_reindex_remaining_sessions() {
    let mut tree = PaneTree::new(0);
    assert!(tree.split_active(SplitAxis::Vertical, 1));
    assert!(tree.set_active_session(0));
    assert!(tree.split_active(SplitAxis::Horizontal, 2));

    assert!(tree.remove_session(1));
    assert_eq!(tree.session_ids(), vec![0, 1]);
    assert!(tree.contains_session(1));
    assert!(!tree.contains_session(2));
}

#[test]
fn focus_next_should_follow_leaf_order() {
    let mut tree = PaneTree::new(0);
    assert!(tree.split_active(SplitAxis::Vertical, 1));
    assert!(tree.split_active(SplitAxis::Horizontal, 2));

    assert_eq!(tree.active_session_id(), 2);
    assert!(tree.focus_next());
    assert_eq!(tree.active_session_id(), 0);
    assert!(tree.focus_next());
    assert_eq!(tree.active_session_id(), 1);
}

#[test]
fn focus_previous_should_walk_backwards_through_leaf_order() {
    let mut tree = PaneTree::new(0);
    assert!(tree.split_active(SplitAxis::Vertical, 1));
    assert!(tree.split_active(SplitAxis::Horizontal, 2));

    assert_eq!(tree.active_session_id(), 2);
    assert!(tree.focus_previous());
    assert_eq!(tree.active_session_id(), 1);
    assert!(tree.focus_previous());
    assert_eq!(tree.active_session_id(), 0);
}

#[test]
fn split_active_places_new_session_after_focused_one() {
    let mut tree = PaneTree::new(0);
    assert!(tree.split_active(SplitAxis::Vertical, 1));
    assert_eq!(tree.session_ids(), vec![0, 1]);
    assert_eq!(tree.active_session_id(), 1);
    assert!(tree.set_active_session(0));
    assert!(tree.split_active(SplitAxis::Horizontal, 2));
    assert_eq!(tree.session_ids(), vec![0, 2, 1]);
    assert_eq!(tree.active_session_id(), 2);
}

#[test]
fn split_active_refuses_a_session_already_shown() {
    let mut tree = PaneTree::new(0);
    assert!(!tree.split_active(SplitAxis::Vertical, 0));
    assert_eq!(tree.session_ids(), vec![0]);
}

#[test]
fn remove_session_refuses_the_last_pane_and_unknown_sessions() {
    let mut tree = PaneTree::new(0);
    assert!(!tree.remove_session(0));
    assert!(tree.split_active(SplitAxis::Vertical, 1));
    assert!(!tree.remove_session(7));
    assert_eq!(tree.session_ids(), vec![0, 1]);
}

#[test]
fn set_active_session_ignores_unknown_sessions() {
    let mut tree = PaneTree::new(0);
    assert!(tree.split_active(SplitAxis::Vertical, 1));
    assert!(!tree.set_active_session(5));
    assert_eq!(tree.active_session_id(), 1);
}

#[test]
fn focus_round_trip_returns_to_the_same_pane() {
    let mut tree = PaneTree::new(0);
    assert!(tree.split_active(SplitAxis::Vertical, 1));
    assert!(tree.split_active(SplitAxis::Horizontal, 2));
    assert!(tree.set_active_session(1));
    assert!(tree.focus_next());
    assert!(tree.focus_previous());
    assert_eq!(tree.active_session_id(), 1);
}
