use cmd_core::highlights::{match_highlight_pieces, HighlightKind, HighlightPiece};

#[test]
fn pieces_follow_the_match_boundaries() {
    let pieces = match_highlight_pieces(7, &[0..7], &[0..3, 4..7], Some(4..7)).expect("pieces");
    assert_eq!(
        pieces,
        vec![
            HighlightPiece { start: 0, end: 3, section: 0, kind: HighlightKind::Match },
            HighlightPiece { start: 3, end: 4, section: 0, kind: HighlightKind::Plain },
            HighlightPiece { start: 4, end: 7, section: 0, kind: HighlightKind::Active },
        ]
    );
}

#[test]
fn no_matches_leave_the_line_alone() {
    assert_eq!(match_highlight_pieces(7, &[0..7], &[], Some(0..2)), None);
}

#[test]
fn pieces_take_the_first_section_that_holds_them() {
    let pieces = match_highlight_pieces(6, &[0..4, 0..6], &[1..4], None).expect("pieces");
    assert_eq!(
        pieces,
        vec![
            HighlightPiece { start: 0, end: 1, section: 0, kind: HighlightKind::Plain },
            HighlightPiece { start: 1, end: 4, section: 0, kind: HighlightKind::Match },
            HighlightPiece { start: 4, end: 6, section: 1, kind: HighlightKind::Plain },
        ]
    );
    // A piece that no single section holds is left out.
    let pieces = match_highlight_pieces(6, &[0..2, 2..6], &[1..4], None).expect("pieces");
    assert_eq!(
        pieces,
        vec![
            HighlightPiece { start: 0, end: 1, section: 0, kind: HighlightKind::Plain },
            HighlightPiece { start: 4, end: 6, section: 1, kind: HighlightKind::Plain },
        ]
    );
}
