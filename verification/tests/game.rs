use chess_engine::board::{Board, BoardError, PlayerTurn, Square};
use chess_engine::game::{ClickOutcome, GameState, MoveOutcome, PieceView};
use chess_engine::pieces::{Piece, PieceColor, PieceType};

fn p(color: PieceColor, kind: PieceType, x: u8, y: u8) -> Piece {
    Piece { color, piece_type: kind, x, y }
}

fn sq(x: u8, y: u8) -> Square {
    Square { x, y }
}

/// No two live pieces share a square.
fn assert_no_overlap(g: &GameState) {
    let pieces = g.live_pieces();
    for i in 0..pieces.len() {
        for j in 0..pieces.len() {
            if i != j {
                assert!(
                    !(pieces[i].x == pieces[j].x && pieces[i].y == pieces[j].y),
                    "two pieces share a square"
                );
            }
        }
    }
}

#[test]
fn starting_layout_is_standard() {
    let g = GameState::new();
    let pieces = g.live_pieces();
    assert_eq!(pieces.len(), 32);
    assert_no_overlap(&g);
    assert_eq!(g.current_turn(), PieceColor::Light);
    assert_eq!(g.winner(), None);
    assert_eq!(
        g.piece_at(sq(0, 0)),
        Some(PieceView { color: PieceColor::Light, kind: PieceType::Rook })
    );
    assert_eq!(
        g.piece_at(sq(0, 1)),
        Some(PieceView { color: PieceColor::Light, kind: PieceType::Knight })
    );
    assert_eq!(
        g.piece_at(sq(0, 4)),
        Some(PieceView { color: PieceColor::Light, kind: PieceType::King })
    );
    assert_eq!(
        g.piece_at(sq(7, 3)),
        Some(PieceView { color: PieceColor::Dark, kind: PieceType::Queen })
    );
    for f in 0..8 {
        assert_eq!(
            g.piece_at(sq(1, f)),
            Some(PieceView { color: PieceColor::Light, kind: PieceType::Pawn })
        );
        assert_eq!(
            g.piece_at(sq(6, f)),
            Some(PieceView { color: PieceColor::Dark, kind: PieceType::Pawn })
        );
    }
    assert_eq!(g.piece_at(sq(4, 4)), None);
}

#[test]
fn occupancy_stays_unique_after_every_attempt() {
    let mut g = GameState::new();
    let attempts = [
        (sq(1, 4), sq(3, 4)),
        (sq(6, 3), sq(4, 3)),
        (sq(3, 4), sq(4, 3)),
        (sq(7, 3), sq(4, 3)),
        (sq(0, 0), sq(5, 0)),
        (sq(0, 1), sq(2, 2)),
    ];
    for (from, to) in attempts {
        if let Some(idx) = g.piece_index_at(from) {
            let _ = g.attempt_move(idx, to);
        }
        assert_no_overlap(&g);
    }
}

#[test]
fn turn_alternates_with_applied_moves_only() {
    let mut g = GameState::new();
    assert_eq!(g.current_turn(), PieceColor::Light);

    // An illegal attempt leaves the turn unchanged.
    let rook = g.piece_index_at(sq(0, 0)).unwrap();
    assert_eq!(g.attempt_move(rook, sq(4, 4)), MoveOutcome::Rejected);
    assert_eq!(g.current_turn(), PieceColor::Light);

    // Move 1 applied: Dark to move.
    let pawn = g.piece_index_at(sq(1, 4)).unwrap();
    assert!(matches!(g.attempt_move(pawn, sq(3, 4)), MoveOutcome::Applied { .. }));
    assert_eq!(g.current_turn(), PieceColor::Dark);

    // An attempt by the side not on turn is rejected and keeps the turn.
    let pawn = g.piece_index_at(sq(1, 0)).unwrap();
    assert_eq!(g.attempt_move(pawn, sq(2, 0)), MoveOutcome::Rejected);
    assert_eq!(g.current_turn(), PieceColor::Dark);

    // Move 2 applied: Light to move again.
    let pawn = g.piece_index_at(sq(6, 4)).unwrap();
    assert!(matches!(g.attempt_move(pawn, sq(4, 4)), MoveOutcome::Applied { .. }));
    assert_eq!(g.current_turn(), PieceColor::Light);

    // Move 3 applied: Dark to move.
    let knight = g.piece_index_at(sq(0, 1)).unwrap();
    assert!(matches!(g.attempt_move(knight, sq(2, 2)), MoveOutcome::Applied { .. }));
    assert_eq!(g.current_turn(), PieceColor::Dark);
}

#[test]
fn rook_on_back_rank_blocked_by_knight() {
    // Starting layout: the light rook at (0,0) cannot slide to (0,7); its
    // own knight at (0,1) stands in the way.
    let mut g = GameState::new();
    let rook = g.piece_index_at(sq(0, 0)).unwrap();
    assert_eq!(g.attempt_move(rook, sq(0, 7)), MoveOutcome::Rejected);
    assert_eq!(g.current_turn(), PieceColor::Light);
    assert_eq!(
        g.piece_at(sq(0, 0)),
        Some(PieceView { color: PieceColor::Light, kind: PieceType::Rook })
    );
}

#[test]
fn lone_pawn_double_step_applies_and_flips_turn() {
    let pieces = vec![p(PieceColor::Light, PieceType::Pawn, 1, 3)];
    let mut g = GameState::with_pieces(pieces, PieceColor::Light).unwrap();
    let pawn = g.piece_index_at(sq(1, 3)).unwrap();
    assert_eq!(g.attempt_move(pawn, sq(3, 3)), MoveOutcome::Applied { captured: None });
    assert_eq!(g.current_turn(), PieceColor::Dark);
    assert_eq!(g.piece_at(sq(1, 3)), None);
    assert_eq!(
        g.piece_at(sq(3, 3)),
        Some(PieceView { color: PieceColor::Light, kind: PieceType::Pawn })
    );
}

#[test]
fn dark_pawn_double_step_mirrored() {
    let pieces = vec![p(PieceColor::Dark, PieceType::Pawn, 6, 2)];
    let mut g = GameState::with_pieces(pieces, PieceColor::Dark).unwrap();
    let pawn = g.piece_index_at(sq(6, 2)).unwrap();
    assert_eq!(g.attempt_move(pawn, sq(4, 2)), MoveOutcome::Applied { captured: None });
    assert_eq!(g.current_turn(), PieceColor::Light);
}

#[test]
fn capture_reports_the_taken_piece() {
    let pieces = vec![
        p(PieceColor::Light, PieceType::Pawn, 1, 3),
        p(PieceColor::Dark, PieceType::Rook, 2, 4),
    ];
    let mut g = GameState::with_pieces(pieces, PieceColor::Light).unwrap();
    let pawn = g.piece_index_at(sq(1, 3)).unwrap();
    assert_eq!(
        g.attempt_move(pawn, sq(2, 4)),
        MoveOutcome::Applied {
            captured: Some(PieceView { color: PieceColor::Dark, kind: PieceType::Rook })
        }
    );
    assert_eq!(g.live_pieces().len(), 1);
    assert_eq!(
        g.piece_at(sq(2, 4)),
        Some(PieceView { color: PieceColor::Light, kind: PieceType::Pawn })
    );
}

#[test]
fn king_capture_ends_the_game() {
    let pieces = vec![
        p(PieceColor::Light, PieceType::Queen, 0, 0),
        p(PieceColor::Light, PieceType::King, 0, 4),
        p(PieceColor::Dark, PieceType::King, 7, 0),
    ];
    let mut g = GameState::with_pieces(pieces, PieceColor::Light).unwrap();
    let queen = g.piece_index_at(sq(0, 0)).unwrap();
    assert_eq!(
        g.attempt_move(queen, sq(7, 0)),
        MoveOutcome::GameOver { winner: PieceColor::Light }
    );
    assert_eq!(g.winner(), Some(PieceColor::Light));
    // The capture itself was applied.
    assert_eq!(
        g.piece_at(sq(7, 0)),
        Some(PieceView { color: PieceColor::Light, kind: PieceType::Queen })
    );
    assert_eq!(g.live_pieces().len(), 2);

    // No further moves are processed.
    let queen = g.piece_index_at(sq(7, 0)).unwrap();
    assert_eq!(
        g.attempt_move(queen, sq(5, 0)),
        MoveOutcome::GameOver { winner: PieceColor::Light }
    );
    assert_eq!(g.handle_click(sq(7, 0)), ClickOutcome::Ignored);
    assert_eq!(
        g.piece_at(sq(7, 0)),
        Some(PieceView { color: PieceColor::Light, kind: PieceType::Queen })
    );
}

#[test]
fn dark_side_wins_by_taking_the_light_king() {
    let pieces = vec![
        p(PieceColor::Dark, PieceType::Rook, 5, 2),
        p(PieceColor::Light, PieceType::King, 2, 2),
    ];
    let mut g = GameState::with_pieces(pieces, PieceColor::Dark).unwrap();
    let rook = g.piece_index_at(sq(5, 2)).unwrap();
    assert_eq!(
        g.attempt_move(rook, sq(2, 2)),
        MoveOutcome::GameOver { winner: PieceColor::Dark }
    );
    assert_eq!(g.winner(), Some(PieceColor::Dark));
    assert_eq!(g.live_pieces().len(), 1);
}

#[test]
fn selection_needs_a_piece_of_the_side_to_move() {
    let mut g = GameState::new();

    // Clicking an empty square selects nothing; the following click cannot
    // move anything either.
    assert_eq!(g.handle_click(sq(4, 4)), ClickOutcome::Ignored);
    assert_eq!(g.selected_index(), None);
    assert_eq!(g.handle_click(sq(3, 3)), ClickOutcome::Ignored);
    assert_eq!(g.selected_index(), None);

    // Clicking an opposing piece while Light is to move selects nothing.
    assert_eq!(g.handle_click(sq(6, 0)), ClickOutcome::Ignored);
    assert_eq!(g.selected_index(), None);

    // The board and the turn are untouched throughout.
    assert_eq!(g.current_turn(), PieceColor::Light);
    assert_eq!(g.live_pieces().len(), 32);
}

#[test]
fn click_select_then_move() {
    let mut g = GameState::new();
    assert_eq!(g.handle_click(sq(1, 3)), ClickOutcome::Selected);
    assert!(g.selected_index().is_some());
    assert_eq!(
        g.handle_click(sq(3, 3)),
        ClickOutcome::Attempted(MoveOutcome::Applied { captured: None })
    );
    assert_eq!(g.selected_index(), None);
    assert_eq!(
        g.piece_at(sq(3, 3)),
        Some(PieceView { color: PieceColor::Light, kind: PieceType::Pawn })
    );
    assert_eq!(g.current_turn(), PieceColor::Dark);
}

#[test]
fn click_selection_cleared_even_when_move_fails() {
    let mut g = GameState::new();
    assert_eq!(g.handle_click(sq(0, 0)), ClickOutcome::Selected);
    // One attempt per selection: the rejected move clears the selection.
    assert_eq!(g.handle_click(sq(4, 4)), ClickOutcome::Attempted(MoveOutcome::Rejected));
    assert_eq!(g.selected_index(), None);
    assert_eq!(g.current_turn(), PieceColor::Light);
    // The next click starts a fresh selection.
    assert_eq!(g.handle_click(sq(1, 0)), ClickOutcome::Selected);
}

#[test]
fn with_pieces_rejects_malformed_boards() {
    // Two pieces on one square.
    let overlap = vec![
        p(PieceColor::Light, PieceType::Rook, 3, 3),
        p(PieceColor::Dark, PieceType::Rook, 3, 3),
    ];
    assert!(GameState::with_pieces(overlap, PieceColor::Light).is_none());
    // A piece off the board.
    let off = vec![p(PieceColor::Light, PieceType::Rook, 8, 0)];
    assert!(GameState::with_pieces(off, PieceColor::Light).is_none());
    let off = vec![p(PieceColor::Light, PieceType::Rook, 0, 9)];
    assert!(GameState::with_pieces(off, PieceColor::Light).is_none());
}

#[test]
fn board_operations_report_missing_references() {
    let mut b = Board::new(vec![p(PieceColor::Light, PieceType::Rook, 0, 0)]);
    assert_eq!(b.len(), 1);
    assert_eq!(b.piece(0), Ok(p(PieceColor::Light, PieceType::Rook, 0, 0)));
    assert_eq!(b.piece(3), Err(BoardError::NotFound));
    assert_eq!(b.apply_move(3, sq(1, 1)), Err(BoardError::NotFound));
    assert_eq!(b.remove(3), Err(BoardError::NotFound));
    // A valid reference works; apply_move validates nothing by itself.
    assert_eq!(b.apply_move(0, sq(5, 5)), Ok(()));
    assert_eq!(b.occupant_at(sq(5, 5)), Some(p(PieceColor::Light, PieceType::Rook, 5, 5)));
    assert_eq!(b.occupant_at(sq(0, 0)), None);
    assert_eq!(b.remove(0), Ok(p(PieceColor::Light, PieceType::Rook, 5, 5)));
    assert_eq!(b.len(), 0);
}

#[test]
fn square_construction_and_coloring() {
    assert_eq!(Square::new(3, 4), Some(sq(3, 4)));
    assert_eq!(Square::new(8, 0), None);
    assert_eq!(Square::new(0, 8), None);
    assert!(!sq(0, 0).is_light());
    assert!(sq(0, 1).is_light());
    assert!(sq(1, 0).is_light());
    assert!(!sq(1, 1).is_light());
    assert!(!sq(7, 7).is_light());
}

#[test]
fn player_turn_changes_hands() {
    let mut t = PlayerTurn::default();
    assert_eq!(t.0, PieceColor::Light);
    t.change();
    assert_eq!(t.0, PieceColor::Dark);
    t.change();
    assert_eq!(t.0, PieceColor::Light);
}

#[test]
fn out_of_bounds_click_is_ignored() {
    let mut g = GameState::new();
    assert_eq!(g.handle_click(sq(8, 8)), ClickOutcome::Ignored);
    assert_eq!(g.selected_index(), None);
    assert_eq!(g.live_pieces().len(), 32);
}
