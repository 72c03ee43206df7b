use anchor_chess::chess_model::{ChessBoard, ChessPiece, Move};
use anchor_chess::legality::other_team;

fn position_of(pieces: &[ChessPiece]) -> ChessBoard {
    let mut board = ChessBoard::new();
    for p in pieces {
        assert_eq!(board.place(*p), Ok(()));
    }
    board
}

fn pinned_king_position() -> ChessBoard {
    position_of(&[
        ChessPiece::new_king(0, 0, 4),
        ChessPiece::new_rook(1, 7, 4),
        ChessPiece::new_knight(0, 0, 1),
        ChessPiece::new_rook(0, 3, 0),
        ChessPiece::new_bishop(0, 5, 2),
        ChessPiece::new_king(1, 7, 0),
    ])
}

#[test]
fn other_team_swaps_the_teams() {
    assert_eq!(other_team(0), 1);
    assert_eq!(other_team(1), 0);
}

#[test]
fn pawn_attacks_empty_diagonals_only() {
    let pawn = ChessPiece::new_pawn(0, 1, 3);
    let board = position_of(&[pawn]);
    assert!(board.attacks(&pawn, 2, 2));
    assert!(board.attacks(&pawn, 2, 4));
    assert!(!board.attacks(&pawn, 2, 3));
    assert!(!board.attacks(&pawn, 3, 3));
    assert!(!board.attacks(&pawn, 0, 2));
    assert!(board.is_attacked(2, 4, 0));
    assert!(!board.is_attacked(2, 3, 0));
    assert!(!board.is_attacked(2, 4, 1));
    let down = ChessPiece::new_pawn(1, 6, 0);
    let other = position_of(&[down]);
    assert!(other.attacks(&down, 5, 1));
    assert!(!other.attacks(&down, 7, 1));
    assert!(!other.attacks(&down, 5, 0));
}

#[test]
fn sliding_attack_stops_at_a_blocker() {
    let rook = ChessPiece::new_rook(1, 7, 4);
    let open = position_of(&[rook]);
    assert!(open.is_attacked(0, 4, 1));
    assert!(open.is_attacked(7, 0, 1));
    assert!(!open.is_attacked(0, 3, 1));
    let blocked = position_of(&[rook, ChessPiece::new_pawn(0, 3, 4)]);
    assert!(blocked.is_attacked(3, 4, 1));
    assert!(!blocked.is_attacked(0, 4, 1));
    assert!(!blocked.is_attacked(8, 4, 1));
}

#[test]
fn in_check_names_the_attacking_team() {
    let board = position_of(&[ChessPiece::new_king(0, 0, 4), ChessPiece::new_rook(1, 7, 4)]);
    assert!(board.in_check(1));
    assert!(!board.in_check(0));
    let shielded = position_of(&[
        ChessPiece::new_king(0, 0, 4),
        ChessPiece::new_rook(1, 7, 4),
        ChessPiece::new_pawn(0, 1, 4),
    ]);
    assert!(!shielded.in_check(1));
    let no_king = position_of(&[ChessPiece::new_rook(1, 7, 4)]);
    assert!(!no_king.in_check(1));
}

#[test]
fn moving_into_check_tries_the_move_on_a_copy() {
    let board = pinned_king_position();
    let before = board;
    let king = ChessPiece::new_king(0, 0, 4);
    assert!(board.moving_into_check(&king, &Move { x: 1, y: 4 }));
    assert!(!board.moving_into_check(&king, &Move { x: 0, y: 3 }));
    assert_eq!(board, before);
}

#[test]
fn a_move_that_leaves_the_king_attacked_is_illegal() {
    let board = pinned_king_position();
    let king = ChessPiece::new_king(0, 0, 4);
    let knight = ChessPiece::new_knight(0, 0, 1);
    let rook = ChessPiece::new_rook(0, 3, 0);
    let bishop = ChessPiece::new_bishop(0, 5, 2);
    assert!(board.in_check(1));
    //  Neither blocks, captures nor moves the king off the file.
    assert!(!board.can_execute_move(&knight, &Move { x: 2, y: 0 }, false));
    assert!(!board.can_execute_move(&knight, &Move { x: 2, y: 2 }, false));
    assert!(!board.can_execute_move(&rook, &Move { x: 3, y: 3 }, false));
    assert!(!board.can_execute_move(&bishop, &Move { x: 4, y: 1 }, false));
    assert!(!board.can_execute_move(&king, &Move { x: 1, y: 4 }, false));
    //  The king leaves the file.
    assert!(board.can_execute_move(&king, &Move { x: 0, y: 3 }, false));
    assert!(board.can_execute_move(&king, &Move { x: 1, y: 5 }, false));
    //  A piece blocks.
    assert!(board.can_execute_move(&rook, &Move { x: 3, y: 4 }, false));
    assert!(board.can_execute_move(&bishop, &Move { x: 3, y: 4 }, false));
    assert!(!board.can_execute_move(&bishop, &Move { x: 4, y: 3 }, false));
    assert!(!board.can_execute_move(&bishop, &Move { x: 6, y: 4 }, false));
    //  A piece captures the attacker.
    assert!(board.can_execute_move(&bishop, &Move { x: 7, y: 4 }, true));
    let taker = position_of(&[
        ChessPiece::new_king(0, 0, 4),
        ChessPiece::new_rook(1, 7, 4),
        ChessPiece::new_rook(0, 7, 7),
    ]);
    assert!(taker.can_execute_move(&ChessPiece::new_rook(0, 7, 7), &Move { x: 7, y: 4 }, true));
    assert!(!taker.can_execute_move(&ChessPiece::new_rook(0, 7, 7), &Move { x: 7, y: 5 }, false));
}

#[test]
fn a_pinned_piece_may_not_leave_the_line() {
    let guard = ChessPiece::new_bishop(0, 3, 4);
    let board = position_of(&[
        ChessPiece::new_king(0, 0, 4),
        ChessPiece::new_rook(1, 7, 4),
        guard,
    ]);
    assert!(!board.in_check(1));
    assert!(!board.can_execute_move(&guard, &Move { x: 4, y: 5 }, false));
    assert!(!board.can_execute_move(&guard, &Move { x: 2, y: 3 }, false));
    let rook_guard = ChessPiece::new_rook(0, 3, 4);
    let lined = position_of(&[
        ChessPiece::new_king(0, 0, 4),
        ChessPiece::new_rook(1, 7, 4),
        rook_guard,
    ]);
    assert!(lined.can_execute_move(&rook_guard, &Move { x: 5, y: 4 }, false));
    assert!(lined.can_execute_move(&rook_guard, &Move { x: 7, y: 4 }, true));
    assert!(!lined.can_execute_move(&rook_guard, &Move { x: 3, y: 0 }, false));
}

#[test]
fn the_gate_rejects_what_is_not_a_move() {
    let rook = ChessPiece::new_rook(0, 0, 0);
    let board = position_of(&[rook, ChessPiece::new_pawn(0, 0, 3), ChessPiece::new_king(0, 5, 5)]);
    //  Same square, off the board, a friendly square, beyond a blocker.
    assert!(!board.can_execute_move(&rook, &Move { x: 0, y: 0 }, false));
    assert!(!board.can_execute_move(&rook, &Move { x: 8, y: 0 }, false));
    assert!(!board.can_execute_move(&rook, &Move { x: 0, y: 3 }, true));
    assert!(!board.can_execute_move(&rook, &Move { x: 0, y: 4 }, false));
    assert!(!board.can_execute_move(&rook, &Move { x: 1, y: 1 }, false));
    assert!(board.can_execute_move(&rook, &Move { x: 0, y: 2 }, false));
    assert!(board.can_execute_move(&rook, &Move { x: 0, y: 2 }, true));
    //  A piece that is not on the board as named.
    let ghost = ChessPiece::new_rook(0, 4, 4);
    assert!(!board.can_execute_move(&ghost, &Move { x: 4, y: 5 }, false));
    let wrong_kind = ChessPiece::new_queen(0, 0, 0);
    assert!(!board.can_execute_move(&wrong_kind, &Move { x: 0, y: 1 }, false));
    let wrong_team = ChessPiece::new_rook(1, 0, 0);
    assert!(!board.can_execute_move(&wrong_team, &Move { x: 0, y: 1 }, false));
}

#[test]
fn a_king_may_not_step_next_to_an_attacker() {
    let king = ChessPiece::new_king(0, 0, 0);
    let board = position_of(&[king, ChessPiece::new_king(1, 2, 1), ChessPiece::new_pawn(1, 2, 0)]);
    assert!(!board.can_execute_move(&king, &Move { x: 1, y: 0 }, false));
    assert!(!board.can_execute_move(&king, &Move { x: 1, y: 1 }, false));
    assert!(board.can_execute_move(&king, &Move { x: 0, y: 1 }, false));
    assert!(board.can_move(&king));
    assert!(board.has_legal_move(0));
    assert!(board.has_legal_move(1));
}

#[test]
fn a_cornered_king_has_no_move() {
    let king = ChessPiece::new_king(0, 0, 0);
    let board = position_of(&[king, ChessPiece::new_queen(1, 1, 2), ChessPiece::new_king(1, 2, 1)]);
    assert!(!board.in_check(1));
    assert!(!board.can_execute_move(&king, &Move { x: 0, y: 1 }, false));
    assert!(!board.can_execute_move(&king, &Move { x: 1, y: 0 }, false));
    assert!(!board.can_execute_move(&king, &Move { x: 1, y: 1 }, false));
    assert!(!board.can_move(&king));
    assert!(!board.has_legal_move(0));
    assert!(board.has_legal_move(1));
    assert!(board.has_king(0));
    assert!(board.has_king(1));
    assert!(!board.has_king(2));
}
