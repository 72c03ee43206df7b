use anchor_chess::chess_error::ChessError;
use anchor_chess::chess_model::{ChessBoard, ChessPiece, ChessPieceTypes, Move};
use anchor_lang::prelude::Pubkey;

fn board_with(pieces: &[ChessPiece]) -> ChessBoard {
    let mut board = ChessBoard::new();
    for p in pieces {
        assert_eq!(board.place(*p), Ok(()));
    }
    assert!(board.is_well_formed());
    board
}

fn sorted_squares(moves: Vec<Move>) -> Vec<(u8, u8)> {
    let mut v: Vec<(u8, u8)> = moves.iter().map(|m| (m.x, m.y)).collect();
    v.sort();
    v
}

#[test]
fn material_values() {
    assert_eq!(ChessPieceTypes::Pawn.value(), 1);
    assert_eq!(ChessPieceTypes::Knight.value(), 3);
    assert_eq!(ChessPieceTypes::Bishop.value(), 3);
    assert_eq!(ChessPieceTypes::Rook.value(), 5);
    assert_eq!(ChessPieceTypes::Queen.value(), 9);
    assert_eq!(ChessPieceTypes::King.value(), 0);
}

#[test]
fn constructors_fill_every_field() {
    let p = ChessPiece::new_pawn(1, 6, 2);
    assert_eq!(p, ChessPiece { team: 1, piece_type: ChessPieceTypes::Pawn, x_loc: 6, y_loc: 2 });
    assert_eq!(ChessPiece::new_knight(0, 0, 1).piece_type, ChessPieceTypes::Knight);
    assert_eq!(ChessPiece::new_bishop(0, 0, 2).piece_type, ChessPieceTypes::Bishop);
    assert_eq!(ChessPiece::new_rook(0, 0, 7).piece_type, ChessPieceTypes::Rook);
    assert_eq!(ChessPiece::new_queen(1, 7, 3).piece_type, ChessPieceTypes::Queen);
    let k = ChessPiece::new_king(1, 7, 4);
    assert_eq!(k, ChessPiece { team: 1, piece_type: ChessPieceTypes::King, x_loc: 7, y_loc: 4 });
}

#[test]
fn new_board_is_empty() {
    let board = ChessBoard::new();
    assert!(board.is_well_formed());
    for x in 0..8u8 {
        for y in 0..8u8 {
            assert_eq!(board.piece_at(x, y), None);
        }
    }
    assert_eq!(board.players[0].key, Pubkey::default());
    assert_eq!(board.players[1].key, Pubkey::default());
    assert_eq!(board.players[0].score, 0);
    assert_eq!(board.players[1].score, 0);
    assert!(board.pieces_of(0).is_empty());
    assert!(board.pieces_of(1).is_empty());
}

#[test]
fn piece_at_is_none_off_the_board() {
    let mut board = ChessBoard::new();
    assert!(board.initialize().is_ok());
    assert_eq!(board.piece_at(8, 0), None);
    assert_eq!(board.piece_at(0, 8), None);
    assert_eq!(board.piece_at(255, 255), None);
}

#[test]
fn initialize_sets_up_the_standard_arrangement() {
    let mut board = ChessBoard::new();
    assert_eq!(board.initialize(), Ok(()));
    assert!(board.is_well_formed());
    let back = [
        ChessPieceTypes::Rook,
        ChessPieceTypes::Knight,
        ChessPieceTypes::Bishop,
        ChessPieceTypes::Queen,
        ChessPieceTypes::King,
        ChessPieceTypes::Bishop,
        ChessPieceTypes::Knight,
        ChessPieceTypes::Rook,
    ];
    for y in 0..8u8 {
        let kind = back[y as usize];
        assert_eq!(
            board.piece_at(0, y),
            Some(ChessPiece { team: 0, piece_type: kind, x_loc: 0, y_loc: y })
        );
        assert_eq!(board.piece_at(1, y), Some(ChessPiece::new_pawn(0, 1, y)));
        for x in 2..6u8 {
            assert_eq!(board.piece_at(x, y), None);
        }
        assert_eq!(board.piece_at(6, y), Some(ChessPiece::new_pawn(1, 6, y)));
        assert_eq!(
            board.piece_at(7, y),
            Some(ChessPiece { team: 1, piece_type: kind, x_loc: 7, y_loc: y })
        );
    }
    assert_eq!(board.pieces_of(0).len(), 16);
    assert_eq!(board.pieces_of(1).len(), 16);
}

#[test]
fn initialize_clears_what_stood_before() {
    let mut board = board_with(&[ChessPiece::new_queen(1, 3, 3), ChessPiece::new_pawn(0, 1, 0)]);
    assert_eq!(board.initialize(), Ok(()));
    assert_eq!(board.piece_at(3, 3), None);
    assert_eq!(board.piece_at(1, 0), Some(ChessPiece::new_pawn(0, 1, 0)));
    assert_eq!(board.pieces_of(0).len() + board.pieces_of(1).len(), 32);
}

#[test]
fn place_rejects_bad_pieces() {
    let mut board = ChessBoard::new();
    assert_eq!(board.place(ChessPiece::new_pawn(0, 8, 0)), Err(ChessError::InvalidPiece));
    assert_eq!(board.place(ChessPiece::new_pawn(0, 0, 8)), Err(ChessError::InvalidPiece));
    assert_eq!(board.place(ChessPiece::new_pawn(2, 1, 1)), Err(ChessError::InvalidPiece));
    assert_eq!(board.place(ChessPiece::new_king(0, 0, 4)), Ok(()));
    assert_eq!(board.place(ChessPiece::new_pawn(1, 0, 4)), Err(ChessError::SpotOccupied));
    assert_eq!(board.place(ChessPiece::new_king(0, 5, 5)), Err(ChessError::InvalidPiece));
    assert_eq!(board.place(ChessPiece::new_king(1, 5, 5)), Ok(()));
    assert_eq!(board.piece_at(0, 4), Some(ChessPiece::new_king(0, 0, 4)));
    assert_eq!(board.piece_at(5, 5), Some(ChessPiece::new_king(1, 5, 5)));
    assert_eq!(board.pieces_of(0).len() + board.pieces_of(1).len(), 2);
}

#[test]
fn well_formedness_is_checked() {
    let mut board = ChessBoard::new();
    board.board[2][2] = Some(ChessPiece::new_pawn(0, 2, 3));
    assert!(!board.is_well_formed());
    board.board[2][2] = Some(ChessPiece::new_pawn(3, 2, 2));
    assert!(!board.is_well_formed());
    board.board[2][2] = Some(ChessPiece::new_king(0, 2, 2));
    assert!(board.is_well_formed());
    board.board[5][1] = Some(ChessPiece::new_king(0, 5, 1));
    assert!(!board.is_well_formed());
    board.board[5][1] = Some(ChessPiece::new_king(1, 5, 1));
    assert!(board.is_well_formed());
}

#[test]
fn pieces_of_lists_each_piece_once() {
    let rook = ChessPiece::new_rook(0, 0, 0);
    let pawn = ChessPiece::new_pawn(0, 0, 3);
    let enemy = ChessPiece::new_bishop(1, 4, 4);
    let board = board_with(&[rook, pawn, enemy]);
    let mine = board.pieces_of(0);
    assert_eq!(mine.len(), 2);
    assert!(mine.contains(&rook));
    assert!(mine.contains(&pawn));
    assert_eq!(board.pieces_of(1), vec![enemy]);
    assert!(board.pieces_of(2).is_empty());
}

#[test]
fn remove_takes_the_piece_off() {
    let rook = ChessPiece::new_rook(0, 2, 5);
    let mut board = board_with(&[rook, ChessPiece::new_pawn(1, 6, 6)]);
    let taken = board.remove(&Move { x: 2, y: 5 });
    assert_eq!(taken, rook);
    assert_eq!(board.piece_at(2, 5), None);
    assert_eq!(board.piece_at(6, 6), Some(ChessPiece::new_pawn(1, 6, 6)));
    assert_eq!(board.players[0].score, 0);
    assert_eq!(board.players[1].score, 0);
}

#[test]
fn relocate_moves_and_records_the_square() {
    let knight = ChessPiece::new_knight(1, 7, 1);
    let mut board = board_with(&[knight]);
    board.relocate(&knight, &Move { x: 5, y: 2 });
    assert_eq!(board.piece_at(7, 1), None);
    assert_eq!(board.piece_at(5, 2), Some(ChessPiece::new_knight(1, 5, 2)));
    assert!(board.is_well_formed());
}

#[test]
fn remove_piece_credits_the_other_team() {
    let queen = ChessPiece::new_queen(1, 4, 4);
    let mut board = board_with(&[queen, ChessPiece::new_rook(0, 4, 0)]);
    assert_eq!(board.remove_piece(&queen, &Move { x: 4, y: 4 }), Ok(()));
    assert_eq!(board.piece_at(4, 4), None);
    assert_eq!(board.players[0].score, 9);
    assert_eq!(board.players[1].score, 0);
    let rook = ChessPiece::new_rook(0, 4, 0);
    assert_eq!(board.remove_piece(&rook, &Move { x: 4, y: 0 }), Ok(()));
    assert_eq!(board.players[0].score, 9);
    assert_eq!(board.players[1].score, 5);
}

#[test]
fn remove_piece_fails_when_the_piece_is_not_there() {
    let queen = ChessPiece::new_queen(1, 4, 4);
    let mut board = board_with(&[queen]);
    let before = board;
    assert_eq!(board.remove_piece(&queen, &Move { x: 4, y: 5 }), Err(ChessError::RemoveError));
    assert_eq!(board.remove_piece(&queen, &Move { x: 9, y: 4 }), Err(ChessError::RemoveError));
    let other = ChessPiece::new_rook(1, 4, 4);
    assert_eq!(board.remove_piece(&other, &Move { x: 4, y: 4 }), Err(ChessError::RemoveError));
    assert_eq!(board, before);
}

#[test]
fn rook_is_blocked_by_a_friendly_piece() {
    let rook = ChessPiece::new_rook(0, 0, 0);
    let board = board_with(&[rook, ChessPiece::new_pawn(0, 0, 3)]);
    let reach = sorted_squares(board.candidate_destinations(&rook));
    assert!(reach.contains(&(0, 1)));
    assert!(reach.contains(&(0, 2)));
    assert!(!reach.contains(&(0, 3)));
    assert!(!reach.contains(&(0, 4)));
    assert!(!reach.contains(&(0, 7)));
    let mut expected = vec![(0, 1), (0, 2)];
    for x in 1..8u8 {
        expected.push((x, 0));
    }
    expected.sort();
    assert_eq!(reach, expected);
}

#[test]
fn rook_takes_the_first_enemy_and_stops() {
    let rook = ChessPiece::new_rook(0, 3, 3);
    let board = board_with(&[
        rook,
        ChessPiece::new_pawn(1, 3, 5),
        ChessPiece::new_pawn(1, 3, 6),
        ChessPiece::new_pawn(0, 5, 3),
    ]);
    let reach = sorted_squares(board.candidate_destinations(&rook));
    assert_eq!(
        reach,
        vec![(0, 3), (1, 3), (2, 3), (3, 0), (3, 1), (3, 2), (3, 4), (3, 5), (4, 3)]
    );
}

#[test]
fn bishop_slides_on_diagonals() {
    let bishop = ChessPiece::new_bishop(1, 2, 2);
    let board = board_with(&[bishop, ChessPiece::new_pawn(0, 4, 4), ChessPiece::new_pawn(1, 1, 1)]);
    let reach = sorted_squares(board.candidate_destinations(&bishop));
    assert_eq!(reach, vec![(0, 4), (1, 3), (3, 1), (3, 3), (4, 0), (4, 4)]);
}

#[test]
fn queen_on_an_empty_board_reaches_27_squares() {
    let queen = ChessPiece::new_queen(0, 3, 3);
    let board = board_with(&[queen]);
    let reach = sorted_squares(board.candidate_destinations(&queen));
    assert_eq!(reach.len(), 27);
    let mut expected: Vec<(u8, u8)> = Vec::new();
    for x in 0..8i16 {
        for y in 0..8i16 {
            let dx = (x - 3).abs();
            let dy = (y - 3).abs();
            if (dx, dy) != (0, 0) && (dx == 0 || dy == 0 || dx == dy) {
                expected.push((x as u8, y as u8));
            }
        }
    }
    assert_eq!(reach, expected);
}

#[test]
fn knight_leaps_over_pieces() {
    let knight = ChessPiece::new_knight(0, 0, 1);
    let board = board_with(&[
        knight,
        ChessPiece::new_pawn(0, 1, 0),
        ChessPiece::new_pawn(0, 1, 1),
        ChessPiece::new_pawn(0, 1, 2),
        ChessPiece::new_pawn(0, 1, 3),
        ChessPiece::new_pawn(1, 2, 2),
    ]);
    let reach = sorted_squares(board.candidate_destinations(&knight));
    assert_eq!(reach, vec![(2, 0), (2, 2)]);
    let centre = ChessPiece::new_knight(1, 4, 4);
    let open = board_with(&[centre]);
    assert_eq!(
        sorted_squares(open.candidate_destinations(&centre)),
        vec![(2, 3), (2, 5), (3, 2), (3, 6), (5, 2), (5, 6), (6, 3), (6, 5)]
    );
}

#[test]
fn king_steps_to_adjacent_squares() {
    let king = ChessPiece::new_king(0, 0, 4);
    let board = board_with(&[king, ChessPiece::new_pawn(0, 1, 4), ChessPiece::new_pawn(1, 1, 5)]);
    let reach = sorted_squares(board.candidate_destinations(&king));
    assert_eq!(reach, vec![(0, 3), (0, 5), (1, 3), (1, 5)]);
}

#[test]
fn pawn_advances_one_or_two_from_its_starting_rank() {
    let pawn = ChessPiece::new_pawn(0, 1, 3);
    let board = board_with(&[pawn]);
    assert_eq!(sorted_squares(board.candidate_destinations(&pawn)), vec![(2, 3), (3, 3)]);
    let moved = ChessPiece::new_pawn(0, 2, 3);
    let later = board_with(&[moved]);
    assert_eq!(sorted_squares(later.candidate_destinations(&moved)), vec![(3, 3)]);
}

#[test]
fn pawn_captures_only_diagonally() {
    let pawn = ChessPiece::new_pawn(0, 1, 3);
    let board = board_with(&[pawn, ChessPiece::new_pawn(1, 2, 4), ChessPiece::new_pawn(1, 2, 3)]);
    let reach = sorted_squares(board.candidate_destinations(&pawn));
    assert!(reach.contains(&(2, 4)));
    assert!(!reach.contains(&(2, 3)));
    assert_eq!(reach, vec![(2, 4)]);
    let alone = board_with(&[pawn]);
    assert!(!sorted_squares(alone.candidate_destinations(&pawn)).contains(&(2, 4)));
    let friend = board_with(&[pawn, ChessPiece::new_knight(0, 2, 2)]);
    assert_eq!(sorted_squares(friend.candidate_destinations(&pawn)), vec![(2, 3), (3, 3)]);
}

#[test]
fn pawn_double_step_needs_both_squares_empty() {
    let pawn = ChessPiece::new_pawn(0, 1, 3);
    let far = board_with(&[pawn, ChessPiece::new_pawn(1, 3, 3)]);
    assert_eq!(sorted_squares(far.candidate_destinations(&pawn)), vec![(2, 3)]);
    let near = board_with(&[pawn, ChessPiece::new_pawn(1, 2, 3)]);
    assert!(near.candidate_destinations(&pawn).is_empty());
}

#[test]
fn pawn_of_team_one_moves_down_the_board() {
    let pawn = ChessPiece::new_pawn(1, 6, 0);
    let board = board_with(&[pawn, ChessPiece::new_rook(0, 5, 1)]);
    assert_eq!(sorted_squares(board.candidate_destinations(&pawn)), vec![(4, 0), (5, 0), (5, 1)]);
    let last = ChessPiece::new_pawn(1, 0, 5);
    let edge = board_with(&[last]);
    assert!(edge.candidate_destinations(&last).is_empty());
}

#[test]
fn piece_off_the_board_reaches_nothing() {
    let board = ChessBoard::new();
    assert!(board.candidate_destinations(&ChessPiece::new_knight(0, 8, 6)).is_empty());
    assert!(board.candidate_destinations(&ChessPiece::new_queen(0, 3, 9)).is_empty());
}

#[test]
fn cast_ray_walks_one_direction() {
    let rook = ChessPiece::new_rook(0, 0, 0);
    let board = board_with(&[rook, ChessPiece::new_pawn(1, 0, 3)]);
    let mut out = vec![Move { x: 7, y: 7 }];
    board.cast_ray(&rook, 0, 1, 7, &mut out);
    assert_eq!(
        out,
        vec![Move { x: 7, y: 7 }, Move { x: 0, y: 1 }, Move { x: 0, y: 2 }, Move { x: 0, y: 3 }]
    );
    let mut short = Vec::new();
    board.cast_ray(&rook, 1, 1, 2, &mut short);
    assert_eq!(short, vec![Move { x: 1, y: 1 }, Move { x: 2, y: 2 }]);
    let mut none = Vec::new();
    board.cast_ray(&rook, -1, 0, 7, &mut none);
    assert!(none.is_empty());
}

#[test]
fn default_board_is_the_new_board() {
    let board = ChessBoard::default();
    assert_eq!(board, ChessBoard::new());
    assert!(board.is_well_formed());
    assert_eq!(board.players[0].team, 0);
    assert_eq!(board.players[1].team, 0);
    assert_eq!(board.players[1].key, Pubkey::default());
}
