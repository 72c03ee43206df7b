//! What holds of every match, proved from the definitions that the contracts
//! of the engine are stated in.

use crate::chess_error::ChessError;
use crate::chess_model::{
    standard_piece, standard_position, ChessPiece, ChessPieceTypes, Move,
};
use crate::game::ChessGame;
use crate::legality::{is_attacked, is_legal, king_attacked_at};
use crate::move_generator::{can_reach, forward, pawn_rank, step_vacant};
use crate::position::{
    after_move, held_by, held_by_enemy, king_at, lemma_well_formed_finite, magnitude, on_board,
    occupant, piece_count, rival, signum, span, stride, vacant, well_formed, Position,
};
use vstd::prelude::*;

verus! {

/// Whether `after` is what one accepted move makes of `before`.
pub open spec fn follows(before: ChessGame, after: ChessGame) -> bool {
    exists|piece: ChessPiece, move_to: Move| #[trigger]
        before.played(piece, move_to, after) && before.verdict(piece, move_to) is Ok
}

/// The starting arrangement of team 1 mirrors that of team 0: a square of
/// the ranks 0 and 1 and the square of the same file on the rank opposite
/// hold pieces of the same kind, the first of team 0 and the second of team
/// 1, and every square of the ranks between is empty.
pub proof fn law_start_mirrors(x: int, y: int)
    requires
        on_board(x, y),
    ensures
        x <= 1 ==> {
            &&& occupant(standard_position(), x, y) is Some
            &&& occupant(standard_position(), 7 - x, y) is Some
            &&& occupant(standard_position(), x, y)->Some_0.team == 0
            &&& occupant(standard_position(), 7 - x, y)->Some_0.team == 1
            &&& occupant(standard_position(), x, y)->Some_0.piece_type == occupant(
                standard_position(),
                7 - x,
                y,
            )->Some_0.piece_type
        },
        2 <= x <= 5 ==> vacant(standard_position(), x, y),
        occupant(standard_position(), x, y) == standard_piece(x, y),
{
    assert(standard_position().dom().contains((x, y)) <==> standard_piece(x, y) is Some);
    assert(standard_position().dom().contains((7 - x, y)) <==> standard_piece(7 - x, y) is Some);
}

/// An accepted move takes no piece off the board but the one on the
/// destination: the number of pieces is unchanged when the destination was
/// empty, and one less when it held a piece. The score of the mover's team
/// grows by the material value of the captured piece, by nothing when there
/// was none, and the score of the other team is unchanged.
pub proof fn law_move_counts(game: ChessGame, piece: ChessPiece, move_to: Move, after: ChessGame)
    requires
        game.board.wf(),
        game.has_room(move_to),
        game.verdict(piece, move_to) is Ok,
        game.played(piece, move_to, after),
    ensures
        vacant(game.board.position(), move_to.x as int, move_to.y as int) ==> {
            &&& piece_count(after.board.position()) == piece_count(game.board.position())
            &&& after.board.players[piece.team as int].score
                == game.board.players[piece.team as int].score
        },
        !vacant(game.board.position(), move_to.x as int, move_to.y as int) ==> {
            &&& held_by_enemy(game.board.position(), move_to.x as int, move_to.y as int, piece.team)
            &&& piece_count(after.board.position()) == piece_count(game.board.position()) - 1
            &&& after.board.players[piece.team as int].score
                == game.board.players[piece.team as int].score
                + game.board.position()[(move_to.x as int, move_to.y as int)].piece_type.material()
        },
        after.board.players[rival(piece.team) as int].score == game.board.players[rival(
            piece.team,
        ) as int].score,
{
    let pos = game.board.position();
    let from = (piece.x_loc as int, piece.y_loc as int);
    let to = (move_to.x as int, move_to.y as int);
    lemma_well_formed_finite(pos);
    assert(pos.dom().contains(from));
    assert(piece.team <= 1);
    assert(after.board.position().dom() =~= pos.dom().remove(from).insert(to));
}

/// Turns alternate. In a run of matches that begins on turn 1 and in which
/// each match follows from the one before by an accepted move, the match
/// after `n` moves is on turn `n + 1`, and the team to move is team 0 after
/// an even number of moves and team 1 after an odd number.
pub proof fn law_turns_alternate(run: Seq<ChessGame>, n: int)
    requires
        0 <= n < run.len(),
        run[0].turn == 1,
        forall|i: int| 0 <= i < run.len() - 1 ==> follows(#[trigger] run[i], run[i + 1]),
    ensures
        run[n].turn == n + 1,
        run[n].mover() == (if n % 2 == 0 { 0u8 } else { 1u8 }),
        n + 1 < run.len() ==> run[n + 1].mover() == rival(run[n].mover()),
    decreases n,
{
    if n > 0 {
        law_turns_alternate(run, n - 1);
        assert(follows(run[n - 1], run[n]));
    }
    if n + 1 < run.len() {
        assert(follows(run[n], run[n + 1]));
    }
}

/// No legal move leaves the mover's own king attacked. If, on the board that
/// the move of `piece` to `(tx, ty)` leaves, a king of the mover's team
/// stands on a square that the other team attacks, the move is not legal.
pub proof fn law_no_self_check(pos: Position, piece: ChessPiece, tx: int, ty: int, kx: int, ky: int)
    requires
        piece.team <= 1,
        king_at(after_move(pos, piece, tx, ty), kx, ky, piece.team),
        is_attacked(after_move(pos, piece, tx, ty), kx, ky, rival(piece.team)),
    ensures
        !is_legal(pos, piece, tx, ty),
{
    assert(king_attacked_at(after_move(pos, piece, tx, ty), kx, ky, rival(piece.team)));
}

/// A request that names a piece of the team that is not to move is turned
/// down. When the match is on, the piece stands on the board as named and the
/// destination is a square of the board, the answer is `NotPlayersTurn`.
pub proof fn law_out_of_turn(game: ChessGame, piece: ChessPiece, move_to: Move)
    requires
        piece.team != game.mover(),
    ensures
        game.verdict(piece, move_to) is Err,
        game.state is Active && occupant(
            game.board.position(),
            piece.x_loc as int,
            piece.y_loc as int,
        ) == Some(piece) && on_board(move_to.x as int, move_to.y as int) ==> game.verdict(
            piece,
            move_to,
        ) == Err::<(), ChessError>(ChessError::NotPlayersTurn),
{
}

/// A match that is over stays as it is: once the state is `Stalemate` or
/// `Won`, every request is turned down with `MoveNotPossible`.
pub proof fn law_over_is_over(game: ChessGame, piece: ChessPiece, move_to: Move)
    requires
        !(game.state is Active),
    ensures
        game.verdict(piece, move_to) == Err::<(), ChessError>(ChessError::MoveNotPossible),
{
}

/// A legal move keeps the board well formed: no piece is added, every piece
/// records its square, and no team gains a second king.
pub proof fn law_move_keeps_board(pos: Position, piece: ChessPiece, tx: int, ty: int)
    requires
        well_formed(pos),
        is_legal(pos, piece, tx, ty),
    ensures
        well_formed(after_move(pos, piece, tx, ty)),
        piece_count(after_move(pos, piece, tx, ty)) <= piece_count(pos),
{
    crate::chess_model::lemma_move_keeps_well_formed(pos, piece, tx, ty);
    lemma_well_formed_finite(pos);
    let from = (piece.x_loc as int, piece.y_loc as int);
    assert(pos.dom().contains(from));
    assert(after_move(pos, piece, tx, ty).dom() =~= pos.dom().remove(from).insert((tx, ty)));
}

/// A candidate destination is a square of the board other than the one the
/// piece stands on, and holds no piece of the mover's team.
pub proof fn law_reach_is_sound(pos: Position, piece: ChessPiece, tx: int, ty: int)
    requires
        can_reach(pos, piece, tx, ty),
    ensures
        on_board(tx, ty),
        !(tx == piece.x_loc && ty == piece.y_loc),
        !held_by(pos, tx, ty, piece.team),
{
}

/// Sliding pieces do not jump. When a bishop, a rook or a queen reaches a
/// square, every square between the piece and that square is empty.
pub proof fn law_sliders_do_not_jump(pos: Position, piece: ChessPiece, tx: int, ty: int, j: int)
    requires
        piece.piece_type == ChessPieceTypes::Bishop || piece.piece_type == ChessPieceTypes::Rook
            || piece.piece_type == ChessPieceTypes::Queen,
        can_reach(pos, piece, tx, ty),
        1 <= j < span(tx - piece.x_loc, ty - piece.y_loc),
    ensures
        vacant(
            pos,
            piece.x_loc + stride(j, signum(tx - piece.x_loc)),
            piece.y_loc + stride(j, signum(ty - piece.y_loc)),
        ),
{
    assert(step_vacant(
        pos,
        piece.x_loc as int,
        piece.y_loc as int,
        signum(tx - piece.x_loc),
        signum(ty - piece.y_loc),
        j,
    ));
}

/// A pawn goes forward only. It reaches a square of its own file only when
/// that square is empty, the square two ahead only from its starting rank,
/// and a square of a neighbouring file only when an enemy piece stands there.
pub proof fn law_pawn_geometry(pos: Position, piece: ChessPiece, tx: int, ty: int)
    requires
        piece.piece_type == ChessPieceTypes::Pawn,
        can_reach(pos, piece, tx, ty),
    ensures
        tx == piece.x_loc + forward(piece.team) || tx == piece.x_loc + 2 * forward(piece.team),
        magnitude(ty - piece.y_loc) <= 1,
        ty == piece.y_loc ==> vacant(pos, tx, ty),
        tx == piece.x_loc + 2 * forward(piece.team) ==> {
            &&& ty == piece.y_loc
            &&& piece.x_loc == pawn_rank(piece.team)
            &&& vacant(pos, piece.x_loc + forward(piece.team), ty)
        },
        ty != piece.y_loc ==> held_by_enemy(pos, tx, ty, piece.team),
{
}

} // verus!
