//! Attacks, check, and the verdict on a single move.

use crate::chess_model::{ChessBoard, ChessPiece, ChessPieceTypes, Move};
use crate::move_generator::{can_reach, forward};
use crate::position::{
    after_move, held_by, king_at, magnitude, occupant, on_board, rival, Position,
};
use vstd::prelude::*;

verus! {

/// Whether `piece` attacks `(tx, ty)`: a pawn attacks the two squares
/// diagonally ahead of it, whatever stands on them; any other piece attacks
/// its candidate destinations.
pub open spec fn attacks(pos: Position, piece: ChessPiece, tx: int, ty: int) -> bool {
    match piece.piece_type {
        ChessPieceTypes::Pawn => {
            &&& on_board(piece.x_loc as int, piece.y_loc as int)
            &&& on_board(tx, ty)
            &&& tx == piece.x_loc + forward(piece.team)
            &&& magnitude(ty - piece.y_loc) == 1
        },
        _ => can_reach(pos, piece, tx, ty),
    }
}

/// Whether the piece on `(x, y)` belongs to `by_team` and attacks `(tx, ty)`.
pub open spec fn attacked_from(pos: Position, x: int, y: int, tx: int, ty: int, by_team: u8) -> bool {
    held_by(pos, x, y, by_team) && attacks(pos, pos[(x, y)], tx, ty)
}

/// Whether some piece of `by_team` attacks `(tx, ty)`.
pub open spec fn is_attacked(pos: Position, tx: int, ty: int, by_team: u8) -> bool {
    exists|x: int, y: int| #[trigger] attacked_from(pos, x, y, tx, ty, by_team)
}

/// Whether the king on `(x, y)` is one that `team_attacking` opposes and attacks.
pub open spec fn king_attacked_at(pos: Position, x: int, y: int, team_attacking: u8) -> bool {
    king_at(pos, x, y, rival(team_attacking)) && is_attacked(pos, x, y, team_attacking)
}

/// Whether `team_attacking` gives check: it attacks a king of the other team.
pub open spec fn checks(pos: Position, team_attacking: u8) -> bool {
    exists|x: int, y: int| #[trigger] king_attacked_at(pos, x, y, team_attacking)
}

/// Whether the move of `piece` to `(tx, ty)` is legal on the board `pos`:
/// the piece stands on the square it records; the destination is a square of
/// the board other than that one; it is a candidate destination of the piece;
/// it holds no piece of the mover's team; and once the move is made, the other
/// team does not give check.
pub open spec fn is_legal(pos: Position, piece: ChessPiece, tx: int, ty: int) -> bool {
    &&& occupant(pos, piece.x_loc as int, piece.y_loc as int) == Some(piece)
    &&& on_board(tx, ty)
    &&& !(tx == piece.x_loc && ty == piece.y_loc)
    &&& can_reach(pos, piece, tx, ty)
    &&& !held_by(pos, tx, ty, piece.team)
    &&& !checks(after_move(pos, piece, tx, ty), rival(piece.team))
}

/// The team that opposes `team`.
pub fn other_team(team: u8) -> (r: u8)
    ensures
        r == rival(team),
{
    if team == 0 {
        1
    } else {
        0
    }
}

/// Whether `(x, y)` is one of `squares`.
fn holds_square(squares: &Vec<Move>, x: u8, y: u8) -> (r: bool)
    ensures
        r == squares@.contains(Move { x, y }),
{
    let mut i: usize = 0;
    while i < squares.len()
        invariant
            i <= squares.len(),
            forall|j: int| 0 <= j < i ==> squares@[j] != (Move { x, y }),
        decreases squares.len() - i,
    {
        if squares[i].x == x && squares[i].y == y {
            return true;
        }
        i = i + 1;
    }
    false
}

impl ChessBoard {
    /// Whether `piece` attacks the square `(x, y)` on this board.
    pub fn attacks(&self, piece: &ChessPiece, x: u8, y: u8) -> (r: bool)
        ensures
            r == attacks(self.position(), *piece, x as int, y as int),
    {
        match piece.piece_type {
            ChessPieceTypes::Pawn => {
                if piece.x_loc > 7 || piece.y_loc > 7 || x > 7 || y > 7 {
                    return false;
                }
                let ahead: i8 = if piece.team == 0 {
                    piece.x_loc as i8 + 1
                } else {
                    piece.x_loc as i8 - 1
                };
                x as i8 == ahead && (y as i8 - piece.y_loc as i8 == 1 || piece.y_loc as i8
                    - y as i8 == 1)
            },
            _ => {
                let reach = self.candidate_destinations(piece);
                holds_square(&reach, x, y)
            },
        }
    }

    /// The attack oracle: whether some piece of `by_team` attacks the square `(x, y)`.
    pub fn is_attacked(&self, x: u8, y: u8, by_team: u8) -> (r: bool)
        ensures
            r == is_attacked(self.position(), x as int, y as int, by_team),
    {
        let ghost pos = self.position();
        let mut i: u8 = 0;
        while i < 8
            invariant
                i <= 8,
                pos == self.position(),
                forall|a: int, b: int|
                    0 <= a < i && 0 <= b < 8 ==> !#[trigger] attacked_from(
                        pos,
                        a,
                        b,
                        x as int,
                        y as int,
                        by_team,
                    ),
            decreases 8 - i,
        {
            let mut j: u8 = 0;
            while j < 8
                invariant
                    i < 8,
                    j <= 8,
                    pos == self.position(),
                    forall|a: int, b: int|
                        (0 <= a < i && 0 <= b < 8 || a == i && 0 <= b < j)
                            ==> !#[trigger] attacked_from(pos, a, b, x as int, y as int, by_team),
                decreases 8 - j,
            {
                match self.board[i as usize][j as usize] {
                    Some(p) => {
                        assert(pos.dom().contains((i as int, j as int)));
                        assert(pos[(i as int, j as int)] == p);
                        if p.team == by_team && self.attacks(&p, x, y) {
                            assert(attacked_from(pos, i as int, j as int, x as int, y as int, by_team));
                            return true;
                        }
                    },
                    None => {
                        assert(!pos.dom().contains((i as int, j as int)));
                    },
                }
                j = j + 1;
            }
            i = i + 1;
        }
        assert forall|a: int, b: int| !#[trigger] attacked_from(
            pos,
            a,
            b,
            x as int,
            y as int,
            by_team,
        ) by {
            if !(0 <= a < 8 && 0 <= b < 8) {
                assert(!pos.dom().contains((a, b)));
            }
        }
        false
    }

    /// Whether `team_attacking` gives check on this board: one of its pieces
    /// attacks a king of the other team.
    pub fn in_check(&self, team_attacking: u8) -> (r: bool)
        ensures
            r == checks(self.position(), team_attacking),
    {
        let ghost pos = self.position();
        let king_team = other_team(team_attacking);
        let mut i: u8 = 0;
        while i < 8
            invariant
                i <= 8,
                pos == self.position(),
                king_team == rival(team_attacking),
                forall|a: int, b: int|
                    0 <= a < i && 0 <= b < 8 ==> !#[trigger] king_attacked_at(
                        pos,
                        a,
                        b,
                        team_attacking,
                    ),
            decreases 8 - i,
        {
            let mut j: u8 = 0;
            while j < 8
                invariant
                    i < 8,
                    j <= 8,
                    pos == self.position(),
                    king_team == rival(team_attacking),
                    forall|a: int, b: int|
                        (0 <= a < i && 0 <= b < 8 || a == i && 0 <= b < j)
                            ==> !#[trigger] king_attacked_at(pos, a, b, team_attacking),
                decreases 8 - j,
            {
                match self.board[i as usize][j as usize] {
                    Some(p) => {
                        assert(pos.dom().contains((i as int, j as int)));
                        assert(pos[(i as int, j as int)] == p);
                        let is_king = match p.piece_type {
                            ChessPieceTypes::King => true,
                            _ => false,
                        };
                        if is_king && p.team == king_team && self.is_attacked(i, j, team_attacking) {
                            assert(king_attacked_at(pos, i as int, j as int, team_attacking));
                            return true;
                        }
                    },
                    None => {
                        assert(!pos.dom().contains((i as int, j as int)));
                    },
                }
                j = j + 1;
            }
            i = i + 1;
        }
        assert forall|a: int, b: int| !#[trigger] king_attacked_at(pos, a, b, team_attacking) by {
            if !(0 <= a < 8 && 0 <= b < 8) {
                assert(!pos.dom().contains((a, b)));
            }
        }
        false
    }

    /// Whether the move of `piece` to `chess_move` would leave the mover's
    /// team in check. The move is tried on a copy of the board; this board is
    /// not touched.
    pub fn moving_into_check(&self, piece: &ChessPiece, chess_move: &Move) -> (r: bool)
        requires
            self.wf(),
            occupant(self.position(), piece.x_loc as int, piece.y_loc as int) == Some(*piece),
            on_board(chess_move.x as int, chess_move.y as int),
            !(chess_move.x == piece.x_loc && chess_move.y == piece.y_loc),
        ensures
            r == checks(
                after_move(self.position(), *piece, chess_move.x as int, chess_move.y as int),
                rival(piece.team),
            ),
    {
        let ghost pos = self.position();
        let mut scratch = *self;
        if scratch.piece_at(chess_move.x, chess_move.y).is_some() {
            let _ = scratch.remove(chess_move);
        }
        assert(scratch.position().dom().contains((piece.x_loc as int, piece.y_loc as int)));
        scratch.relocate(piece, chess_move);
        assert(scratch.position() =~= after_move(
            pos,
            *piece,
            chess_move.x as int,
            chess_move.y as int,
        ));
        scratch.in_check(other_team(piece.team))
    }

    /// The legality checker: whether `piece` may move to `chess_move` on this
    /// board. The answer does not depend on `_occupied`.
    pub fn can_execute_move(&self, piece: &ChessPiece, chess_move: &Move, _occupied: bool) -> (r:
        bool)
        requires
            self.wf(),
        ensures
            r == is_legal(self.position(), *piece, chess_move.x as int, chess_move.y as int),
    {
        match self.piece_at(piece.x_loc, piece.y_loc) {
            Some(found) => {
                if found != *piece {
                    return false;
                }
            },
            None => {
                return false;
            },
        }
        if chess_move.x > 7 || chess_move.y > 7 {
            return false;
        }
        if chess_move.x == piece.x_loc && chess_move.y == piece.y_loc {
            return false;
        }
        let reach = self.candidate_destinations(piece);
        if !holds_square(&reach, chess_move.x, chess_move.y) {
            return false;
        }
        match self.piece_at(chess_move.x, chess_move.y) {
            Some(there) => {
                if there.team == piece.team {
                    return false;
                }
            },
            None => {},
        }
        !self.moving_into_check(piece, chess_move)
    }
}

} // verus!
