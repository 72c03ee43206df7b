//! The data of a match: pieces, squares, players and the board.

use crate::chess_error::ChessError;
use crate::position::{
    after_move, has_king, king_at, occupant, on_board, piece_count, rival, vacant, well_formed,
    Position,
};
use anchor_lang::prelude::Pubkey;
use vstd::prelude::*;

verus! {

/// `anchor_lang::prelude::Pubkey`, the address that identifies a player. The
/// engine carries it from the caller to the players of a match and never looks
/// inside.
#[verifier::external_type_specification]
#[verifier::external_body]
pub struct ExPubkey(Pubkey);

/// The state of a match.
#[derive(Debug, Clone, Copy, PartialEq, Eq, Structural)]
pub enum GameState {
    Active,
    Stalemate,
    Won { winner: u8 },
}

/// One of the two players.
#[derive(Debug, Clone, Copy, PartialEq, Eq)]
pub struct ChessPlayer {
    pub key: Pubkey,
    pub team: u8,
    pub score: u8,
}

/// The six kinds of piece.
#[derive(Debug, Clone, Copy, PartialEq, Eq, Structural)]
pub enum ChessPieceTypes {
    Pawn,
    Knight,
    Bishop,
    Rook,
    Queen,
    King,
}

impl ChessPieceTypes {
    /// The material value of a piece of this kind.
    pub open spec fn material(self) -> int {
        match self {
            ChessPieceTypes::Pawn => 1,
            ChessPieceTypes::Knight => 3,
            ChessPieceTypes::Bishop => 3,
            ChessPieceTypes::Rook => 5,
            ChessPieceTypes::Queen => 9,
            ChessPieceTypes::King => 0,
        }
    }

    /// The points that the capture of a piece of this kind is worth.
    pub fn value(&self) -> (v: u8)
        ensures
            v == self.material(),
    {
        match *self {
            ChessPieceTypes::Pawn => 1,
            ChessPieceTypes::Knight | ChessPieceTypes::Bishop => 3,
            ChessPieceTypes::Rook => 5,
            ChessPieceTypes::Queen => 9,
            ChessPieceTypes::King => 0,
        }
    }
}

/// A piece: its team, its kind and the square `(x_loc, y_loc)` it stands on.
#[derive(Debug, Clone, Copy, PartialEq, Eq, Structural)]
pub struct ChessPiece {
    pub team: u8,
    pub piece_type: ChessPieceTypes,
    pub x_loc: u8,
    pub y_loc: u8,
}

impl ChessPiece {
    /// A pawn of the team `tm` on the square `(x, y)`.
    pub fn new_pawn(tm: u8, x: u8, y: u8) -> (p: ChessPiece)
        ensures
            p == (ChessPiece { team: tm, piece_type: ChessPieceTypes::Pawn, x_loc: x, y_loc: y }),
    {
        ChessPiece { team: tm, piece_type: ChessPieceTypes::Pawn, x_loc: x, y_loc: y }
    }

    /// A knight of the team `tm` on the square `(x, y)`.
    pub fn new_knight(tm: u8, x: u8, y: u8) -> (p: ChessPiece)
        ensures
            p == (ChessPiece { team: tm, piece_type: ChessPieceTypes::Knight, x_loc: x, y_loc: y }),
    {
        ChessPiece { team: tm, piece_type: ChessPieceTypes::Knight, x_loc: x, y_loc: y }
    }

    /// A bishop of the team `tm` on the square `(x, y)`.
    pub fn new_bishop(tm: u8, x: u8, y: u8) -> (p: ChessPiece)
        ensures
            p == (ChessPiece { team: tm, piece_type: ChessPieceTypes::Bishop, x_loc: x, y_loc: y }),
    {
        ChessPiece { team: tm, piece_type: ChessPieceTypes::Bishop, x_loc: x, y_loc: y }
    }

    /// A rook of the team `tm` on the square `(x, y)`.
    pub fn new_rook(tm: u8, x: u8, y: u8) -> (p: ChessPiece)
        ensures
            p == (ChessPiece { team: tm, piece_type: ChessPieceTypes::Rook, x_loc: x, y_loc: y }),
    {
        ChessPiece { team: tm, piece_type: ChessPieceTypes::Rook, x_loc: x, y_loc: y }
    }

    /// A queen of the team `tm` on the square `(x, y)`.
    pub fn new_queen(tm: u8, x: u8, y: u8) -> (p: ChessPiece)
        ensures
            p == (ChessPiece { team: tm, piece_type: ChessPieceTypes::Queen, x_loc: x, y_loc: y }),
    {
        ChessPiece { team: tm, piece_type: ChessPieceTypes::Queen, x_loc: x, y_loc: y }
    }

    /// A king of the team `tm` on the square `(x, y)`.
    pub fn new_king(tm: u8, x: u8, y: u8) -> (p: ChessPiece)
        ensures
            p == (ChessPiece { team: tm, piece_type: ChessPieceTypes::King, x_loc: x, y_loc: y }),
    {
        ChessPiece { team: tm, piece_type: ChessPieceTypes::King, x_loc: x, y_loc: y }
    }
}

/// A destination square.
#[derive(Debug, Clone, Copy, PartialEq, Eq, Structural)]
pub struct Move {
    pub x: u8,
    pub y: u8,
}

/// The board: the two players and the 8×8 grid, indexed `board[x][y]`.
#[derive(Debug, Clone, Copy, PartialEq, Eq)]
pub struct ChessBoard {
    pub players: [ChessPlayer; 2],
    pub board: [[Option<ChessPiece>; 8]; 8],
}

/// Calls `Pubkey::default`. Nothing is claimed of the identity it returns.
#[verifier::external_body]
fn unset_key() -> Pubkey {
    Pubkey::default()
}

impl Default for ChessPlayer {
    /// A player without a name, of team 0, without points.
    fn default() -> (p: ChessPlayer)
        ensures
            p.team == 0,
            p.score == 0,
    {
        ChessPlayer { key: unset_key(), team: 0, score: 0 }
    }
}

impl Default for ChessBoard {
    /// An empty board, as `new` gives it.
    fn default() -> (b: ChessBoard)
        ensures
            b.position() == Map::<(int, int), ChessPiece>::empty(),
            b.wf(),
            b.players[0].score == 0,
            b.players[1].score == 0,
            b.players[0].team == 0,
            b.players[1].team == 0,
    {
        ChessBoard::new()
    }
}

impl ChessBoard {
    /// The board as a map from squares to pieces.
    pub open spec fn position(&self) -> Position {
        Map::new(
            |sq: (int, int)| on_board(sq.0, sq.1) && self.board[sq.0][sq.1] is Some,
            |sq: (int, int)| self.board[sq.0][sq.1]->Some_0,
        )
    }

    /// Whether the grid meets the invariants of a board snapshot.
    pub open spec fn wf(&self) -> bool {
        well_formed(self.position())
    }

    /// An empty board with two unnamed players without points.
    pub fn new() -> (b: ChessBoard)
        ensures
            b.position() == Map::<(int, int), ChessPiece>::empty(),
            b.wf(),
            b.players[0].score == 0,
            b.players[1].score == 0,
            b.players[0].team == 0,
            b.players[1].team == 0,
    {
        let b = ChessBoard {
            players: [ChessPlayer::default(), ChessPlayer::default()],
            board: [[None; 8]; 8],
        };
        assert(b.position() =~= Map::<(int, int), ChessPiece>::empty());
        b
    }

    /// What stands on `(x, y)`; nothing stands outside the board.
    pub fn piece_at(&self, x: u8, y: u8) -> (r: Option<ChessPiece>)
        ensures
            r == occupant(self.position(), x as int, y as int),
            !on_board(x as int, y as int) ==> r is None,
    {
        if x < 8 && y < 8 {
            self.board[x as usize][y as usize]
        } else {
            None
        }
    }

    /// Whether `team` has a king on this board.
    pub fn has_king(&self, team: u8) -> (r: bool)
        ensures
            r == has_king(self.position(), team),
    {
        let ghost pos = self.position();
        let mut i: u8 = 0;
        while i < 8
            invariant
                i <= 8,
                pos == self.position(),
                forall|a: int, b: int| 0 <= a < i && 0 <= b < 8 ==> !#[trigger] king_at(pos, a, b, team),
            decreases 8 - i,
        {
            let mut j: u8 = 0;
            while j < 8
                invariant
                    i < 8,
                    j <= 8,
                    pos == self.position(),
                    forall|a: int, b: int|
                        (0 <= a < i && 0 <= b < 8 || a == i && 0 <= b < j) ==> !#[trigger] king_at(
                            pos,
                            a,
                            b,
                            team,
                        ),
                decreases 8 - j,
            {
                match self.board[i as usize][j as usize] {
                    Some(p) => {
                        assert(pos.dom().contains((i as int, j as int)));
                        assert(pos[(i as int, j as int)] == p);
                        let is_king = match p.piece_type {
                            ChessPieceTypes::King => true,
                            _ => false,
                        };
                        if is_king && p.team == team {
                            assert(king_at(pos, i as int, j as int, team));
                            return true;
                        }
                    },
                    None => {
                        assert(!pos.dom().contains((i as int, j as int)));
                    },
                }
                j = j + 1;
            }
            i = i + 1;
        }
        assert forall|a: int, b: int| !#[trigger] king_at(pos, a, b, team) by {
            if !(0 <= a < 8 && 0 <= b < 8) {
                assert(!pos.dom().contains((a, b)));
            }
        }
        false
    }

    /// Puts `piece` on the empty square that it records. Fails with
    /// `InvalidPiece` if that square is off the board, if the team of the
    /// piece is neither 0 nor 1, or if the piece is a king and its team has
    /// one already; fails with `SpotOccupied` if the square holds a piece. A
    /// failure changes nothing.
    pub fn place(&mut self, piece: ChessPiece) -> (r: Result<(), ChessError>)
        requires
            old(self).wf(),
        ensures
            r == placement(old(self).position(), piece),
            r is Err ==> *final(self) == *old(self),
            r is Ok ==> final(self).position() == old(self).position().insert(
                (piece.x_loc as int, piece.y_loc as int),
                piece,
            ),
            final(self).players == old(self).players,
            final(self).wf(),
    {
        if piece.x_loc > 7 || piece.y_loc > 7 || piece.team > 1 {
            return Err(ChessError::InvalidPiece);
        }
        if self.piece_at(piece.x_loc, piece.y_loc).is_some() {
            return Err(ChessError::SpotOccupied);
        }
        let is_king = match piece.piece_type {
            ChessPieceTypes::King => true,
            _ => false,
        };
        if is_king && self.has_king(piece.team) {
            return Err(ChessError::InvalidPiece);
        }
        let ghost before = self.position();
        self.board[piece.x_loc as usize][piece.y_loc as usize] = Some(piece);
        proof {
            let after = before.insert((piece.x_loc as int, piece.y_loc as int), piece);
            assert(self.position() =~= after);
            assert forall|ax: int, ay: int, bx: int, by: int, team: u8|
                king_at(after, ax, ay, team) && king_at(after, bx, by, team) implies ax == bx
                && ay == by by {
                if (ax, ay) != (piece.x_loc as int, piece.y_loc as int) {
                    assert(king_at(before, ax, ay, team));
                }
                if (bx, by) != (piece.x_loc as int, piece.y_loc as int) {
                    assert(king_at(before, bx, by, team));
                }
            }
        }
        Ok(())
    }

    /// Fills the grid with the standard starting arrangement: team 0 on the
    /// ranks 0 and 1, team 1 on the ranks 6 and 7, every other square empty.
    /// The players are left as they are.
    pub fn initialize(&mut self) -> (r: Result<(), ChessError>)
        ensures
            r is Ok,
            final(self).position() == standard_position(),
            piece_count(final(self).position()) == 32,
            final(self).players == old(self).players,
            final(self).wf(),
    {
        let mut y: u8 = 0;
        while y < 8
            invariant
                y <= 8,
                self.players == old(self).players,
                forall|i: int, j: int|
                    0 <= i < 8 && 0 <= j < y ==> #[trigger] self.board[i][j] == standard_piece(
                        i,
                        j,
                    ),
            decreases 8 - y,
        {
            self.board[0][y as usize] = Some(back_rank_piece(0, 0, y));
            self.board[1][y as usize] = Some(ChessPiece::new_pawn(0, 1, y));
            self.board[2][y as usize] = None;
            self.board[3][y as usize] = None;
            self.board[4][y as usize] = None;
            self.board[5][y as usize] = None;
            self.board[6][y as usize] = Some(ChessPiece::new_pawn(1, 6, y));
            self.board[7][y as usize] = Some(back_rank_piece(1, 7, y));
            y = y + 1;
        }
        proof {
            assert(self.position() =~= standard_position());
            lemma_standard_position();
        }
        Ok(())
    }

    /// The roster of `team`: the pieces of that team that stand on the
    /// board, each once, in the order of their squares.
    pub fn pieces_of(&self, team: u8) -> (r: Vec<ChessPiece>)
        requires
            self.wf(),
        ensures
            forall|p: ChessPiece|
                r@.contains(p) <==> (p.team == team && occupant(
                    self.position(),
                    p.x_loc as int,
                    p.y_loc as int,
                ) == Some(p)),
            forall|i: int, j: int| 0 <= i < j < r@.len() ==> stands_before(r@[i], r@[j]),
            r@.no_duplicates(),
    {
        let ghost pos = self.position();
        let mut r: Vec<ChessPiece> = Vec::new();
        let mut x: u8 = 0;
        while x < 8
            invariant
                x <= 8,
                pos == self.position(),
                well_formed(pos),
                forall|p: ChessPiece|
                    r@.contains(p) <==> (p.team == team && p.x_loc < x && occupant(
                        pos,
                        p.x_loc as int,
                        p.y_loc as int,
                    ) == Some(p)),
                forall|i: int, j: int| 0 <= i < j < r@.len() ==> stands_before(r@[i], r@[j]),
                r@.no_duplicates(),
            decreases 8 - x,
        {
            let mut y: u8 = 0;
            while y < 8
                invariant
                    x < 8,
                    y <= 8,
                    pos == self.position(),
                    well_formed(pos),
                    forall|p: ChessPiece|
                        r@.contains(p) <==> (p.team == team && (p.x_loc < x || p.x_loc == x
                            && p.y_loc < y) && occupant(pos, p.x_loc as int, p.y_loc as int)
                            == Some(p)),
                    forall|i: int, j: int| 0 <= i < j < r@.len() ==> stands_before(r@[i], r@[j]),
                    r@.no_duplicates(),
                decreases 8 - y,
            {
                let ghost before = r@;
                let cell = self.board[x as usize][y as usize];
                match cell {
                    Some(q) => {
                        assert(pos.dom().contains((x as int, y as int)));
                        assert(pos[(x as int, y as int)] == q);
                        if q.team == team {
                            r.push(q);
                            assert(!before.contains(q));
                            assert(r@[before.len() as int] == q);
                            assert forall|i: int, j: int| 0 <= i < j < r@.len() implies stands_before(
                                r@[i],
                                r@[j],
                            ) by {
                                if j == before.len() {
                                    assert(before.contains(before[i]));
                                }
                            }
                        }
                    },
                    None => {
                        assert(!pos.dom().contains((x as int, y as int)));
                    },
                }
                proof {
                    let added = cell is Some && cell->Some_0.team == team;
                    assert forall|p: ChessPiece| r@.contains(p) <==> (before.contains(p) || (added
                        && Some(p) == cell)) by {
                        if before.contains(p) {
                            let i = choose|i: int| 0 <= i < before.len() && before[i] == p;
                            assert(r@[i] == p);
                        }
                        if r@.contains(p) {
                            let i = choose|i: int| 0 <= i < r@.len() && r@[i] == p;
                            if i < before.len() {
                                assert(before[i] == p);
                            }
                        }
                    }
                    assert forall|p: ChessPiece|
                        r@.contains(p) <==> (p.team == team && (p.x_loc < x || p.x_loc == x
                            && p.y_loc < y + 1) && occupant(pos, p.x_loc as int, p.y_loc as int)
                            == Some(p)) by {
                        assert(before.contains(p) <==> (p.team == team && (p.x_loc < x || p.x_loc
                            == x && p.y_loc < y) && occupant(pos, p.x_loc as int, p.y_loc as int)
                            == Some(p)));
                        assert(occupant(pos, x as int, y as int) == cell);
                        if cell is Some {
                            assert(pos.dom().contains((x as int, y as int)));
                            assert(cell->Some_0.x_loc == x && cell->Some_0.y_loc == y);
                        }
                    }
                }
                y = y + 1;
            }
            x = x + 1;
        }
        r
    }

    /// Takes whatever stands on `square` off the board and hands it back.
    pub fn remove(&mut self, square: &Move) -> (taken: ChessPiece)
        requires
            on_board(square.x as int, square.y as int),
            !vacant(old(self).position(), square.x as int, square.y as int),
        ensures
            Some(taken) == occupant(old(self).position(), square.x as int, square.y as int),
            final(self).position() == old(self).position().remove(
                (square.x as int, square.y as int),
            ),
            final(self).players == old(self).players,
            old(self).wf() ==> final(self).wf(),
    {
        let ghost before = self.position();
        assert(before.dom().contains((square.x as int, square.y as int)));
        let taken = match self.board[square.x as usize][square.y as usize] {
            Some(p) => p,
            None => { proof { assert(false); } ChessPiece::new_pawn(0, 0, 0) },
        };
        self.board[square.x as usize][square.y as usize] = None;
        proof {
            let after = before.remove((square.x as int, square.y as int));
            assert(self.position() =~= after);
            if well_formed(before) {
                lemma_remove_keeps_well_formed(before, square.x as int, square.y as int);
            }
        }
        taken
    }

    /// Moves `piece` from the square it stands on to the empty square
    /// `destination`, and records the new square in the piece.
    pub fn relocate(&mut self, piece: &ChessPiece, destination: &Move)
        requires
            old(self).wf(),
            occupant(old(self).position(), piece.x_loc as int, piece.y_loc as int) == Some(
                *piece,
            ),
            on_board(destination.x as int, destination.y as int),
            vacant(old(self).position(), destination.x as int, destination.y as int),
        ensures
            final(self).position() == after_move(
                old(self).position(),
                *piece,
                destination.x as int,
                destination.y as int,
            ),
            final(self).players == old(self).players,
            final(self).wf(),
    {
        let ghost before = self.position();
        assert(before.dom().contains((piece.x_loc as int, piece.y_loc as int)));
        let moved = ChessPiece {
            team: piece.team,
            piece_type: piece.piece_type,
            x_loc: destination.x,
            y_loc: destination.y,
        };
        self.board[piece.x_loc as usize][piece.y_loc as usize] = None;
        self.board[destination.x as usize][destination.y as usize] = Some(moved);
        proof {
            let after = after_move(before, *piece, destination.x as int, destination.y as int);
            assert(self.position() =~= after);
            lemma_move_keeps_well_formed(
                before,
                *piece,
                destination.x as int,
                destination.y as int,
            );
        }
    }

    /// Captures `piece`, which stands on the square `make_move`: takes it off
    /// the board and credits its material value to the player of the other
    /// team. Fails with `RemoveError`, and changes nothing, unless `piece` is
    /// what stands on that square.
    pub fn remove_piece(&mut self, piece: &ChessPiece, make_move: &Move) -> (r: Result<
        (),
        ChessError,
    >)
        requires
            old(self).wf(),
            occupant(old(self).position(), make_move.x as int, make_move.y as int) == Some(*piece)
                ==> old(self).players[rival(piece.team) as int].score
                + piece.piece_type.material() <= u8::MAX,
        ensures
            r is Ok <==> occupant(old(self).position(), make_move.x as int, make_move.y as int)
                == Some(*piece),
            r is Err ==> r == Err::<(), ChessError>(ChessError::RemoveError) && *final(self)
                == *old(self),
            r is Ok ==> {
                &&& final(self).position() == old(self).position().remove(
                    (make_move.x as int, make_move.y as int),
                )
                &&& final(self).players == credited(
                    old(self).players,
                    rival(piece.team),
                    piece.piece_type.material(),
                )
                &&& final(self).wf()
            },
    {
        match self.piece_at(make_move.x, make_move.y) {
            Some(found) => {
                if found != *piece {
                    return Err(ChessError::RemoveError);
                }
            },
            None => {
                return Err(ChessError::RemoveError);
            },
        }
        let taken = self.remove(make_move);
        let gain = taken.piece_type.value();
        let side: usize = if piece.team == 0 {
            1
        } else {
            0
        };
        let ghost before = self.players;
        let player = self.players[side];
        self.players[side] = ChessPlayer {
            key: player.key,
            team: player.team,
            score: player.score + gain,
        };
        assert(self.players =~= credited(before, side as u8, gain as int));
        Ok(())
    }

    /// Whether the grid meets the invariants of a board snapshot.
    pub fn is_well_formed(&self) -> (ok: bool)
        ensures
            ok == self.wf(),
    {
        let ghost pos = self.position();
        let mut king0: Option<(u8, u8)> = None;
        let mut king1: Option<(u8, u8)> = None;
        let mut x: u8 = 0;
        while x < 8
            invariant
                x <= 8,
                pos == self.position(),
                forall|i: int, j: int|
                    0 <= i < x && 0 <= j < 8 && #[trigger] pos.dom().contains((i, j)) ==> placed(
                        pos,
                        i,
                        j,
                    ),
                forall|i: int, j: int|
                    0 <= i < x && 0 <= j < 8 && #[trigger] king_at(pos, i, j, 0) ==> king0 == Some(
                        (i as u8, j as u8),
                    ),
                forall|i: int, j: int|
                    0 <= i < x && 0 <= j < 8 && #[trigger] king_at(pos, i, j, 1) ==> king1 == Some(
                        (i as u8, j as u8),
                    ),
                king0 is Some ==> met_king(pos, king0->Some_0, 0, x as int, 0),
                king1 is Some ==> met_king(pos, king1->Some_0, 1, x as int, 0),
            decreases 8 - x,
        {
            let mut y: u8 = 0;
            while y < 8
                invariant
                    x < 8,
                    y <= 8,
                    pos == self.position(),
                    forall|i: int, j: int|
                        (0 <= i < x && 0 <= j < 8 || i == x && 0 <= j < y)
                            && #[trigger] pos.dom().contains((i, j)) ==> placed(pos, i, j),
                    forall|i: int, j: int|
                        (0 <= i < x && 0 <= j < 8 || i == x && 0 <= j < y) && #[trigger] king_at(
                            pos,
                            i,
                            j,
                            0,
                        ) ==> king0 == Some((i as u8, j as u8)),
                    forall|i: int, j: int|
                        (0 <= i < x && 0 <= j < 8 || i == x && 0 <= j < y) && #[trigger] king_at(
                            pos,
                            i,
                            j,
                            1,
                        ) ==> king1 == Some((i as u8, j as u8)),
                    king0 is Some ==> met_king(pos, king0->Some_0, 0, x as int, y as int),
                    king1 is Some ==> met_king(pos, king1->Some_0, 1, x as int, y as int),
                decreases 8 - y,
            {
                match self.board[x as usize][y as usize] {
                    Some(p) => {
                        assert(pos.dom().contains((x as int, y as int)));
                        if p.x_loc != x || p.y_loc != y || p.team > 1 {
                            return false;
                        }
                        match p.piece_type {
                            ChessPieceTypes::King => {
                                assert(king_at(pos, x as int, y as int, p.team));
                                if p.team == 0 {
                                    if king0.is_some() {
                                        return false;
                                    }
                                    king0 = Some((x, y));
                                } else {
                                    if king1.is_some() {
                                        return false;
                                    }
                                    king1 = Some((x, y));
                                }
                            },
                            _ => {},
                        }
                    },
                    None => {},
                }
                y = y + 1;
            }
            x = x + 1;
        }
        assert forall|sq: (int, int)| #[trigger] pos.dom().contains(sq) implies {
            &&& on_board(sq.0, sq.1)
            &&& pos[sq].x_loc == sq.0
            &&& pos[sq].y_loc == sq.1
            &&& pos[sq].team <= 1
        } by {
            assert(pos.dom().contains((sq.0, sq.1)));
        }
        true
    }
}

/// Whether the square of `a` comes before that of `b`, rank by rank and file
/// by file within a rank.
pub open spec fn stands_before(a: ChessPiece, b: ChessPiece) -> bool {
    a.x_loc < b.x_loc || (a.x_loc == b.x_loc && a.y_loc < b.y_loc)
}

/// Whether the piece on `(i, j)` records that square and belongs to team 0 or 1.
pub open spec fn placed(pos: Position, i: int, j: int) -> bool {
    &&& pos[(i, j)].x_loc == i
    &&& pos[(i, j)].y_loc == j
    &&& pos[(i, j)].team <= 1
}

/// Whether `at` holds the king of `team` and comes before `(x, y)` in the
/// order in which the grid is read.
pub open spec fn met_king(pos: Position, at: (u8, u8), team: u8, x: int, y: int) -> bool {
    &&& king_at(pos, at.0 as int, at.1 as int, team)
    &&& (at.0 < x || at.0 == x && at.1 < y)
}

/// What `place` answers to the request to put `piece` on the board `pos`.
pub open spec fn placement(pos: Position, piece: ChessPiece) -> Result<(), ChessError> {
    if !on_board(piece.x_loc as int, piece.y_loc as int) || piece.team > 1 {
        Err(ChessError::InvalidPiece)
    } else if !vacant(pos, piece.x_loc as int, piece.y_loc as int) {
        Err(ChessError::SpotOccupied)
    } else if piece.piece_type == ChessPieceTypes::King && has_king(pos, piece.team) {
        Err(ChessError::InvalidPiece)
    } else {
        Ok(())
    }
}

/// The kind of piece that starts on the file `y` of a back rank.
pub open spec fn back_rank_kind(y: int) -> ChessPieceTypes {
    if y == 0 || y == 7 {
        ChessPieceTypes::Rook
    } else if y == 1 || y == 6 {
        ChessPieceTypes::Knight
    } else if y == 2 || y == 5 {
        ChessPieceTypes::Bishop
    } else if y == 3 {
        ChessPieceTypes::Queen
    } else {
        ChessPieceTypes::King
    }
}

/// What stands on `(x, y)` when a match starts.
pub open spec fn standard_piece(x: int, y: int) -> Option<ChessPiece> {
    if !on_board(x, y) {
        None
    } else if x == 0 || x == 7 {
        Some(
            ChessPiece {
                team: if x == 0 { 0u8 } else { 1u8 },
                piece_type: back_rank_kind(y),
                x_loc: x as u8,
                y_loc: y as u8,
            },
        )
    } else if x == 1 || x == 6 {
        Some(
            ChessPiece {
                team: if x == 1 { 0u8 } else { 1u8 },
                piece_type: ChessPieceTypes::Pawn,
                x_loc: x as u8,
                y_loc: y as u8,
            },
        )
    } else {
        None
    }
}

/// The board when a match starts.
pub open spec fn standard_position() -> Position {
    Map::new(
        |sq: (int, int)| standard_piece(sq.0, sq.1) is Some,
        |sq: (int, int)| standard_piece(sq.0, sq.1)->Some_0,
    )
}

/// The players once `gain` points have been added to the score of the player
/// of `team`.
pub open spec fn credited(players: [ChessPlayer; 2], team: u8, gain: int) -> [ChessPlayer; 2] {
    let t = team as int;
    vstd::array::spec_array_update(
        players,
        t,
        ChessPlayer {
            key: players[t].key,
            team: players[t].team,
            score: (players[t].score + gain) as u8,
        },
    )
}

/// The piece that starts on the file `y` of the back rank `x` of `team`.
fn back_rank_piece(team: u8, x: u8, y: u8) -> (p: ChessPiece)
    ensures
        p == (ChessPiece { team, piece_type: back_rank_kind(y as int), x_loc: x, y_loc: y }),
{
    if y == 0 || y == 7 {
        ChessPiece::new_rook(team, x, y)
    } else if y == 1 || y == 6 {
        ChessPiece::new_knight(team, x, y)
    } else if y == 2 || y == 5 {
        ChessPiece::new_bishop(team, x, y)
    } else if y == 3 {
        ChessPiece::new_queen(team, x, y)
    } else {
        ChessPiece::new_king(team, x, y)
    }
}

/// The starting arrangement is a well-formed board of 32 pieces.
pub proof fn lemma_standard_position()
    ensures
        well_formed(standard_position()),
        piece_count(standard_position()) == 32,
{
    let pos = standard_position();
    assert forall|ax: int, ay: int, bx: int, by: int, team: u8|
        king_at(pos, ax, ay, team) && king_at(pos, bx, by, team) implies ax == bx && ay == by by {
        assert(pos.dom().contains((ax, ay)) && pos.dom().contains((bx, by)));
    }
    let idx = vstd::set_lib::set_int_range(0, 32);
    vstd::set_lib::lemma_int_range(0, 32);
    let f = |i: int| (if i < 16 { i / 8 } else { i / 8 + 4 }, i % 8);
    assert forall|sq: (int, int)| pos.dom().contains(sq) implies idx.map(f).contains(sq) by {
        let i = if sq.0 < 2 {
            sq.0 * 8 + sq.1
        } else {
            (sq.0 - 4) * 8 + sq.1
        };
        assert(idx.contains(i) && f(i) == sq);
    }
    assert forall|sq: (int, int)| idx.map(f).contains(sq) implies pos.dom().contains(sq) by {
        let i = choose|i: int| idx.contains(i) && f(i) == sq;
        assert(standard_piece(sq.0, sq.1) is Some);
    }
    assert(idx.map(f) =~= pos.dom());
    assert forall|a: int, b: int| idx.contains(a) && idx.contains(b) && f(a) == f(b) implies a
        == b by {}
    vstd::set_lib::lemma_map_size(idx, pos.dom(), f);
}

/// Taking a piece off a well-formed board leaves a well-formed board.
pub proof fn lemma_remove_keeps_well_formed(pos: Position, x: int, y: int)
    requires
        well_formed(pos),
    ensures
        well_formed(pos.remove((x, y))),
{
    let after = pos.remove((x, y));
    assert forall|ax: int, ay: int, bx: int, by: int, team: u8|
        king_at(after, ax, ay, team) && king_at(after, bx, by, team) implies ax == bx && ay
        == by by {
        assert(king_at(pos, ax, ay, team) && king_at(pos, bx, by, team));
    }
}

/// Moving a piece of a well-formed board to one of the 64 squares leaves a
/// well-formed board.
pub proof fn lemma_move_keeps_well_formed(pos: Position, piece: ChessPiece, tx: int, ty: int)
    requires
        well_formed(pos),
        occupant(pos, piece.x_loc as int, piece.y_loc as int) == Some(piece),
        on_board(tx, ty),
    ensures
        well_formed(after_move(pos, piece, tx, ty)),
{
    let after = after_move(pos, piece, tx, ty);
    let fx = piece.x_loc as int;
    let fy = piece.y_loc as int;
    assert(pos.dom().contains((fx, fy)));
    assert forall|ax: int, ay: int, bx: int, by: int, team: u8|
        king_at(after, ax, ay, team) && king_at(after, bx, by, team) implies ax == bx && ay
        == by by {
        if (ax, ay) != (tx, ty) {
            assert(king_at(pos, ax, ay, team));
        }
        if (bx, by) != (tx, ty) {
            assert(king_at(pos, bx, by, team));
        }
        if (ax, ay) == (tx, ty) || (bx, by) == (tx, ty) {
            assert(king_at(pos, fx, fy, team));
        }
    }
}

} // verus!
