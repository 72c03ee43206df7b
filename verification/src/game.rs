//! The match as a state machine: whose turn it is, what a move does to the
//! board and the scores, and when the match is over.

use crate::chess_error::ChessError;
use crate::chess_model::{
    credited, standard_position, ChessBoard, ChessPiece, ChessPlayer, GameState, Move,
};
use crate::legality::{checks, is_legal, other_team};
use crate::move_generator::can_reach;
use crate::position::{
    after_move, has_king, held_by, occupant, on_board, piece_count, rival, Position,
};
use anchor_lang::prelude::Pubkey;
use vstd::prelude::*;

verus! {

/// A match: the turn counter, the board with its players, and the state.
/// A match that has not started has the turn 0; the first move is made on
/// turn 1.
#[derive(Debug, Clone, Copy, PartialEq, Eq)]
pub struct ChessGame {
    pub turn: u16,
    pub board: ChessBoard,
    pub state: GameState,
}

/// The team that moves on `turn`: team 0 on odd turns, team 1 on even ones.
pub open spec fn side_to_move(turn: u16) -> u8 {
    if turn % 2 == 1 {
        0
    } else {
        1
    }
}

/// Whether `piece` has a legal move on the board `pos`.
pub open spec fn can_move(pos: Position, piece: ChessPiece) -> bool {
    exists|tx: int, ty: int| #[trigger] is_legal(pos, piece, tx, ty)
}

/// Whether `(x, y)` holds a piece of `team` that has a legal move.
pub open spec fn mobile_from(pos: Position, team: u8, x: int, y: int) -> bool {
    held_by(pos, x, y, team) && can_move(pos, pos[(x, y)])
}

/// Whether `team` has a legal move on the board `pos`.
pub open spec fn has_legal_move(pos: Position, team: u8) -> bool {
    exists|x: int, y: int| #[trigger] mobile_from(pos, team, x, y)
}

/// The state of a match in which `side` is to move on the board `pos`. A
/// side without a king has lost. A side that has a legal move plays on. A
/// side without a legal move has lost if it is in check, and else the match
/// is a stalemate.
pub open spec fn status_of(pos: Position, side: u8) -> GameState {
    if !has_king(pos, side) {
        GameState::Won { winner: rival(side) }
    } else if has_legal_move(pos, side) {
        GameState::Active
    } else if checks(pos, rival(side)) {
        GameState::Won { winner: rival(side) }
    } else {
        GameState::Stalemate
    }
}

/// The material value of what stands on `(x, y)`; 0 for an empty square.
pub open spec fn capture_gain(pos: Position, x: int, y: int) -> int {
    if pos.dom().contains((x, y)) {
        pos[(x, y)].piece_type.material()
    } else {
        0
    }
}

/// The two players of a new match.
pub open spec fn seated(first: Pubkey, second: Pubkey) -> [ChessPlayer; 2] {
    [
        ChessPlayer { key: first, team: 0, score: 0 },
        ChessPlayer { key: second, team: 1, score: 0 },
    ]
}

impl ChessBoard {
    /// Whether `piece` has a legal move on this board. Every candidate
    /// destination of the piece is put to the legality checker.
    pub fn can_move(&self, piece: &ChessPiece) -> (r: bool)
        requires
            self.wf(),
        ensures
            r == can_move(self.position(), *piece),
    {
        let ghost pos = self.position();
        let reach = self.candidate_destinations(piece);
        let mut k: usize = 0;
        while k < reach.len()
            invariant
                k <= reach.len(),
                pos == self.position(),
                self.wf(),
                forall|m: Move| reach@.contains(m) <==> can_reach(pos, *piece, m.x as int, m.y as int),
                forall|n: int|
                    0 <= n < k ==> !is_legal(pos, *piece, reach@[n].x as int, reach@[n].y as int),
            decreases reach.len() - k,
        {
            if self.can_execute_move(piece, &reach[k], false) {
                return true;
            }
            k = k + 1;
        }
        assert forall|tx: int, ty: int| !#[trigger] is_legal(pos, *piece, tx, ty) by {
            if is_legal(pos, *piece, tx, ty) {
                let m = Move { x: tx as u8, y: ty as u8 };
                assert(can_reach(pos, *piece, m.x as int, m.y as int));
                assert(reach@.contains(m));
                let n = choose|n: int| 0 <= n < reach@.len() && reach@[n] == m;
                assert(!is_legal(pos, *piece, reach@[n].x as int, reach@[n].y as int));
            }
        }
        false
    }

    /// Whether `team` has a legal move on this board.
    pub fn has_legal_move(&self, team: u8) -> (r: bool)
        requires
            self.wf(),
        ensures
            r == has_legal_move(self.position(), team),
    {
        let ghost pos = self.position();
        let mut i: u8 = 0;
        while i < 8
            invariant
                i <= 8,
                pos == self.position(),
                self.wf(),
                forall|a: int, b: int|
                    0 <= a < i && 0 <= b < 8 ==> !#[trigger] mobile_from(pos, team, a, b),
            decreases 8 - i,
        {
            let mut j: u8 = 0;
            while j < 8
                invariant
                    i < 8,
                    j <= 8,
                    pos == self.position(),
                    self.wf(),
                    forall|a: int, b: int|
                        (0 <= a < i && 0 <= b < 8 || a == i && 0 <= b < j)
                            ==> !#[trigger] mobile_from(pos, team, a, b),
                decreases 8 - j,
            {
                match self.board[i as usize][j as usize] {
                    Some(p) => {
                        assert(pos.dom().contains((i as int, j as int)));
                        assert(pos[(i as int, j as int)] == p);
                        if p.team == team && self.can_move(&p) {
                            assert(mobile_from(pos, team, i as int, j as int));
                            return true;
                        }
                    },
                    None => {
                        assert(!pos.dom().contains((i as int, j as int)));
                    },
                }
                j = j + 1;
            }
            i = i + 1;
        }
        assert forall|a: int, b: int| !#[trigger] mobile_from(pos, team, a, b) by {
            if !(0 <= a < 8 && 0 <= b < 8) {
                assert(!pos.dom().contains((a, b)));
            }
        }
        false
    }

    /// The state of a match in which `side` is to move on this board.
    pub fn status(&self, side: u8) -> (r: GameState)
        requires
            self.wf(),
        ensures
            r == status_of(self.position(), side),
    {
        let winner = other_team(side);
        if !self.has_king(side) {
            GameState::Won { winner }
        } else if self.has_legal_move(side) {
            GameState::Active
        } else if self.in_check(winner) {
            GameState::Won { winner }
        } else {
            GameState::Stalemate
        }
    }
}

impl ChessGame {
    /// Whether the match has not started.
    pub open spec fn fresh(&self) -> bool {
        self.turn == 0 && self.state is Active
    }

    /// The team that is to move.
    pub open spec fn mover(&self) -> u8 {
        side_to_move(self.turn)
    }

    /// Whether the counters have room for the move to `move_to`: the turn
    /// counter for one more turn, and the score of the team that is to move
    /// for the value of what stands on the destination.
    pub open spec fn has_room(&self, move_to: Move) -> bool {
        &&& self.turn < u16::MAX
        &&& self.board.players[self.mover() as int].score + capture_gain(
            self.board.position(),
            move_to.x as int,
            move_to.y as int,
        ) <= u8::MAX
    }

    /// What `make_move` answers to the request to move `piece` to `move_to`.
    /// The tests are made in this order: the match is not over; `piece` is
    /// what stands on the square it records; the destination is on the board;
    /// the piece belongs to the team that is to move; the destination holds no
    /// piece of that team; the move is legal.
    pub open spec fn verdict(&self, piece: ChessPiece, move_to: Move) -> Result<(), ChessError> {
        let pos = self.board.position();
        if !(self.state is Active) {
            Err(ChessError::MoveNotPossible)
        } else if occupant(pos, piece.x_loc as int, piece.y_loc as int) != Some(piece) {
            Err(ChessError::InvalidPiece)
        } else if !on_board(move_to.x as int, move_to.y as int) {
            Err(ChessError::MoveOutOfBounds)
        } else if piece.team != self.mover() {
            Err(ChessError::NotPlayersTurn)
        } else if held_by(pos, move_to.x as int, move_to.y as int, piece.team) {
            Err(ChessError::SpotOccupied)
        } else if !is_legal(pos, piece, move_to.x as int, move_to.y as int) {
            Err(ChessError::MoveNotPossible)
        } else {
            Ok(())
        }
    }

    /// The match once `piece` has moved to `move_to`: the piece stands on the
    /// destination, what stood there is gone and its value is credited to the
    /// mover's team, the turn has passed to the other team, and the state is
    /// that of the new board with the other team to move.
    pub open spec fn played(&self, piece: ChessPiece, move_to: Move, after: ChessGame) -> bool {
        let pos = self.board.position();
        let next = after_move(pos, piece, move_to.x as int, move_to.y as int);
        &&& after.turn == self.turn + 1
        &&& after.board.position() == next
        &&& after.board.players == credited(
            self.board.players,
            piece.team,
            capture_gain(pos, move_to.x as int, move_to.y as int),
        )
        &&& after.state == status_of(next, side_to_move(after.turn))
    }

    /// A match that has not started: turn 0, an empty board, state `Active`.
    pub fn new() -> (g: ChessGame)
        ensures
            g.fresh(),
            g.board.position() == Map::<(int, int), ChessPiece>::empty(),
            g.board.wf(),
            g.board.players[0].score == 0,
            g.board.players[1].score == 0,
    {
        ChessGame { turn: 0, board: ChessBoard::new(), state: GameState::Active }
    }

    /// Whether the board of the match meets the invariants of a board snapshot.
    pub fn is_well_formed(&self) -> (ok: bool)
        ensures
            ok == self.board.wf(),
    {
        self.board.is_well_formed()
    }

    /// The team that is to move.
    pub fn team_to_move(&self) -> (t: u8)
        ensures
            t == self.mover(),
            t <= 1,
    {
        if self.turn % 2 > 0 {
            0
        } else {
            1
        }
    }

    /// Whether the counters have room for the move to `move_to`.
    pub fn can_record(&self, move_to: &Move) -> (ok: bool)
        ensures
            ok == self.has_room(*move_to),
    {
        if self.turn == u16::MAX {
            return false;
        }
        let side = self.team_to_move();
        let gain: u8 = match self.board.piece_at(move_to.x, move_to.y) {
            Some(there) => there.piece_type.value(),
            None => 0,
        };
        self.board.players[side as usize].score <= u8::MAX - gain
    }

    /// Starts the match: seats `players[0]` as team 0 and `players[1]` as
    /// team 1, both without points, sets up the standard starting
    /// arrangement, and makes it turn 1 with the state `Active`. Fails with
    /// `GameAlreadyStarted`, and changes nothing, unless the match is fresh.
    pub fn start(&mut self, players: &[Pubkey]) -> (r: Result<(), ChessError>)
        requires
            players@.len() >= 2,
        ensures
            r is Ok <==> old(self).fresh(),
            r is Err ==> r == Err::<(), ChessError>(ChessError::GameAlreadyStarted) && *final(self)
                == *old(self),
            r is Ok ==> {
                &&& final(self).turn == 1
                &&& final(self).state == GameState::Active
                &&& final(self).board.position() == standard_position()
                &&& piece_count(final(self).board.position()) == 32
                &&& final(self).board.players == seated(players@[0], players@[1])
                &&& final(self).board.wf()
            },
    {
        let started = match self.state {
            GameState::Active => self.turn != 0,
            _ => true,
        };
        if started {
            return Err(ChessError::GameAlreadyStarted);
        }
        let player1 = ChessPlayer { key: players[0], team: 0, score: 0 };
        let player2 = ChessPlayer { key: players[1], team: 1, score: 0 };
        self.board.players = [player1, player2];
        self.turn = 1;
        let _ = self.board.initialize();
        assert(self.board.players =~= seated(players@[0], players@[1]));
        Ok(())
    }

    /// Moves `chess_piece` to `move_to` for the team whose turn it is. The
    /// answer is `verdict`; a request that is turned down changes nothing,
    /// and one that is accepted changes the match as `played` says.
    pub fn make_move(&mut self, chess_piece: ChessPiece, move_to: Move) -> (r: Result<
        (),
        ChessError,
    >)
        requires
            old(self).board.wf(),
            old(self).has_room(move_to),
        ensures
            r == old(self).verdict(chess_piece, move_to),
            r is Err ==> *final(self) == *old(self),
            r is Ok ==> old(self).played(chess_piece, move_to, *final(self)),
            final(self).board.wf(),
    {
        let ghost pos = self.board.position();
        match self.state {
            GameState::Active => {},
            _ => {
                return Err(ChessError::MoveNotPossible);
            },
        }
        //  The piece named must be what stands on the board.
        match self.board.piece_at(chess_piece.x_loc, chess_piece.y_loc) {
            Some(check_piece) => {
                if check_piece != chess_piece {
                    return Err(ChessError::InvalidPiece);
                }
            },
            None => {
                return Err(ChessError::InvalidPiece);
            },
        }
        if move_to.x > 7 || move_to.y > 7 {
            return Err(ChessError::MoveOutOfBounds);
        }
        let player_index = self.team_to_move();
        if chess_piece.team != player_index {
            return Err(ChessError::NotPlayersTurn);
        }
        //  A cheap test, made before the legality checker runs.
        let target = self.board.piece_at(move_to.x, move_to.y);
        match target {
            Some(there) => {
                if there.team == player_index {
                    return Err(ChessError::SpotOccupied);
                }
            },
            None => {},
        }
        if !self.board.can_execute_move(&chess_piece, &move_to, target.is_some()) {
            return Err(ChessError::MoveNotPossible);
        }
        assert(pos.dom().contains((chess_piece.x_loc as int, chess_piece.y_loc as int)));
        let ghost before = self.board.players;
        match target {
            Some(enemy_piece) => {
                assert(rival(enemy_piece.team) == chess_piece.team);
                let _ = self.board.remove_piece(&enemy_piece, &move_to);
            },
            None => {
                assert(self.board.players =~= credited(before, chess_piece.team, 0));
            },
        }
        self.board.relocate(&chess_piece, &move_to);
        assert(self.board.position() =~= after_move(
            pos,
            chess_piece,
            move_to.x as int,
            move_to.y as int,
        ));
        self.turn = self.turn + 1;
        self.state = self.board.status(self.team_to_move());
        Ok(())
    }
}

} // verus!
