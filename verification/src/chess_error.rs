//! The reasons for which the engine turns a request down.

use vstd::prelude::*;

verus! {

/// Why a request was turned down. A request that is turned down changes nothing.
#[derive(Debug, Clone, Copy, PartialEq, Eq, Structural)]
pub enum ChessError {
    /// Invalid player.
    InvalidPlayer,
    /// The piece named in the request is not what stands on the board.
    InvalidPiece,
    /// There is no such piece to remove.
    RemoveError,
    /// The destination is off the board.
    MoveOutOfBounds,
    /// The piece cannot make this move, or the match is over.
    MoveNotPossible,
    /// The king is in check and the move does not end it.
    MoveInCheckViolation,
    /// The move would leave the mover's king in check.
    MoveIntoCheckViolation,
    /// The destination holds a piece of the mover's own team.
    SpotOccupied,
    /// It is the other team's turn.
    NotPlayersTurn,
    /// The match was started before.
    GameAlreadyStarted,
}

} // verus!
