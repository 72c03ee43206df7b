//! The mathematical model of a board: a finite partial map from squares to
//! pieces, together with the geometry of squares, steps and rays.

use crate::chess_model::{ChessPiece, ChessPieceTypes};
use vstd::prelude::*;

verus! {

/// A board snapshot. The key is the square `(x, y)`; a square outside the
/// domain is empty.
pub type Position = Map<(int, int), ChessPiece>;

/// Whether `(x, y)` is one of the 64 squares.
pub open spec fn on_board(x: int, y: int) -> bool {
    0 <= x < 8 && 0 <= y < 8
}

/// The set of the 64 squares.
pub open spec fn all_squares() -> Set<(int, int)> {
    Set::new(|sq: (int, int)| on_board(sq.0, sq.1))
}

/// What stands on `(x, y)`.
pub open spec fn occupant(pos: Position, x: int, y: int) -> Option<ChessPiece> {
    if pos.dom().contains((x, y)) {
        Some(pos[(x, y)])
    } else {
        None
    }
}

/// Whether `(x, y)` holds no piece.
pub open spec fn vacant(pos: Position, x: int, y: int) -> bool {
    !pos.dom().contains((x, y))
}

/// Whether `(x, y)` holds a piece of `team`.
pub open spec fn held_by(pos: Position, x: int, y: int, team: u8) -> bool {
    pos.dom().contains((x, y)) && pos[(x, y)].team == team
}

/// Whether `(x, y)` holds a piece of a team other than `team`.
pub open spec fn held_by_enemy(pos: Position, x: int, y: int, team: u8) -> bool {
    pos.dom().contains((x, y)) && pos[(x, y)].team != team
}

/// Whether `(x, y)` holds the king of `team`.
pub open spec fn king_at(pos: Position, x: int, y: int, team: u8) -> bool {
    pos.dom().contains((x, y)) && pos[(x, y)].team == team && pos[(x, y)].piece_type
        == ChessPieceTypes::King
}

/// Whether `team` has a king on the board `pos`.
pub open spec fn has_king(pos: Position, team: u8) -> bool {
    exists|x: int, y: int| #[trigger] king_at(pos, x, y, team)
}

/// The opposing team.
pub open spec fn rival(team: u8) -> u8 {
    if team == 0 {
        1
    } else {
        0
    }
}

/// The invariants of a board snapshot: every piece stands on one of the 64
/// squares, records the square it stands on, belongs to team 0 or 1, and no
/// team has two kings.
pub open spec fn well_formed(pos: Position) -> bool {
    &&& forall|sq: (int, int)| #[trigger]
        pos.dom().contains(sq) ==> {
            &&& on_board(sq.0, sq.1)
            &&& pos[sq].x_loc == sq.0
            &&& pos[sq].y_loc == sq.1
            &&& pos[sq].team <= 1
        }
    &&& forall|ax: int, ay: int, bx: int, by: int, team: u8|
        #![trigger king_at(pos, ax, ay, team), king_at(pos, bx, by, team)]
        king_at(pos, ax, ay, team) && king_at(pos, bx, by, team) ==> ax == bx && ay == by
}

/// The number of pieces on the board.
pub open spec fn piece_count(pos: Position) -> nat {
    pos.dom().len()
}

/// `piece` as it is once it stands on `(x, y)`.
pub open spec fn moved_to(piece: ChessPiece, x: int, y: int) -> ChessPiece {
    ChessPiece { team: piece.team, piece_type: piece.piece_type, x_loc: x as u8, y_loc: y as u8 }
}

/// The board after `piece` has left its square and taken `(tx, ty)`, whatever
/// stood there before.
pub open spec fn after_move(pos: Position, piece: ChessPiece, tx: int, ty: int) -> Position {
    pos.remove((piece.x_loc as int, piece.y_loc as int)).insert((tx, ty), moved_to(piece, tx, ty))
}

/// `k` steps in the direction `d`, where `d` is -1, 0 or 1.
pub open spec fn stride(k: int, d: int) -> int {
    if d > 0 {
        k
    } else if d < 0 {
        -k
    } else {
        0
    }
}

/// The sign of `d`: -1, 0 or 1.
pub open spec fn signum(d: int) -> int {
    if d > 0 {
        1
    } else if d < 0 {
        -1
    } else {
        0
    }
}

/// The absolute value of `d`.
pub open spec fn magnitude(d: int) -> int {
    if d < 0 {
        -d
    } else {
        d
    }
}

/// The larger of the two absolute values: the number of king steps between
/// two squares that differ by `(dx, dy)`.
pub open spec fn span(dx: int, dy: int) -> int {
    if magnitude(dx) >= magnitude(dy) {
        magnitude(dx)
    } else {
        magnitude(dy)
    }
}

/// Whether `(dx, dy)` is one of the eight directions of the compass.
pub open spec fn is_direction(dx: int, dy: int) -> bool {
    -1 <= dx <= 1 && -1 <= dy <= 1 && !(dx == 0 && dy == 0)
}

/// The 64 squares are finitely many.
pub proof fn lemma_all_squares_finite()
    ensures
        all_squares().finite(),
        all_squares().len() == 64,
{
    let idx = Set::new(|i: int| 0 <= i < 64);
    vstd::set_lib::lemma_int_range(0, 64);
    assert(idx =~= vstd::set_lib::set_int_range(0, 64));
    let f = |i: int| (i / 8, i % 8);
    assert forall|sq: (int, int)| all_squares().contains(sq) implies exists|i: int|
        idx.contains(i) && f(i) == sq by {
        let i = sq.0 * 8 + sq.1;
        assert(idx.contains(i) && f(i) == sq);
    }
    assert(idx.map(f) =~= all_squares()) by {
        assert forall|sq: (int, int)| idx.map(f).contains(sq) implies all_squares().contains(
            sq,
        ) by {
            let i = choose|i: int| idx.contains(i) && f(i) == sq;
            assert(on_board(sq.0, sq.1));
        }
    }
    idx.lemma_map_finite(f);
    assert forall|a: int, b: int| idx.contains(a) && idx.contains(b) && f(a) == f(b) implies a
        == b by {}
    vstd::set_lib::lemma_map_size(idx, all_squares(), f);
}

/// A well-formed board holds finitely many pieces, at most 64.
pub proof fn lemma_well_formed_finite(pos: Position)
    requires
        well_formed(pos),
    ensures
        pos.dom().finite(),
        piece_count(pos) <= 64,
{
    lemma_all_squares_finite();
    assert(pos.dom().subset_of(all_squares()));
    vstd::set_lib::lemma_set_subset_finite(all_squares(), pos.dom());
    vstd::set_lib::lemma_len_subset(pos.dom(), all_squares());
}

} // verus!
