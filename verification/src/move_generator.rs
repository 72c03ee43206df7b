//! Where a piece can go by the geometry of its kind and the occupancy of the
//! board, before the safety of the mover's king is considered.

use crate::chess_model::{ChessBoard, ChessPiece, ChessPieceTypes, Move};
use crate::position::{
    held_by, held_by_enemy, is_direction, magnitude, on_board, signum, span, stride, vacant,
    Position,
};
use vstd::prelude::*;

verus! {

/// The square `(x, y)` as a destination.
pub open spec fn square(x: int, y: int) -> Move {
    Move { x: x as u8, y: y as u8 }
}

/// Whether the square `k` steps from `(fx, fy)` in the direction `(dx, dy)` is empty.
pub open spec fn step_vacant(pos: Position, fx: int, fy: int, dx: int, dy: int, k: int) -> bool {
    vacant(pos, fx + stride(k, dx), fy + stride(k, dy))
}

/// Whether a piece of `team` that slides from `(fx, fy)` in the direction
/// `(dx, dy)` can stop on the `k`-th square of the ray: that square is on the
/// board and holds no piece of `team`, and every square before it is empty.
pub open spec fn ray_reaches(
    pos: Position,
    team: u8,
    fx: int,
    fy: int,
    dx: int,
    dy: int,
    k: int,
) -> bool {
    &&& k >= 1
    &&& on_board(fx + stride(k, dx), fy + stride(k, dy))
    &&& !held_by(pos, fx + stride(k, dx), fy + stride(k, dy), team)
    &&& forall|j: int| 1 <= j < k ==> #[trigger] step_vacant(pos, fx, fy, dx, dy, j)
}

/// Whether `(dx, dy)` lies along a rank or a file.
pub open spec fn straight(dx: int, dy: int) -> bool {
    (dx == 0) != (dy == 0)
}

/// Whether `(dx, dy)` lies along a diagonal.
pub open spec fn diagonal(dx: int, dy: int) -> bool {
    dx != 0 && magnitude(dx) == magnitude(dy)
}

/// Whether `(dx, dy)` is a knight's leap.
pub open spec fn leap(dx: int, dy: int) -> bool {
    (magnitude(dx) == 1 && magnitude(dy) == 2) || (magnitude(dx) == 2 && magnitude(dy) == 1)
}

/// The direction in which the pawns of `team` advance along `x`.
pub open spec fn forward(team: u8) -> int {
    if team == 0 {
        1
    } else {
        -1
    }
}

/// The rank on which the pawns of `team` start.
pub open spec fn pawn_rank(team: u8) -> int {
    if team == 0 {
        1
    } else {
        6
    }
}

/// Whether a piece of `team` slides from `(fx, fy)` to `(tx, ty)` along the
/// line that joins them, which the caller has found to be a rank, a file or a
/// diagonal.
pub open spec fn slides(pos: Position, team: u8, fx: int, fy: int, tx: int, ty: int) -> bool {
    ray_reaches(pos, team, fx, fy, signum(tx - fx), signum(ty - fy), span(tx - fx, ty - fy))
}

/// Whether a pawn of `team` on `(fx, fy)` can go to `(tx, ty)`: one square
/// forward onto an empty square, two squares forward from its starting rank
/// over an empty square onto an empty square, or one square diagonally
/// forward onto an enemy piece.
pub open spec fn pawn_reaches(pos: Position, team: u8, fx: int, fy: int, tx: int, ty: int) -> bool {
    let ahead = fx + forward(team);
    ||| tx == ahead && ty == fy && vacant(pos, tx, ty)
    ||| fx == pawn_rank(team) && tx == ahead + forward(team) && ty == fy && vacant(pos, ahead, fy)
        && vacant(pos, tx, ty)
    ||| tx == ahead && magnitude(ty - fy) == 1 && held_by_enemy(pos, tx, ty, team)
}

/// Whether `(tx, ty)` is a candidate destination of `piece`: a square of the
/// board that the piece reaches from the square it records, by the rules of
/// its kind, on the board `pos`.
pub open spec fn can_reach(pos: Position, piece: ChessPiece, tx: int, ty: int) -> bool {
    let fx = piece.x_loc as int;
    let fy = piece.y_loc as int;
    let dx = tx - fx;
    let dy = ty - fy;
    &&& on_board(fx, fy)
    &&& on_board(tx, ty)
    &&& match piece.piece_type {
        ChessPieceTypes::Pawn => pawn_reaches(pos, piece.team, fx, fy, tx, ty),
        ChessPieceTypes::Knight => leap(dx, dy) && !held_by(pos, tx, ty, piece.team),
        ChessPieceTypes::Bishop => diagonal(dx, dy) && slides(pos, piece.team, fx, fy, tx, ty),
        ChessPieceTypes::Rook => straight(dx, dy) && slides(pos, piece.team, fx, fy, tx, ty),
        ChessPieceTypes::Queen => (straight(dx, dy) || diagonal(dx, dy)) && slides(
            pos,
            piece.team,
            fx,
            fy,
            tx,
            ty,
        ),
        ChessPieceTypes::King => span(dx, dy) == 1 && !held_by(pos, tx, ty, piece.team),
    }
}

/// The eight directions in a fixed order: the four along ranks and files
/// first, then the four diagonals.
pub open spec fn compass(i: int) -> (int, int) {
    if i == 0 {
        (1, 0)
    } else if i == 1 {
        (-1, 0)
    } else if i == 2 {
        (0, 1)
    } else if i == 3 {
        (0, -1)
    } else if i == 4 {
        (1, 1)
    } else if i == 5 {
        (1, -1)
    } else if i == 6 {
        (-1, 1)
    } else {
        (-1, -1)
    }
}

/// The place in `compass` of the direction from a square to the square that
/// differs from it by `(dx, dy)`.
pub open spec fn heading(dx: int, dy: int) -> int {
    if dy == 0 {
        if dx > 0 {
            0
        } else {
            1
        }
    } else if dx == 0 {
        if dy > 0 {
            2
        } else {
            3
        }
    } else if dx > 0 {
        if dy > 0 {
            4
        } else {
            5
        }
    } else {
        if dy > 0 {
            6
        } else {
            7
        }
    }
}

/// The eight leaps of a knight in a fixed order.
pub open spec fn knight_leap(i: int) -> (int, int) {
    if i == 0 {
        (1, 2)
    } else if i == 1 {
        (2, 1)
    } else if i == 2 {
        (2, -1)
    } else if i == 3 {
        (1, -2)
    } else if i == 4 {
        (-1, -2)
    } else if i == 5 {
        (-2, -1)
    } else if i == 6 {
        (-2, 1)
    } else {
        (-1, 2)
    }
}

/// The place in `knight_leap` of the leap `(dx, dy)`.
pub open spec fn leap_index(dx: int, dy: int) -> int {
    if dx == 1 && dy == 2 {
        0
    } else if dx == 2 && dy == 1 {
        1
    } else if dx == 2 && dy == -1 {
        2
    } else if dx == 1 && dy == -2 {
        3
    } else if dx == -1 && dy == -2 {
        4
    } else if dx == -2 && dy == -1 {
        5
    } else if dx == -2 && dy == 1 {
        6
    } else {
        7
    }
}

/// The direction at the place `i` of `compass`.
fn direction(i: u8) -> (d: (i8, i8))
    requires
        i < 8,
    ensures
        (d.0 as int, d.1 as int) == compass(i as int),
        is_direction(d.0 as int, d.1 as int),
{
    if i == 0 {
        (1, 0)
    } else if i == 1 {
        (-1, 0)
    } else if i == 2 {
        (0, 1)
    } else if i == 3 {
        (0, -1)
    } else if i == 4 {
        (1, 1)
    } else if i == 5 {
        (1, -1)
    } else if i == 6 {
        (-1, 1)
    } else {
        (-1, -1)
    }
}

/// The leap at the place `i` of `knight_leap`.
fn knight_offset(i: u8) -> (d: (i8, i8))
    requires
        i < 8,
    ensures
        (d.0 as int, d.1 as int) == knight_leap(i as int),
{
    if i == 0 {
        (1, 2)
    } else if i == 1 {
        (2, 1)
    } else if i == 2 {
        (2, -1)
    } else if i == 3 {
        (1, -2)
    } else if i == 4 {
        (-1, -2)
    } else if i == 5 {
        (-2, -1)
    } else if i == 6 {
        (-2, 1)
    } else {
        (-1, 2)
    }
}

/// What `out` holds once a ray of at most `limit` squares has been added to
/// `start`: the squares of the ray on which the piece can stop, nearest first.
pub open spec fn ray_appended(
    pos: Position,
    team: u8,
    fx: int,
    fy: int,
    dx: int,
    dy: int,
    limit: int,
    start: Seq<Move>,
    out: Seq<Move>,
) -> bool {
    let n = out.len() - start.len();
    &&& 0 <= n <= limit
    &&& out.subrange(0, start.len() as int) == start
    &&& forall|i: int|
        start.len() <= i < out.len() ==> #[trigger] out[i] == square(
            fx + stride(i - start.len() + 1, dx),
            fy + stride(i - start.len() + 1, dy),
        )
    &&& forall|k: int|
        (k <= limit && #[trigger] ray_reaches(pos, team, fx, fy, dx, dy, k)) <==> 1 <= k <= n
}

impl ChessBoard {
    /// The shared stepping routine of the sliding pieces. Walks from the
    /// square of `piece` in the direction `(dx, dy)` for at most `limit`
    /// squares and adds to `out` each square on which the piece can stop:
    /// every empty square up to the first occupied one, and that one too if
    /// an enemy holds it.
    pub fn cast_ray(&self, piece: &ChessPiece, dx: i8, dy: i8, limit: u8, out: &mut Vec<Move>)
        requires
            on_board(piece.x_loc as int, piece.y_loc as int),
            is_direction(dx as int, dy as int),
            limit <= 7,
        ensures
            ray_appended(
                self.position(),
                piece.team,
                piece.x_loc as int,
                piece.y_loc as int,
                dx as int,
                dy as int,
                limit as int,
                old(out)@,
                final(out)@,
            ),
    {
        let ghost pos = self.position();
        let ghost start = out@;
        let ghost fx = piece.x_loc as int;
        let ghost fy = piece.y_loc as int;
        let team = piece.team;
        let mut cx: i8 = piece.x_loc as i8;
        let mut cy: i8 = piece.y_loc as i8;
        let mut k: u8 = 0;
        let mut open = true;
        while open && k < limit
            invariant
                pos == self.position(),
                fx == piece.x_loc as int,
                fy == piece.y_loc as int,
                team == piece.team,
                on_board(fx, fy),
                is_direction(dx as int, dy as int),
                k <= limit <= 7,
                out@.len() == start.len() + k,
                out@.subrange(0, start.len() as int) == start,
                forall|i: int|
                    start.len() <= i < out@.len() ==> #[trigger] out@[i] == square(
                        fx + stride(i - start.len() + 1, dx as int),
                        fy + stride(i - start.len() + 1, dy as int),
                    ),
                forall|j: int|
                    1 <= j <= k ==> #[trigger] ray_reaches(
                        pos,
                        team,
                        fx,
                        fy,
                        dx as int,
                        dy as int,
                        j,
                    ),
                open ==> {
                    &&& cx == fx + stride(k as int, dx as int)
                    &&& cy == fy + stride(k as int, dy as int)
                    &&& on_board(cx as int, cy as int)
                    &&& forall|j: int|
                        1 <= j <= k ==> #[trigger] step_vacant(
                            pos,
                            fx,
                            fy,
                            dx as int,
                            dy as int,
                            j,
                        )
                },
                !open ==> forall|j: int|
                    j > k ==> !#[trigger] ray_reaches(pos, team, fx, fy, dx as int, dy as int, j),
            decreases limit - k + (if open { 1int } else { 0int }),
        {
            let ghost before = out@;
            let nx: i8 = cx + dx;
            let ny: i8 = cy + dy;
            assert(nx == fx + stride(k + 1, dx as int));
            assert(ny == fy + stride(k + 1, dy as int));
            if nx < 0 || nx > 7 || ny < 0 || ny > 7 {
                open = false;
                assert forall|j: int| j > k implies !#[trigger] ray_reaches(
                    pos,
                    team,
                    fx,
                    fy,
                    dx as int,
                    dy as int,
                    j,
                ) by {
                    assert(!on_board(fx + stride(j, dx as int), fy + stride(j, dy as int)));
                }
            } else {
                let here = Move { x: nx as u8, y: ny as u8 };
                assert(here == square(nx as int, ny as int));
                match self.board[nx as usize][ny as usize] {
                    None => {
                        assert(!pos.dom().contains((nx as int, ny as int)));
                        assert(step_vacant(pos, fx, fy, dx as int, dy as int, k + 1));
                        out.push(here);
                        k = k + 1;
                        cx = nx;
                        cy = ny;
                    },
                    Some(q) => {
                        assert(pos.dom().contains((nx as int, ny as int)));
                        assert(pos[(nx as int, ny as int)] == q);
                        let ghost blocked = k + 1;
                        assert(!step_vacant(pos, fx, fy, dx as int, dy as int, blocked));
                        if q.team != team {
                            out.push(here);
                            k = k + 1;
                        }
                        open = false;
                        assert forall|j: int| j > k implies !#[trigger] ray_reaches(
                            pos,
                            team,
                            fx,
                            fy,
                            dx as int,
                            dy as int,
                            j,
                        ) by {
                            if j > blocked {
                                assert(!step_vacant(pos, fx, fy, dx as int, dy as int, blocked));
                            }
                        }
                    },
                }
            }
            assert(out@.subrange(0, start.len() as int) =~= before.subrange(
                0,
                start.len() as int,
            ));
        }
    }
}

/// Whether a piece of `team` on `(fx, fy)` reaches `(tx, ty)` by sliding at
/// most `limit` squares in one of the directions `lo..hi` of `compass`.
pub open spec fn swept(
    pos: Position,
    team: u8,
    fx: int,
    fy: int,
    lo: int,
    hi: int,
    limit: int,
    tx: int,
    ty: int,
) -> bool {
    let dx = tx - fx;
    let dy = ty - fy;
    &&& straight(dx, dy) || diagonal(dx, dy)
    &&& lo <= heading(dx, dy) < hi
    &&& span(dx, dy) <= limit
    &&& slides(pos, team, fx, fy, tx, ty)
}

/// Whether a knight of `team` on `(fx, fy)` reaches `(tx, ty)` by one of the
/// first `upto` leaps of `knight_leap`.
pub open spec fn leapt(pos: Position, team: u8, fx: int, fy: int, upto: int, tx: int, ty: int) -> bool {
    &&& on_board(tx, ty)
    &&& leap(tx - fx, ty - fy)
    &&& leap_index(tx - fx, ty - fy) < upto
    &&& !held_by(pos, tx, ty, team)
}

/// Adds the square `(x, y)` to `out`.
fn note_square(out: &mut Vec<Move>, x: u8, y: u8)
    ensures
        final(out)@ == old(out)@.push(Move { x, y }),
        forall|m: Move| final(out)@.contains(m) <==> (old(out)@.contains(m) || m == Move { x, y }),
        old(out)@.no_duplicates() && !old(out)@.contains(Move { x, y })
            ==> final(out)@.no_duplicates(),
{
    let ghost before = out@;
    let here = Move { x, y };
    out.push(here);
    assert forall|m: Move| out@.contains(m) <==> (before.contains(m) || m == here) by {
        if before.contains(m) {
            let i = choose|i: int| 0 <= i < before.len() && before[i] == m;
            assert(out@[i] == m);
        }
        if m == here {
            assert(out@[before.len() as int] == m);
        }
    }
}

/// What one ray adds to a list of squares, as a set: the squares that the
/// piece reaches by sliding in that direction.
proof fn lemma_ray_members(
    pos: Position,
    team: u8,
    fx: int,
    fy: int,
    i: int,
    limit: int,
    start: Seq<Move>,
    out: Seq<Move>,
)
    requires
        on_board(fx, fy),
        0 <= i < 8,
        0 <= limit <= 7,
        ray_appended(pos, team, fx, fy, compass(i).0, compass(i).1, limit, start, out),
    ensures
        forall|m: Move|
            out.contains(m) <==> (start.contains(m) || swept(
                pos,
                team,
                fx,
                fy,
                i,
                i + 1,
                limit,
                m.x as int,
                m.y as int,
            )),
        start.no_duplicates() && (forall|m: Move| #[trigger]
            start.contains(m) ==> !swept(pos, team, fx, fy, i, i + 1, limit, m.x as int, m.y as int))
            ==> out.no_duplicates(),
{
    let dx = compass(i).0;
    let dy = compass(i).1;
    let n = out.len() - start.len();
    assert forall|j: int| start.len() <= j < out.len() implies swept(
        pos,
        team,
        fx,
        fy,
        i,
        i + 1,
        limit,
        (#[trigger] out[j]).x as int,
        out[j].y as int,
    ) by {
        let k = j - start.len() + 1;
        assert(ray_reaches(pos, team, fx, fy, dx, dy, k));
    }
    assert forall|m: Move|
        out.contains(m) <==> (start.contains(m) || swept(
            pos,
            team,
            fx,
            fy,
            i,
            i + 1,
            limit,
            m.x as int,
            m.y as int,
        )) by {
        if out.contains(m) {
            let j = choose|j: int| 0 <= j < out.len() && out[j] == m;
            if j < start.len() {
                assert(out.subrange(0, start.len() as int)[j] == m);
            }
        }
        if start.contains(m) {
            let j = choose|j: int| 0 <= j < start.len() && start[j] == m;
            assert(out.subrange(0, start.len() as int)[j] == m);
            assert(out[j] == m);
        }
        if swept(pos, team, fx, fy, i, i + 1, limit, m.x as int, m.y as int) {
            let k = span(m.x - fx, m.y - fy);
            assert(ray_reaches(pos, team, fx, fy, dx, dy, k));
            assert(1 <= k <= n);
            assert(out[start.len() + k - 1] == m);
        }
    }
    if start.no_duplicates() && (forall|m: Move| #[trigger]
        start.contains(m) ==> !swept(pos, team, fx, fy, i, i + 1, limit, m.x as int, m.y as int)) {
        assert forall|a: int, b: int| 0 <= a < out.len() && 0 <= b < out.len() && a != b implies out[a]
            != out[b] by {
            if a < start.len() {
                assert(out.subrange(0, start.len() as int)[a] == out[a]);
                assert(start.contains(out[a]));
            }
            if b < start.len() {
                assert(out.subrange(0, start.len() as int)[b] == out[b]);
                assert(start.contains(out[b]));
            }
            if a >= start.len() && b >= start.len() {
                assert(ray_reaches(pos, team, fx, fy, dx, dy, a - start.len() + 1));
                assert(ray_reaches(pos, team, fx, fy, dx, dy, b - start.len() + 1));
            }
        }
    }
}

impl ChessBoard {
    /// The squares that `piece` reaches by sliding at most `limit` squares in
    /// one of the directions `lo..hi` of `compass`.
    fn sweep(&self, piece: &ChessPiece, lo: u8, hi: u8, limit: u8) -> (out: Vec<Move>)
        requires
            on_board(piece.x_loc as int, piece.y_loc as int),
            lo <= hi <= 8,
            limit <= 7,
        ensures
            forall|m: Move|
                out@.contains(m) <==> swept(
                    self.position(),
                    piece.team,
                    piece.x_loc as int,
                    piece.y_loc as int,
                    lo as int,
                    hi as int,
                    limit as int,
                    m.x as int,
                    m.y as int,
                ),
            out@.no_duplicates(),
    {
        let ghost pos = self.position();
        let ghost fx = piece.x_loc as int;
        let ghost fy = piece.y_loc as int;
        let mut out: Vec<Move> = Vec::new();
        let mut i: u8 = lo;
        while i < hi
            invariant
                pos == self.position(),
                fx == piece.x_loc as int,
                fy == piece.y_loc as int,
                on_board(fx, fy),
                lo <= i <= hi <= 8,
                limit <= 7,
                forall|m: Move|
                    out@.contains(m) <==> swept(
                        pos,
                        piece.team,
                        fx,
                        fy,
                        lo as int,
                        i as int,
                        limit as int,
                        m.x as int,
                        m.y as int,
                    ),
                out@.no_duplicates(),
            decreases hi - i,
        {
            let d = direction(i);
            let ghost before = out@;
            self.cast_ray(piece, d.0, d.1, limit, &mut out);
            proof {
                lemma_ray_members(pos, piece.team, fx, fy, i as int, limit as int, before, out@);
            }
            i = i + 1;
        }
        out
    }

    /// The squares that the knight `piece` reaches.
    fn knight_leaps(&self, piece: &ChessPiece) -> (out: Vec<Move>)
        requires
            on_board(piece.x_loc as int, piece.y_loc as int),
        ensures
            forall|m: Move|
                out@.contains(m) <==> leapt(
                    self.position(),
                    piece.team,
                    piece.x_loc as int,
                    piece.y_loc as int,
                    8,
                    m.x as int,
                    m.y as int,
                ),
            out@.no_duplicates(),
    {
        let ghost pos = self.position();
        let ghost fx = piece.x_loc as int;
        let ghost fy = piece.y_loc as int;
        let mut out: Vec<Move> = Vec::new();
        let mut i: u8 = 0;
        while i < 8
            invariant
                pos == self.position(),
                fx == piece.x_loc as int,
                fy == piece.y_loc as int,
                on_board(fx, fy),
                i <= 8,
                forall|m: Move|
                    out@.contains(m) <==> leapt(
                        pos,
                        piece.team,
                        fx,
                        fy,
                        i as int,
                        m.x as int,
                        m.y as int,
                    ),
                out@.no_duplicates(),
            decreases 8 - i,
        {
            let d = knight_offset(i);
            let nx: i8 = piece.x_loc as i8 + d.0;
            let ny: i8 = piece.y_loc as i8 + d.1;
            let ghost before = out@;
            if 0 <= nx && nx <= 7 && 0 <= ny && ny <= 7 {
                let friendly = match self.board[nx as usize][ny as usize] {
                    Some(q) => q.team == piece.team,
                    None => false,
                };
                assert(friendly == held_by(pos, nx as int, ny as int, piece.team));
                if !friendly {
                    note_square(&mut out, nx as u8, ny as u8);
                }
            }
            assert forall|m: Move|
                out@.contains(m) <==> leapt(
                    pos,
                    piece.team,
                    fx,
                    fy,
                    i + 1,
                    m.x as int,
                    m.y as int,
                ) by {
                assert(before.contains(m) <==> leapt(
                    pos,
                    piece.team,
                    fx,
                    fy,
                    i as int,
                    m.x as int,
                    m.y as int,
                ));
            }
            i = i + 1;
        }
        out
    }

    /// The squares that the pawn `piece` reaches.
    fn pawn_steps(&self, piece: &ChessPiece) -> (out: Vec<Move>)
        requires
            on_board(piece.x_loc as int, piece.y_loc as int),
        ensures
            forall|m: Move|
                out@.contains(m) <==> (on_board(m.x as int, m.y as int) && pawn_reaches(
                    self.position(),
                    piece.team,
                    piece.x_loc as int,
                    piece.y_loc as int,
                    m.x as int,
                    m.y as int,
                )),
            out@.no_duplicates(),
    {
        let ghost pos = self.position();
        let mut out: Vec<Move> = Vec::new();
        let team = piece.team;
        let fy: u8 = piece.y_loc;
        let dir: i8 = if team == 0 {
            1
        } else {
            -1
        };
        let home: u8 = if team == 0 {
            1
        } else {
            6
        };
        let ahead: i8 = piece.x_loc as i8 + dir;
        if 0 <= ahead && ahead <= 7 {
            let ax: u8 = ahead as u8;
            if self.board[ax as usize][fy as usize].is_none() {
                assert(vacant(pos, ax as int, fy as int));
                note_square(&mut out, ax, fy);
                if piece.x_loc == home {
                    let bx: u8 = (ahead + dir) as u8;
                    if self.board[bx as usize][fy as usize].is_none() {
                        assert(vacant(pos, bx as int, fy as int));
                        note_square(&mut out, bx, fy);
                    }
                }
            }
            if fy >= 1 {
                let enemy = match self.board[ax as usize][(fy - 1) as usize] {
                    Some(q) => q.team != team,
                    None => false,
                };
                assert(enemy == held_by_enemy(pos, ax as int, fy - 1, team));
                if enemy {
                    note_square(&mut out, ax, fy - 1);
                }
            }
            if fy <= 6 {
                let enemy = match self.board[ax as usize][(fy + 1) as usize] {
                    Some(q) => q.team != team,
                    None => false,
                };
                assert(enemy == held_by_enemy(pos, ax as int, fy + 1, team));
                if enemy {
                    note_square(&mut out, ax, fy + 1);
                }
            }
        }
        out
    }

    /// The candidate destinations of `piece`: every square that it reaches
    /// from the square it records by the rules of its kind on this board,
    /// each once. Whether the move would leave the mover's king attacked is
    /// not considered here.
    pub fn candidate_destinations(&self, piece: &ChessPiece) -> (out: Vec<Move>)
        ensures
            forall|m: Move|
                out@.contains(m) <==> can_reach(self.position(), *piece, m.x as int, m.y as int),
            out@.no_duplicates(),
    {
        if piece.x_loc > 7 || piece.y_loc > 7 {
            return Vec::new();
        }
        match piece.piece_type {
            ChessPieceTypes::Pawn => self.pawn_steps(piece),
            ChessPieceTypes::Knight => self.knight_leaps(piece),
            ChessPieceTypes::Bishop => self.sweep(piece, 4, 8, 7),
            ChessPieceTypes::Rook => self.sweep(piece, 0, 4, 7),
            ChessPieceTypes::Queen => self.sweep(piece, 0, 8, 7),
            ChessPieceTypes::King => self.sweep(piece, 0, 8, 1),
        }
    }
}

} // verus!
