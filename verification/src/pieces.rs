//! Pieces and the move-legality rules.
//!
//! A board snapshot is a sequence of live pieces; the legality predicate
//! [`Piece::is_move_valid`] decides whether a piece may move to a destination
//! square given such a snapshot.

use vstd::prelude::*;

verus! {

/// One of the two sides. `Light` moves first and advances toward higher
/// ranks; `Dark` advances toward lower ranks.
#[derive(Clone, Copy, Debug, PartialEq, Eq, Structural)]
pub enum PieceColor {
    Light,
    Dark,
}

impl PieceColor {
    /// The other side.
    pub open spec fn opponent_spec(self) -> PieceColor {
        match self {
            PieceColor::Light => PieceColor::Dark,
            PieceColor::Dark => PieceColor::Light,
        }
    }

    /// The other side.
    pub fn opponent(&self) -> (c: PieceColor)
        ensures
            c == self.opponent_spec(),
    {
        match self {
            PieceColor::Light => PieceColor::Dark,
            PieceColor::Dark => PieceColor::Light,
        }
    }

    /// A display name for the side, as shown to players.
    pub fn label(&self) -> (s: &'static str)
        ensures
            self is Light ==> s@ == "White"@,
            self is Dark ==> s@ == "Black"@,
    {
        match self {
            PieceColor::Light => "White",
            PieceColor::Dark => "Black",
        }
    }
}

/// Switching sides twice returns to the starting side; together with the
/// turn flip after every applied move, the turn strictly alternates.
pub proof fn lemma_opponent_involution(c: PieceColor)
    ensures
        c.opponent_spec().opponent_spec() == c,
{
}

/// The six piece kinds of standard chess.
#[derive(Clone, Copy, Debug, PartialEq, Eq, Structural)]
pub enum PieceType {
    King,
    Queen,
    Bishop,
    Knight,
    Rook,
    Pawn,
}

/// A live chess unit: a side, a kind, and a position. `x` is the rank and
/// `y` the file, each in `[0, 7]` on a well-formed board.
#[derive(Clone, Copy, Debug, PartialEq, Eq, Structural)]
pub struct Piece {
    pub color: PieceColor,
    pub piece_type: PieceType,
    pub x: u8,
    pub y: u8,
}

/// Index of the first piece occupying `(x, y)`, if any.
pub open spec fn idx_at(pieces: Seq<Piece>, x: u8, y: u8) -> Option<int>
    decreases pieces.len(),
{
    if pieces.len() == 0 {
        None
    } else if pieces[0].x == x && pieces[0].y == y {
        Some(0)
    } else {
        match idx_at(pieces.drop_first(), x, y) {
            Some(j) => Some(j + 1),
            None => None,
        }
    }
}

/// The first piece occupying `(x, y)`, if any.
pub open spec fn piece_at_spec(pieces: Seq<Piece>, x: u8, y: u8) -> Option<Piece> {
    match idx_at(pieces, x, y) {
        Some(j) => Some(pieces[j]),
        None => None,
    }
}

/// The color of the first piece occupying `(x, y)`, if any.
pub open spec fn color_of_square_spec(pieces: Seq<Piece>, x: u8, y: u8) -> Option<PieceColor> {
    match piece_at_spec(pieces, x, y) {
        Some(p) => Some(p.color),
        None => None,
    }
}

/// Some piece of the snapshot stands on `(x, y)`.
pub open spec fn occupied(pieces: Seq<Piece>, x: int, y: int) -> bool {
    exists|k: int| 0 <= k < pieces.len() && pieces[k].x == x && pieces[k].y == y
}

/// `idx_at` finds the first occupant: its index is in range, the piece there
/// stands on the square, no earlier piece does, and a `None` answer means the
/// square is empty.
pub proof fn lemma_idx_at(pieces: Seq<Piece>, x: u8, y: u8)
    ensures
        match idx_at(pieces, x, y) {
            Some(j) => {
                &&& 0 <= j < pieces.len()
                &&& pieces[j].x == x && pieces[j].y == y
                &&& forall|k: int| 0 <= k < j ==> !(pieces[k].x == x && pieces[k].y == y)
            },
            None => !occupied(pieces, x as int, y as int),
        },
    decreases pieces.len(),
{
    if pieces.len() == 0 {
        assert(!occupied(pieces, x as int, y as int));
    } else if pieces[0].x == x && pieces[0].y == y {
    } else {
        let rest = pieces.drop_first();
        lemma_idx_at(rest, x, y);
        match idx_at(rest, x, y) {
            Some(j) => {
                assert(forall|k: int| 0 <= k < j + 1 ==> !(pieces[k].x == x && pieces[k].y == y))
                    by {
                    assert(forall|k: int| 1 <= k < j + 1 ==> pieces[k] == rest[k - 1]);
                }
            },
            None => {
                assert(!occupied(pieces, x as int, y as int)) by {
                    assert(forall|k: int| 1 <= k < pieces.len() ==> pieces[k] == rest[k - 1]);
                }
            },
        }
    }
}

/// The square `(x, y)` holds a piece exactly when the lookup answers `Some`.
pub proof fn lemma_occupied_iff_some(pieces: Seq<Piece>, x: u8, y: u8)
    ensures
        occupied(pieces, x as int, y as int) <==> piece_at_spec(pieces, x, y) is Some,
{
    lemma_idx_at(pieces, x, y);
    if idx_at(pieces, x, y) is Some {
        let j = idx_at(pieces, x, y)->Some_0;
        assert(pieces[j].x == x && pieces[j].y == y);
    }
}

/// The absolute difference of two coordinates.
pub open spec fn dist(a: int, b: int) -> int {
    if a >= b {
        a - b
    } else {
        b - a
    }
}

/// `c` lies strictly between `a` and `b`, in either order.
pub open spec fn between(a: int, b: int, c: int) -> bool {
    a < c < b || b < c < a
}

/// The piece stands strictly between `(bx, by)` and `(ex, ey)` on a shared
/// rank.
pub open spec fn blocks_rank(p: Piece, bx: int, by: int, ex: int, ey: int) -> bool {
    bx == ex && p.x == bx && between(by, ey, p.y as int)
}

/// The piece stands strictly between `(bx, by)` and `(ex, ey)` on a shared
/// file.
pub open spec fn blocks_file(p: Piece, bx: int, by: int, ex: int, ey: int) -> bool {
    by == ey && p.y == by && between(bx, ex, p.x as int)
}

/// The piece stands strictly between `(bx, by)` and `(ex, ey)` on the
/// diagonal joining them.
pub open spec fn blocks_diagonal(p: Piece, bx: int, by: int, ex: int, ey: int) -> bool {
    &&& dist(bx, ex) == dist(by, ey)
    &&& between(bx, ex, p.x as int)
    &&& between(by, ey, p.y as int)
    &&& dist(bx, p.x as int) == dist(by, p.y as int)
}

/// The piece occupies a square strictly between the two endpoints along a
/// straight line: a shared rank, a shared file, or the diagonal joining them.
pub open spec fn blocks(p: Piece, bx: int, by: int, ex: int, ey: int) -> bool {
    ||| blocks_rank(p, bx, by, ex, ey)
    ||| blocks_file(p, bx, by, ex, ey)
    ||| blocks_diagonal(p, bx, by, ex, ey)
}

/// No piece of the snapshot stands strictly between the two endpoints along
/// a straight line. Trivially true for endpoints not on a shared rank, file
/// or diagonal.
pub open spec fn path_clear(pieces: Seq<Piece>, bx: int, by: int, ex: int, ey: int) -> bool {
    forall|k: int| 0 <= k < pieces.len() ==> !blocks(#[trigger] pieces[k], bx, by, ex, ey)
}

/// Returns the color of the piece on the square, or `None` if it is empty.
pub fn color_of_square(pos: (u8, u8), pieces: &Vec<Piece>) -> (r: Option<PieceColor>)
    ensures
        r == color_of_square_spec(pieces@, pos.0, pos.1),
{
    let ghost full = pieces@;
    proof {
        assert(full.skip(0) =~= full);
    }
    let mut i: usize = 0;
    while i < pieces.len()
        invariant
            0 <= i <= pieces.len(),
            full == pieces@,
            idx_at(full, pos.0, pos.1) == match idx_at(full.skip(i as int), pos.0, pos.1) {
                Some(j) => Some(j + i),
                None => None::<int>,
            },
        decreases pieces.len() - i,
    {
        let p = pieces[i];
        proof {
            assert(full.skip(i as int)[0] == full[i as int]);
            assert(full.skip(i as int).drop_first() =~= full.skip(i as int + 1));
        }
        if p.x == pos.0 && p.y == pos.1 {
            proof {
                lemma_idx_at(full, pos.0, pos.1);
            }
            return Some(p.color);
        }
        i = i + 1;
    }
    proof {
        assert(full.skip(pieces.len() as int) =~= Seq::<Piece>::empty());
    }
    None
}

/// Returns whether no piece occupies a square strictly between `begin` and
/// `end` along a shared rank, shared file, or the diagonal joining them.
pub fn is_path_empty(begin: (u8, u8), end: (u8, u8), pieces: &Vec<Piece>) -> (r: bool)
    ensures
        r == path_clear(pieces@, begin.0 as int, begin.1 as int, end.0 as int, end.1 as int),
{
    let ghost full = pieces@;
    let ghost bx = begin.0 as int;
    let ghost by = begin.1 as int;
    let ghost ex = end.0 as int;
    let ghost ey = end.1 as int;

    // Shared rank
    if begin.0 == end.0 {
        let mut i: usize = 0;
        while i < pieces.len()
            invariant
                0 <= i <= pieces.len(),
                full == pieces@,
                bx == begin.0 as int && by == begin.1 as int,
                ex == end.0 as int && ey == end.1 as int,
                bx == ex,
                forall|k: int| 0 <= k < i ==> !blocks_rank(#[trigger] full[k], bx, by, ex, ey),
            decreases pieces.len() - i,
        {
            let p = pieces[i];
            if p.x == begin.0 && ((p.y > begin.1 && p.y < end.1) || (p.y > end.1 && p.y
                < begin.1)) {
                proof {
                    assert(blocks(full[i as int], bx, by, ex, ey));
                }
                return false;
            }
            i = i + 1;
        }
    }
    assert(forall|k: int| 0 <= k < full.len() ==> !blocks_rank(#[trigger] full[k], bx, by, ex, ey));

    // Shared file
    if begin.1 == end.1 {
        let mut i: usize = 0;
        while i < pieces.len()
            invariant
                0 <= i <= pieces.len(),
                full == pieces@,
                bx == begin.0 as int && by == begin.1 as int,
                ex == end.0 as int && ey == end.1 as int,
                by == ey,
                forall|k: int| 0 <= k < i ==> !blocks_file(#[trigger] full[k], bx, by, ex, ey),
            decreases pieces.len() - i,
        {
            let p = pieces[i];
            if p.y == begin.1 && ((p.x > begin.0 && p.x < end.0) || (p.x > end.0 && p.x
                < begin.0)) {
                proof {
                    assert(blocks(full[i as int], bx, by, ex, ey));
                }
                return false;
            }
            i = i + 1;
        }
    }
    assert(forall|k: int| 0 <= k < full.len() ==> !blocks_file(#[trigger] full[k], bx, by, ex, ey));

    // Diagonal
    let x_diff = if begin.0 >= end.0 {
        begin.0 - end.0
    } else {
        end.0 - begin.0
    };
    let y_diff = if begin.1 >= end.1 {
        begin.1 - end.1
    } else {
        end.1 - begin.1
    };
    if x_diff == y_diff {
        let mut i: u8 = 1;
        while i < x_diff
            invariant
                1 <= i,
                x_diff == dist(bx, ex) && y_diff == dist(by, ey),
                x_diff == y_diff,
                full == pieces@,
                bx == begin.0 as int && by == begin.1 as int,
                ex == end.0 as int && ey == end.1 as int,
                forall|k: int|
                    0 <= k < full.len() ==> !(blocks_diagonal(#[trigger] full[k], bx, by, ex, ey)
                        && dist(bx, full[k].x as int) < i),
            decreases x_diff - i,
        {
            let pos: (u8, u8) = if begin.0 < end.0 && begin.1 < end.1 {
                (begin.0 + i, begin.1 + i)
            } else if begin.0 < end.0 && begin.1 > end.1 {
                (begin.0 + i, begin.1 - i)
            } else if begin.0 > end.0 && begin.1 < end.1 {
                (begin.0 - i, begin.1 + i)
            } else {
                (begin.0 - i, begin.1 - i)
            };
            match color_of_square(pos, pieces) {
                Some(_) => {
                    proof {
                        lemma_occupied_iff_some(full, pos.0, pos.1);
                        let w = choose|k: int|
                            0 <= k < full.len() && full[k].x == pos.0 as int && full[k].y
                                == pos.1 as int;
                        assert(blocks(full[w], bx, by, ex, ey));
                    }
                    return false;
                },
                None => {
                    proof {
                        lemma_occupied_iff_some(full, pos.0, pos.1);
                        assert forall|k: int|
                            0 <= k < full.len() implies !(blocks_diagonal(
                            #[trigger] full[k],
                            bx,
                            by,
                            ex,
                            ey,
                        ) && dist(bx, full[k].x as int) < i + 1) by {
                            if blocks_diagonal(full[k], bx, by, ex, ey) && dist(
                                bx,
                                full[k].x as int,
                            ) == i {
                                assert(full[k].x == pos.0 && full[k].y == pos.1);
                                assert(occupied(full, pos.0 as int, pos.1 as int));
                            }
                        }
                    }
                },
            }
            i = i + 1;
        }
        proof {
            assert forall|k: int|
                0 <= k < full.len() implies !blocks_diagonal(
                #[trigger] full[k],
                bx,
                by,
                ex,
                ey,
            ) by {
                if blocks_diagonal(full[k], bx, by, ex, ey) {
                    assert(dist(bx, full[k].x as int) < dist(bx, ex));
                }
            }
        }
    }
    assert(forall|k: int|
        0 <= k < full.len() ==> !blocks_diagonal(#[trigger] full[k], bx, by, ex, ey));
    true
}

/// Pawn legality: forward-only, asymmetric by color. A single step straight
/// ahead onto an empty square; a double step from the home rank with a clear
/// path onto an empty square; or a diagonal step capturing an opposing piece.
pub open spec fn pawn_move_allowed(mover: Piece, x: u8, y: u8, pieces: Seq<Piece>) -> bool {
    let sx = mover.x as int;
    let sy = mover.y as int;
    let tx = x as int;
    let ty = y as int;
    let dx = dist(sx, tx);
    let dy = dist(sy, ty);
    let dest_color = color_of_square_spec(pieces, x, y);
    let clear = path_clear(pieces, sx, sy, tx, ty);
    match mover.color {
        PieceColor::Light => tx > sx && {
            ||| (dx == 1 && sy == ty && dest_color is None)
            ||| (sx == 1 && dx == 2 && sy == ty && clear && dest_color is None)
            ||| (dx == 1 && dy == 1 && dest_color == Some(PieceColor::Dark))
        },
        PieceColor::Dark => tx < sx && {
            ||| (dx == 1 && sy == ty && dest_color is None)
            ||| (sx == 6 && dx == 2 && sy == ty && clear && dest_color is None)
            ||| (dx == 1 && dy == 1 && dest_color == Some(PieceColor::Light))
        },
    }
}

/// The move-legality predicate. A destination holding a piece of the mover's
/// own color is always illegal; otherwise each kind has its rule over the
/// coordinate differences, the path between the squares, and the occupant of
/// the destination.
pub open spec fn move_allowed(mover: Piece, x: u8, y: u8, pieces: Seq<Piece>) -> bool {
    let dest_color = color_of_square_spec(pieces, x, y);
    if dest_color == Some(mover.color) {
        false
    } else {
        let sx = mover.x as int;
        let sy = mover.y as int;
        let tx = x as int;
        let ty = y as int;
        let dx = dist(sx, tx);
        let dy = dist(sy, ty);
        let clear = path_clear(pieces, sx, sy, tx, ty);
        match mover.piece_type {
            PieceType::King => (dx == 1 && sy == ty) || (dy == 1 && sx == tx) || (dx == 1 && dy
                == 1),
            PieceType::Queen => clear && (dx == dy || (sx == tx && sy != ty) || (sy == ty && sx
                != tx)),
            PieceType::Bishop => clear && dx == dy && dx > 0,
            PieceType::Knight => (dx == 2 && dy == 1) || (dy == 2 && dx == 1),
            PieceType::Rook => clear && ((sy == ty && sx != tx) || (sx == tx && sy != ty)),
            PieceType::Pawn => pawn_move_allowed(mover, x, y, pieces),
        }
    }
}

/// Knight legality ignores intervening occupancy: two snapshots that agree on
/// the occupant color of the destination square give the same verdict for a
/// knight, whatever pieces stand anywhere else.
pub proof fn lemma_knight_ignores_path(
    mover: Piece,
    x: u8,
    y: u8,
    pieces1: Seq<Piece>,
    pieces2: Seq<Piece>,
)
    requires
        mover.piece_type is Knight,
        color_of_square_spec(pieces1, x, y) == color_of_square_spec(pieces2, x, y),
    ensures
        move_allowed(mover, x, y, pieces1) == move_allowed(mover, x, y, pieces2),
{
}

/// A pawn never moves backward or sideways along the rank axis: a light pawn
/// only toward higher ranks, a dark pawn only toward lower ranks.
pub proof fn lemma_pawn_never_backward(p: Piece, x: u8, y: u8, pieces: Seq<Piece>)
    requires
        p.piece_type is Pawn,
    ensures
        p.color is Light && x <= p.x ==> !move_allowed(p, x, y, pieces),
        p.color is Dark && x >= p.x ==> !move_allowed(p, x, y, pieces),
{
}

/// A light pawn on its home rank may double-step to rank 3 of its file
/// exactly when both squares ahead of it on that file are empty.
pub proof fn lemma_pawn_double_step_light(p: Piece, pieces: Seq<Piece>)
    requires
        p.piece_type is Pawn,
        p.color is Light,
        p.x == 1,
    ensures
        move_allowed(p, 3, p.y, pieces) <==> !occupied(pieces, 2, p.y as int) && !occupied(
            pieces,
            3,
            p.y as int,
        ),
{
    let py = p.y as int;
    lemma_occupied_iff_some(pieces, 2, p.y);
    lemma_occupied_iff_some(pieces, 3, p.y);
    if occupied(pieces, 2, py) {
        let w = choose|k: int| 0 <= k < pieces.len() && pieces[k].x == 2 && pieces[k].y == py;
        assert(blocks(pieces[w], 1, py, 3, py));
        assert(!path_clear(pieces, 1, py, 3, py));
    }
    if !path_clear(pieces, 1, py, 3, py) {
        let w = choose|k: int| 0 <= k < pieces.len() && blocks(#[trigger] pieces[k], 1, py, 3, py);
        assert(pieces[w].x == 2 && pieces[w].y == py);
        assert(occupied(pieces, 2, py));
    }
}

/// A dark pawn on its home rank may double-step to rank 4 of its file
/// exactly when both squares ahead of it on that file are empty.
pub proof fn lemma_pawn_double_step_dark(p: Piece, pieces: Seq<Piece>)
    requires
        p.piece_type is Pawn,
        p.color is Dark,
        p.x == 6,
    ensures
        move_allowed(p, 4, p.y, pieces) <==> !occupied(pieces, 5, p.y as int) && !occupied(
            pieces,
            4,
            p.y as int,
        ),
{
    let py = p.y as int;
    lemma_occupied_iff_some(pieces, 5, p.y);
    lemma_occupied_iff_some(pieces, 4, p.y);
    if occupied(pieces, 5, py) {
        let w = choose|k: int| 0 <= k < pieces.len() && pieces[k].x == 5 && pieces[k].y == py;
        assert(blocks(pieces[w], 6, py, 4, py));
        assert(!path_clear(pieces, 6, py, 4, py));
    }
    if !path_clear(pieces, 6, py, 4, py) {
        let w = choose|k: int| 0 <= k < pieces.len() && blocks(#[trigger] pieces[k], 6, py, 4, py);
        assert(pieces[w].x == 5 && pieces[w].y == py);
        assert(occupied(pieces, 5, py));
    }
}

/// A pawn captures only diagonally and only captures: it cannot step
/// diagonally onto an empty square, and cannot move straight onto an
/// occupied one.
pub proof fn lemma_pawn_capture_only_diagonal(p: Piece, x: u8, y: u8, pieces: Seq<Piece>)
    requires
        p.piece_type is Pawn,
    ensures
        y != p.y && color_of_square_spec(pieces, x, y) is None ==> !move_allowed(p, x, y, pieces),
        y == p.y && color_of_square_spec(pieces, x, y) is Some ==> !move_allowed(p, x, y, pieces),
{
}

impl Piece {
    /// Returns whether moving this piece to `new_pos` is legal given the
    /// snapshot of all live pieces.
    pub fn is_move_valid(&self, new_pos: (u8, u8), pieces: Vec<Piece>) -> (r: bool)
        ensures
            r == move_allowed(*self, new_pos.0, new_pos.1, pieces@),
    {
        let color_of_new = color_of_square(new_pos, &pieces);
        // A piece of the mover's own color on the destination blocks the move
        // outright.
        let own_color_on_dest = match color_of_new {
            Some(c) => c == self.color,
            None => false,
        };
        if own_color_on_dest {
            return false;
        }

        let x = new_pos.0;
        let y = new_pos.1;
        let x_diff = if self.x >= x {
            self.x - x
        } else {
            x - self.x
        };
        let y_diff = if self.y >= y {
            self.y - y
        } else {
            y - self.y
        };
        let path_empty = is_path_empty((self.x, self.y), new_pos, &pieces);
        match self.piece_type {
            PieceType::King => {
                x_diff == 1 && self.y == y || y_diff == 1 && self.x == x || x_diff == 1 && y_diff
                    == 1
            },
            PieceType::Queen => {
                path_empty && (x_diff == y_diff || (self.x == x && self.y != y) || (self.y == y
                    && self.x != x))
            },
            PieceType::Bishop => path_empty && x_diff == y_diff && x_diff > 0,
            PieceType::Knight => x_diff == 2 && y_diff == 1 || y_diff == 2 && x_diff == 1,
            PieceType::Rook => {
                path_empty && (self.y == y && self.x != x || self.x == x && self.y != y)
            },
            PieceType::Pawn => {
                match self.color {
                    PieceColor::Light => {
                        // Has to move forward.
                        if x <= self.x {
                            return false;
                        }
                        // Normal move.
                        if x_diff == 1 && self.y == y && color_of_new.is_none() {
                            return true;
                        }
                        // Move 2 squares from the home rank.
                        if self.x == 1 && x_diff == 2 && self.y == y && path_empty
                            && color_of_new.is_none() {
                            return true;
                        }
                        // Take a piece.
                        if x_diff == 1 && y_diff == 1 && (match color_of_new {
                            Some(PieceColor::Dark) => true,
                            _ => false,
                        }) {
                            return true;
                        }
                        false
                    },
                    PieceColor::Dark => {
                        // Has to move forward.
                        if x >= self.x {
                            return false;
                        }
                        // Normal move.
                        if x_diff == 1 && self.y == y && color_of_new.is_none() {
                            return true;
                        }
                        // Move 2 squares from the home rank.
                        if self.x == 6 && x_diff == 2 && self.y == y && path_empty
                            && color_of_new.is_none() {
                            return true;
                        }
                        // Take a piece.
                        if x_diff == 1 && y_diff == 1 && (match color_of_new {
                            Some(PieceColor::Light) => true,
                            _ => false,
                        }) {
                            return true;
                        }
                        false
                    },
                }
            },
        }
    }
}

} // verus!
