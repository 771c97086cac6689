//! Board state: squares, the occupancy store, and the turn holder.

use vstd::pervasive::VecAdditionalExecFns;
use vstd::prelude::*;

use crate::pieces::{idx_at, lemma_idx_at, occupied, piece_at_spec, Piece, PieceColor};

verus! {

/// One of the 64 board positions: rank `x` and file `y`, each in `[0, 7]`.
#[derive(Clone, Copy, Debug, PartialEq, Eq, Structural)]
pub struct Square {
    pub x: u8,
    pub y: u8,
}

impl Square {
    /// The coordinates lie on the board.
    pub open spec fn wf(self) -> bool {
        self.x < 8 && self.y < 8
    }

    /// A square, provided the coordinates lie on the board.
    pub fn new(x: u8, y: u8) -> (r: Option<Square>)
        ensures
            r is Some <==> x < 8 && y < 8,
            r matches Some(s) ==> s == (Square { x, y }) && s.wf(),
    {
        if x < 8 && y < 8 {
            Some(Square { x, y })
        } else {
            None
        }
    }

    /// Whether the square is drawn in the light color; the two colors
    /// alternate along every rank and file.
    pub fn is_light(&self) -> (b: bool)
        ensures
            b == ((self.x + self.y) % 2 == 1),
    {
        (self.x as u16 + self.y as u16) % 2 == 1
    }
}

/// The side currently permitted to move.
#[derive(Clone, Copy, Debug, PartialEq, Eq, Structural)]
pub struct PlayerTurn(pub PieceColor);

impl PlayerTurn {
    /// Hand the turn to the other side.
    pub fn change(&mut self)
        ensures
            final(self).0 == old(self).0.opponent_spec(),
    {
        self.0 = self.0.opponent();
    }
}

impl Default for PlayerTurn {
    /// A fresh game starts with `Light` to move.
    fn default() -> (r: Self)
        ensures
            r.0 == PieceColor::Light,
    {
        PlayerTurn(PieceColor::Light)
    }
}

/// Every piece stands on the board.
pub open spec fn all_in_bounds(pieces: Seq<Piece>) -> bool {
    forall|k: int| 0 <= k < pieces.len() ==> (#[trigger] pieces[k]).x < 8 && pieces[k].y < 8
}

/// At most one piece occupies any square: no two live pieces share a
/// position.
pub open spec fn at_most_one_per_square(pieces: Seq<Piece>) -> bool {
    forall|i: int, j: int|
        0 <= i < pieces.len() && 0 <= j < pieces.len() && i != j ==> !(#[trigger] pieces[i].x
            == #[trigger] pieces[j].x && pieces[i].y == pieces[j].y)
}

/// A well-formed occupancy snapshot: positions are on the board and unique
/// among live pieces.
pub open spec fn board_wf(pieces: Seq<Piece>) -> bool {
    all_in_bounds(pieces) && at_most_one_per_square(pieces)
}

/// Why a board operation failed: the piece reference no longer names a live
/// piece. This is a programming error in the caller, not a game outcome.
#[derive(Clone, Copy, Debug, PartialEq, Eq, Structural)]
pub enum BoardError {
    NotFound,
}

/// The authoritative set of live pieces, addressable by position.
pub struct Board {
    pub(crate) pieces: Vec<Piece>,
}

impl Board {
    /// The live pieces, in storage order. A piece reference is an index into
    /// this sequence, valid until the next removal.
    pub open(crate) spec fn pieces_seq(&self) -> Seq<Piece> {
        self.pieces@
    }

    /// The snapshot is well-formed.
    pub open spec fn wf(&self) -> bool {
        board_wf(self.pieces_seq())
    }

    /// A board holding exactly the given pieces.
    pub fn new(pieces: Vec<Piece>) -> (b: Board)
        ensures
            b.pieces_seq() == pieces@,
    {
        Board { pieces }
    }

    /// How many pieces are live.
    pub fn len(&self) -> (n: usize)
        ensures
            n == self.pieces_seq().len(),
    {
        self.pieces.len()
    }

    /// The piece with the given reference.
    pub fn piece(&self, idx: usize) -> (r: Result<Piece, BoardError>)
        ensures
            idx < self.pieces_seq().len() ==> r == Ok::<Piece, BoardError>(
                self.pieces_seq()[idx as int],
            ),
            idx >= self.pieces_seq().len() ==> r == Err::<Piece, BoardError>(BoardError::NotFound),
    {
        if idx < self.pieces.len() {
            Ok(self.pieces[idx])
        } else {
            Err(BoardError::NotFound)
        }
    }

    /// Index of the piece occupying the square, if any: a fresh piece
    /// reference for the move protocol.
    pub fn index_at(&self, x: u8, y: u8) -> (r: Option<usize>)
        ensures
            r matches Some(u) ==> idx_at(self.pieces_seq(), x, y) == Some(u as int),
            r is None ==> idx_at(self.pieces_seq(), x, y) is None,
    {
        let ghost full = self.pieces@;
        proof {
            assert(full.skip(0) =~= full);
        }
        let mut i: usize = 0;
        while i < self.pieces.len()
            invariant
                0 <= i <= self.pieces.len(),
                full == self.pieces@,
                idx_at(full, x, y) == match idx_at(full.skip(i as int), x, y) {
                    Some(j) => Some(j + i),
                    None => None::<int>,
                },
            decreases self.pieces.len() - i,
        {
            let p = self.pieces[i];
            proof {
                assert(full.skip(i as int)[0] == full[i as int]);
                assert(full.skip(i as int).drop_first() =~= full.skip(i as int + 1));
            }
            if p.x == x && p.y == y {
                return Some(i);
            }
            i = i + 1;
        }
        proof {
            assert(full.skip(self.pieces.len() as int) =~= Seq::<Piece>::empty());
        }
        None
    }

    /// What occupies the square, if anything. Never fails and has no side
    /// effects.
    pub fn occupant_at(&self, sq: Square) -> (r: Option<Piece>)
        ensures
            r == piece_at_spec(self.pieces_seq(), sq.x, sq.y),
    {
        match self.index_at(sq.x, sq.y) {
            Some(i) => {
                proof {
                    lemma_idx_at(self.pieces@, sq.x, sq.y);
                }
                Some(self.pieces[i])
            },
            None => None,
        }
    }

    /// Relocate the referenced piece to `dest`. This is a pure state
    /// transition: the caller must have validated legality already, and a
    /// capture on `dest` must be resolved separately.
    pub fn apply_move(&mut self, idx: usize, dest: Square) -> (r: Result<(), BoardError>)
        ensures
            idx < old(self).pieces_seq().len() ==> {
                &&& r is Ok
                &&& final(self).pieces_seq() == old(self).pieces_seq().update(
                    idx as int,
                    Piece {
                        x: dest.x,
                        y: dest.y,
                        ..old(self).pieces_seq()[idx as int]
                    },
                )
            },
            idx >= old(self).pieces_seq().len() ==> r == Err::<(), BoardError>(BoardError::NotFound)
                && final(self).pieces_seq() == old(self).pieces_seq(),
    {
        if idx < self.pieces.len() {
            let p = self.pieces[idx];
            self.pieces.set(idx, Piece { x: dest.x, y: dest.y, ..p });
            Ok(())
        } else {
            Err(BoardError::NotFound)
        }
    }

    /// Delete the referenced piece from the active set (a capture).
    pub fn remove(&mut self, idx: usize) -> (r: Result<Piece, BoardError>)
        ensures
            idx < old(self).pieces_seq().len() ==> {
                &&& r == Ok::<Piece, BoardError>(old(self).pieces_seq()[idx as int])
                &&& final(self).pieces_seq() == old(self).pieces_seq().remove(idx as int)
            },
            idx >= old(self).pieces_seq().len() ==> r == Err::<Piece, BoardError>(
                BoardError::NotFound,
            ) && final(self).pieces_seq() == old(self).pieces_seq(),
    {
        if idx < self.pieces.len() {
            Ok(self.pieces.remove(idx))
        } else {
            Err(BoardError::NotFound)
        }
    }
}

/// On a well-formed board the occupant lookup is exact: a piece stands on its
/// own square's lookup result, and a piece found at a square is the only one
/// there.
pub proof fn lemma_unique_occupant(pieces: Seq<Piece>, k: int)
    requires
        board_wf(pieces),
        0 <= k < pieces.len(),
    ensures
        piece_at_spec(pieces, pieces[k].x, pieces[k].y) == Some(pieces[k]),
        idx_at(pieces, pieces[k].x, pieces[k].y) == Some(k),
{
    lemma_idx_at(pieces, pieces[k].x, pieces[k].y);
    assert(occupied(pieces, pieces[k].x as int, pieces[k].y as int));
    match idx_at(pieces, pieces[k].x, pieces[k].y) {
        Some(j) => {
            if j != k {
                assert(!(pieces[j].x == pieces[k].x && pieces[j].y == pieces[k].y));
            }
        },
        None => {},
    }
}

} // verus!
