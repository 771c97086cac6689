//! Game orchestration: turn order, selection, move application and the
//! end-of-game condition.

use vstd::pervasive::VecAdditionalExecFns;
use vstd::prelude::*;

use crate::board::{
    all_in_bounds, at_most_one_per_square, board_wf, Board, PlayerTurn, Square,
};
use crate::pieces::{
    idx_at, lemma_idx_at, move_allowed, piece_at_spec, Piece, PieceColor, PieceType,
};
use crate::board::lemma_unique_occupant;
use crate::pieces::color_of_square_spec;

verus! {

/// What a collaborator needs to know of a piece to render it: its side and
/// kind.
#[derive(Clone, Copy, Debug, PartialEq, Eq, Structural)]
pub struct PieceView {
    pub color: PieceColor,
    pub kind: PieceType,
}

/// The result of an attempted move.
#[derive(Clone, Copy, Debug, PartialEq, Eq)]
pub enum MoveOutcome {
    /// The move was legal and has been applied; `captured` reports the
    /// opposing piece removed from the destination square, if any.
    Applied { captured: Option<PieceView> },
    /// The move was illegal; board and turn are unchanged.
    Rejected,
    /// The move captured a king (or the game had already ended): `winner` is
    /// the side that took it. No further moves are processed.
    GameOver { winner: PieceColor },
}

/// The result of one square-selection event.
#[derive(Clone, Copy, Debug, PartialEq, Eq)]
pub enum ClickOutcome {
    /// The square held a piece of the side to move; it is now selected.
    Selected,
    /// The event selected nothing and changed nothing.
    Ignored,
    /// A piece was already selected: the move to the clicked square was
    /// attempted, with the given result, and the selection was cleared.
    Attempted(MoveOutcome),
}

/// The rendering view of an optional piece.
pub open spec fn view_of_piece(p: Option<Piece>) -> Option<PieceView> {
    match p {
        Some(q) => Some(PieceView { color: q.color, kind: q.piece_type }),
        None => None,
    }
}

/// The side to move after `n` successfully applied moves of a game that
/// started with `Light` to move.
pub open spec fn turn_of_count(n: nat) -> PieceColor {
    if n % 2 == 0 {
        PieceColor::Light
    } else {
        PieceColor::Dark
    }
}

/// The turn strictly alternates: one more applied move hands the turn to the
/// opponent of the side that held it, so after `n` applied moves from the
/// start it is `Light`'s turn exactly when `n` is even.
pub proof fn lemma_turn_alternation(n: nat)
    ensures
        turn_of_count(n + 1) == turn_of_count(n).opponent_spec(),
{
}

/// The kind standing on file `f` of each back rank in the starting layout.
pub open spec fn back_rank_kind(f: int) -> PieceType {
    if f == 0 || f == 7 {
        PieceType::Rook
    } else if f == 1 || f == 6 {
        PieceType::Knight
    } else if f == 2 || f == 5 {
        PieceType::Bishop
    } else if f == 3 {
        PieceType::Queen
    } else {
        PieceType::King
    }
}

/// Piece `i` of the standard starting layout: the light back rank on rank 0,
/// light pawns on rank 1, the dark back rank on rank 7, dark pawns on rank 6.
pub open spec fn start_piece(i: int) -> Piece {
    if i < 8 {
        Piece { color: PieceColor::Light, piece_type: back_rank_kind(i), x: 0, y: i as u8 }
    } else if i < 16 {
        Piece { color: PieceColor::Light, piece_type: PieceType::Pawn, x: 1, y: (i - 8) as u8 }
    } else if i < 24 {
        Piece {
            color: PieceColor::Dark,
            piece_type: back_rank_kind(i - 16),
            x: 7,
            y: (i - 16) as u8,
        }
    } else {
        Piece { color: PieceColor::Dark, piece_type: PieceType::Pawn, x: 6, y: (i - 24) as u8 }
    }
}

/// The standard 32-piece starting layout.
pub open spec fn starting_layout() -> Seq<Piece> {
    Seq::new(32, |i: int| start_piece(i))
}

/// The starting layout is a well-formed board.
pub proof fn lemma_starting_layout_wf()
    ensures
        board_wf(starting_layout()),
{
    let s = starting_layout();
    assert forall|i: int, j: int|
        0 <= i < s.len() && 0 <= j < s.len() && i != j implies !(#[trigger] s[i].x
        == #[trigger] s[j].x && s[i].y == s[j].y) by {
        assert(s[i] == start_piece(i));
        assert(s[j] == start_piece(j));
    }
}

/// The full state of one game: the board, the side to move, the pending
/// selection, the winner once a king has been captured, and a ghost count of
/// the moves applied so far, whose parity always matches the side to move.
pub struct GameState {
    board: Board,
    turn: PlayerTurn,
    selected: Option<usize>,
    winner: Option<PieceColor>,
    moves: Ghost<nat>,
}

impl GameState {
    /// The live pieces, in storage order.
    pub closed spec fn pieces_seq(&self) -> Seq<Piece> {
        self.board.pieces_seq()
    }

    /// The side currently permitted to move.
    pub closed spec fn turn_spec(&self) -> PieceColor {
        self.turn.0
    }

    /// The pending selection: an index into the live pieces, if any.
    pub closed spec fn selected_spec(&self) -> Option<usize> {
        self.selected
    }

    /// The winning side, once a king has been captured.
    pub closed spec fn winner_spec(&self) -> Option<PieceColor> {
        self.winner
    }

    /// How many moves have been successfully applied since the game started.
    pub closed spec fn moves_spec(&self) -> nat {
        self.moves@
    }

    /// The game-state invariant: the board is well-formed (every piece on
    /// the board, at most one piece per square), any pending selection names
    /// a live piece, and the side to move alternates with the count of
    /// applied moves.
    pub open spec fn wf(&self) -> bool {
        &&& board_wf(self.pieces_seq())
        &&& (self.selected_spec() matches Some(i) ==> i < self.pieces_seq().len())
        &&& self.turn_spec() == turn_of_count(self.moves_spec())
    }
}

/// A move of the piece referenced by `idx` to `dest` is accepted: the game is
/// still running, the reference names a live piece of the side to move, and
/// the destination is legal for it under the current occupancy.
pub open spec fn move_legal(s: GameState, idx: int, dest: Square) -> bool {
    &&& s.winner_spec() is None
    &&& dest.wf()
    &&& 0 <= idx < s.pieces_seq().len()
    &&& s.pieces_seq()[idx].color == s.turn_spec()
    &&& move_allowed(s.pieces_seq()[idx], dest.x, dest.y, s.pieces_seq())
}

/// The occupancy after applying a move: the mover relocated to `dest`, and
/// the previous occupant of `dest` (if any) removed from the active set.
pub open spec fn board_after_move(pieces: Seq<Piece>, idx: int, dest: Square) -> Seq<Piece> {
    let stepped = pieces.update(idx, Piece { x: dest.x, y: dest.y, ..pieces[idx] });
    match idx_at(pieces, dest.x, dest.y) {
        Some(j) => stepped.remove(j),
        None => stepped,
    }
}

/// The outcome reported for an applied move: game over if the capture took a
/// king, otherwise the applied move with the view of the captured piece.
pub open spec fn move_outcome_of(pieces: Seq<Piece>, idx: int, dest: Square) -> MoveOutcome {
    match piece_at_spec(pieces, dest.x, dest.y) {
        Some(t) => if t.piece_type is King {
            MoveOutcome::GameOver { winner: pieces[idx].color }
        } else {
            MoveOutcome::Applied {
                captured: Some(PieceView { color: t.color, kind: t.piece_type }),
            }
        },
        None => MoveOutcome::Applied { captured: None },
    }
}

/// A rejected attempt leaves board, turn, winner and move count unchanged and
/// clears the pending selection.
pub open spec fn rejected_state(pre: GameState, post: GameState) -> bool {
    &&& post.pieces_seq() == pre.pieces_seq()
    &&& post.turn_spec() == pre.turn_spec()
    &&& post.winner_spec() == pre.winner_spec()
    &&& post.moves_spec() == pre.moves_spec()
    &&& post.selected_spec() is None
}

/// An applied attempt performs the transactional update: the board steps to
/// the post-move occupancy, the turn flips to the opponent, the move count
/// grows by one, the selection is cleared, and the winner is set exactly when
/// the capture took a king.
pub open spec fn applied_state(pre: GameState, idx: int, dest: Square, post: GameState) -> bool {
    &&& post.pieces_seq() == board_after_move(pre.pieces_seq(), idx, dest)
    &&& post.turn_spec() == pre.turn_spec().opponent_spec()
    &&& post.moves_spec() == pre.moves_spec() + 1
    &&& post.selected_spec() is None
    &&& post.winner_spec() == (match piece_at_spec(pre.pieces_seq(), dest.x, dest.y) {
        Some(t) => if t.piece_type is King {
            Some(pre.pieces_seq()[idx].color)
        } else {
            None::<PieceColor>
        },
        None => None::<PieceColor>,
    })
}

/// The full contract of one attempted move, relating the state before, the
/// state after and the reported outcome.
pub open spec fn move_step(
    pre: GameState,
    idx: int,
    dest: Square,
    post: GameState,
    outcome: MoveOutcome,
) -> bool {
    match pre.winner_spec() {
        Some(w) => post == pre && outcome == (MoveOutcome::GameOver { winner: w }),
        None => if move_legal(pre, idx, dest) {
            applied_state(pre, idx, dest, post) && outcome == move_outcome_of(
                pre.pieces_seq(),
                idx,
                dest,
            )
        } else {
            rejected_state(pre, post) && outcome == MoveOutcome::Rejected
        },
    }
}

/// The turn strictly alternates. Across any attempted move between
/// well-formed states, the side to move afterwards is `Light` exactly when
/// the count of successfully applied moves is even, and a rejected attempt
/// changes neither that count nor the turn.
pub proof fn lemma_turn_parity(
    pre: GameState,
    idx: int,
    dest: Square,
    post: GameState,
    outcome: MoveOutcome,
)
    requires
        pre.wf(),
        post.wf(),
        move_step(pre, idx, dest, post, outcome),
    ensures
        post.turn_spec() == (if post.moves_spec() % 2 == 0 {
            PieceColor::Light
        } else {
            PieceColor::Dark
        }),
        outcome == MoveOutcome::Rejected ==> post.turn_spec() == pre.turn_spec()
            && post.moves_spec() == pre.moves_spec(),
{
}

/// Applying a legal move to a well-formed board yields a well-formed board:
/// in particular, at most one piece occupies any square afterwards.
pub proof fn lemma_board_after_move_wf(pieces: Seq<Piece>, idx: int, dest: Square)
    requires
        board_wf(pieces),
        0 <= idx < pieces.len(),
        dest.wf(),
        color_of_square_spec(pieces, dest.x, dest.y) != Some(pieces[idx].color),
    ensures
        board_wf(board_after_move(pieces, idx, dest)),
{
    lemma_idx_at(pieces, dest.x, dest.y);
    let moved = Piece { x: dest.x, y: dest.y, ..pieces[idx] };
    let stepped = pieces.update(idx, moved);
    assert(!(pieces[idx].x == dest.x && pieces[idx].y == dest.y)) by {
        if pieces[idx].x == dest.x && pieces[idx].y == dest.y {
            lemma_unique_occupant(pieces, idx);
        }
    }
    match idx_at(pieces, dest.x, dest.y) {
        None => {
            assert forall|u: int, v: int|
                0 <= u < stepped.len() && 0 <= v < stepped.len() && u != v implies !(
            #[trigger] stepped[u].x == #[trigger] stepped[v].x && stepped[u].y
                == stepped[v].y) by {
                if u != idx && v != idx {
                    assert(stepped[u] == pieces[u] && stepped[v] == pieces[v]);
                } else if u == idx {
                    assert(stepped[v] == pieces[v]);
                    assert(!(pieces[v].x == dest.x && pieces[v].y == dest.y));
                } else {
                    assert(stepped[u] == pieces[u]);
                    assert(!(pieces[u].x == dest.x && pieces[u].y == dest.y));
                }
            }
        },
        Some(j) => {
            assert(pieces[j].x == dest.x && pieces[j].y == dest.y);
            assert(j != idx);
            let after = stepped.remove(j);
            stepped.remove_ensures(j);
            // Any piece other than the captured one stands off the
            // destination square.
            assert forall|k: int| 0 <= k < pieces.len() && k != j implies !(
            #[trigger] pieces[k].x == dest.x && pieces[k].y == dest.y) by {
                if pieces[k].x == dest.x && pieces[k].y == dest.y {
                    assert(!(pieces[k].x == pieces[j].x && pieces[k].y == pieces[j].y));
                }
            }
            assert forall|u: int, v: int|
                0 <= u < after.len() && 0 <= v < after.len() && u != v implies !(
            #[trigger] after[u].x == #[trigger] after[v].x && after[u].y == after[v].y) by {
                let u0 = if u < j {
                    u
                } else {
                    u + 1
                };
                let v0 = if v < j {
                    v
                } else {
                    v + 1
                };
                assert(after[u] == stepped[u0] && after[v] == stepped[v0]);
                assert(u0 != v0 && u0 != j && v0 != j);
                if u0 != idx && v0 != idx {
                    assert(stepped[u0] == pieces[u0] && stepped[v0] == pieces[v0]);
                } else if u0 == idx {
                    assert(stepped[u0] == moved);
                    assert(stepped[v0] == pieces[v0]);
                    assert(!(pieces[v0].x == dest.x && pieces[v0].y == dest.y));
                } else {
                    assert(stepped[v0] == moved);
                    assert(stepped[u0] == pieces[u0]);
                    assert(!(pieces[u0].x == dest.x && pieces[u0].y == dest.y));
                }
            }
            assert(all_in_bounds(after)) by {
                assert forall|k: int| 0 <= k < after.len() implies (#[trigger] after[k]).x < 8
                    && after[k].y < 8 by {
                    let k0 = if k < j {
                        k
                    } else {
                        k + 1
                    };
                    assert(after[k] == stepped[k0]);
                }
            }
        },
    }
}

/// The kind standing on file `f` of each back rank in the starting layout.
fn back_rank(f: u8) -> (k: PieceType)
    ensures
        k == back_rank_kind(f as int),
{
    if f == 0 || f == 7 {
        PieceType::Rook
    } else if f == 1 || f == 6 {
        PieceType::Knight
    } else if f == 2 || f == 5 {
        PieceType::Bishop
    } else if f == 3 {
        PieceType::Queen
    } else {
        PieceType::King
    }
}

/// Builds the standard 32-piece starting layout.
fn starting_pieces() -> (v: Vec<Piece>)
    ensures
        v@ == starting_layout(),
{
    let mut v: Vec<Piece> = Vec::new();
    let mut f: u8 = 0;
    while f < 8
        invariant
            f <= 8,
            v@.len() == f,
            forall|k: int| 0 <= k < f ==> v@[k] == start_piece(k),
        decreases 8 - f,
    {
        let kind = back_rank(f);
        v.push(Piece { color: PieceColor::Light, piece_type: kind, x: 0, y: f });
        f = f + 1;
    }
    let mut f: u8 = 0;
    while f < 8
        invariant
            f <= 8,
            v@.len() == 8 + f,
            forall|k: int| 0 <= k < 8 + f ==> v@[k] == start_piece(k),
        decreases 8 - f,
    {
        v.push(Piece { color: PieceColor::Light, piece_type: PieceType::Pawn, x: 1, y: f });
        f = f + 1;
    }
    let mut f: u8 = 0;
    while f < 8
        invariant
            f <= 8,
            v@.len() == 16 + f,
            forall|k: int| 0 <= k < 16 + f ==> v@[k] == start_piece(k),
        decreases 8 - f,
    {
        let kind = back_rank(f);
        v.push(Piece { color: PieceColor::Dark, piece_type: kind, x: 7, y: f });
        f = f + 1;
    }
    let mut f: u8 = 0;
    while f < 8
        invariant
            f <= 8,
            v@.len() == 24 + f,
            forall|k: int| 0 <= k < 24 + f ==> v@[k] == start_piece(k),
        decreases 8 - f,
    {
        v.push(Piece { color: PieceColor::Dark, piece_type: PieceType::Pawn, x: 6, y: f });
        f = f + 1;
    }
    proof {
        assert(v@ =~= starting_layout());
    }
    v
}

impl GameState {
    /// A fresh game: the standard starting layout, `Light` to move, nothing
    /// selected, no winner, no moves applied yet.
    pub fn new() -> (g: GameState)
        ensures
            g.wf(),
            g.pieces_seq() == starting_layout(),
            g.turn_spec() == PieceColor::Light,
            g.selected_spec() is None,
            g.winner_spec() is None,
            g.moves_spec() == 0,
    {
        let pieces = starting_pieces();
        proof {
            lemma_starting_layout_wf();
        }
        GameState {
            board: Board::new(pieces),
            turn: PlayerTurn(PieceColor::Light),
            selected: None,
            winner: None,
            moves: Ghost(0nat),
        }
    }

    /// A game over an arbitrary set of pieces with the given side to move,
    /// for positions other than the standard start. Returns `None` exactly
    /// when the pieces do not form a well-formed board (a piece off the
    /// board, or two pieces sharing a square). The ghost move count starts
    /// at the parity of the side to move, as if that side were reached by
    /// play from a light start.
    pub fn with_pieces(pieces: Vec<Piece>, turn: PieceColor) -> (r: Option<GameState>)
        ensures
            r is Some <==> board_wf(pieces@),
            r matches Some(g) ==> {
                &&& g.wf()
                &&& g.pieces_seq() == pieces@
                &&& g.turn_spec() == turn
                &&& g.selected_spec() is None
                &&& g.winner_spec() is None
                &&& g.moves_spec() == (if turn is Light {
                    0nat
                } else {
                    1nat
                })
            },
    {
        let mut i: usize = 0;
        while i < pieces.len()
            invariant
                i <= pieces.len(),
                forall|k: int| 0 <= k < i ==> (#[trigger] pieces@[k]).x < 8 && pieces@[k].y < 8,
            decreases pieces.len() - i,
        {
            let p = pieces[i];
            if !(p.x < 8 && p.y < 8) {
                proof {
                    assert(!all_in_bounds(pieces@));
                }
                return None;
            }
            i = i + 1;
        }
        assert(all_in_bounds(pieces@));

        let mut a: usize = 0;
        while a < pieces.len()
            invariant
                a <= pieces.len(),
                forall|i0: int, j0: int|
                    0 <= i0 < a && i0 < j0 < pieces@.len() ==> !(#[trigger] pieces@[i0].x
                        == #[trigger] pieces@[j0].x && pieces@[i0].y == pieces@[j0].y),
            decreases pieces.len() - a,
        {
            let mut b: usize = a + 1;
            while b < pieces.len()
                invariant
                    a < pieces.len(),
                    a < b <= pieces.len(),
                    forall|j0: int|
                        a < j0 < b ==> !(pieces@[a as int].x == (#[trigger] pieces@[j0]).x
                            && pieces@[a as int].y == pieces@[j0].y),
                decreases pieces.len() - b,
            {
                if pieces[a].x == pieces[b].x && pieces[a].y == pieces[b].y {
                    proof {
                        assert(!at_most_one_per_square(pieces@));
                    }
                    return None;
                }
                b = b + 1;
            }
            a = a + 1;
        }
        proof {
            assert forall|i0: int, j0: int|
                0 <= i0 < pieces@.len() && 0 <= j0 < pieces@.len() && i0 != j0 implies !(
            #[trigger] pieces@[i0].x == #[trigger] pieces@[j0].x && pieces@[i0].y
                == pieces@[j0].y) by {
                if i0 < j0 {
                } else {
                    assert(!(pieces@[j0].x == pieces@[i0].x && pieces@[j0].y == pieces@[i0].y));
                }
            }
        }
        Some(
            GameState {
                board: Board::new(pieces),
                turn: PlayerTurn(turn),
                selected: None,
                winner: None,
                moves: Ghost(
                    if turn is Light {
                        0nat
                    } else {
                        1nat
                    },
                ),
            },
        )
    }

    /// The side currently permitted to move.
    pub fn current_turn(&self) -> (c: PieceColor)
        ensures
            c == self.turn_spec(),
    {
        self.turn.0
    }

    /// The winning side, once a king has been captured; `None` while the
    /// game is running.
    pub fn winner(&self) -> (w: Option<PieceColor>)
        ensures
            w == self.winner_spec(),
    {
        self.winner
    }

    /// The pending selection, if any: a piece reference valid for
    /// `attempt_move`.
    pub fn selected_index(&self) -> (s: Option<usize>)
        ensures
            s == self.selected_spec(),
    {
        self.selected
    }

    /// What occupies the square, for rendering: the side and kind of the
    /// piece there, or `None` for an empty square.
    pub fn piece_at(&self, sq: Square) -> (r: Option<PieceView>)
        ensures
            r == view_of_piece(piece_at_spec(self.pieces_seq(), sq.x, sq.y)),
    {
        match self.board.occupant_at(sq) {
            Some(p) => Some(PieceView { color: p.color, kind: p.piece_type }),
            None => None,
        }
    }

    /// A fresh piece reference: the index of the piece occupying the square,
    /// if any.
    pub fn piece_index_at(&self, sq: Square) -> (r: Option<usize>)
        ensures
            r matches Some(u) ==> idx_at(self.pieces_seq(), sq.x, sq.y) == Some(u as int),
            r is None ==> idx_at(self.pieces_seq(), sq.x, sq.y) is None,
    {
        self.board.index_at(sq.x, sq.y)
    }

    /// All live pieces with their color, kind and position, for the
    /// collaborator to render.
    pub fn live_pieces(&self) -> (v: Vec<Piece>)
        ensures
            v@ == self.pieces_seq(),
    {
        let mut v: Vec<Piece> = Vec::new();
        let mut i: usize = 0;
        while i < self.board.pieces.len()
            invariant
                i <= self.board.pieces.len(),
                v@.len() == i,
                forall|k: int| 0 <= k < i ==> v@[k] == self.board.pieces@[k],
            decreases self.board.pieces.len() - i,
        {
            v.push(self.board.pieces[i]);
            i = i + 1;
        }
        proof {
            assert(v@ =~= self.board.pieces@);
        }
        v
    }

    /// Attempt to move the piece referenced by `idx` (obtained from a fresh
    /// lookup) to `dest`. On a legal move the board is updated, a capture is
    /// resolved, the turn flips and the selection is cleared; a capture of a
    /// king ends the game. An illegal move changes nothing but the cleared
    /// selection, and once the game is over no further moves are processed.
    pub fn attempt_move(&mut self, idx: usize, dest: Square) -> (outcome: MoveOutcome)
        requires
            old(self).wf(),
            idx < old(self).pieces_seq().len(),
            dest.wf(),
        ensures
            final(self).wf(),
            move_step(*old(self), idx as int, dest, *final(self), outcome),
    {
        match self.winner {
            Some(w) => {
                return MoveOutcome::GameOver { winner: w };
            },
            None => {},
        }
        let mover = self.board.pieces[idx];
        if mover.color != self.turn.0 {
            self.selected = None;
            return MoveOutcome::Rejected;
        }
        let snapshot = self.live_pieces();
        if !mover.is_move_valid((dest.x, dest.y), snapshot) {
            self.selected = None;
            return MoveOutcome::Rejected;
        }

        // The move is legal; perform the transactional update.
        let ghost pre = self.board.pieces@;
        let cap = self.board.index_at(dest.x, dest.y);
        proof {
            lemma_idx_at(pre, dest.x, dest.y);
        }
        let captured: Option<Piece> = match cap {
            Some(j) => Some(self.board.pieces[j]),
            None => None,
        };
        proof {
            lemma_board_after_move_wf(pre, idx as int, dest);
        }
        self.board.pieces.set(idx, Piece { x: dest.x, y: dest.y, ..mover });
        match cap {
            Some(j) => {
                let _taken = self.board.pieces.remove(j);
            },
            None => {},
        }
        self.turn.change();
        self.selected = None;
        proof {
            lemma_turn_alternation(self.moves@);
        }
        self.moves = Ghost(self.moves@ + 1);

        match captured {
            Some(t) => {
                if t.piece_type == PieceType::King {
                    self.winner = Some(mover.color);
                    MoveOutcome::GameOver { winner: mover.color }
                } else {
                    MoveOutcome::Applied {
                        captured: Some(PieceView { color: t.color, kind: t.piece_type }),
                    }
                }
            },
            None => MoveOutcome::Applied { captured: None },
        }
    }

    /// Feed one square-selection event to the game. With nothing selected, a
    /// click on a piece of the side to move selects it and anything else is
    /// ignored; with a piece selected, the move to the clicked square is
    /// attempted and the selection is cleared whether or not it succeeds.
    /// Events are ignored once the game is over.
    pub fn handle_click(&mut self, sq: Square) -> (r: ClickOutcome)
        requires
            old(self).wf(),
        ensures
            final(self).wf(),
            old(self).winner_spec() is Some ==> r == ClickOutcome::Ignored && *final(self)
                == *old(self),
            old(self).winner_spec() is None && !sq.wf() ==> r == ClickOutcome::Ignored
                && *final(self) == *old(self),
            old(self).winner_spec() is None && sq.wf() && old(self).selected_spec() is None
                ==> match idx_at(old(self).pieces_seq(), sq.x, sq.y) {
                Some(j) => if old(self).pieces_seq()[j].color == old(self).turn_spec() {
                    &&& r == ClickOutcome::Selected
                    &&& final(self).selected_spec() == Some(j as usize)
                    &&& final(self).pieces_seq() == old(self).pieces_seq()
                    &&& final(self).turn_spec() == old(self).turn_spec()
                    &&& final(self).winner_spec() == old(self).winner_spec()
                    &&& final(self).moves_spec() == old(self).moves_spec()
                } else {
                    r == ClickOutcome::Ignored && *final(self) == *old(self)
                },
                None => r == ClickOutcome::Ignored && *final(self) == *old(self),
            },
            old(self).winner_spec() is None && sq.wf() ==> match old(self).selected_spec() {
                Some(i) => r matches ClickOutcome::Attempted(o) && move_step(
                    *old(self),
                    i as int,
                    sq,
                    *final(self),
                    o,
                ),
                None => true,
            },
    {
        match self.winner {
            Some(_) => {
                return ClickOutcome::Ignored;
            },
            None => {},
        }
        if !(sq.x < 8 && sq.y < 8) {
            return ClickOutcome::Ignored;
        }
        match self.selected {
            Some(i) => {
                let o = self.attempt_move(i, sq);
                ClickOutcome::Attempted(o)
            },
            None => {
                match self.board.index_at(sq.x, sq.y) {
                    Some(j) => {
                        proof {
                            lemma_idx_at(self.board.pieces@, sq.x, sq.y);
                        }
                        let p = self.board.pieces[j];
                        if p.color == self.turn.0 {
                            self.selected = Some(j);
                            ClickOutcome::Selected
                        } else {
                            ClickOutcome::Ignored
                        }
                    },
                    None => ClickOutcome::Ignored,
                }
            },
        }
    }
}

} // verus!
