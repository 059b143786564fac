use vstd::prelude::*;

use crate::bitboard::BitBoard;
use crate::chess_move::Move;
use crate::coord::Coord;
use crate::moves::{
    color_moves, filter_check_moves, generate_bishop_moves, generate_king_moves,
    generate_knights_moves, generate_pawn_moves, generate_queen_moves, generate_rook_moves,
    king_attacked, legal_filter, legal_upto, lemma_piece_moves_shape, piece_moves, pseudo_upto,
};
use crate::piece::{kind_of_index, square_value, Piece, PieceEnum};

verus! {

/// The cached terminal-state record of one color.
#[derive(PartialEq, Eq, Structural, Clone, Copy, Debug)]
pub struct CheckState {
    pub is_check: bool,
    pub is_checkmate: bool,
    pub is_stalemate: bool,
    pub is_draw: bool,
}

/// A move that was made, with the piece that it captured.
#[derive(Clone, Copy, Debug)]
pub struct MoveWithCapture {
    pub m: Move,
    pub captured: Option<Piece>,
}

/// The pieces of one color: one board per kind, and their union.
#[derive(Clone, Copy, Debug)]
pub struct OneSideBoard {
    pub pieces: [BitBoard; 6],
    pub all_pieces: BitBoard,
    pub color: bool,
}

/// The index of a color in per-color arrays: black 0, white 1.
pub open spec fn side_index(color: bool) -> int {
    if color {
        1
    } else {
        0
    }
}

fn color_index(color: bool) -> (r: usize)
    ensures
        r == side_index(color),
{
    if color {
        1
    } else {
        0
    }
}

/// The square index of `coord`, read as a coordinate again.
pub open spec fn coord_of(i: int) -> Coord {
    Coord { x: (i % 8) as u8, y: (i / 8) as u8 }
}

/// The occupied squares of a placement.
pub open spec fn occupied(s: Seq<Option<Piece>>) -> Set<int> {
    Set::new(|i: int| 0 <= i < 64 && s[i] is Some)
}

/// The squares of a placement that hold a piece of `color`.
pub open spec fn side(s: Seq<Option<Piece>>, color: bool) -> Set<int> {
    Set::new(|i: int| 0 <= i < 64 && s[i] is Some && s[i].unwrap().color == color)
}

/// The lowest square at or after `from` that holds `p`.
pub open spec fn first_square(s: Seq<Option<Piece>>, p: Piece, from: int) -> Option<int>
    decreases 64 - from,
{
    if from >= 64 || from < 0 {
        None
    } else if s[from] == Some(p) {
        Some(from)
    } else {
        first_square(s, p, from + 1)
    }
}

/// The square of the king of `color` (the lowest, should there be several).
pub open spec fn king_square(s: Seq<Option<Piece>>, color: bool) -> Option<int> {
    first_square(s, Piece { piece: PieceEnum::King, color }, 0)
}

/// The placement after `m`: the piece on its source moves to its destination,
/// replacing whatever stood there.
pub open spec fn apply_move(s: Seq<Option<Piece>>, m: Move) -> Seq<Option<Piece>> {
    s.update(m.from.idx(), None).update(m.to.idx(), s[m.from.idx()])
}

/// The evaluation of the squares below `n`, for the side `turn`: each piece
/// adds its square value when it belongs to `turn` and subtracts it otherwise.
pub open spec fn eval_upto(s: Seq<Option<Piece>>, turn: bool, n: int) -> int
    decreases n,
{
    if n <= 0 {
        0
    } else {
        eval_upto(s, turn, n - 1) + match s[n - 1] {
            Some(p) => if p.color == turn {
                square_value(p, n - 1, turn) as int
            } else {
                -(square_value(p, n - 1, turn) as int)
            },
            None => 0,
        }
    }
}

/// `first_square` finds `bound` when no square from `from` up to it holds
/// `p` and `bound` does (or is 64, past the board).
pub proof fn lemma_first_square(s: Seq<Option<Piece>>, p: Piece, from: int, bound: int)
    requires
        0 <= from <= bound <= 64,
        forall|i: int| from <= i < bound ==> s[i] != Some(p),
        bound < 64 ==> s[bound] == Some(p),
    ensures
        first_square(s, p, from) == if bound < 64 {
            Some(bound)
        } else {
            None::<int>
        },
    decreases bound - from,
{
    if from < bound {
        lemma_first_square(s, p, from + 1, bound);
    }
}

/// The placement before `m` was made, from the placement after it: the piece
/// on the destination goes back to the source, and the captured piece, if
/// any, back to the destination.
pub open spec fn unapply_move(s: Seq<Option<Piece>>, m: Move, captured: Option<Piece>) -> Seq<
    Option<Piece>,
> {
    let back = s.update(m.to.idx(), None).update(m.from.idx(), s[m.to.idx()]);
    match captured {
        Some(p) => back.update(m.to.idx(), Some(p)),
        None => back,
    }
}

/// The terminal-state record of `turn`, to move on placement `s`: in check
/// when its king is attacked (or missing); checkmate and stalemate when it has
/// no move, in check or not; game over for either of the two.
pub open spec fn flags_spec(s: Seq<Option<Piece>>, turn: bool) -> CheckState {
    let check = king_attacked(s, turn);
    let none = color_moves(s, turn, check, turn).len() == 0;
    CheckState {
        is_check: check,
        is_checkmate: check && none,
        is_stalemate: !check && none,
        is_draw: (check && none) || (!check && none),
    }
}

impl OneSideBoard {
    /// The kind on square `i`, looking at the kinds in index order.
    pub open spec fn kind_at(self, i: int) -> Option<PieceEnum> {
        if self.pieces[0]@.contains(i) {
            Some(PieceEnum::Pawn)
        } else if self.pieces[1]@.contains(i) {
            Some(PieceEnum::Knight)
        } else if self.pieces[2]@.contains(i) {
            Some(PieceEnum::Bishop)
        } else if self.pieces[3]@.contains(i) {
            Some(PieceEnum::Rook)
        } else if self.pieces[4]@.contains(i) {
            Some(PieceEnum::Queen)
        } else if self.pieces[5]@.contains(i) {
            Some(PieceEnum::King)
        } else {
            None
        }
    }

    /// The union board is the union of the six kind boards, and no square is
    /// set in two kind boards.
    pub open spec fn wf(self) -> bool {
        &&& self.all_pieces@ == self.pieces[0]@.union(self.pieces[1]@).union(self.pieces[2]@).union(
            self.pieces[3]@,
        ).union(self.pieces[4]@).union(self.pieces[5]@)
        &&& forall|i: int, a: int, b: int|
            0 <= a < b < 6 && #[trigger] self.pieces[a]@.contains(i) ==> !#[trigger] self.pieces[b]@.contains(i)
    }

    pub fn new(color: bool) -> (r: OneSideBoard)
        ensures
            r.wf(),
            r.color == color,
            forall|i: int| r.kind_at(i) is None,
            r.all_pieces@ == Set::<int>::empty(),
    {
        let r = OneSideBoard {
            pieces: [
                BitBoard::new(),
                BitBoard::new(),
                BitBoard::new(),
                BitBoard::new(),
                BitBoard::new(),
                BitBoard::new(),
            ],
            all_pieces: BitBoard::new(),
            color,
        };
        assert(r.all_pieces@ =~= r.pieces[0]@.union(r.pieces[1]@).union(r.pieces[2]@).union(
            r.pieces[3]@,
        ).union(r.pieces[4]@).union(r.pieces[5]@));
        r
    }

    /// The piece on `coord`, if this side has one there.
    pub fn get_piece(&self, coord: Coord) -> (r: Option<Piece>)
        requires
            coord.wf(),
        ensures
            r == match self.kind_at(coord.idx()) {
                Some(k) => Some(Piece { piece: k, color: self.color }),
                None => None,
            },
    {
        let mut i: usize = 0;
        while i < 6
            invariant
                0 <= i <= 6,
                coord.wf(),
                forall|k: int| 0 <= k < i ==> !self.pieces[k]@.contains(coord.idx()),
            decreases 6 - i,
        {
            if self.pieces[i].get(coord) {
                return Some(Piece::from_index(i as u8, self.color));
            }
            i = i + 1;
        }
        None
    }

    /// A piece of kind `index` if this side has any.
    pub fn get_piece_index(&self, index: u8) -> (r: Option<Piece>)
        requires
            self.wf(),
            index < 6,
        ensures
            r == if exists|i: int| self.kind_at(i) == Some(kind_of_index(index as int)) {
                Some(Piece { piece: kind_of_index(index as int), color: self.color })
            } else {
                None
            },
    {
        let empty = self.pieces[index as usize].is_empty();
        proof {
            if !empty {
                let i = self.pieces[index as int]@.choose();
                assert(self.pieces[index as int]@.contains(i));
                assert(self.kind_at(i) == Some(kind_of_index(index as int)));
            } else {
                assert forall|i: int| self.kind_at(i) != Some(kind_of_index(index as int)) by {
                    assert(!self.pieces[index as int]@.contains(i));
                }
            }
        }
        if !empty {
            Some(Piece::from_index(index, self.color))
        } else {
            None
        }
    }

    /// The lowest square holding a piece of kind `index`.
    pub fn get_piece_index_coord(&self, index: u8) -> (r: Option<Coord>)
        requires
            self.wf(),
            index < 6,
        ensures
            r is None <==> forall|i: int| self.kind_at(i) != Some(kind_of_index(index as int)),
            r is Some ==> r.unwrap().wf() && self.kind_at(r.unwrap().idx()) == Some(
                kind_of_index(index as int),
            ) && forall|i: int|
                0 <= i < r.unwrap().idx() ==> self.kind_at(i) != Some(kind_of_index(index as int)),
    {
        let b = self.pieces[index as usize];
        let t = b.trailing_zeros();
        proof {
            assert forall|i: int| #[trigger] self.kind_at(i) == Some(kind_of_index(index as int))
                <==> b@.contains(i) by {
            }
        }
        if t < 64 {
            Some(Coord::from_index(t))
        } else {
            None
        }
    }

    /// Puts `piece` on the empty square `coord`.
    pub fn set_piece(&mut self, coord: Coord, piece: Piece)
        requires
            old(self).wf(),
            coord.wf(),
            !old(self).all_pieces@.contains(coord.idx()),
        ensures
            final(self).wf(),
            final(self).color == old(self).color,
            final(self).all_pieces@ == old(self).all_pieces@.insert(coord.idx()),
            forall|i: int| #[trigger]
                final(self).kind_at(i) == if i == coord.idx() {
                    Some(piece.piece)
                } else {
                    old(self).kind_at(i)
                },
    {
        let k = piece.to_index() as usize;
        let mut b = self.pieces[k];
        b.set(coord);
        self.pieces[k] = b;
        self.all_pieces.set(coord);
        proof {
            let o = old(self);
            assert forall|j: int| 0 <= j < 6 && j != k implies self.pieces[j] == o.pieces[j] by {}
            assert(self.all_pieces@ =~= self.pieces[0]@.union(self.pieces[1]@).union(
                self.pieces[2]@,
            ).union(self.pieces[3]@).union(self.pieces[4]@).union(self.pieces[5]@));
        }
    }

    /// Takes `piece` off the square `coord`, which holds it.
    pub fn unset_piece(&mut self, coord: Coord, piece: Piece)
        requires
            old(self).wf(),
            coord.wf(),
            old(self).kind_at(coord.idx()) == Some(piece.piece),
        ensures
            final(self).wf(),
            final(self).color == old(self).color,
            final(self).all_pieces@ == old(self).all_pieces@.remove(coord.idx()),
            forall|i: int| #[trigger]
                final(self).kind_at(i) == if i == coord.idx() {
                    None
                } else {
                    old(self).kind_at(i)
                },
    {
        let k = piece.to_index() as usize;
        let mut b = self.pieces[k];
        b.unset(coord);
        self.pieces[k] = b;
        self.all_pieces.unset(coord);
        proof {
            let o = old(self);
            assert forall|j: int| 0 <= j < 6 && j != k implies self.pieces[j] == o.pieces[j] by {}
            assert(o.pieces[k as int]@.contains(coord.idx()));
            assert forall|j: int| 0 <= j < 6 && j != k implies !o.pieces[j]@.contains(coord.idx()) by {
                if j < k {
                    assert(!o.pieces[k as int]@.contains(coord.idx()) || !o.pieces[j]@.contains(coord.idx()));
                }
            }
            assert(self.all_pieces@ =~= self.pieces[0]@.union(self.pieces[1]@).union(
                self.pieces[2]@,
            ).union(self.pieces[3]@).union(self.pieces[4]@).union(self.pieces[5]@));
        }
    }

    pub fn has_piece(&self, coord: Coord) -> (r: bool)
        requires
            self.wf(),
            coord.wf(),
        ensures
            r == self.kind_at(coord.idx()) is Some,
    {
        self.all_pieces.get(coord)
    }
}

/// A position: the pieces of both sides, the side to move (`true` for white),
/// the moves made so far with what each captured, and the terminal-state
/// record of each color (black at index 0, white at index 1).
#[derive(Clone)]
pub struct Board {
    pub white: OneSideBoard,
    pub black: OneSideBoard,
    pub turn: bool,
    pub past_moves: Vec<MoveWithCapture>,
    pub check_states: [CheckState; 2],
}

impl Board {
    /// The piece on square `i`.
    pub open spec fn piece_at(&self, i: int) -> Option<Piece> {
        match self.white.kind_at(i) {
            Some(k) => Some(Piece { piece: k, color: true }),
            None => match self.black.kind_at(i) {
                Some(k) => Some(Piece { piece: k, color: false }),
                None => None,
            },
        }
    }

    /// The placement: what stands on each of the 64 squares.
    pub open spec fn squares(&self) -> Seq<Option<Piece>> {
        Seq::new(64, |i: int| self.piece_at(i))
    }

    /// Both sides are well formed, carry their colors, and share no square.
    pub open spec fn inv(&self) -> bool {
        &&& self.white.wf()
        &&& self.black.wf()
        &&& self.white.color
        &&& !self.black.color
        &&& self.white.all_pieces@.disjoint(self.black.all_pieces@)
    }

    /// The record of `color`.
    pub open spec fn state_of(&self, color: bool) -> CheckState {
        self.check_states[side_index(color)]
    }

    pub proof fn lemma_squares(&self)
        requires
            self.inv(),
        ensures
            self.squares().len() == 64,
            forall|i: int| 0 <= i < 64 ==> #[trigger] self.squares()[i] == self.piece_at(i),
            forall|i: int|
                0 <= i < 64 ==> (self.white.all_pieces@.contains(i) <==> #[trigger] self.white.kind_at(i) is Some),
            forall|i: int|
                0 <= i < 64 ==> (self.black.all_pieces@.contains(i) <==> #[trigger] self.black.kind_at(i) is Some),
            forall|i: int| #[trigger] self.white.kind_at(i) is Some ==> 0 <= i < 64,
            forall|i: int| #[trigger] self.black.kind_at(i) is Some ==> 0 <= i < 64,
    {
        assert forall|i: int| #[trigger] self.white.kind_at(i) is Some implies 0 <= i < 64 by {
            assert(self.white.all_pieces@.contains(i));
        }
        assert forall|i: int| #[trigger] self.black.kind_at(i) is Some implies 0 <= i < 64 by {
            assert(self.black.all_pieces@.contains(i));
        }
    }

    /// A position with no pieces, white to move.
    pub fn new() -> (r: Board)
        ensures
            r.inv(),
            r.turn,
            r.past_moves@.len() == 0,
            r.squares() == Seq::new(64, |i: int| None::<Piece>),
            r.check_states[0] == r.check_states[1],
            !r.check_states[0].is_check && !r.check_states[0].is_checkmate
                && !r.check_states[0].is_stalemate && !r.check_states[0].is_draw,
    {
        let clear = CheckState {
            is_check: false,
            is_checkmate: false,
            is_stalemate: false,
            is_draw: false,
        };
        let r = Board {
            white: OneSideBoard::new(true),
            black: OneSideBoard::new(false),
            turn: true,
            past_moves: Vec::new(),
            check_states: [clear, clear],
        };
        assert(r.white.all_pieces@.disjoint(r.black.all_pieces@));
        assert(r.squares() =~= Seq::new(64, |i: int| None::<Piece>));
        r
    }

    /// The pieces of the side to move.
    pub fn get_current_player(&self) -> (r: &OneSideBoard)
        ensures
            r == if self.turn {
                &self.white
            } else {
                &self.black
            },
    {
        if self.turn {
            &self.white
        } else {
            &self.black
        }
    }

    /// Whether `color` is in check, as last recorded.
    pub fn is_check(&self, color: bool) -> (r: bool)
        ensures
            r == self.state_of(color).is_check,
    {
        self.check_states[color_index(color)].is_check
    }

    /// Whether `color` is checkmated, as last recorded.
    pub fn is_checkmate(&self, color: bool) -> (r: bool)
        ensures
            r == self.state_of(color).is_checkmate,
    {
        self.check_states[color_index(color)].is_checkmate
    }

    /// Whether `color` is stalemated, as last recorded.
    pub fn is_stalemate(&self, color: bool) -> (r: bool)
        ensures
            r == self.state_of(color).is_stalemate,
    {
        self.check_states[color_index(color)].is_stalemate
    }

    /// Whether the game is over for `color` (checkmate or stalemate), as last
    /// recorded. The name is kept from the record's field: it does not mean a
    /// drawn game.
    pub fn is_draw(&self, color: bool) -> (r: bool)
        ensures
            r == self.state_of(color).is_draw,
    {
        self.check_states[color_index(color)].is_draw
    }

    /// Whether the side to move is checkmated or stalemated.
    pub fn is_game_over(&self) -> (r: bool)
        ensures
            r == (self.state_of(self.turn).is_checkmate || self.state_of(self.turn).is_stalemate),
    {
        self.is_checkmate(self.turn) || self.is_stalemate(self.turn)
    }

    /// The checkmate flag from the recorded check flag of `color` and whether
    /// it has no move.
    pub fn calculate_is_checkmate(&self, color: bool, is_empty: bool) -> (r: bool)
        ensures
            r == (self.state_of(color).is_check && is_empty),
    {
        self.check_states[color_index(color)].is_check && is_empty
    }

    /// The stalemate flag from the recorded check flag of `color` and whether
    /// it has no move.
    pub fn calculate_is_stalemate(&self, color: bool, is_empty: bool) -> (r: bool)
        ensures
            r == (!self.state_of(color).is_check && is_empty),
    {
        !self.check_states[color_index(color)].is_check && is_empty
    }

    /// The game-over flag of `color`: its recorded stalemate or checkmate.
    pub fn calculate_is_draw(&self, color: bool) -> (r: bool)
        ensures
            r == (self.state_of(color).is_stalemate || self.state_of(color).is_checkmate),
    {
        self.check_states[color_index(color)].is_stalemate
            || self.check_states[color_index(color)].is_checkmate
    }

    /// The score of the placement for the side to move: the sum of the square
    /// values of its pieces less those of the other side's.
    pub fn evaluate(&self) -> (r: i16)
        requires
            self.inv(),
        ensures
            r == eval_upto(self.squares(), self.turn, 64),
            -3200 <= r <= 3200,
    {
        let mut score: i16 = 0;
        let mut i: u8 = 0;
        while i < 64
            invariant
                0 <= i <= 64,
                self.inv(),
                score == eval_upto(self.squares(), self.turn, i as int),
                -50 * i <= score <= 50 * i,
            decreases 64 - i,
        {
            let coord = Coord::from_index(i);
            match self.get_piece(coord) {
                Some(piece) => {
                    let v = piece.get_score(coord, self.turn);
                    if piece.color == self.turn {
                        score = score + v;
                    } else {
                        score = score - v;
                    }
                },
                None => {},
            }
            i = i + 1;
        }
        score
    }

    /// The piece on `coord`.
    pub fn get_piece(&self, coord: Coord) -> (r: Option<Piece>)
        requires
            self.inv(),
            coord.wf(),
        ensures
            r == self.squares()[coord.idx()],
    {
        match self.white.get_piece(coord) {
            Some(p) => Some(p),
            None => self.black.get_piece(coord),
        }
    }

    /// A piece of kind `index` of the side to move, if it has any.
    pub fn get_piece_index(&self, index: u8) -> (r: Option<Piece>)
        requires
            self.inv(),
            index < 6,
        ensures
            r == if exists|i: int|
                0 <= i < 64 && self.squares()[i] == Some(
                    Piece { piece: kind_of_index(index as int), color: self.turn },
                ) {
                Some(Piece { piece: kind_of_index(index as int), color: self.turn })
            } else {
                None
            },
    {
        let r = self.get_current_player().get_piece_index(index);
        proof {
            self.lemma_squares();
            let p = Piece { piece: kind_of_index(index as int), color: self.turn };
            let side = if self.turn { self.white } else { self.black };
            if exists|i: int| side.kind_at(i) == Some(kind_of_index(index as int)) {
                let i = choose|i: int| side.kind_at(i) == Some(kind_of_index(index as int));
                assert(self.squares()[i] == Some(p));
            }
            if exists|i: int| 0 <= i < 64 && self.squares()[i] == Some(p) {
                let i = choose|i: int| 0 <= i < 64 && self.squares()[i] == Some(p);
                assert(side.kind_at(i) == Some(kind_of_index(index as int)));
            }
        }
        r
    }

    /// The lowest square holding a piece of kind `index` and color `color`.
    pub fn get_piece_index_coord(&self, index: u8, color: bool) -> (r: Option<Coord>)
        requires
            self.inv(),
            index < 6,
        ensures
            r matches Some(c) ==> c.wf(),
            r == match first_square(
                self.squares(),
                Piece { piece: kind_of_index(index as int), color },
                0,
            ) {
                Some(i) => Some(coord_of(i)),
                None => None,
            },
    {
        let r = if color {
            self.white.get_piece_index_coord(index)
        } else {
            self.black.get_piece_index_coord(index)
        };
        proof {
            self.lemma_squares();
            let p = Piece { piece: kind_of_index(index as int), color };
            let side = if color { self.white } else { self.black };
            assert forall|i: int| 0 <= i < 64 implies (self.squares()[i] == Some(p) <==> side.kind_at(i) == Some(kind_of_index(index as int))) by {}
            let bound: int = match r { Some(c) => c.idx(), None => 64 };
            lemma_first_square(self.squares(), p, 0, bound);
        }
        r
    }

    /// The squares held by `color`.
    pub fn get_piece_bitboard(&self, color: bool) -> (r: BitBoard)
        requires
            self.inv(),
        ensures
            r@ == side(self.squares(), color),
    {
        proof {
            self.lemma_squares();
            assert(self.white.all_pieces@ =~= side(self.squares(), true));
            assert(self.black.all_pieces@ =~= side(self.squares(), false));
        }
        if color {
            self.white.all_pieces
        } else {
            self.black.all_pieces
        }
    }

    /// The squares held by the side opposing `color`.
    pub fn get_enemy_bitboard(&self, color: bool) -> (r: BitBoard)
        requires
            self.inv(),
        ensures
            r@ == side(self.squares(), !color),
    {
        self.get_piece_bitboard(!color)
    }

    /// Puts `piece` on the empty square `coord`.
    pub fn set_piece(&mut self, coord: Coord, piece: Piece)
        requires
            old(self).inv(),
            coord.wf(),
            old(self).squares()[coord.idx()] is None,
        ensures
            final(self).inv(),
            final(self).squares() == old(self).squares().update(coord.idx(), Some(piece)),
            final(self).turn == old(self).turn,
            final(self).past_moves == old(self).past_moves,
            final(self).check_states == old(self).check_states,
    {
        proof {
            old(self).lemma_squares();
        }
        if piece.is_white() {
            self.white.set_piece(coord, piece);
        } else {
            self.black.set_piece(coord, piece);
        }
        assert(self.squares() =~= old(self).squares().update(coord.idx(), Some(piece)));
    }

    /// Takes `piece` off the square `coord`, which holds it.
    pub fn unset_piece(&mut self, coord: Coord, piece: Piece)
        requires
            old(self).inv(),
            coord.wf(),
            old(self).squares()[coord.idx()] == Some(piece),
        ensures
            final(self).inv(),
            final(self).squares() == old(self).squares().update(coord.idx(), None),
            final(self).turn == old(self).turn,
            final(self).past_moves == old(self).past_moves,
            final(self).check_states == old(self).check_states,
    {
        proof {
            old(self).lemma_squares();
        }
        if piece.is_white() {
            self.white.unset_piece(coord, piece);
        } else {
            self.black.unset_piece(coord, piece);
        }
        assert(self.squares() =~= old(self).squares().update(coord.idx(), None));
    }

    pub fn has_piece(&self, coord: Coord) -> (r: bool)
        requires
            self.inv(),
            coord.wf(),
        ensures
            r == self.squares()[coord.idx()] is Some,
    {
        self.white.has_piece(coord) || self.black.has_piece(coord)
    }

    pub fn is_white(&self, coord: Coord) -> (r: bool)
        requires
            self.inv(),
            coord.wf(),
        ensures
            r == (self.squares()[coord.idx()] is Some && self.squares()[coord.idx()].unwrap().color),
    {
        self.white.has_piece(coord)
    }

    pub fn is_black(&self, coord: Coord) -> (r: bool)
        requires
            self.inv(),
            coord.wf(),
        ensures
            r == (self.squares()[coord.idx()] is Some && !self.squares()[coord.idx()].unwrap().color),
    {
        proof {
            self.lemma_squares();
        }
        self.black.has_piece(coord)
    }

    pub fn is_empty(&self, coord: Coord) -> (r: bool)
        requires
            self.inv(),
            coord.wf(),
        ensures
            r == self.squares()[coord.idx()] is None,
    {
        !self.has_piece(coord)
    }

    /// Whether `coord` holds a piece of the side not to move.
    pub fn is_opponent(&self, coord: Coord) -> (r: bool)
        requires
            self.inv(),
            coord.wf(),
        ensures
            r == (self.squares()[coord.idx()] is Some && self.squares()[coord.idx()].unwrap().color
                != self.turn),
    {
        if self.turn {
            self.is_black(coord)
        } else {
            self.is_white(coord)
        }
    }

    /// The squares held by either side.
    pub fn occupied_bitboard(&self) -> (r: BitBoard)
        requires
            self.inv(),
        ensures
            r@ == occupied(self.squares()),
    {
        let r = self.white.all_pieces.union(self.black.all_pieces);
        proof {
            self.lemma_squares();
            assert(r@ =~= occupied(self.squares()));
        }
        r
    }
}

impl Board {
    /// The record of the side to move describes its placement.
    pub open spec fn flags_valid(&self) -> bool {
        self.state_of(self.turn) == flags_spec(self.squares(), self.turn)
    }

    /// A copy of the placement and side to move, with `m` made on it and no
    /// history.
    pub(crate) fn with_move_applied(&self, m: Move) -> (r: Board)
        requires
            self.inv(),
            m.wf(),
            self.squares()[m.from.idx()] is Some,
        ensures
            r.inv(),
            r.squares() == apply_move(self.squares(), m),
            r.turn == self.turn,
    {
        let mut copy = Board {
            white: self.white,
            black: self.black,
            turn: self.turn,
            past_moves: Vec::new(),
            check_states: self.check_states,
        };
        assert(copy.squares() =~= self.squares());
        copy.move_piece(m);
        copy
    }

    /// Moves the piece on the source of `m` to its destination, taking off
    /// what stood there, which it returns.
    fn move_piece(&mut self, m: Move) -> (r: Option<Piece>)
        requires
            old(self).inv(),
            m.wf(),
            old(self).squares()[m.from.idx()] is Some,
        ensures
            final(self).inv(),
            final(self).squares() == apply_move(old(self).squares(), m),
            r == old(self).squares().update(m.from.idx(), None)[m.to.idx()],
            final(self).turn == old(self).turn,
            final(self).past_moves == old(self).past_moves,
            final(self).check_states == old(self).check_states,
    {
        let ghost s = self.squares();
        let src = self.get_piece(m.from).unwrap();
        self.unset_piece(m.from, src);
        let captured = self.get_piece(m.to);
        match captured {
            Some(c) => self.unset_piece(m.to, c),
            None => {},
        }
        self.set_piece(m.to, src);
        assert(self.squares() =~= apply_move(s, m));
        captured
    }

    /// Whether the king of `color` is attacked by a move of the other side,
    /// or is missing from the board.
    pub fn calculate_is_check(&self, color: bool) -> (r: bool)
        requires
            self.inv(),
        ensures
            r == king_attacked(self.squares(), color),
    {
        let found = self.get_piece_index_coord(5, color);
        proof {
            let p = Piece { piece: kind_of_index(5u8 as int), color };
            assert(p == Piece { piece: PieceEnum::King, color });
            assert(found == match king_square(self.squares(), color) {
                Some(i) => Some(coord_of(i)),
                None => None,
            });
        }
        match found {
            Some(king) => {
                let enemy_moves = self.pseudo_color_moves(!color);
                let mut i: usize = 0;
                while i < enemy_moves.len()
                    invariant
                        0 <= i <= enemy_moves@.len(),
                        enemy_moves@ == pseudo_upto(self.squares(), !color, 64),
                        king_square(self.squares(), color) is Some,
                        king == coord_of(king_square(self.squares(), color).unwrap()),
                        forall|j: int| 0 <= j < i ==> enemy_moves@[j].to != king,
                    decreases enemy_moves@.len() - i,
                {
                    if enemy_moves[i].to == king {
                        proof {
                            let k = king_square(self.squares(), color).unwrap();
                            assert(king == coord_of(k));
                            assert(pseudo_upto(self.squares(), !color, 64)[i as int].to == coord_of(k));
                        }
                        return true;
                    }
                    i = i + 1;
                }
                false
            },
            None => true,
        }
    }

    /// The moves of the piece on `coord`, before any check filtering.
    fn pseudo_moves_at(&self, coord: Coord) -> (r: Vec<Move>)
        requires
            self.inv(),
            coord.wf(),
            self.squares()[coord.idx()] is Some,
        ensures
            r@ == piece_moves(self.squares(), coord.idx()),
    {
        let piece = self.get_piece(coord).unwrap();
        assert(coord_of(coord.idx()) == coord);
        match piece.piece {
            PieceEnum::Pawn => generate_pawn_moves(self, coord, piece.color),
            PieceEnum::Knight => generate_knights_moves(self, coord, piece.color),
            PieceEnum::Bishop => generate_bishop_moves(self, coord, piece.color),
            PieceEnum::Rook => generate_rook_moves(self, coord, piece.color),
            PieceEnum::Queen => generate_queen_moves(self, coord, piece.color),
            PieceEnum::King => generate_king_moves(self, coord, piece.color),
        }
    }

    /// The moves of the pieces of `color`, in square order, before any check
    /// filtering.
    fn pseudo_color_moves(&self, color: bool) -> (r: Vec<Move>)
        requires
            self.inv(),
        ensures
            r@ == pseudo_upto(self.squares(), color, 64),
    {
        let own = self.get_piece_bitboard(color);
        let mut moves: Vec<Move> = Vec::new();
        let mut i: u8 = 0;
        while i < 64
            invariant
                0 <= i <= 64,
                self.inv(),
                own@ == side(self.squares(), color),
                moves@ == pseudo_upto(self.squares(), color, i as int),
            decreases 64 - i,
        {
            if own.get_index(i) {
                let mut more = self.pseudo_moves_at(Coord::from_index(i));
                moves.append(&mut more);
            }
            i = i + 1;
        }
        moves
    }

    /// The moves of the piece on `coord`. When it belongs to the side to move
    /// and that side is flagged in check, only the moves after which its king
    /// is not attacked are kept. Otherwise nothing is filtered: a pinned piece
    /// of a side not in check may still move off its line, a known gap of the
    /// rules kept as it is.
    pub fn get_moves(&self, coord: Coord) -> (r: Vec<Move>)
        requires
            self.inv(),
            coord.wf(),
            self.squares()[coord.idx()] is Some,
        ensures
            r@ == if self.squares()[coord.idx()].unwrap().color == self.turn && self.state_of(
                self.turn,
            ).is_check {
                legal_filter(self.squares(), self.turn, piece_moves(self.squares(), coord.idx()))
            } else {
                piece_moves(self.squares(), coord.idx())
            },
    {
        let piece = self.get_piece(coord).unwrap();
        let moves = self.pseudo_moves_at(coord);
        if piece.is_white() == self.turn && self.is_check(self.turn) {
            proof {
                lemma_piece_moves_shape(self.squares(), coord.idx());
                assert(coord_of(coord.idx()) == coord);
            }
            filter_check_moves(self, moves)
        } else {
            moves
        }
    }

    /// The moves of the side to move.
    pub fn get_all_moves(&self) -> (r: Vec<Move>)
        requires
            self.inv(),
        ensures
            r@ == color_moves(self.squares(), self.turn, self.state_of(self.turn).is_check, self.turn),
    {
        self.get_all_color_moves(self.turn)
    }

    /// The moves of the side not to move.
    pub fn get_all_enemy_moves(&self) -> (r: Vec<Move>)
        requires
            self.inv(),
        ensures
            r@ == pseudo_upto(self.squares(), !self.turn, 64),
    {
        self.get_all_color_moves(!self.turn)
    }

    /// The moves of `color`, piece by piece in square order; filtered as
    /// `get_moves` says.
    pub fn get_all_color_moves(&self, color: bool) -> (r: Vec<Move>)
        requires
            self.inv(),
        ensures
            r@ == color_moves(self.squares(), self.turn, self.state_of(self.turn).is_check, color),
    {
        let own = self.get_piece_bitboard(color);
        let ghost s = self.squares();
        let ghost filtered = color == self.turn && self.state_of(self.turn).is_check;
        let mut moves: Vec<Move> = Vec::new();
        let mut i: u8 = 0;
        while i < 64
            invariant
                0 <= i <= 64,
                self.inv(),
                s == self.squares(),
                filtered == (color == self.turn && self.state_of(self.turn).is_check),
                own@ == side(s, color),
                moves@ == if filtered {
                    legal_upto(s, color, i as int)
                } else {
                    pseudo_upto(s, color, i as int)
                },
            decreases 64 - i,
        {
            if own.get_index(i) {
                let mut more = self.get_moves(Coord::from_index(i));
                moves.append(&mut more);
            }
            i = i + 1;
        }
        moves
    }

    /// Recomputes the record of the side to move from its placement.
    pub fn update_flags(&mut self)
        requires
            old(self).inv(),
        ensures
            final(self).inv(),
            final(self).squares() == old(self).squares(),
            final(self).turn == old(self).turn,
            final(self).past_moves == old(self).past_moves,
            final(self).state_of(final(self).turn) == flags_spec(final(self).squares(), final(self).turn),
            final(self).state_of(!final(self).turn) == old(self).state_of(!old(self).turn),
    {
        let ghost s = self.squares();
        let t = color_index(self.turn);
        let check = self.calculate_is_check(self.turn);
        assert(check == king_attacked(s, self.turn));
        let mut state = self.check_states[t];
        state.is_check = check;
        self.check_states[t] = state;
        assert(self.state_of(self.turn).is_check == check);
        assert(self.squares() =~= s);
        let moves = self.get_all_moves();
        assert(moves@ == color_moves(s, self.turn, check, self.turn));
        let is_empty = moves.len() == 0;
        assert(is_empty == (color_moves(s, self.turn, check, self.turn).len() == 0));
        state.is_checkmate = self.calculate_is_checkmate(self.turn, is_empty);
        state.is_stalemate = self.calculate_is_stalemate(self.turn, is_empty);
        self.check_states[t] = state;
        state.is_draw = self.calculate_is_draw(self.turn);
        self.check_states[t] = state;
        assert(self.state_of(self.turn) == flags_spec(s, self.turn));
        assert(self.squares() =~= s);
    }

    /// Makes the move `m`: the piece on its source goes to its destination,
    /// capturing what stood there; the move and the capture are recorded; the
    /// turn passes; the record of the new side to move is recomputed.
    pub fn make_move(&mut self, m: Move)
        requires
            old(self).inv(),
            m.wf(),
            old(self).squares()[m.from.idx()] is Some,
        ensures
            final(self).inv(),
            final(self).squares() == apply_move(old(self).squares(), m),
            final(self).turn == !old(self).turn,
            final(self).past_moves@ == old(self).past_moves@.push(
                MoveWithCapture {
                    m,
                    captured: old(self).squares().update(m.from.idx(), None)[m.to.idx()],
                },
            ),
            final(self).flags_valid(),
            final(self).state_of(old(self).turn) == old(self).state_of(old(self).turn),
    {
        let captured = self.move_piece(m);
        self.past_moves.push(MoveWithCapture { m, captured });
        self.turn = !self.turn;
        self.update_flags();
    }

    /// Takes back `m`, which must be the last move made: the piece goes back
    /// to the source and the captured piece, if any, to the destination; the
    /// turn passes back; the record of the side to move is recomputed.
    pub fn undo_move(&mut self, m: Move)
        requires
            old(self).inv(),
            m.wf(),
            old(self).past_moves@.len() > 0,
            old(self).past_moves@.last().m == m,
            old(self).squares()[m.to.idx()] is Some,
            m.from != m.to ==> old(self).squares()[m.from.idx()] is None,
            m.from == m.to ==> old(self).past_moves@.last().captured is None,
        ensures
            final(self).inv(),
            final(self).squares() == unapply_move(
                old(self).squares(),
                m,
                old(self).past_moves@.last().captured,
            ),
            final(self).turn == !old(self).turn,
            final(self).past_moves@ == old(self).past_moves@.drop_last(),
            final(self).flags_valid(),
            final(self).state_of(old(self).turn) == old(self).state_of(old(self).turn),
    {
        let ghost s = self.squares();
        let entry = self.past_moves.pop().unwrap();
        let moved = self.get_piece(m.to).unwrap();
        self.unset_piece(m.to, moved);
        self.set_piece(m.from, moved);
        match entry.captured {
            Some(c) => self.set_piece(m.to, c),
            None => {},
        }
        assert(self.squares() =~= unapply_move(s, m, entry.captured));
        self.turn = !self.turn;
        self.update_flags();
    }
}

/// The kind on file `f` of a back rank at the start: rook, knight, bishop,
/// queen, king, bishop, knight, rook.
pub open spec fn back_rank_kind(f: int) -> PieceEnum {
    if f == 0 || f == 7 {
        PieceEnum::Rook
    } else if f == 1 || f == 6 {
        PieceEnum::Knight
    } else if f == 2 || f == 5 {
        PieceEnum::Bishop
    } else if f == 3 {
        PieceEnum::Queen
    } else {
        PieceEnum::King
    }
}

/// The piece on square `i` at the start of a game.
pub open spec fn start_piece(i: int) -> Option<Piece> {
    let f = i % 8;
    let r = i / 8;
    if r == 0 {
        Some(Piece { piece: back_rank_kind(f), color: true })
    } else if r == 1 {
        Some(Piece { piece: PieceEnum::Pawn, color: true })
    } else if r == 6 {
        Some(Piece { piece: PieceEnum::Pawn, color: false })
    } else if r == 7 {
        Some(Piece { piece: back_rank_kind(f), color: false })
    } else {
        None
    }
}

/// The placement at the start of a game.
pub open spec fn start_squares() -> Seq<Option<Piece>> {
    Seq::new(64, |i: int| start_piece(i))
}

fn back_rank_piece(f: u8) -> (r: PieceEnum)
    ensures
        r == back_rank_kind(f as int),
{
    if f == 0 || f == 7 {
        PieceEnum::Rook
    } else if f == 1 || f == 6 {
        PieceEnum::Knight
    } else if f == 2 || f == 5 {
        PieceEnum::Bishop
    } else if f == 3 {
        PieceEnum::Queen
    } else {
        PieceEnum::King
    }
}

/// Undoing a move right after making it gives back the placement: with the
/// capture that `make_move` records, `undo_move` may be called on the
/// placement that `make_move` leaves, and `unapply_move` returns the first
/// placement, so the side to move and its terminal-state record are the
/// first ones as well.
pub proof fn lemma_make_undo_inverse(s: Seq<Option<Piece>>, turn: bool, m: Move)
    requires
        s.len() == 64,
        m.wf(),
        s[m.from.idx()] is Some,
    ensures
        ({
            let after = apply_move(s, m);
            let captured = s.update(m.from.idx(), None)[m.to.idx()];
            &&& after[m.to.idx()] is Some
            &&& m.from != m.to ==> after[m.from.idx()] is None
            &&& m.from == m.to ==> captured is None
            &&& unapply_move(after, m, captured) == s
            &&& flags_spec(unapply_move(after, m, captured), !!turn) == flags_spec(s, turn)
        }),
{
    let after = apply_move(s, m);
    let captured = s.update(m.from.idx(), None)[m.to.idx()];
    assert(unapply_move(after, m, captured) =~= s);
}

impl Board {
    /// The position at the start of a game, white to move.
    pub fn new_game() -> (r: Board)
        ensures
            r.inv(),
            r.squares() == start_squares(),
            r.turn,
            r.past_moves@.len() == 0,
            r.flags_valid(),
    {
        let mut board = Board::new();
        let mut f: u8 = 0;
        while f < 8
            invariant
                0 <= f <= 8,
                board.inv(),
                board.turn,
                board.past_moves@.len() == 0,
                board.squares() == Seq::new(64, |i: int| if i % 8 < f { start_piece(i) } else { None }),
            decreases 8 - f,
        {
            let kind = back_rank_piece(f);
            let ghost s0 = board.squares();
            board.set_piece(Coord::new(f, 0), Piece::new(kind, true));
            board.set_piece(Coord::new(f, 1), Piece::new(PieceEnum::Pawn, true));
            board.set_piece(Coord::new(f, 6), Piece::new(PieceEnum::Pawn, false));
            board.set_piece(Coord::new(f, 7), Piece::new(kind, false));
            f = f + 1;
            assert(board.squares() =~= Seq::new(64, |i: int| if i % 8 < f { start_piece(i) } else { None }));
        }
        assert(board.squares() =~= start_squares());
        board.update_flags();
        board
    }

    /// Replaces the placement and the side to move by those of a position
    /// text, and recomputes the record of the side to move; the history is
    /// kept. Returns `false`, leaving the position as it was, where the text
    /// cannot be read.
    pub fn load_fen(&mut self, fen: &str) -> (r: bool)
        requires
            old(self).inv(),
        ensures
            r == (crate::fen::placement_of(fen@) is Some),
            r ==> final(self).inv() && final(self).squares() == crate::fen::placement_of(fen@).unwrap()
                && final(self).turn == crate::fen::turn_of(fen@) && final(self).flags_valid()
                && final(self).past_moves == old(self).past_moves,
            !r ==> *final(self) == *old(self),
    {
        match Board::from_fen(fen) {
            Some(board) => {
                self.white = board.white;
                self.black = board.black;
                self.turn = board.turn;
                self.check_states = board.check_states;
                assert(self.squares() =~= board.squares());
                true
            },
            None => false,
        }
    }
}

} // verus!
