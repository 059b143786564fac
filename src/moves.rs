use vstd::prelude::*;

use crate::attacks::{
    all_king_moves, all_knight_moves, all_pawn_attacks, all_pawn_moves, bishop_reach,
    get_bishop_moves, get_rook_moves, king_target, knight_target, pawn_attack_target,
    pawn_push_target, rook_reach, forward,
};
use crate::bitboard::BitBoard;
use crate::board::{apply_move, coord_of, king_square, occupied, side, Board};
use crate::chess_move::Move;
use crate::coord::Coord;
use crate::piece::{Piece, PieceEnum};

verus! {

/// The moves from `from` to each square of `mask` below `n`, in square order.
/// Generated moves never carry the promotion flag: which piece a pawn becomes
/// is not modelled, and a pawn that reaches the last rank stays a pawn.
pub open spec fn mask_moves(from: Coord, mask: Set<int>, capture: bool, n: int) -> Seq<Move>
    decreases n,
{
    if n <= 0 {
        Seq::empty()
    } else if mask.contains(n - 1) {
        mask_moves(from, mask, capture, n - 1).push(
            Move { from, to: coord_of(n - 1), capture, promotion: false },
        )
    } else {
        mask_moves(from, mask, capture, n - 1)
    }
}

/// The moves of a piece of `color` on `from` that reaches `reach`: first the
/// quiet moves onto empty squares, then the captures of opposing pieces.
/// Squares of its own side are left out of both.
pub open spec fn split_moves(s: Seq<Option<Piece>>, from: Coord, color: bool, reach: Set<int>) -> Seq<
    Move,
> {
    mask_moves(from, reach.difference(occupied(s)), false, 64) + mask_moves(
        from,
        reach.intersect(side(s, !color)),
        true,
        64,
    )
}

/// The quiet advances of a pawn of `color` on `from`: none when the square in
/// front is taken; otherwise the empty squares it may advance to.
pub open spec fn pawn_quiet_targets(s: Seq<Option<Piece>>, from: int, color: bool) -> Set<int> {
    if occupied(s).contains(from + 8 * forward(color)) {
        Set::empty()
    } else {
        Set::new(|t: int| pawn_push_target(color, from, t)).difference(occupied(s))
    }
}

pub open spec fn knight_moves_spec(s: Seq<Option<Piece>>, from: Coord, color: bool) -> Seq<Move> {
    split_moves(s, from, color, Set::new(|t: int| knight_target(from.idx(), t)))
}

pub open spec fn king_moves_spec(s: Seq<Option<Piece>>, from: Coord, color: bool) -> Seq<Move> {
    split_moves(s, from, color, Set::new(|t: int| king_target(from.idx(), t)))
}

pub open spec fn bishop_moves_spec(s: Seq<Option<Piece>>, from: Coord, color: bool) -> Seq<Move> {
    split_moves(s, from, color, bishop_reach(from.idx(), occupied(s)))
}

pub open spec fn rook_moves_spec(s: Seq<Option<Piece>>, from: Coord, color: bool) -> Seq<Move> {
    split_moves(s, from, color, rook_reach(from.idx(), occupied(s)))
}

pub open spec fn queen_moves_spec(s: Seq<Option<Piece>>, from: Coord, color: bool) -> Seq<Move> {
    bishop_moves_spec(s, from, color) + rook_moves_spec(s, from, color)
}

pub open spec fn pawn_moves_spec(s: Seq<Option<Piece>>, from: Coord, color: bool) -> Seq<Move> {
    mask_moves(from, pawn_quiet_targets(s, from.idx(), color), false, 64) + mask_moves(
        from,
        Set::new(|t: int| pawn_attack_target(color, from.idx(), t)).intersect(side(s, !color)),
        true,
        64,
    )
}

/// The moves of the piece on square `i`, before any check filtering.
pub open spec fn piece_moves(s: Seq<Option<Piece>>, i: int) -> Seq<Move> {
    match s[i] {
        Some(p) => match p.piece {
            PieceEnum::Pawn => pawn_moves_spec(s, coord_of(i), p.color),
            PieceEnum::Knight => knight_moves_spec(s, coord_of(i), p.color),
            PieceEnum::Bishop => bishop_moves_spec(s, coord_of(i), p.color),
            PieceEnum::Rook => rook_moves_spec(s, coord_of(i), p.color),
            PieceEnum::Queen => queen_moves_spec(s, coord_of(i), p.color),
            PieceEnum::King => king_moves_spec(s, coord_of(i), p.color),
        },
        None => Seq::empty(),
    }
}

/// The moves of the pieces of `color` on squares below `n`, in square order,
/// before any check filtering.
pub open spec fn pseudo_upto(s: Seq<Option<Piece>>, color: bool, n: int) -> Seq<Move>
    decreases n,
{
    if n <= 0 {
        Seq::empty()
    } else if side(s, color).contains(n - 1) {
        pseudo_upto(s, color, n - 1) + piece_moves(s, n - 1)
    } else {
        pseudo_upto(s, color, n - 1)
    }
}

/// Whether the king of `color` is attacked by a move of `attacker`, or
/// missing from the board.
pub open spec fn king_hit(s: Seq<Option<Piece>>, color: bool, attacker: bool) -> bool {
    match king_square(s, color) {
        Some(k) => exists|j: int|
            0 <= j < pseudo_upto(s, attacker, 64).len() && #[trigger] pseudo_upto(
                s,
                attacker,
                64,
            )[j].to == coord_of(k),
        None => true,
    }
}

/// Whether the king of `color` is attacked by the other side, or missing.
pub open spec fn king_attacked(s: Seq<Option<Piece>>, color: bool) -> bool {
    king_hit(s, color, !color)
}

/// The moves of `ms` after which the king of `color` is not attacked.
pub open spec fn legal_filter(s: Seq<Option<Piece>>, color: bool, ms: Seq<Move>) -> Seq<Move>
    decreases ms.len(),
{
    if ms.len() == 0 {
        Seq::empty()
    } else if king_attacked(apply_move(s, ms.last()), color) {
        legal_filter(s, color, ms.drop_last())
    } else {
        legal_filter(s, color, ms.drop_last()).push(ms.last())
    }
}

/// The moves of the pieces of `color` on squares below `n`, each filtered
/// against leaving its king attacked.
pub open spec fn legal_upto(s: Seq<Option<Piece>>, color: bool, n: int) -> Seq<Move>
    decreases n,
{
    if n <= 0 {
        Seq::empty()
    } else if side(s, color).contains(n - 1) {
        legal_upto(s, color, n - 1) + legal_filter(s, color, piece_moves(s, n - 1))
    } else {
        legal_upto(s, color, n - 1)
    }
}

/// The moves of `color`: filtered when `color` is the side to move and is
/// flagged in check, and not filtered otherwise.
pub open spec fn color_moves(s: Seq<Option<Piece>>, turn: bool, in_check: bool, color: bool) -> Seq<
    Move,
> {
    if color == turn && in_check {
        legal_upto(s, color, 64)
    } else {
        pseudo_upto(s, color, 64)
    }
}

/// The moves from `from` to each square of `bitboard`, in square order.
pub fn bitboard_to_moves(from: Coord, bitboard: BitBoard, is_capture: bool) -> (r: Vec<Move>)
    ensures
        r@ == mask_moves(from, bitboard@, is_capture, 64),
{
    let mut moves: Vec<Move> = Vec::new();
    let mut i: u8 = 0;
    while i < 64
        invariant
            0 <= i <= 64,
            moves@ == mask_moves(from, bitboard@, is_capture, i as int),
        decreases 64 - i,
    {
        if bitboard.get_index(i) {
            moves.push(Move::new(from, Coord::from_index(i), is_capture, false));
        }
        i = i + 1;
    }
    moves
}

/// The quiet moves onto the empty squares of `reach`, then the captures onto
/// its squares held by the other side.
fn split_reach(board: &Board, coord: Coord, color: bool, reach: BitBoard) -> (r: Vec<Move>)
    requires
        board.inv(),
    ensures
        r@ == split_moves(board.squares(), coord, color, reach@),
{
    let quiet = reach.without(board.occupied_bitboard());
    let captures = reach.intersect(board.get_enemy_bitboard(color));
    let mut moves = bitboard_to_moves(coord, quiet, false);
    let mut more = bitboard_to_moves(coord, captures, true);
    moves.append(&mut more);
    moves
}

pub fn generate_knights_moves(board: &Board, coord: Coord, color: bool) -> (r: Vec<Move>)
    requires
        board.inv(),
        coord.wf(),
    ensures
        r@ == knight_moves_spec(board.squares(), coord, color),
{
    split_reach(board, coord, color, all_knight_moves(coord))
}

pub fn generate_king_moves(board: &Board, coord: Coord, color: bool) -> (r: Vec<Move>)
    requires
        board.inv(),
        coord.wf(),
    ensures
        r@ == king_moves_spec(board.squares(), coord, color),
{
    split_reach(board, coord, color, all_king_moves(coord))
}

pub fn generate_bishop_moves(board: &Board, coord: Coord, color: bool) -> (r: Vec<Move>)
    requires
        board.inv(),
        coord.wf(),
    ensures
        r@ == bishop_moves_spec(board.squares(), coord, color),
{
    let reach = get_bishop_moves(BitBoard::from_coord(coord), board.occupied_bitboard());
    split_reach(board, coord, color, reach)
}

pub fn generate_rook_moves(board: &Board, coord: Coord, color: bool) -> (r: Vec<Move>)
    requires
        board.inv(),
        coord.wf(),
    ensures
        r@ == rook_moves_spec(board.squares(), coord, color),
{
    let reach = get_rook_moves(BitBoard::from_coord(coord), board.occupied_bitboard());
    split_reach(board, coord, color, reach)
}

pub fn generate_queen_moves(board: &Board, coord: Coord, color: bool) -> (r: Vec<Move>)
    requires
        board.inv(),
        coord.wf(),
    ensures
        r@ == queen_moves_spec(board.squares(), coord, color),
{
    let mut moves = generate_bishop_moves(board, coord, color);
    let mut more = generate_rook_moves(board, coord, color);
    moves.append(&mut more);
    moves
}

/// The moves of a pawn of `color` on `coord`: advances onto empty squares
/// (the two-square advance only from the starting rank, and only when the
/// square in between is empty as well), then diagonal captures.
pub fn generate_pawn_moves(board: &Board, coord: Coord, color: bool) -> (r: Vec<Move>)
    requires
        board.inv(),
        coord.wf(),
    ensures
        r@ == pawn_moves_spec(board.squares(), coord, color),
{
    let occupied_bb = board.occupied_bitboard();
    let ghost s = board.squares();
    let ahead: i8 = coord.y as i8 + if color { 1i8 } else { -1i8 };
    let blocked = 0 <= ahead && ahead < 8 && occupied_bb.get_index(coord.x + 8 * (ahead as u8));
    let quiet = if blocked {
        BitBoard::new()
    } else {
        all_pawn_moves(coord, color).without(occupied_bb)
    };
    proof {
        let front = coord.idx() + 8 * forward(color);
        if !(0 <= ahead < 8) {
            assert(!occupied(s).contains(front));
        }
        assert(quiet@ =~= pawn_quiet_targets(s, coord.idx(), color));
    }
    let captures = all_pawn_attacks(coord, color).intersect(board.get_enemy_bitboard(color));
    let mut moves = bitboard_to_moves(coord, quiet, false);
    let mut more = bitboard_to_moves(coord, captures, true);
    moves.append(&mut more);
    moves
}

/// Keeps the moves of the side to move after which its king is not
/// attacked; each is tried on a copy of the placement.
pub fn filter_check_moves(board: &Board, moves: Vec<Move>) -> (r: Vec<Move>)
    requires
        board.inv(),
        forall|j: int|
            0 <= j < moves@.len() ==> (#[trigger] moves@[j]).wf() && board.squares()[moves@[j].from.idx()] is Some,
    ensures
        r@ == legal_filter(board.squares(), board.turn, moves@),
{
    let mut filtered_moves: Vec<Move> = Vec::new();
    let mut i: usize = 0;
    while i < moves.len()
        invariant
            0 <= i <= moves@.len(),
            board.inv(),
            forall|j: int|
                0 <= j < moves@.len() ==> (#[trigger] moves@[j]).wf() && board.squares()[moves@[j].from.idx()] is Some,
            filtered_moves@ == legal_filter(board.squares(), board.turn, moves@.take(i as int)),
        decreases moves@.len() - i,
    {
        let m = moves[i];
        let copy = board.with_move_applied(m);
        let attacked = copy.calculate_is_check(board.turn);
        if !attacked {
            filtered_moves.push(m);
        }
        proof {
            let t = moves@.take(i as int + 1);
            assert(t.drop_last() =~= moves@.take(i as int));
            assert(t.last() == m);
        }
        i = i + 1;
    }
    assert(moves@.take(moves@.len() as int) =~= moves@);
    filtered_moves
}

/// Every move of `mask_moves` starts on `from` and ends on the board.
pub proof fn lemma_mask_moves_shape(from: Coord, mask: Set<int>, capture: bool, n: int)
    requires
        n <= 64,
    ensures
        forall|j: int|
            0 <= j < mask_moves(from, mask, capture, n).len() ==> (#[trigger] mask_moves(
                from,
                mask,
                capture,
                n,
            )[j]).from == from && mask_moves(from, mask, capture, n)[j].to.wf(),
    decreases n,
{
    if n > 0 {
        lemma_mask_moves_shape(from, mask, capture, n - 1);
        let prev = mask_moves(from, mask, capture, n - 1);
        let cur = mask_moves(from, mask, capture, n);
        let c = coord_of(n - 1);
        assert(c.wf());
        assert forall|j: int| 0 <= j < cur.len() implies (#[trigger] cur[j]).from == from && cur[j].to.wf() by {
            if j < prev.len() {
                assert(cur[j] == prev[j]);
            }
        }
    }
}

/// Every move of the piece on square `i` starts there and ends on the board.
pub proof fn lemma_piece_moves_shape(s: Seq<Option<Piece>>, i: int)
    requires
        0 <= i < 64,
    ensures
        forall|j: int|
            0 <= j < piece_moves(s, i).len() ==> (#[trigger] piece_moves(s, i)[j]).from == coord_of(i)
                && piece_moves(s, i)[j].to.wf(),
{
    let f = coord_of(i);
    if let Some(p) = s[i] {
        let c = p.color;
        lemma_mask_moves_shape(f, Set::new(|t: int| knight_target(f.idx(), t)).difference(occupied(s)), false, 64);
        lemma_mask_moves_shape(f, Set::new(|t: int| knight_target(f.idx(), t)).intersect(side(s, !c)), true, 64);
        lemma_mask_moves_shape(f, Set::new(|t: int| king_target(f.idx(), t)).difference(occupied(s)), false, 64);
        lemma_mask_moves_shape(f, Set::new(|t: int| king_target(f.idx(), t)).intersect(side(s, !c)), true, 64);
        lemma_mask_moves_shape(f, bishop_reach(f.idx(), occupied(s)).difference(occupied(s)), false, 64);
        lemma_mask_moves_shape(f, bishop_reach(f.idx(), occupied(s)).intersect(side(s, !c)), true, 64);
        lemma_mask_moves_shape(f, rook_reach(f.idx(), occupied(s)).difference(occupied(s)), false, 64);
        lemma_mask_moves_shape(f, rook_reach(f.idx(), occupied(s)).intersect(side(s, !c)), true, 64);
        lemma_mask_moves_shape(f, pawn_quiet_targets(s, f.idx(), c), false, 64);
        lemma_mask_moves_shape(f, Set::new(|t: int| pawn_attack_target(c, f.idx(), t)).intersect(side(s, !c)), true, 64);
        let b = bishop_moves_spec(s, f, c);
        let r = rook_moves_spec(s, f, c);
        assert forall|j: int| 0 <= j < (b + r).len() implies (#[trigger] (b + r)[j]).from == f && (b + r)[j].to.wf() by {
            if j < b.len() {
                assert((b + r)[j] == b[j]);
            } else {
                assert((b + r)[j] == r[j - b.len()]);
            }
        }
    }
}

/// Filtering keeps only moves of the list, so a property of every move of
/// the list holds of every move kept.
pub proof fn lemma_filter_shape(s: Seq<Option<Piece>>, color: bool, ms: Seq<Move>, from: Coord)
    requires
        forall|j: int| 0 <= j < ms.len() ==> (#[trigger] ms[j]).from == from && ms[j].to.wf(),
    ensures
        forall|j: int|
            0 <= j < legal_filter(s, color, ms).len() ==> (#[trigger] legal_filter(s, color, ms)[j]).from
                == from && legal_filter(s, color, ms)[j].to.wf(),
    decreases ms.len(),
{
    if ms.len() > 0 {
        lemma_filter_shape(s, color, ms.drop_last(), from);
        let prev = legal_filter(s, color, ms.drop_last());
        let cur = legal_filter(s, color, ms);
        assert(ms.last() == ms[ms.len() - 1]);
        assert forall|j: int| 0 <= j < cur.len() implies (#[trigger] cur[j]).from == from && cur[j].to.wf() by {
            if j < prev.len() {
                assert(cur[j] == prev[j]);
            }
        }
    }
}

/// Every move of `color`, filtered or not, starts on a square of its side and
/// ends on the board.
pub proof fn lemma_color_moves_shape(s: Seq<Option<Piece>>, color: bool, n: int)
    requires
        n <= 64,
    ensures
        forall|j: int|
            0 <= j < pseudo_upto(s, color, n).len() ==> (#[trigger] pseudo_upto(s, color, n)[j]).from.wf()
                && pseudo_upto(s, color, n)[j].to.wf() && side(s, color).contains(
                pseudo_upto(s, color, n)[j].from.idx(),
            ),
        forall|j: int|
            0 <= j < legal_upto(s, color, n).len() ==> (#[trigger] legal_upto(s, color, n)[j]).from.wf()
                && legal_upto(s, color, n)[j].to.wf() && side(s, color).contains(
                legal_upto(s, color, n)[j].from.idx(),
            ),
    decreases n,
{
    if n > 0 {
        lemma_color_moves_shape(s, color, n - 1);
        if !side(s, color).contains(n - 1) {
            assert(pseudo_upto(s, color, n) == pseudo_upto(s, color, n - 1));
            assert(legal_upto(s, color, n) == legal_upto(s, color, n - 1));
        } else {
            lemma_piece_moves_shape(s, n - 1);
            lemma_filter_shape(s, color, piece_moves(s, n - 1), coord_of(n - 1));
            let f = coord_of(n - 1);
            assert(f.wf() && f.idx() == n - 1);
            let a = pseudo_upto(s, color, n - 1);
            let b = piece_moves(s, n - 1);
            assert(pseudo_upto(s, color, n) == a + b);
            assert(legal_upto(s, color, n) == legal_upto(s, color, n - 1) + legal_filter(s, color, b));
            assert forall|j: int| 0 <= j < b.len() implies side(s, color).contains((#[trigger] b[j]).from.idx()) by {
                assert(b[j].from == f);
            }
            assert forall|j: int| 0 <= j < (a + b).len() implies (#[trigger] (a + b)[j]).from.wf()
                && (a + b)[j].to.wf() && side(s, color).contains((a + b)[j].from.idx()) by {
                if j < a.len() {
                    assert((a + b)[j] == a[j]);
                } else {
                    assert((a + b)[j] == b[j - a.len()]);
                }
            }
            let a2 = legal_upto(s, color, n - 1);
            let b2 = legal_filter(s, color, b);
            assert forall|j: int| 0 <= j < (a2 + b2).len() implies (#[trigger] (a2 + b2)[j]).from.wf()
                && (a2 + b2)[j].to.wf() && side(s, color).contains((a2 + b2)[j].from.idx()) by {
                if j < a2.len() {
                    assert((a2 + b2)[j] == a2[j]);
                } else {
                    assert((a2 + b2)[j] == b2[j - a2.len()]);
                }
            }
        }
    }
}

} // verus!
