use vstd::prelude::*;

use crate::board::{apply_move, eval_upto, lemma_make_undo_inverse, Board};
use crate::chess_move::Move;
use crate::fen::{lemma_text_round_trip, placement_of, turn_of};
use crate::moves::{color_moves, king_attacked, lemma_color_moves_shape};
use crate::piece::Piece;

verus! {

/// The key of a table entry: a position text and a remaining depth.
pub open spec fn entry_key(e: (String, u32, i16)) -> (Seq<char>, u32) {
    (e.0@, e.1)
}

/// The map that a list of entries stands for: a later entry for a key
/// replaces an earlier one.
pub open spec fn entries_map(es: Seq<(String, u32, i16)>) -> Map<(Seq<char>, u32), i16>
    decreases es.len(),
{
    if es.len() == 0 {
        Map::empty()
    } else {
        entries_map(es.drop_last()).insert(entry_key(es.last()), es.last().2)
    }
}

/// The last entry for a key gives its value; with no entry, the key is absent.
pub proof fn lemma_entries_lookup(es: Seq<(String, u32, i16)>, k: (Seq<char>, u32), i: int)
    requires
        -1 <= i < es.len(),
        forall|j: int| i < j < es.len() ==> entry_key(#[trigger] es[j]) != k,
        i >= 0 ==> entry_key(es[i]) == k,
    ensures
        i >= 0 ==> entries_map(es).contains_key(k) && entries_map(es)[k] == es[i].2,
        i < 0 ==> !entries_map(es).contains_key(k),
    decreases es.len(),
{
    if es.len() > 0 {
        if i == es.len() - 1 {
        } else {
            let rest = es.drop_last();
            assert forall|j: int| i < j < rest.len() implies entry_key(#[trigger] rest[j]) != k by {
                assert(rest[j] == es[j]);
            }
            if i >= 0 {
                assert(rest[i] == es[i]);
            }
            lemma_entries_lookup(rest, k, i);
            assert(entry_key(es[es.len() - 1]) != k);
        }
    }
}


/// The moves of `turn` on placement `s`, with its record current.
pub open spec fn moves_of(s: Seq<Option<Piece>>, turn: bool) -> Seq<Move> {
    color_moves(s, turn, king_attacked(s, turn), turn)
}

/// The full-width negamax score of placement `s` for `turn`, `depth` plies
/// deep, over the first `k` moves of `turn`: the evaluation at depth 0;
/// otherwise -9999 for no move, and the best of the negated scores of the
/// placements that the moves lead to, one ply less deep.
pub open spec fn value_upto(s: Seq<Option<Piece>>, turn: bool, depth: nat, k: nat) -> int
    decreases depth, k,
{
    if depth == 0 {
        eval_upto(s, turn, 64)
    } else if k == 0 {
        -9999
    } else {
        let best = value_upto(s, turn, depth, (k - 1) as nat);
        let child = apply_move(s, moves_of(s, turn)[k - 1]);
        let score = -value_upto(child, !turn, (depth - 1) as nat, moves_of(child, !turn).len());
        if score > best {
            score
        } else {
            best
        }
    }
}

/// The full-width negamax score of placement `s` for `turn`, `depth` plies deep.
pub open spec fn value(s: Seq<Option<Piece>>, turn: bool, depth: nat) -> int {
    value_upto(s, turn, depth, moves_of(s, turn).len())
}

/// Looking at more moves never lowers the best score.
pub proof fn lemma_value_upto_grows(s: Seq<Option<Piece>>, turn: bool, depth: nat, k: nat, k2: nat)
    requires
        depth > 0,
        k <= k2,
    ensures
        value_upto(s, turn, depth, k) <= value_upto(s, turn, depth, k2),
    decreases k2,
{
    if k < k2 {
        lemma_value_upto_grows(s, turn, depth, k, (k2 - 1) as nat);
    }
}

/// The choice among the first `n` moves of `ms` at the root of a full-width
/// search `depth` plies deep on placement `s` with `turn` to move: each move
/// scores the negated full-width score of the placement it leads to, one ply
/// less deep; the first move with the highest score is kept. Returns the
/// score kept (-10000 before any move) and the move (the null move before any).
pub open spec fn root_choice(s: Seq<Option<Piece>>, turn: bool, depth: nat, ms: Seq<Move>, n: int) -> (int, Move)
    decreases n,
{
    if n <= 0 {
        (-10000, Move::null_spec())
    } else {
        let (best, m) = root_choice(s, turn, depth, ms, n - 1);
        let score = -value(apply_move(s, ms[n - 1]), !turn, (depth - 1) as nat);
        if score > best {
            (score, ms[n - 1])
        } else {
            (best, m)
        }
    }
}

/// Scores of positions by text and remaining depth. A list searched from its
/// end stands in for a hash map: the keys are strings, for which Verus proves
/// nothing about a `HashMap`'s lookups, and the list gives exact contracts.
pub struct TranspositionTable {
    entries: Vec<(String, u32, i16)>,
}

impl View for TranspositionTable {
    type V = Map<(Seq<char>, u32), i16>;

    closed spec fn view(&self) -> Map<(Seq<char>, u32), i16> {
        entries_map(self.entries@)
    }
}

impl TranspositionTable {
    /// Every stored score lies between `lo` and `hi`.
    pub closed spec fn bounded(&self, lo: int, hi: int) -> bool {
        forall|j: int| 0 <= j < self.entries@.len() ==> lo <= #[trigger] self.entries@[j].2 <= hi
    }

    pub fn new() -> (r: Self)
        ensures
            r@ == Map::<(Seq<char>, u32), i16>::empty(),
            forall|lo: int, hi: int| r.bounded(lo, hi),
    {
        Self { entries: Vec::new() }
    }

    /// The score stored for `key`.
    pub fn get(&self, key: &(String, u32)) -> (r: Option<i16>)
        ensures
            r == if self@.contains_key((key.0@, key.1)) {
                Some(self@[(key.0@, key.1)])
            } else {
                None::<i16>
            },
            forall|lo: int, hi: int| self.bounded(lo, hi) ==> (r matches Some(v) ==> lo <= v <= hi),
    {
        let ghost k = (key.0@, key.1);
        let mut i = self.entries.len();
        while i > 0
            invariant
                0 <= i <= self.entries@.len(),
                k == (key.0@, key.1),
                forall|j: int| i <= j < self.entries@.len() ==> entry_key(#[trigger] self.entries@[j]) != k,
            decreases i,
        {
            let e = &self.entries[i - 1];
            if e.1 == key.1 && e.0 == key.0 {
                proof {
                    lemma_entries_lookup(self.entries@, k, i - 1);
                }
                return Some(e.2);
            }
            i = i - 1;
        }
        proof {
            lemma_entries_lookup(self.entries@, k, -1);
        }
        None
    }

    /// Stores `value` for `key`, replacing any earlier score.
    pub fn set(&mut self, key: (String, u32), value: i16)
        ensures
            final(self)@ == old(self)@.insert((key.0@, key.1), value),
            forall|lo: int, hi: int|
                old(self).bounded(lo, hi) && lo <= value <= hi ==> final(self).bounded(lo, hi),
    {
        self.entries.push((key.0, key.1, value));
        proof {
            assert(self.entries@.drop_last() =~= old(self).entries@);
        }
    }
}

/// The score of a side that has no move.
pub const NO_MOVE_SCORE: i16 = -9999;

/// The score that every move of the root search beats.
pub const BELOW_ANY_SCORE: i16 = -10000;

/// A position and the table of the search that runs on it.
pub struct Engine {
    pub board: Board,
    pub tt: TranspositionTable,
}

impl Engine {
    /// Every stored score is the full-width score of the position that its
    /// text names, at the depth of its key.
    pub open spec fn table_exact(&self) -> bool {
        forall|k: (Seq<char>, u32)|
            #[trigger] self.tt@.contains_key(k) ==> placement_of(k.0) is Some && self.tt@[k]
                == value(placement_of(k.0).unwrap(), turn_of(k.0), k.1 as nat)
    }

    /// The position is well formed, the record of the side to move is
    /// current, and the table holds exact scores, of at most 9999 either way.
    pub open spec fn inv(&self) -> bool {
        self.board.inv() && self.board.flags_valid() && self.tt.bounded(-9999, 9999)
            && self.table_exact()
    }

    /// An engine on the starting position, with an empty table.
    pub fn new() -> (r: Engine)
        ensures
            r.inv(),
            r.board.squares() == crate::board::start_squares(),
            r.board.turn,
            r.tt@ == Map::<(Seq<char>, u32), i16>::empty(),
    {
        Engine { board: Board::new_game(), tt: TranspositionTable::new() }
    }

    /// An engine on the position of a text, with an empty table; `None` where
    /// the text cannot be read.
    pub fn from_fen(fen: &str) -> (r: Option<Engine>)
        ensures
            r is Some <==> crate::fen::placement_of(fen@) is Some,
            r matches Some(e) ==> e.inv() && e.board.squares() == crate::fen::placement_of(
                fen@,
            ).unwrap() && e.board.turn == crate::fen::turn_of(fen@) && e.tt@ == Map::<
                (Seq<char>, u32),
                i16,
            >::empty(),
    {
        match Board::from_fen(fen) {
            Some(board) => Some(Engine { board, tt: TranspositionTable::new() }),
            None => None,
        }
    }

    /// The moves of the side to move.
    pub fn get_all_moves(&self) -> (r: Vec<Move>)
        requires
            self.inv(),
        ensures
            r@ == color_moves(
                self.board.squares(),
                self.board.turn,
                self.board.state_of(self.board.turn).is_check,
                self.board.turn,
            ),
            r@ == moves_of(self.board.squares(), self.board.turn),
    {
        self.board.get_all_moves()
    }

    /// The negamax score of the position for the side to move, searched
    /// `depth` plies deep with alpha-beta pruning in the window
    /// `(alpha, beta)`: the evaluation at depth 0; otherwise a stored score
    /// for the position text and depth, or the best of the negated scores of
    /// the moves, in generation order, raising `alpha` to the best score and
    /// stopping once it reaches `beta`; -9999 when there is no move. A score
    /// is stored only when it lies strictly inside the window, where it is
    /// exact. Against the full-width score `v` the result is exact inside
    /// the window, at most `alpha` when `v` is, and at least `beta` when `v`
    /// is. The position is restored.
    fn negamax(&mut self, depth: u32, alpha: i16, beta: i16) -> (r: i16)
        requires
            old(self).inv(),
            -10000 <= alpha < beta <= 10000,
        ensures
            final(self).inv(),
            final(self).board.squares() == old(self).board.squares(),
            final(self).board.turn == old(self).board.turn,
            final(self).board.past_moves@ == old(self).board.past_moves@,
            -9999 <= r <= 9999,
            ({
                let v = value(old(self).board.squares(), old(self).board.turn, depth as nat);
                &&& alpha < v < beta ==> r == v
                &&& v <= alpha ==> r <= alpha
                &&& v >= beta ==> r >= beta
            }),
        decreases depth,
    {
        let ghost s = self.board.squares();
        let ghost t = self.board.turn;
        let ghost past = self.board.past_moves@;
        if depth == 0 {
            return self.board.evaluate();
        }
        let alpha0 = alpha;
        let mut alpha = alpha;
        let mut max: i16 = NO_MOVE_SCORE;
        let key = (self.board.to_fen(), depth);
        proof {
            lemma_text_round_trip(s, t);
        }
        match self.tt.get(&key) {
            Some(stored) => {
                proof {
                    assert(self.tt@.contains_key((key.0@, key.1)));
                }
                return stored;
            },
            None => {},
        }
        let moves = self.get_all_moves();
        proof {
            lemma_color_moves_shape(s, t, 64);
        }
        let mut stop = false;
        let mut i: usize = 0;
        while i < moves.len() && !stop
            invariant
                0 <= i <= moves@.len(),
                self.inv(),
                self.board.squares() == s,
                self.board.turn == t,
                self.board.past_moves@ == past,
                moves@ == moves_of(s, t),
                moves@ == color_moves(s, t, self.board.state_of(t).is_check, t),
                forall|j: int|
                    0 <= j < moves@.len() ==> (#[trigger] moves@[j]).from.wf() && moves@[j].to.wf()
                        && s[moves@[j].from.idx()] is Some,
                -10000 <= alpha0 < beta <= 10000,
                alpha0 <= alpha,
                alpha == alpha0 || alpha == max,
                i > 0 ==> max <= alpha,
                i == 0 ==> max == -9999 && alpha == alpha0,
                -9999 <= max <= 9999,
                depth >= 1,
                !stop ==> alpha < beta,
                !stop && value_upto(s, t, depth as nat, i as nat) > alpha0 ==> max == value_upto(
                    s,
                    t,
                    depth as nat,
                    i as nat,
                ),
                !stop && value_upto(s, t, depth as nat, i as nat) <= alpha0 ==> max <= alpha0,
                stop ==> max >= beta && value_upto(s, t, depth as nat, i as nat) >= beta,
            decreases moves@.len() - i,
        {
            let m = moves[i];
            proof {
                lemma_make_undo_inverse(s, t, m);
            }
            self.board.make_move(m);
            let reply = self.negamax(depth - 1, -beta, -alpha);
            let score = -reply;
            self.board.undo_move(m);
            assert(self.board.past_moves@ =~= past);
            proof {
                let child = apply_move(s, m);
                assert(value_upto(s, t, depth as nat, (i + 1) as nat) == if -value(child, !t, (depth - 1) as nat)
                    > value_upto(s, t, depth as nat, i as nat) {
                    -value(child, !t, (depth - 1) as nat)
                } else {
                    value_upto(s, t, depth as nat, i as nat)
                });
            }
            if score > max {
                max = score;
            }
            if max > alpha {
                alpha = max;
            }
            if alpha >= beta {
                stop = true;
            }
            i = i + 1;
        }
        proof {
            if stop {
                lemma_value_upto_grows(s, t, depth as nat, i as nat, moves@.len() as nat);
            }
        }
        if alpha0 < max && max < beta {
            let ghost before = self.tt@;
            self.tt.set(key, max);
            proof {
                assert forall|k: (Seq<char>, u32)| #[trigger] self.tt@.contains_key(k) implies placement_of(k.0) is Some
                    && self.tt@[k] == value(placement_of(k.0).unwrap(), turn_of(k.0), k.1 as nat) by {
                    if k != (key.0@, key.1) {
                        assert(before.contains_key(k));
                    }
                }
            }
        }
        max
    }

    /// The move to play, searched `depth` plies deep: each move of the side
    /// to move is made and scored by the negated full-window search of the
    /// reply, and the first move with the highest score is chosen; the null
    /// move exactly when the side to move has no move. The pruned search
    /// gives the full-width scores, so the choice is that of the full-width
    /// negamax (`root_choice`). The table starts empty for each search; the
    /// position is restored.
    pub fn get_best_move(&mut self, depth: u32) -> (r: Move)
        requires
            old(self).inv(),
            depth >= 1,
        ensures
            final(self).inv(),
            final(self).board.squares() == old(self).board.squares(),
            final(self).board.turn == old(self).board.turn,
            final(self).board.past_moves@ == old(self).board.past_moves@,
            r == root_choice(
                old(self).board.squares(),
                old(self).board.turn,
                depth as nat,
                moves_of(old(self).board.squares(), old(self).board.turn),
                moves_of(old(self).board.squares(), old(self).board.turn).len() as int,
            ).1,
            moves_of(old(self).board.squares(), old(self).board.turn).len() > 0 ==> exists|j: int|
                0 <= j < moves_of(old(self).board.squares(), old(self).board.turn).len() && r
                    == moves_of(old(self).board.squares(), old(self).board.turn)[j],
            moves_of(old(self).board.squares(), old(self).board.turn).len() == 0 ==> r
                == Move::null_spec(),
    {
        self.tt = TranspositionTable::new();
        let mut best_move_value: i16 = BELOW_ANY_SCORE;
        let mut best_move = Move::null();
        let moves = self.get_all_moves();
        let ghost s = self.board.squares();
        let ghost t = self.board.turn;
        let ghost past = self.board.past_moves@;
        proof {
            lemma_color_moves_shape(s, t, 64);
            assert(self.tt@ =~= Map::<(Seq<char>, u32), i16>::empty());
        }
        let mut i: usize = 0;
        while i < moves.len()
            invariant
                0 <= i <= moves@.len(),
                self.inv(),
                self.board.squares() == s,
                self.board.turn == t,
                self.board.past_moves@ == past,
                moves@ == moves_of(s, t),
                forall|j: int|
                    0 <= j < moves@.len() ==> (#[trigger] moves@[j]).from.wf() && moves@[j].to.wf()
                        && s[moves@[j].from.idx()] is Some,
                root_choice(s, t, depth as nat, moves@, i as int) == (best_move_value as int, best_move),
                i == 0 ==> best_move == Move::null_spec(),
                i > 0 ==> exists|j: int| 0 <= j < i && best_move == moves@[j],
                i > 0 ==> best_move_value >= -9999,
                depth >= 1,
            decreases moves@.len() - i,
        {
            let m = moves[i];
            proof {
                lemma_make_undo_inverse(s, t, m);
            }
            self.board.make_move(m);
            let move_value = -self.negamax(depth - 1, -10000, 10000);
            self.board.undo_move(m);
            assert(self.board.past_moves@ =~= past);
            if move_value > best_move_value {
                best_move_value = move_value;
                best_move = m;
            }
            i = i + 1;
        }
        best_move
    }
}

} // verus!
