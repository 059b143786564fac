use vstd::prelude::*;

use crate::board::Board;
use crate::coord::{square_of, Coord};
use crate::piece::{piece_letter, piece_of_letter, Piece};
use crate::text::push_char;

verus! {

/// The digit of a count of empty squares, 1 to 8.
pub open spec fn digit(n: int) -> char {
    (n + 48) as char
}

/// The text of rank `r` from file `f` on, with `empty` empty squares already
/// passed: letters for pieces, a digit for each run of empty squares.
pub open spec fn rank_text_from(s: Seq<Option<Piece>>, r: int, f: int, empty: int) -> Seq<char>
    decreases 8 - f,
{
    if f >= 8 {
        if empty > 0 {
            seq![digit(empty)]
        } else {
            Seq::empty()
        }
    } else {
        match s[square_of(f, r)] {
            Some(p) => (if empty > 0 {
                seq![digit(empty)]
            } else {
                Seq::empty()
            }) + seq![piece_letter(p)] + rank_text_from(s, r, f + 1, 0),
            None => rank_text_from(s, r, f + 1, empty + 1),
        }
    }
}

/// The text of ranks `r` down to the first, separated by `/`.
pub open spec fn ranks_text(s: Seq<Option<Piece>>, r: int) -> Seq<char>
    decreases r,
{
    if r <= 0 {
        rank_text_from(s, 0, 0, 0)
    } else {
        rank_text_from(s, r, 0, 0) + seq!['/'] + ranks_text(s, r - 1)
    }
}

/// What follows rank `r` in the placement field: `/` and the lower ranks.
pub open spec fn ranks_below(s: Seq<Option<Piece>>, r: int) -> Seq<char> {
    if r > 0 {
        seq!['/'] + ranks_text(s, r - 1)
    } else {
        Seq::empty()
    }
}

/// The piece-placement field of a placement.
pub open spec fn placement_text(s: Seq<Option<Piece>>) -> Seq<char> {
    ranks_text(s, 7)
}

/// The text of a position: its placement, a space, and `w` or `b`.
pub open spec fn position_text(s: Seq<Option<Piece>>, turn: bool) -> Seq<char> {
    placement_text(s) + seq![' ', if turn { 'w' } else { 'b' }]
}

/// A separator between the fields of a position text: a white-space
/// character of Unicode.
pub open spec fn is_space(c: char) -> bool {
    ('\t' <= c && c <= '\r') || c == ' ' || c == '\u{85}' || c == '\u{a0}' || c == '\u{1680}'
        || ('\u{2000}' <= c && c <= '\u{200a}') || c == '\u{2028}' || c == '\u{2029}'
        || c == '\u{202f}' || c == '\u{205f}' || c == '\u{3000}'
}

/// The state of the placement reader: the rank and file reached, and the
/// pieces placed so far.
pub struct FenCursor {
    pub rank: int,
    pub file: int,
    pub placed: Seq<Option<Piece>>,
}

/// One character of the placement field: `/` goes down a rank, a digit `1`-`8`
/// skips that many files, a piece letter places that piece and moves one file
/// on. `None` for any other character, a rank below the first, a file past the
/// last, or a piece off the board.
pub open spec fn fen_step(st: FenCursor, c: char) -> Option<FenCursor> {
    if c == '/' {
        if st.rank > 0 {
            Some(FenCursor { rank: st.rank - 1, file: 0, placed: st.placed })
        } else {
            None
        }
    } else if '1' <= c <= '8' {
        if st.file + (c as int - 48) <= 8 {
            Some(FenCursor { file: st.file + (c as int - 48), ..st })
        } else {
            None
        }
    } else {
        match piece_of_letter(c) {
            Some(p) => if st.file < 8 && st.placed[square_of(st.file, st.rank)] is None {
                Some(
                    FenCursor {
                        rank: st.rank,
                        file: st.file + 1,
                        placed: st.placed.update(square_of(st.file, st.rank), Some(p)),
                    },
                )
            } else {
                None
            },
            None => None,
        }
    }
}

/// The reader's state after the characters of `cs`, from state `st`.
pub open spec fn fen_fold(st: Option<FenCursor>, cs: Seq<char>) -> Option<FenCursor>
    decreases cs.len(),
{
    if cs.len() == 0 {
        st
    } else {
        match fen_fold(st, cs.drop_last()) {
            Some(st2) => fen_step(st2, cs.last()),
            None => None,
        }
    }
}

/// The reader's state at the start: the top rank of an empty board.
pub open spec fn fen_start() -> FenCursor {
    FenCursor { rank: 7, file: 0, placed: Seq::new(64, |i: int| None::<Piece>) }
}

/// The reader's state after the characters of `cs`, from the start.
pub open spec fn fen_run(cs: Seq<char>) -> Option<FenCursor> {
    fen_fold(Some(fen_start()), cs)
}

/// The length of the placement field: the characters before the first
/// separator.
pub open spec fn field_end(cs: Seq<char>, i: int) -> int
    decreases cs.len() - i,
{
    if i >= cs.len() || i < 0 || is_space(cs[i]) {
        i
    } else {
        field_end(cs, i + 1)
    }
}

/// The index of the first character at or after `i` that is not a separator.
pub open spec fn skip_spaces(cs: Seq<char>, i: int) -> int
    decreases cs.len() - i,
{
    if i >= cs.len() || i < 0 || !is_space(cs[i]) {
        i
    } else {
        skip_spaces(cs, i + 1)
    }
}

/// The side to move that a position text names: white when its second field
/// is missing or is `w`, black otherwise. Separators before the first field
/// are skipped.
pub open spec fn turn_of(cs: Seq<char>) -> bool {
    let start = skip_spaces(cs, field_end(cs, skip_spaces(cs, 0)));
    let end = field_end(cs, start);
    start >= cs.len() || cs.subrange(start, end) == seq!['w']
}

/// The placement that a position text names, `None` where its first field
/// cannot be read. Separators before the first field are skipped.
pub open spec fn placement_of(cs: Seq<char>) -> Option<Seq<Option<Piece>>> {
    match fen_run(cs.subrange(skip_spaces(cs, 0), field_end(cs, skip_spaces(cs, 0)))) {
        Some(st) => Some(st.placed),
        None => None,
    }
}

/// Appends the digit of `empty` where it is not zero.
fn push_count(fen: &mut String, empty: u8)
    requires
        empty <= 8,
    ensures
        final(fen)@ == old(fen)@ + if empty > 0 {
            seq![digit(empty as int)]
        } else {
            Seq::<char>::empty()
        },
{
    if empty > 0 {
        push_char(fen, (empty + 48) as char);
    } else {
        assert(fen@ =~= fen@ + Seq::<char>::empty());
    }
}

impl Board {
    /// The text of the position: ranks from the eighth down to the first,
    /// each with piece letters and counts of empty squares, then `w` or `b`.
    pub fn to_fen(&self) -> (r: String)
        requires
            self.inv(),
        ensures
            r@ == position_text(self.squares(), self.turn),
    {
        let ghost s = self.squares();
        let mut fen = String::new();
        let mut rank: u8 = 8;
        while rank > 0
            invariant
                0 <= rank <= 8,
                self.inv(),
                s == self.squares(),
                rank == 8 ==> fen@ == Seq::<char>::empty(),
                rank < 8 ==> fen@ + ranks_below(s, rank as int) == placement_text(s),
            decreases rank,
        {
            rank = rank - 1;
            if rank < 7 {
                push_char(&mut fen, '/');
            }
            let ghost start = fen@;
            let mut empty: u8 = 0;
            let mut file: u8 = 0;
            while file < 8
                invariant
                    0 <= file <= 8,
                    empty <= file,
                    rank < 8,
                    self.inv(),
                    s == self.squares(),
                    fen@ + rank_text_from(s, rank as int, file as int, empty as int) == start
                        + rank_text_from(s, rank as int, 0, 0),
                decreases 8 - file,
            {
                let coord = Coord::new(file, rank);
                let ghost pre = fen@;
                let ghost e = empty as int;
                match self.get_piece(coord) {
                    Some(piece) => {
                        push_count(&mut fen, empty);
                        push_char(&mut fen, piece.to_char());
                        empty = 0;
                        assert(fen@ + rank_text_from(s, rank as int, file + 1, 0) =~= pre
                            + rank_text_from(s, rank as int, file as int, e));
                    },
                    None => {
                        empty = empty + 1;
                    },
                }
                file = file + 1;
            }
            push_count(&mut fen, empty);
            assert(fen@ =~= start + rank_text_from(s, rank as int, 0, 0));
            assert(ranks_text(s, rank as int) == rank_text_from(s, rank as int, 0, 0) + ranks_below(s, rank as int));
            assert(fen@ + ranks_below(s, rank as int) =~= placement_text(s));
        }
        push_char(&mut fen, ' ');
        push_char(&mut fen, if self.turn { 'w' } else { 'b' });
        assert(fen@ =~= position_text(s, self.turn));
        fen
    }
}

/// Reading stops for good: once the reader has failed, more characters do
/// not revive it.
pub proof fn lemma_fen_run_fails(cs: Seq<char>, lo: int, k: int, k2: int)
    requires
        0 <= lo <= k <= k2 <= cs.len(),
        fen_run(cs.subrange(lo, k)) is None,
    ensures
        fen_run(cs.subrange(lo, k2)) is None,
    decreases k2 - k,
{
    if k < k2 {
        lemma_fen_run_fails(cs, lo, k, k2 - 1);
        assert(cs.subrange(lo, k2).drop_last() =~= cs.subrange(lo, k2 - 1));
        assert(fen_fold(Some(fen_start()), cs.subrange(lo, k2 - 1)) is None);
    }
}

fn is_space_char(c: char) -> (r: bool)
    ensures
        r == is_space(c),
{
    ('\t' <= c && c <= '\r') || c == ' ' || c == '\u{85}' || c == '\u{a0}' || c == '\u{1680}'
        || ('\u{2000}' <= c && c <= '\u{200a}') || c == '\u{2028}' || c == '\u{2029}'
        || c == '\u{202f}' || c == '\u{205f}' || c == '\u{3000}'
}

/// The end of the field that starts at `from`.
fn find_field_end(cs: &str, from: usize) -> (r: usize)
    requires
        from <= cs@.len(),
    ensures
        r == field_end(cs@, from as int),
        from <= r <= cs@.len(),
{
    let n = cs.unicode_len();
    let mut j = from;
    while j < n && !is_space_char(cs.get_char(j))
        invariant
            from <= j <= n,
            n == cs@.len(),
            field_end(cs@, from as int) == field_end(cs@, j as int),
        decreases n - j,
    {
        j = j + 1;
    }
    j
}

/// The first index at or after `from` that holds no separator.
fn find_non_space(cs: &str, from: usize) -> (r: usize)
    requires
        from <= cs@.len(),
    ensures
        r == skip_spaces(cs@, from as int),
        from <= r <= cs@.len(),
{
    let n = cs.unicode_len();
    let mut j = from;
    while j < n && is_space_char(cs.get_char(j))
        invariant
            from <= j <= n,
            n == cs@.len(),
            skip_spaces(cs@, from as int) == skip_spaces(cs@, j as int),
        decreases n - j,
    {
        j = j + 1;
    }
    j
}

impl Board {
    /// Reads a position text: the placement field, then `w` or `b` for the
    /// side to move (white where the field is missing; black for any other
    /// word). `None` where the placement field cannot be read. The record of
    /// the side to move is computed.
    pub fn from_fen(fen: &str) -> (r: Option<Board>)
        ensures
            r is Some <==> placement_of(fen@) is Some,
            r matches Some(b) ==> b.inv() && b.squares() == placement_of(fen@).unwrap() && b.turn
                == turn_of(fen@) && b.past_moves@.len() == 0 && b.flags_valid(),
    {
        let first = find_non_space(fen, 0);
        let end = find_field_end(fen, first);
        let ghost cs = fen@;
        let mut board = Board::new();
        let mut rank: u8 = 7;
        let mut file: u8 = 0;
        let mut i: usize = first;
        assert(cs.subrange(first as int, first as int) =~= Seq::<char>::empty());
        while i < end
            invariant
                0 <= first <= i <= end <= cs.len(),
                cs == fen@,
                first == skip_spaces(cs, 0),
                end == field_end(cs, first as int),
                rank < 8,
                file <= 8,
                board.inv(),
                board.past_moves@.len() == 0,
                fen_run(cs.subrange(first as int, i as int)) == Some(
                    FenCursor { rank: rank as int, file: file as int, placed: board.squares() },
                ),
            decreases end - i,
        {
            let c = fen.get_char(i);
            let ghost st = FenCursor { rank: rank as int, file: file as int, placed: board.squares() };
            proof {
                assert(cs.subrange(first as int, i + 1).drop_last() =~= cs.subrange(first as int, i as int));
                assert(cs.subrange(first as int, i + 1).last() == c);
            }
            if c == '/' {
                if rank > 0 {
                    rank = rank - 1;
                    file = 0;
                } else {
                    proof {
                        lemma_fen_run_fails(cs, first as int, i + 1, end as int);
                    }
                    return None;
                }
            } else if '1' <= c && c <= '8' {
                let d = (c as u32 - 48) as u8;
                if file + d <= 8 {
                    file = file + d;
                } else {
                    proof {
                        lemma_fen_run_fails(cs, first as int, i + 1, end as int);
                    }
                    return None;
                }
            } else {
                match Piece::from_char(c) {
                    Some(p) => {
                        if file < 8 && !board.has_piece(Coord::new(file, rank)) {
                            board.set_piece(Coord::new(file, rank), p);
                            file = file + 1;
                        } else {
                            proof {
                                lemma_fen_run_fails(cs, first as int, i + 1, end as int);
                            }
                            return None;
                        }
                    },
                    None => {
                        proof {
                            lemma_fen_run_fails(cs, first as int, i + 1, end as int);
                        }
                        return None;
                    },
                }
            }
            i = i + 1;
        }
        let start = find_non_space(fen, end);
        let turn = if start >= fen.unicode_len() {
            true
        } else {
            let e2 = find_field_end(fen, start);
            proof {
                if e2 - start == 1 && cs[start as int] == 'w' {
                    assert(cs.subrange(start as int, e2 as int) =~= seq!['w']);
                }
                if cs.subrange(start as int, e2 as int) == seq!['w'] {
                    assert(cs.subrange(start as int, e2 as int).len() == 1);
                    assert(cs.subrange(start as int, e2 as int)[0] == cs[start as int]);
                }
            }
            e2 - start == 1 && fen.get_char(start) == 'w'
        };
        board.turn = turn;
        board.update_flags();
        Some(board)
    }
}

/// Reading `a + b` reads `a`, then `b`.
pub proof fn lemma_fen_fold_concat(st: Option<FenCursor>, a: Seq<char>, b: Seq<char>)
    ensures
        fen_fold(st, a + b) == fen_fold(fen_fold(st, a), b),
    decreases b.len(),
{
    if b.len() == 0 {
        assert(a + b =~= a);
    } else {
        lemma_fen_fold_concat(st, a, b.drop_last());
        assert((a + b).drop_last() =~= a + b.drop_last());
        assert((a + b).last() == b.last());
        if fen_fold(st, a) is None {
            lemma_fen_fold_none(b.drop_last());
        }
    }
}

/// Nothing is read after a failure.
pub proof fn lemma_fen_fold_none(b: Seq<char>)
    ensures
        fen_fold(None, b) is None,
    decreases b.len(),
{
    if b.len() > 0 {
        lemma_fen_fold_none(b.drop_last());
    }
}

/// Reading one character is one step.
pub proof fn lemma_fen_fold_one(st: FenCursor, c: char)
    ensures
        fen_fold(Some(st), seq![c]) == fen_step(st, c),
{
    assert(seq![c].drop_last() =~= Seq::<char>::empty());
    assert(fen_fold(Some(st), Seq::<char>::empty()) == Some(st));
}

/// A piece letter reads back as its piece.
pub proof fn lemma_letter_round_trip(p: Piece)
    ensures
        piece_of_letter(piece_letter(p)) == Some(p),
        !is_space(piece_letter(p)),
        piece_letter(p) != '/',
        !('1' <= piece_letter(p) <= '8'),
{
}

/// The placement `p` with the squares of rank `r` from file `f` on taken from `s`.
pub open spec fn fill_rank(p: Seq<Option<Piece>>, s: Seq<Option<Piece>>, r: int, f: int) -> Seq<Option<Piece>> {
    Seq::new(p.len(), |i: int| if i / 8 == r && i % 8 >= f { s[i] } else { p[i] })
}

/// The placement `p` with the ranks up to `r` taken from `s`.
pub open spec fn fill_ranks(p: Seq<Option<Piece>>, s: Seq<Option<Piece>>, r: int) -> Seq<Option<Piece>> {
    Seq::new(p.len(), |i: int| if i / 8 <= r { s[i] } else { p[i] })
}

/// Reading the text of rank `r` from file `f` on, with `e` empty squares
/// pending, places the pieces of `s` on that rank and ends on its last file.
pub proof fn lemma_read_rank(s: Seq<Option<Piece>>, p: Seq<Option<Piece>>, r: int, f: int, e: int)
    requires
        s.len() == 64,
        p.len() == 64,
        0 <= r < 8,
        0 <= e <= f <= 8,
        forall|g: int| f <= g < 8 ==> p[#[trigger] square_of(g, r)] is None,
        forall|g: int| f - e <= g < f ==> s[#[trigger] square_of(g, r)] is None,
    ensures
        fen_fold(Some(FenCursor { rank: r, file: f - e, placed: p }), rank_text_from(s, r, f, e))
            == Some(FenCursor { rank: r, file: 8, placed: fill_rank(p, s, r, f) }),
    decreases 8 - f,
{
    let st = FenCursor { rank: r, file: f - e, placed: p };
    let count: Seq<char> = if e > 0 { seq![digit(e)] } else { Seq::empty() };
    let after_count = FenCursor { rank: r, file: f, placed: p };
    if e > 0 {
        lemma_fen_fold_one(st, digit(e));
        assert(digit(e) as int == e + 48);
        assert(fen_fold(Some(st), count) == Some(after_count));
    } else {
        assert(fen_fold(Some(st), count) == Some(after_count));
    }
    if f >= 8 {
        assert(fill_rank(p, s, r, f) =~= p);
    } else {
        let sq = square_of(f, r);
        match s[sq] {
            Some(pc) => {
                lemma_letter_round_trip(pc);
                let letter = seq![piece_letter(pc)];
                let rest = rank_text_from(s, r, f + 1, 0);
                assert(rank_text_from(s, r, f, e) == count + letter + rest);
                lemma_fen_fold_concat(Some(st), count + letter, rest);
                lemma_fen_fold_concat(Some(st), count, letter);
                lemma_fen_fold_one(after_count, piece_letter(pc));
                let with_piece = p.update(sq, Some(pc));
                assert(p[sq] is None);
                assert(fen_fold(Some(after_count), letter) == Some(FenCursor { rank: r, file: f + 1, placed: with_piece }));
                assert forall|g: int| f + 1 <= g < 8 implies with_piece[#[trigger] square_of(g, r)] is None by {
                    assert(square_of(g, r) != sq);
                }
                lemma_read_rank(s, with_piece, r, f + 1, 0);
                assert(fill_rank(with_piece, s, r, f + 1) =~= fill_rank(p, s, r, f));
            },
            None => {
                assert forall|g: int| f + 1 <= g < 8 implies p[#[trigger] square_of(g, r)] is None by {}
                assert forall|g: int| (f + 1) - (e + 1) <= g < f + 1 implies s[#[trigger] square_of(g, r)] is None by {}
                lemma_read_rank(s, p, r, f + 1, e + 1);
                assert(fill_rank(p, s, r, f + 1) =~= fill_rank(p, s, r, f));
            },
        }
    }
}

/// Reading the text of ranks `r` down to the first places the pieces of `s`
/// on those ranks.
pub proof fn lemma_read_ranks(s: Seq<Option<Piece>>, p: Seq<Option<Piece>>, r: int)
    requires
        s.len() == 64,
        p.len() == 64,
        0 <= r < 8,
        forall|i: int| 0 <= i < 64 && i / 8 <= r ==> #[trigger] p[i] is None,
    ensures
        fen_fold(Some(FenCursor { rank: r, file: 0, placed: p }), ranks_text(s, r)) == Some(
            FenCursor { rank: 0, file: 8, placed: fill_ranks(p, s, r) },
        ),
    decreases r,
{
    assert forall|g: int| 0 <= g < 8 implies p[#[trigger] square_of(g, r)] is None by {
        assert(square_of(g, r) / 8 == r);
    }
    lemma_read_rank(s, p, r, 0, 0);
    let after_rank = fill_rank(p, s, r, 0);
    if r == 0 {
        assert(fill_ranks(p, s, r) =~= after_rank);
    } else {
        let head = rank_text_from(s, r, 0, 0);
        let slash = seq!['/'];
        let tail = ranks_text(s, r - 1);
        assert(ranks_text(s, r) == head + slash + tail);
        lemma_fen_fold_concat(Some(FenCursor { rank: r, file: 0, placed: p }), head + slash, tail);
        lemma_fen_fold_concat(Some(FenCursor { rank: r, file: 0, placed: p }), head, slash);
        lemma_fen_fold_one(FenCursor { rank: r, file: 8, placed: after_rank }, '/');
        assert(fen_fold(Some(FenCursor { rank: r, file: 8, placed: after_rank }), slash) == Some(
            FenCursor { rank: r - 1, file: 0, placed: after_rank },
        ));
        assert forall|i: int| 0 <= i < 64 && i / 8 <= r - 1 implies #[trigger] after_rank[i] is None by {}
        lemma_read_ranks(s, after_rank, r - 1);
        assert(fill_ranks(after_rank, s, r - 1) =~= fill_ranks(p, s, r));
    }
}

/// The text of a rank holds no separator.
pub proof fn lemma_rank_text_no_space(s: Seq<Option<Piece>>, r: int, f: int, e: int)
    requires
        0 <= e <= f,
        f <= 8,
    ensures
        forall|i: int|
            0 <= i < rank_text_from(s, r, f, e).len() ==> !is_space(
                #[trigger] rank_text_from(s, r, f, e)[i],
            ),
    decreases 8 - f,
{
    let t = rank_text_from(s, r, f, e);
    assert(e > 0 ==> digit(e) as int == e + 48);
    if f >= 8 {
        if e > 0 {
            assert(t == seq![digit(e)]);
            assert(!is_space(t[0]));
        }
    } else {
        match s[square_of(f, r)] {
            Some(pc) => {
                lemma_letter_round_trip(pc);
                lemma_rank_text_no_space(s, r, f + 1, 0);
                let count: Seq<char> = if e > 0 { seq![digit(e)] } else { Seq::empty() };
                let a = count + seq![piece_letter(pc)];
                let rest = rank_text_from(s, r, f + 1, 0);
                assert(t == a + rest);
                assert forall|i: int| 0 <= i < t.len() implies !is_space(#[trigger] t[i]) by {
                    if i < a.len() {
                        assert(t[i] == a[i]);
                        if i < count.len() {
                            assert(a[i] == digit(e));
                        } else {
                            assert(a[i] == piece_letter(pc));
                        }
                    } else {
                        assert(t[i] == rest[i - a.len()]);
                    }
                }
            },
            None => {
                lemma_rank_text_no_space(s, r, f + 1, e + 1);
                assert(t == rank_text_from(s, r, f + 1, e + 1));
            },
        }
    }
}

/// The text of ranks holds no separator.
pub proof fn lemma_ranks_text_no_space(s: Seq<Option<Piece>>, r: int)
    ensures
        forall|i: int| 0 <= i < ranks_text(s, r).len() ==> !is_space(#[trigger] ranks_text(s, r)[i]),
    decreases r,
{
    lemma_rank_text_no_space(s, r, 0, 0);
    if r > 0 {
        lemma_ranks_text_no_space(s, r - 1);
        let a = rank_text_from(s, r, 0, 0) + seq!['/'];
        let b = ranks_text(s, r - 1);
        let t = ranks_text(s, r);
        assert(t == a + b);
        assert forall|i: int| 0 <= i < t.len() implies !is_space(#[trigger] t[i]) by {
            if i < a.len() {
                assert(t[i] == a[i]);
                if i < a.len() - 1 {
                    assert(a[i] == rank_text_from(s, r, 0, 0)[i]);
                }
            } else {
                assert(t[i] == b[i - a.len()]);
            }
        }
    } else {
        lemma_rank_text_no_space(s, 0, 0, 0);
    }
}

proof fn lemma_field_end_at(cs: Seq<char>, j: int, end: int)
    requires
        0 <= j <= end <= cs.len(),
        forall|i: int| j <= i < end ==> !is_space(#[trigger] cs[i]),
        end == cs.len() || is_space(cs[end]),
    ensures
        field_end(cs, j) == end,
    decreases end - j,
{
    if j < end {
        lemma_field_end_at(cs, j + 1, end);
    }
}

/// Reading the text of a position gives back its placement and its side to
/// move, so the text of the position read back is the text itself.
pub proof fn lemma_text_round_trip(s: Seq<Option<Piece>>, turn: bool)
    requires
        s.len() == 64,
    ensures
        placement_of(position_text(s, turn)) == Some(s),
        turn_of(position_text(s, turn)) == turn,
        position_text(placement_of(position_text(s, turn)).unwrap(), turn_of(position_text(s, turn)))
            == position_text(s, turn),
{
    let cs = position_text(s, turn);
    let pt = placement_text(s);
    let n = pt.len() as int;
    lemma_ranks_text_no_space(s, 7);
    assert forall|i: int| 0 <= i < n implies !is_space(#[trigger] cs[i]) by {
        assert(cs[i] == pt[i]);
    }
    assert(cs[n] == ' ');
    lemma_field_end_at(cs, 0, n);
    assert(cs.subrange(0, n) =~= pt);
    let empty = Seq::new(64, |i: int| None::<Piece>);
    lemma_read_ranks(s, empty, 7);
    assert(fill_ranks(empty, s, 7) =~= s);
    assert(skip_spaces(cs, n + 1) == n + 1);
    assert(skip_spaces(cs, n) == n + 1);
    lemma_field_end_at(cs, n + 1, n + 2);
    if turn {
        assert(cs.subrange(n + 1, n + 2) =~= seq!['w']);
    } else {
        assert(cs.subrange(n + 1, n + 2) != seq!['w']) by {
            assert(cs.subrange(n + 1, n + 2)[0] == 'b');
        }
    }
}

} // verus!
