use vstd::prelude::*;

use crate::coord::Coord;

verus! {

broadcast use vstd::std_specs::bits::axiom_u64_trailing_zeros;

/// Whether square `i` is set in the mask `b`.
pub open spec fn bit(b: u64, i: int) -> bool {
    0 <= i < 64 && (b >> (i as u64)) & 1u64 == 1u64
}

/// All 64 squares.
pub open spec fn all_squares() -> Set<int> {
    Set::new(|i: int| 0 <= i < 64)
}

pub proof fn lemma_get(b: u64, i: u64)
    requires
        i < 64,
    ensures
        (b & (1u64 << i) != 0) == ((b >> i) & 1u64 == 1u64),
{
    assert((b & (1u64 << i) != 0) == ((b >> i) & 1u64 == 1u64)) by (bit_vector)
        requires
            i < 64,
    ;
}

pub proof fn lemma_set(b: u64, i: u64, j: u64)
    requires
        i < 64,
        j < 64,
    ensures
        (((b | (1u64 << i)) >> j) & 1u64 == 1u64) == (i == j || (b >> j) & 1u64 == 1u64),
{
    assert((((b | (1u64 << i)) >> j) & 1u64 == 1u64) == (i == j || (b >> j) & 1u64 == 1u64))
        by (bit_vector)
        requires
            i < 64,
            j < 64,
    ;
}

pub proof fn lemma_unset(b: u64, i: u64, j: u64)
    requires
        i < 64,
        j < 64,
    ensures
        (((b & !(1u64 << i)) >> j) & 1u64 == 1u64) == (i != j && (b >> j) & 1u64 == 1u64),
{
    assert((((b & !(1u64 << i)) >> j) & 1u64 == 1u64) == (i != j && (b >> j) & 1u64 == 1u64))
        by (bit_vector)
        requires
            i < 64,
            j < 64,
    ;
}

pub proof fn lemma_single(i: u64, j: u64)
    requires
        i < 64,
        j < 64,
    ensures
        (((1u64 << i) >> j) & 1u64 == 1u64) == (i == j),
{
    assert((((1u64 << i) >> j) & 1u64 == 1u64) == (i == j)) by (bit_vector)
        requires
            i < 64,
            j < 64,
    ;
}

pub proof fn lemma_empty(j: u64)
    ensures
        (0u64 >> j) & 1u64 != 1u64,
{
    assert((0u64 >> j) & 1u64 != 1u64) by (bit_vector);
}

pub proof fn lemma_ops(a: u64, b: u64, j: u64)
    requires
        j < 64,
    ensures
        (((a | b) >> j) & 1u64 == 1u64) == ((a >> j) & 1u64 == 1u64 || (b >> j) & 1u64 == 1u64),
        (((a & b) >> j) & 1u64 == 1u64) == ((a >> j) & 1u64 == 1u64 && (b >> j) & 1u64 == 1u64),
        (((a ^ b) >> j) & 1u64 == 1u64) == ((a >> j) & 1u64 == 1u64 != ((b >> j) & 1u64
            == 1u64)),
        (((!a) >> j) & 1u64 == 1u64) == !((a >> j) & 1u64 == 1u64),
{
    assert((((a | b) >> j) & 1u64 == 1u64) == ((a >> j) & 1u64 == 1u64 || (b >> j) & 1u64
        == 1u64)) by (bit_vector)
        requires
            j < 64,
    ;
    assert((((a & b) >> j) & 1u64 == 1u64) == ((a >> j) & 1u64 == 1u64 && (b >> j) & 1u64
        == 1u64)) by (bit_vector)
        requires
            j < 64,
    ;
    assert((((a ^ b) >> j) & 1u64 == 1u64) == ((a >> j) & 1u64 == 1u64 != ((b >> j) & 1u64
        == 1u64))) by (bit_vector)
        requires
            j < 64,
    ;
    assert((((!a) >> j) & 1u64 == 1u64) == !((a >> j) & 1u64 == 1u64)) by (bit_vector)
        requires
            j < 64,
    ;
}

pub proof fn lemma_shift(b: u64, j: u64)
    requires
        j < 64,
    ensures
        (((b << 8u64) >> j) & 1u64 == 1u64) == (8 <= j && (b >> (j - 8) as u64) & 1u64 == 1u64),
        (((b >> 8u64) >> j) & 1u64 == 1u64) == (j < 56 && (b >> (j + 8) as u64) & 1u64 == 1u64),
        (((b << 1u64) >> j) & 1u64 == 1u64) == (1 <= j && (b >> (j - 1) as u64) & 1u64 == 1u64),
        (((b >> 1u64) >> j) & 1u64 == 1u64) == (j < 63 && (b >> (j + 1) as u64) & 1u64 == 1u64),
{
    assert((((b << 8u64) >> j) & 1u64 == 1u64) == (8 <= j && (b >> (j - 8) as u64) & 1u64
        == 1u64)) by (bit_vector)
        requires
            j < 64,
    ;
    assert((((b >> 8u64) >> j) & 1u64 == 1u64) == (j < 56 && (b >> (j + 8) as u64) & 1u64
        == 1u64)) by (bit_vector)
        requires
            j < 64,
    ;
    assert((((b << 1u64) >> j) & 1u64 == 1u64) == (1 <= j && (b >> (j - 1) as u64) & 1u64
        == 1u64)) by (bit_vector)
        requires
            j < 64,
    ;
    assert((((b >> 1u64) >> j) & 1u64 == 1u64) == (j < 63 && (b >> (j + 1) as u64) & 1u64
        == 1u64)) by (bit_vector)
        requires
            j < 64,
    ;
}

/// A set of squares, one bit per square index.
#[derive(PartialEq, Eq, Structural, Clone, Copy, Debug)]
pub struct BitBoard {
    board: u64,
}

impl View for BitBoard {
    type V = Set<int>;

    open spec fn view(&self) -> Set<int> {
        Set::new(|i: int| bit(self.bits(), i))
    }
}

impl BitBoard {
    /// The raw mask.
    pub closed spec fn bits(self) -> u64 {
        self.board
    }

    pub fn new() -> (r: BitBoard)
        ensures
            r@ == Set::<int>::empty(),
    {
        let r = BitBoard { board: 0 };
        assert forall|j: int| !bit(0u64, j) by {
            if 0 <= j < 64 {
                lemma_empty(j as u64);
            }
        }
        assert(r@ =~= Set::<int>::empty());
        r
    }

    pub fn from(board: u64) -> (r: BitBoard)
        ensures
            r.bits() == board,
            r@ == Set::new(|i: int| bit(board, i)),
    {
        BitBoard { board }
    }

    pub fn from_bitboard(bit_board: BitBoard) -> (r: BitBoard)
        ensures
            r == bit_board,
    {
        BitBoard { board: bit_board.board }
    }

    pub fn from_coord(coord: Coord) -> (r: BitBoard)
        requires
            coord.wf(),
        ensures
            r@ == set![coord.idx()],
    {
        BitBoard::from_index(coord.to_index())
    }

    pub fn from_index(index: u8) -> (r: BitBoard)
        requires
            index < 64,
        ensures
            r@ == set![index as int],
    {
        let r = BitBoard { board: 1u64 << index };
        assert forall|j: int| bit(r.board, j) == (j == index) by {
            if 0 <= j < 64 {
                lemma_single(index as u64, j as u64);
            }
        }
        assert(r@ =~= set![index as int]);
        r
    }

    /// The lowest set square, or 64 for the empty board.
    pub fn trailing_zeros(&self) -> (r: u8)
        ensures
            r <= 64,
            r == 64 <==> self@.is_empty(),
            r < 64 ==> self@.contains(r as int),
            forall|j: int| 0 <= j < r ==> !#[trigger] self@.contains(j),
    {
        let t = self.board.trailing_zeros();
        proof {
            if t == 64 {
                assert forall|j: int| !bit(self.board, j) by {
                    if 0 <= j < 64 {
                        assert(0 <= j < t);
                    }
                }
                assert(self@ =~= Set::<int>::empty());
            } else {
                assert(self@.contains(t as int));
            }
        }
        t as u8
    }

    pub fn in_bounds(coord: Coord) -> (r: bool)
        ensures
            r == coord.wf(),
    {
        coord.x < 8 && coord.y < 8
    }

    pub fn set(&mut self, pos: Coord)
        requires
            pos.wf(),
        ensures
            final(self)@ == old(self)@.insert(pos.idx()),
    {
        self.set_index(pos.to_index())
    }

    pub fn set_index(&mut self, index: u8)
        requires
            index < 64,
        ensures
            final(self)@ == old(self)@.insert(index as int),
    {
        let ghost b = self.board;
        self.board = self.board | (1u64 << index);
        assert forall|j: int| #[trigger] bit(self.board, j) == (j == index as int || bit(b, j)) by {
            if 0 <= j < 64 {
                lemma_set(b, index as u64, j as u64);
            }
            if j == index as int {
                lemma_set(b, index as u64, j as u64);
            }
        }
        assert(self@ =~= old(self)@.insert(index as int));
    }

    pub fn unset(&mut self, pos: Coord)
        requires
            pos.wf(),
        ensures
            final(self)@ == old(self)@.remove(pos.idx()),
    {
        let index = pos.to_index();
        let ghost b = self.board;
        self.board = self.board & !(1u64 << index);
        assert forall|j: int| bit(self.board, j) == (j != index && bit(b, j)) by {
            if 0 <= j < 64 {
                lemma_unset(b, index as u64, j as u64);
            }
        }
        assert(self@ =~= old(self)@.remove(pos.idx()));
    }

    pub fn get(&self, pos: Coord) -> (r: bool)
        requires
            pos.wf(),
        ensures
            r == self@.contains(pos.idx()),
    {
        self.get_index(pos.to_index())
    }

    pub fn get_index(&self, index: u8) -> (r: bool)
        requires
            index < 64,
        ensures
            r == self@.contains(index as int),
    {
        proof {
            lemma_get(self.board, index as u64);
        }
        (self.board & (1u64 << index)) != 0
    }

    /// The rank of the lowest set square (8 for the empty board).
    pub fn get_rank(&self) -> (r: u8)
        ensures
            r == self.bits().trailing_zeros() / 8,
    {
        (self.board.trailing_zeros() / 8) as u8
    }

    /// The file of the lowest set square (0 for the empty board).
    pub fn get_file(&self) -> (r: u8)
        ensures
            r == self.bits().trailing_zeros() % 8,
    {
        (self.board.trailing_zeros() % 8) as u8
    }

    /// Moves every square one rank down; the lowest rank falls off.
    pub fn shift_down(&mut self)
        ensures
            forall|j: int| #[trigger]
                final(self)@.contains(j) == (0 <= j < 56 && old(self)@.contains(j + 8)),
    {
        let ghost b = self.board;
        self.board = self.board >> 8u64;
        assert forall|j: int| #[trigger]
            self@.contains(j) == (0 <= j < 56 && bit(b, j + 8)) by {
            if 0 <= j < 64 {
                lemma_shift(b, j as u64);
            }
        }
    }

    /// Moves every square one rank up; the highest rank falls off.
    pub fn shift_up(&mut self)
        ensures
            forall|j: int| #[trigger]
                final(self)@.contains(j) == (8 <= j < 64 && old(self)@.contains(j - 8)),
    {
        let ghost b = self.board;
        self.board = self.board << 8u64;
        assert forall|j: int| #[trigger]
            self@.contains(j) == (8 <= j < 64 && bit(b, j - 8)) by {
            if 0 <= j < 64 {
                lemma_shift(b, j as u64);
            }
        }
    }

    /// Moves every square one index down (one file left). Squares of the
    /// first file land on the last file of the rank below: callers check the
    /// file first.
    pub fn shift_left(&mut self)
        ensures
            forall|j: int| #[trigger]
                final(self)@.contains(j) == (0 <= j < 63 && old(self)@.contains(j + 1)),
    {
        let ghost b = self.board;
        self.board = self.board >> 1u64;
        assert forall|j: int| #[trigger]
            self@.contains(j) == (0 <= j < 63 && bit(b, j + 1)) by {
            if 0 <= j < 64 {
                lemma_shift(b, j as u64);
            }
        }
    }

    /// Moves every square one index up (one file right). Squares of the last
    /// file land on the first file of the rank above: callers check the file
    /// first.
    pub fn shift_right(&mut self)
        ensures
            forall|j: int| #[trigger]
                final(self)@.contains(j) == (1 <= j < 64 && old(self)@.contains(j - 1)),
    {
        let ghost b = self.board;
        self.board = self.board << 1u64;
        assert forall|j: int| #[trigger]
            self@.contains(j) == (1 <= j < 64 && bit(b, j - 1)) by {
            if 0 <= j < 64 {
                lemma_shift(b, j as u64);
            }
        }
    }

    pub fn get_board(&self) -> (r: u64)
        ensures
            r == self.bits(),
    {
        self.board
    }

    /// The squares set in either board.
    pub fn union(self, rhs: BitBoard) -> (r: BitBoard)
        ensures
            r.bits() == self.bits() | rhs.bits(),
            r@ == self@.union(rhs@),
    {
        let r = BitBoard { board: self.board | rhs.board };
        assert forall|j: int| bit(r.board, j) == (bit(self.board, j) || bit(rhs.board, j)) by {
            if 0 <= j < 64 {
                lemma_ops(self.board, rhs.board, j as u64);
            }
        }
        assert(r@ =~= self@.union(rhs@));
        r
    }

    /// The squares set in both boards.
    pub fn intersect(self, rhs: BitBoard) -> (r: BitBoard)
        ensures
            r.bits() == self.bits() & rhs.bits(),
            r@ == self@.intersect(rhs@),
    {
        let r = BitBoard { board: self.board & rhs.board };
        assert forall|j: int| bit(r.board, j) == (bit(self.board, j) && bit(rhs.board, j)) by {
            if 0 <= j < 64 {
                lemma_ops(self.board, rhs.board, j as u64);
            }
        }
        assert(r@ =~= self@.intersect(rhs@));
        r
    }

    /// The squares set in exactly one of the boards.
    pub fn sym_difference(self, rhs: BitBoard) -> (r: BitBoard)
        ensures
            r.bits() == self.bits() ^ rhs.bits(),
            r@ == self@.difference(rhs@).union(rhs@.difference(self@)),
    {
        let r = BitBoard { board: self.board ^ rhs.board };
        assert forall|j: int| bit(r.board, j) == (bit(self.board, j) != bit(rhs.board, j)) by {
            if 0 <= j < 64 {
                lemma_ops(self.board, rhs.board, j as u64);
            }
        }
        assert(r@ =~= self@.difference(rhs@).union(rhs@.difference(self@)));
        r
    }

    /// The squares not set in this board.
    pub fn complement(self) -> (r: BitBoard)
        ensures
            r.bits() == !self.bits(),
            r@ == all_squares().difference(self@),
    {
        let r = BitBoard { board: !self.board };
        assert forall|j: int| bit(r.board, j) == (0 <= j < 64 && !bit(self.board, j)) by {
            if 0 <= j < 64 {
                lemma_ops(self.board, 0, j as u64);
            }
        }
        assert(r@ =~= all_squares().difference(self@));
        r
    }

    /// The squares of this board that are not set in `rhs`.
    pub fn without(self, rhs: BitBoard) -> (r: BitBoard)
        ensures
            r@ == self@.difference(rhs@),
    {
        let r = self.intersect(rhs.complement());
        assert(r@ =~= self@.difference(rhs@));
        r
    }

    /// Whether no square is set.
    pub fn is_empty(&self) -> (r: bool)
        ensures
            r == self@.is_empty(),
    {
        let t = self.trailing_zeros();
        t == 64
    }
}

impl std::ops::BitOr for BitBoard {
    type Output = BitBoard;

    fn bitor(self, rhs: BitBoard) -> (r: BitBoard)
        ensures
            r@ == self@.union(rhs@),
    {
        let r = self.union(rhs);
        assert(r.board == self.board | rhs.board);
        r
    }
}

impl vstd::std_specs::ops::BitOrSpecImpl for BitBoard {
    open spec fn obeys_bitor_spec() -> bool {
        true
    }

    open spec fn bitor_req(self, rhs: BitBoard) -> bool {
        true
    }

    closed spec fn bitor_spec(self, rhs: BitBoard) -> BitBoard {
        BitBoard { board: self.board | rhs.board }
    }
}

impl std::ops::BitAnd for BitBoard {
    type Output = BitBoard;

    fn bitand(self, rhs: BitBoard) -> (r: BitBoard)
        ensures
            r@ == self@.intersect(rhs@),
    {
        let r = self.intersect(rhs);
        assert(r.board == self.board & rhs.board);
        r
    }
}

impl vstd::std_specs::ops::BitAndSpecImpl for BitBoard {
    open spec fn obeys_bitand_spec() -> bool {
        true
    }

    open spec fn bitand_req(self, rhs: BitBoard) -> bool {
        true
    }

    closed spec fn bitand_spec(self, rhs: BitBoard) -> BitBoard {
        BitBoard { board: self.board & rhs.board }
    }
}

impl std::ops::BitXor for BitBoard {
    type Output = BitBoard;

    fn bitxor(self, rhs: BitBoard) -> (r: BitBoard)
        ensures
            r@ == self@.difference(rhs@).union(rhs@.difference(self@)),
    {
        let r = self.sym_difference(rhs);
        assert(r.board == self.board ^ rhs.board);
        r
    }
}

impl vstd::std_specs::ops::BitXorSpecImpl for BitBoard {
    open spec fn obeys_bitxor_spec() -> bool {
        true
    }

    open spec fn bitxor_req(self, rhs: BitBoard) -> bool {
        true
    }

    closed spec fn bitxor_spec(self, rhs: BitBoard) -> BitBoard {
        BitBoard { board: self.board ^ rhs.board }
    }
}

impl std::ops::Not for BitBoard {
    type Output = BitBoard;

    fn not(self) -> (r: BitBoard)
        ensures
            r@ == all_squares().difference(self@),
    {
        let r = self.complement();
        assert(r.board == !self.board);
        r
    }
}

impl vstd::std_specs::ops::NotSpecImpl for BitBoard {
    open spec fn obeys_not_spec() -> bool {
        true
    }

    open spec fn not_req(self) -> bool {
        true
    }

    closed spec fn not_spec(self) -> BitBoard {
        BitBoard { board: !self.board }
    }
}

} // verus!
