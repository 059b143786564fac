use vstd::prelude::*;

use crate::coord::Coord;
use crate::evaluate::{BISHOP_SCORE, KING_SCORE, KNIGHT_SCORE, PAWN_SCORE, QUEEN_SCORE, ROOK_SCORE};

verus! {

/// The six kinds of piece.
#[derive(PartialEq, Eq, Structural, Clone, Copy, Debug)]
pub enum PieceEnum {
    Pawn,
    Knight,
    Bishop,
    Rook,
    Queen,
    King,
}

/// The index of a kind: pawn 0, knight 1, bishop 2, rook 3, queen 4, king 5.
pub open spec fn kind_index(k: PieceEnum) -> int {
    match k {
        PieceEnum::Pawn => 0,
        PieceEnum::Knight => 1,
        PieceEnum::Bishop => 2,
        PieceEnum::Rook => 3,
        PieceEnum::Queen => 4,
        PieceEnum::King => 5,
    }
}

/// The kind of an index; indices past 5 read as a pawn.
pub open spec fn kind_of_index(i: int) -> PieceEnum {
    if i == 1 {
        PieceEnum::Knight
    } else if i == 2 {
        PieceEnum::Bishop
    } else if i == 3 {
        PieceEnum::Rook
    } else if i == 4 {
        PieceEnum::Queen
    } else if i == 5 {
        PieceEnum::King
    } else {
        PieceEnum::Pawn
    }
}

/// The upper-case letter of a kind.
pub open spec fn kind_letter(k: PieceEnum) -> char {
    match k {
        PieceEnum::Pawn => 'P',
        PieceEnum::Knight => 'N',
        PieceEnum::Bishop => 'B',
        PieceEnum::Rook => 'R',
        PieceEnum::Queen => 'Q',
        PieceEnum::King => 'K',
    }
}

/// The kind of an upper-case letter.
pub open spec fn kind_of_letter(c: char) -> Option<PieceEnum> {
    if c == 'P' {
        Some(PieceEnum::Pawn)
    } else if c == 'N' {
        Some(PieceEnum::Knight)
    } else if c == 'B' {
        Some(PieceEnum::Bishop)
    } else if c == 'R' {
        Some(PieceEnum::Rook)
    } else if c == 'Q' {
        Some(PieceEnum::Queen)
    } else if c == 'K' {
        Some(PieceEnum::King)
    } else {
        None
    }
}

/// The letter of a piece: upper case for white, lower case for black.
pub open spec fn piece_letter(p: Piece) -> char {
    if p.color {
        kind_letter(p.piece)
    } else {
        (kind_letter(p.piece) as int + 32) as char
    }
}

/// The piece that a letter names, `None` for any other character.
pub open spec fn piece_of_letter(c: char) -> Option<Piece> {
    if 'A' <= c <= 'Z' {
        match kind_of_letter(c) {
            Some(k) => Some(Piece { piece: k, color: true }),
            None => None,
        }
    } else if 'a' <= c <= 'z' {
        match kind_of_letter((c as int - 32) as char) {
            Some(k) => Some(Piece { piece: k, color: false }),
            None => None,
        }
    } else {
        None
    }
}

/// The square value of piece `p` on square `sq` with `turn` to move.
pub open spec fn square_value(p: Piece, sq: int, turn: bool) -> i16 {
    let side: int = if turn == p.color { 0 } else { 1 };
    match p.piece {
        PieceEnum::Pawn => PAWN_SCORE[side][sq],
        PieceEnum::Knight => KNIGHT_SCORE[side][sq],
        PieceEnum::Bishop => BISHOP_SCORE[side][sq],
        PieceEnum::Rook => ROOK_SCORE[side][sq],
        PieceEnum::Queen => QUEEN_SCORE[side][sq],
        PieceEnum::King => KING_SCORE[side][sq],
    }
}

impl PieceEnum {
    pub fn from_index(index: u8) -> (r: PieceEnum)
        ensures
            r == kind_of_index(index as int),
    {
        match index {
            0 => PieceEnum::Pawn,
            1 => PieceEnum::Knight,
            2 => PieceEnum::Bishop,
            3 => PieceEnum::Rook,
            4 => PieceEnum::Queen,
            5 => PieceEnum::King,
            _ => PieceEnum::Pawn,
        }
    }

    pub fn to_index(&self) -> (r: u8)
        ensures
            r == kind_index(*self),
            kind_of_index(r as int) == *self,
    {
        match self {
            PieceEnum::Pawn => 0,
            PieceEnum::Knight => 1,
            PieceEnum::Bishop => 2,
            PieceEnum::Rook => 3,
            PieceEnum::Queen => 4,
            PieceEnum::King => 5,
        }
    }

    pub fn from_char(c: char) -> (r: Option<PieceEnum>)
        ensures
            r == kind_of_letter(c),
    {
        match c {
            'P' => Some(PieceEnum::Pawn),
            'N' => Some(PieceEnum::Knight),
            'B' => Some(PieceEnum::Bishop),
            'R' => Some(PieceEnum::Rook),
            'Q' => Some(PieceEnum::Queen),
            'K' => Some(PieceEnum::King),
            _ => None,
        }
    }

    pub fn to_char(&self) -> (r: char)
        ensures
            r == kind_letter(*self),
    {
        match self {
            PieceEnum::Pawn => 'P',
            PieceEnum::Knight => 'N',
            PieceEnum::Bishop => 'B',
            PieceEnum::Rook => 'R',
            PieceEnum::Queen => 'Q',
            PieceEnum::King => 'K',
        }
    }
}

/// A piece: its kind and its color (`true` for white).
#[derive(PartialEq, Eq, Structural, Clone, Copy, Debug)]
pub struct Piece {
    pub piece: PieceEnum,
    pub color: bool,
}

impl Piece {
    pub fn new(piece: PieceEnum, color: bool) -> (r: Piece)
        ensures
            r == (Piece { piece, color }),
    {
        Piece { piece, color }
    }

    pub fn from_index(index: u8, color: bool) -> (r: Piece)
        ensures
            r == (Piece { piece: kind_of_index(index as int), color }),
    {
        Piece { piece: PieceEnum::from_index(index), color }
    }

    /// Reads a piece letter: upper case is white, lower case black.
    pub fn from_char(c: char) -> (r: Option<Piece>)
        ensures
            r == piece_of_letter(c),
    {
        if 'A' <= c && c <= 'Z' {
            match PieceEnum::from_char(c) {
                Some(k) => Some(Piece::new(k, true)),
                None => None,
            }
        } else if 'a' <= c && c <= 'z' {
            let upper = ((c as u32) - 32) as u8 as char;
            match PieceEnum::from_char(upper) {
                Some(k) => Some(Piece::new(k, false)),
                None => None,
            }
        } else {
            None
        }
    }

    pub fn to_char(&self) -> (r: char)
        ensures
            r == piece_letter(*self),
            piece_of_letter(r) == Some(*self),
    {
        let c = self.piece.to_char();
        if self.color {
            c
        } else {
            ((c as u32) + 32) as u8 as char
        }
    }

    pub fn to_index(&self) -> (r: u8)
        ensures
            r == kind_index(self.piece),
            r < 6,
    {
        self.piece.to_index()
    }

    /// The square value of this piece on `coord` with `turn` to move.
    pub fn get_score(&self, coord: Coord, turn: bool) -> (r: i16)
        requires
            coord.wf(),
        ensures
            r == square_value(*self, coord.idx(), turn),
            -50 <= r <= 50,
    {
        let side: usize = if turn == self.color { 0 } else { 1 };
        let i = coord.to_index() as usize;
        match self.piece {
            PieceEnum::Pawn => PAWN_SCORE[side][i],
            PieceEnum::Knight => KNIGHT_SCORE[side][i],
            PieceEnum::Bishop => BISHOP_SCORE[side][i],
            PieceEnum::Rook => ROOK_SCORE[side][i],
            PieceEnum::Queen => QUEEN_SCORE[side][i],
            PieceEnum::King => KING_SCORE[side][i],
        }
    }

    pub fn is_white(&self) -> (r: bool)
        ensures
            r == self.color,
    {
        self.color
    }

    pub fn is_black(&self) -> (r: bool)
        ensures
            r == !self.color,
    {
        !self.color
    }

    pub fn is_pawn(&self) -> (r: bool)
        ensures
            r == (self.piece == PieceEnum::Pawn),
    {
        self.piece == PieceEnum::Pawn
    }

    pub fn is_knight(&self) -> (r: bool)
        ensures
            r == (self.piece == PieceEnum::Knight),
    {
        self.piece == PieceEnum::Knight
    }

    pub fn is_bishop(&self) -> (r: bool)
        ensures
            r == (self.piece == PieceEnum::Bishop),
    {
        self.piece == PieceEnum::Bishop
    }

    pub fn is_rook(&self) -> (r: bool)
        ensures
            r == (self.piece == PieceEnum::Rook),
    {
        self.piece == PieceEnum::Rook
    }

    pub fn is_queen(&self) -> (r: bool)
        ensures
            r == (self.piece == PieceEnum::Queen),
    {
        self.piece == PieceEnum::Queen
    }

    pub fn is_king(&self) -> (r: bool)
        ensures
            r == (self.piece == PieceEnum::King),
    {
        self.piece == PieceEnum::King
    }
}

} // verus!
