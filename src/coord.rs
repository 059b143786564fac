use vstd::prelude::*;

use crate::text::push_char;

verus! {

/// A square of the board, as a file `x` and a rank `y`.
#[derive(PartialEq, Eq, Structural, Clone, Copy, Debug)]
pub struct Coord {
    pub x: u8,
    pub y: u8,
}

/// The square index of the file and rank `(x, y)`.
pub open spec fn square_of(x: int, y: int) -> int {
    x + 8 * y
}

/// The file of a square index.
pub open spec fn file_of(i: int) -> int {
    i % 8
}

/// The rank of a square index.
pub open spec fn rank_of(i: int) -> int {
    i / 8
}

/// The character of a file: `a` to `h`.
pub open spec fn file_char(x: int) -> char {
    (x + 97) as char
}

/// The character of a rank: `1` to `8`.
pub open spec fn rank_char(y: int) -> char {
    (y + 49) as char
}

/// The square named by two characters, such as `e4`.
pub open spec fn parse_square(s: Seq<char>) -> Option<Coord> {
    if s.len() == 2 && 'a' <= s[0] <= 'h' && '1' <= s[1] <= '8' {
        Some(Coord { x: (s[0] as int - 97) as u8, y: (s[1] as int - 49) as u8 })
    } else {
        None
    }
}

impl Coord {
    /// Both coordinates lie on the board.
    pub open spec fn wf(self) -> bool {
        self.x < 8 && self.y < 8
    }

    /// The square index `x + 8 * y`.
    pub open spec fn idx(self) -> int {
        square_of(self.x as int, self.y as int)
    }

    /// The two characters that name the square.
    pub open spec fn text(self) -> Seq<char> {
        seq![file_char(self.x as int), rank_char(self.y as int)]
    }

    pub fn new(x: u8, y: u8) -> (r: Coord)
        ensures
            r.x == x,
            r.y == y,
    {
        Coord { x, y }
    }

    pub fn from_index(index: u8) -> (r: Coord)
        ensures
            r.x == index % 8,
            r.y == index / 8,
            index < 64 ==> r.wf() && r.idx() == index,
    {
        Coord { x: index % 8, y: index / 8 }
    }

    /// Reads a square such as `e4`; `None` unless the text is a file letter
    /// `a`-`h` followed by a rank digit `1`-`8`.
    pub fn from_str(s: &str) -> (r: Option<Coord>)
        ensures
            r == parse_square(s@),
            r is Some ==> r.unwrap().wf(),
    {
        if s.unicode_len() != 2 {
            return None;
        }
        let f = s.get_char(0);
        let k = s.get_char(1);
        if 'a' <= f && f <= 'h' && '1' <= k && k <= '8' {
            Some(Coord::new((f as u32 - 97) as u8, (k as u32 - 49) as u8))
        } else {
            None
        }
    }

    pub fn to_str(&self) -> (r: String)
        requires
            self.wf(),
        ensures
            r@ == self.text(),
    {
        let mut s = String::new();
        push_char(&mut s, ((self.x + 97) as u8) as char);
        push_char(&mut s, ((self.y + 49) as u8) as char);
        assert(s@ =~= self.text());
        s
    }

    pub fn to_index(&self) -> (r: u8)
        requires
            self.wf(),
        ensures
            r == self.idx(),
            r < 64,
    {
        self.x + self.y * 8
    }

    pub fn in_bounds(&self) -> (r: bool)
        ensures
            r == self.wf(),
    {
        self.x < 8 && self.y < 8
    }
}

} // verus!
