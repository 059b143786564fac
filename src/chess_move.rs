use vstd::prelude::*;

use crate::coord::{parse_square, Coord};
use crate::text::push_char;

verus! {

/// A move from one square to another, with its capture and promotion flags.
#[derive(PartialEq, Eq, Structural, Clone, Copy, Debug)]
pub struct Move {
    pub from: Coord,
    pub to: Coord,
    pub capture: bool,
    pub promotion: bool,
}

/// The move that a text such as `e2e4` or `e7e8q` names: four characters for
/// the two squares and an optional `q` for a promotion. The text carries no
/// capture flag.
pub open spec fn parse_move(s: Seq<char>) -> Option<Move> {
    if (s.len() == 4 || (s.len() == 5 && s[4] == 'q')) && parse_square(s.subrange(0, 2)) is Some
        && parse_square(s.subrange(2, 4)) is Some {
        Some(
            Move {
                from: parse_square(s.subrange(0, 2)).unwrap(),
                to: parse_square(s.subrange(2, 4)).unwrap(),
                capture: false,
                promotion: s.len() == 5,
            },
        )
    } else {
        None
    }
}

impl Move {
    /// Both squares lie on the board.
    pub open spec fn wf(self) -> bool {
        self.from.wf() && self.to.wf()
    }

    /// The text of the move: the two squares, then `q` for a promotion.
    pub open spec fn text(self) -> Seq<char> {
        self.from.text() + self.to.text() + if self.promotion {
            seq!['q']
        } else {
            Seq::<char>::empty()
        }
    }

    /// The move that stands for "no move": from the first square to itself.
    pub open spec fn null_spec() -> Move {
        Move {
            from: Coord { x: 0, y: 0 },
            to: Coord { x: 0, y: 0 },
            capture: false,
            promotion: false,
        }
    }

    pub fn null() -> (r: Move)
        ensures
            r == Move::null_spec(),
    {
        Move { from: Coord::new(0, 0), to: Coord::new(0, 0), capture: false, promotion: false }
    }

    pub fn new(from: Coord, to: Coord, capture: bool, promotion: bool) -> (r: Move)
        ensures
            r == (Move { from, to, capture, promotion }),
    {
        Move { from, to, capture, promotion }
    }

    pub fn is_capture(&self) -> (r: bool)
        ensures
            r == self.capture,
    {
        self.capture
    }

    /// Reads a move such as `e2e4`; `None` where the text names no move.
    pub fn from_str(s: &str) -> (r: Option<Move>)
        ensures
            r == parse_move(s@),
            r is Some ==> r.unwrap().wf(),
    {
        let n = s.unicode_len();
        if n != 4 && n != 5 {
            return None;
        }
        if n == 5 && s.get_char(4) != 'q' {
            return None;
        }
        let from = Coord::from_str(s.substring_char(0, 2));
        let to = Coord::from_str(s.substring_char(2, 4));
        match (from, to) {
            (Some(f), Some(t)) => Some(Move::new(f, t, false, n == 5)),
            _ => None,
        }
    }

    pub fn to_str(&self) -> (r: String)
        requires
            self.wf(),
        ensures
            r@ == self.text(),
            parse_move(r@) == Some(Move { capture: false, ..*self }),
    {
        let mut s = self.from.to_str();
        push_char(&mut s, ((self.to.x + 97) as u8) as char);
        push_char(&mut s, ((self.to.y + 49) as u8) as char);
        if self.promotion {
            push_char(&mut s, 'q');
        }
        proof {
            let text = s@;
            assert(text =~= self.text());
            assert(text.subrange(0, 2) =~= self.from.text());
            assert(text.subrange(2, 4) =~= self.to.text());
        }
        s
    }
}

} // verus!
