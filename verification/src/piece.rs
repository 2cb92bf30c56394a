use vstd::prelude::*;

use crate::color::Color;

verus! {

/// A chess piece kind.
#[derive(Copy, Clone, Debug, PartialEq, Eq, Hash, Structural)]
pub enum Piece {
    Pawn,
    Knight,
    Bishop,
    Rook,
    Queen,
    King,
}

pub const NUM_PIECES: usize = 6;

pub open spec fn piece_index(p: Piece) -> int {
    match p {
        Piece::Pawn => 0,
        Piece::Knight => 1,
        Piece::Bishop => 2,
        Piece::Rook => 3,
        Piece::Queen => 4,
        Piece::King => 5,
    }
}

/// The lower-case letter that stands for a piece kind in algebraic notation.
pub open spec fn piece_letter(p: Piece) -> char {
    match p {
        Piece::Pawn => 'p',
        Piece::Knight => 'n',
        Piece::Bishop => 'b',
        Piece::Rook => 'r',
        Piece::Queen => 'q',
        Piece::King => 'k',
    }
}

/// The upper-case letter for a white piece in algebraic notation.
pub open spec fn piece_letter_upper(p: Piece) -> char {
    match p {
        Piece::Pawn => 'P',
        Piece::Knight => 'N',
        Piece::Bishop => 'B',
        Piece::Rook => 'R',
        Piece::Queen => 'Q',
        Piece::King => 'K',
    }
}

/// The figurine symbol for a piece of the given color.
pub open spec fn piece_figurine(p: Piece, c: Color) -> char {
    match c {
        Color::White => match p {
            Piece::Pawn => '\u{2659}',
            Piece::Knight => '\u{2658}',
            Piece::Bishop => '\u{2657}',
            Piece::Rook => '\u{2656}',
            Piece::Queen => '\u{2655}',
            Piece::King => '\u{2654}',
        },
        Color::Black => match p {
            Piece::Pawn => '\u{265F}',
            Piece::Knight => '\u{265E}',
            Piece::Bishop => '\u{265D}',
            Piece::Rook => '\u{265C}',
            Piece::Queen => '\u{265B}',
            Piece::King => '\u{265A}',
        },
    }
}

impl Piece {
    /// The one-letter notation for this piece: upper case for white, lower
    /// case for black.
    pub fn to_string(&self, color: Color) -> (r: String)
        ensures
            r@ =~= seq![
                if color == Color::White {
                    piece_letter_upper(*self)
                } else {
                    piece_letter(*self)
                },
            ],
    {
        let s: &str = match (color, *self) {
            (Color::White, Piece::Pawn) => "P",
            (Color::White, Piece::Knight) => "N",
            (Color::White, Piece::Bishop) => "B",
            (Color::White, Piece::Rook) => "R",
            (Color::White, Piece::Queen) => "Q",
            (Color::White, Piece::King) => "K",
            (Color::Black, Piece::Pawn) => "p",
            (Color::Black, Piece::Knight) => "n",
            (Color::Black, Piece::Bishop) => "b",
            (Color::Black, Piece::Rook) => "r",
            (Color::Black, Piece::Queen) => "q",
            (Color::Black, Piece::King) => "k",
        };
        proof {
            reveal_strlit("P");
            reveal_strlit("N");
            reveal_strlit("B");
            reveal_strlit("R");
            reveal_strlit("Q");
            reveal_strlit("K");
            reveal_strlit("p");
            reveal_strlit("n");
            reveal_strlit("b");
            reveal_strlit("r");
            reveal_strlit("q");
            reveal_strlit("k");
        }
        s.to_owned()
    }

    /// The figurine symbol for this piece in the given color.
    pub fn to_fancy_string(&self, color: Color) -> (r: String)
        ensures
            r@ =~= seq![piece_figurine(*self, color)],
    {
        let s: &str = match (color, *self) {
            (Color::White, Piece::Pawn) => "\u{2659}",
            (Color::White, Piece::Knight) => "\u{2658}",
            (Color::White, Piece::Bishop) => "\u{2657}",
            (Color::White, Piece::Rook) => "\u{2656}",
            (Color::White, Piece::Queen) => "\u{2655}",
            (Color::White, Piece::King) => "\u{2654}",
            (Color::Black, Piece::Pawn) => "\u{265F}",
            (Color::Black, Piece::Knight) => "\u{265E}",
            (Color::Black, Piece::Bishop) => "\u{265D}",
            (Color::Black, Piece::Rook) => "\u{265C}",
            (Color::Black, Piece::Queen) => "\u{265B}",
            (Color::Black, Piece::King) => "\u{265A}",
        };
        proof {
            reveal_strlit("\u{2659}");
            reveal_strlit("\u{2658}");
            reveal_strlit("\u{2657}");
            reveal_strlit("\u{2656}");
            reveal_strlit("\u{2655}");
            reveal_strlit("\u{2654}");
            reveal_strlit("\u{265F}");
            reveal_strlit("\u{265E}");
            reveal_strlit("\u{265D}");
            reveal_strlit("\u{265C}");
            reveal_strlit("\u{265B}");
            reveal_strlit("\u{265A}");
        }
        s.to_owned()
    }

    pub fn from_char(c: char) -> (r: Result<Piece, ()>)
        ensures
            r matches Ok(p) ==> piece_letter(p) == c,
            r is Err <==> !(exists|p: Piece| piece_letter(p) == c),
    {
        let r: Result<Piece, ()> = match c {
            'p' => Ok(Piece::Pawn),
            'n' => Ok(Piece::Knight),
            'b' => Ok(Piece::Bishop),
            'r' => Ok(Piece::Rook),
            'q' => Ok(Piece::Queen),
            'k' => Ok(Piece::King),
            _ => Err(()),
        };
        proof {
            if r is Ok {
                assert(piece_letter(r->Ok_0) == c);
            } else {
                assert forall|p: Piece| piece_letter(p) != c by {
                    match p {
                        Piece::Pawn => assert(piece_letter(p) == 'p'),
                        Piece::Knight => assert(piece_letter(p) == 'n'),
                        Piece::Bishop => assert(piece_letter(p) == 'b'),
                        Piece::Rook => assert(piece_letter(p) == 'r'),
                        Piece::Queen => assert(piece_letter(p) == 'q'),
                        Piece::King => assert(piece_letter(p) == 'k'),
                    }
                }
            }
        }
        r
    }

    pub fn to_index(&self) -> (i: usize)
        ensures
            i == piece_index(*self),
    {
        match *self {
            Piece::Pawn => 0,
            Piece::Knight => 1,
            Piece::Bishop => 2,
            Piece::Rook => 3,
            Piece::Queen => 4,
            Piece::King => 5,
        }
    }

    /// The six piece kinds in index order.
    pub fn all() -> (v: Vec<Piece>)
        ensures
            v@.len() == 6,
            forall|i: int| 0 <= i < 6 ==> piece_index(v@[i]) == i,
    {
        let v = vec![
            Piece::Pawn,
            Piece::Knight,
            Piece::Bishop,
            Piece::Rook,
            Piece::Queen,
            Piece::King,
        ];
        assert(forall|i: int| 0 <= i < 6 ==> piece_index(v@[i]) == i) by {
            assert(piece_index(v@[0]) == 0);
            assert(piece_index(v@[1]) == 1);
            assert(piece_index(v@[2]) == 2);
            assert(piece_index(v@[3]) == 3);
            assert(piece_index(v@[4]) == 4);
            assert(piece_index(v@[5]) == 5);
        }
        v
    }
}

} // verus!
