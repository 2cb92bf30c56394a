use vstd::prelude::*;

verus! {

/// The side a piece belongs to.
#[derive(Copy, Clone, Debug, PartialEq, Eq, Hash, Structural)]
pub enum Color {
    White,
    Black,
}

pub const NUM_COLORS: usize = 2;

pub open spec fn color_index(c: Color) -> int {
    match c {
        Color::White => 0,
        Color::Black => 1,
    }
}

impl Color {
    pub fn to_index(&self) -> (i: usize)
        ensures
            i == color_index(*self),
    {
        match *self {
            Color::White => 0,
            Color::Black => 1,
        }
    }

    /// The opposite side.
    pub fn opposite(&self) -> (c: Color)
        ensures
            c != *self,
            c == (match *self {
                Color::White => Color::Black,
                Color::Black => Color::White,
            }),
    {
        match *self {
            Color::White => Color::Black,
            Color::Black => Color::White,
        }
    }

    pub fn from_char(c: char) -> (r: Result<Color, ()>)
        ensures
            r matches Ok(col) ==> (c == 'w' && col == Color::White) || (c == 'b' && col
                == Color::Black),
            r is Err <==> (c != 'w' && c != 'b'),
    {
        match c {
            'w' => Ok(Color::White),
            'b' => Ok(Color::Black),
            _ => Err(()),
        }
    }

    /// Both sides, white first.
    pub fn all() -> (v: Vec<Color>)
        ensures
            v@.len() == 2,
            v@[0] == Color::White,
            v@[1] == Color::Black,
    {
        vec![Color::White, Color::Black]
    }
}

} // verus!
