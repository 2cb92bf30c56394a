use vstd::prelude::*;

use crate::piece::Piece;
use crate::square::Square;

verus! {

/// A move from one square to another, with the piece a pawn promotes to
/// when it reaches the last rank.
#[derive(Clone, Copy, PartialEq, Eq, Debug, Hash)]
pub struct ChessMove {
    from: Square,
    to: Square,
    promotion: Option<Piece>,
}

impl ChessMove {
    pub fn new(from: Square, to: Square, promotion: Option<Piece>) -> (r: ChessMove)
        ensures
            r.get_from_spec() == from,
            r.get_to_spec() == to,
            r.get_promotion_spec() == promotion,
    {
        ChessMove { from, to, promotion }
    }

    pub closed spec fn get_from_spec(&self) -> Square {
        self.from
    }

    pub closed spec fn get_to_spec(&self) -> Square {
        self.to
    }

    pub closed spec fn get_promotion_spec(&self) -> Option<Piece> {
        self.promotion
    }

    pub fn get_from(&self) -> (r: Square)
        ensures
            r == self.get_from_spec(),
    {
        self.from
    }

    pub fn get_to(&self) -> (r: Square)
        ensures
            r == self.get_to_spec(),
    {
        self.to
    }

    pub fn get_promotion(&self) -> (r: Option<Piece>)
        ensures
            r == self.get_promotion_spec(),
    {
        self.promotion
    }
}

} // verus!
