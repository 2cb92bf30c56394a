use vstd::prelude::*;

use crate::bits::pop64;
use crate::square::Square;

verus! {

/// A 64-bit set of board squares: bit `i` is set exactly when square `i` is
/// a member.
#[derive(Copy, Clone, Debug, PartialEq, Eq, Structural)]
pub struct BitBoard(pub u64);

impl BitBoard {
    pub fn new(value: u64) -> (r: BitBoard)
        ensures
            r.0 == value,
    {
        BitBoard(value)
    }

    /// The board with no square set.
    pub fn empty() -> (r: BitBoard)
        ensures
            r.0 == 0,
    {
        BitBoard(0)
    }

    /// The board holding exactly the given square.
    pub fn from_square(sq: Square) -> (r: BitBoard)
        ensures
            r.0 == 1u64 << sq@,
    {
        BitBoard(1u64 << (sq.to_int() as u64))
    }

    /// Adds the given square to the set.
    pub fn set_bit(&mut self, sq: Square)
        ensures
            final(self).0 == old(self).0 | (1u64 << sq@),
    {
        self.0 = self.0 | (1u64 << (sq.to_int() as u64));
    }

    /// The number of squares in the set.
    pub fn count_bits(&self) -> (r: u32)
        ensures
            r == pop64(self.0),
    {
        crate::bits::popcount(self.0)
    }

    pub fn as_u64(&self) -> (r: u64)
        ensures
            r == self.0,
    {
        self.0
    }

    /// Whether no square is set.
    pub fn is_empty(&self) -> (r: bool)
        ensures
            r == (self.0 == 0),
    {
        self.0 == 0
    }

    /// The intersection of two boards.
    pub fn bitand(self, rhs: BitBoard) -> (r: BitBoard)
        ensures
            r.0 == self.0 & rhs.0,
    {
        BitBoard(self.0 & rhs.0)
    }

    /// The union of two boards.
    pub fn bitor(self, rhs: BitBoard) -> (r: BitBoard)
        ensures
            r.0 == self.0 | rhs.0,
    {
        BitBoard(self.0 | rhs.0)
    }

    /// The symmetric difference of two boards.
    pub fn bitxor(self, rhs: BitBoard) -> (r: BitBoard)
        ensures
            r.0 == self.0 ^ rhs.0,
    {
        BitBoard(self.0 ^ rhs.0)
    }

    /// The complement of a board.
    pub fn invert(self) -> (r: BitBoard)
        ensures
            r.0 == !self.0,
    {
        BitBoard(!self.0)
    }

    /// Intersects this board with another in place.
    pub fn bitand_assign(&mut self, rhs: BitBoard)
        ensures
            final(self).0 == old(self).0 & rhs.0,
    {
        self.0 = self.0 & rhs.0;
    }

    /// Unions another board into this one in place.
    pub fn bitor_assign(&mut self, rhs: BitBoard)
        ensures
            final(self).0 == old(self).0 | rhs.0,
    {
        self.0 = self.0 | rhs.0;
    }

    /// Exclusive-ors another board into this one in place.
    pub fn bitxor_assign(&mut self, rhs: BitBoard)
        ensures
            final(self).0 == old(self).0 ^ rhs.0,
    {
        self.0 = self.0 ^ rhs.0;
    }
}

} // verus!
