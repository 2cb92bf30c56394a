use vstd::prelude::*;

verus! {

/// One bit per castling permission, in the order white king side, white
/// queen side, black king side, black queen side.
#[derive(Copy, Clone, Debug, PartialEq, Eq, Structural)]
pub struct CastlingRights(pub u8);

pub const WHITE_KING_SIDE: u8 = 0b00000001;

pub const WHITE_QUEEN_SIDE: u8 = 0b00000010;

pub const BLACK_KING_SIDE: u8 = 0b00000100;

pub const BLACK_QUEEN_SIDE: u8 = 0b00001000;

pub const NO_CASTLING: u8 = 0b00000000;

pub const WHITE_CASTLING: u8 = 0b00000011;

pub const BLACK_CASTLING: u8 = 0b00001100;

impl CastlingRights {
    /// No castling permission at all.
    pub fn empty() -> (r: CastlingRights)
        ensures
            r.0 == 0,
    {
        CastlingRights(0)
    }

    pub fn from_bytes(bytes: u8) -> (r: CastlingRights)
        ensures
            r.0 == bytes,
    {
        CastlingRights(bytes)
    }

    /// The union of two sets of permissions.
    pub fn union(self, rhs: CastlingRights) -> (r: CastlingRights)
        ensures
            r.0 == self.0 | rhs.0,
    {
        CastlingRights(self.0 | rhs.0)
    }

    /// Adds another set of permissions in place.
    pub fn union_assign(&mut self, rhs: CastlingRights)
        ensures
            final(self).0 == old(self).0 | rhs.0,
    {
        self.0 = self.0 | rhs.0;
    }
}

} // verus!
