use vstd::prelude::*;

use crate::bitboard::BitBoard;
use crate::rays::{rook_attacks, rook_mask};
use crate::square::Square;

verus! {

/// The rook's relevant-occupancy mask for a square; the per-square table of
/// these masks bounds each square's occupancy index space.
pub fn generate_rook_attack(square: Square) -> (r: BitBoard)
    ensures
        r.0 == rook_mask(square@ as int),
{
    crate::attacks::generate_rook_mask(square)
}

/// The true rook attack set for a square under an arbitrary blocker board.
pub fn rook_attacks_on_the_fly(square: Square, block_bitboard: BitBoard) -> (r: BitBoard)
    ensures
        r.0 == rook_attacks(square@ as int, block_bitboard.0),
{
    crate::attacks::generate_rook_attack(square, block_bitboard)
}

} // verus!
