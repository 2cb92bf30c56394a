use vstd::prelude::*;

use crate::bitboard::BitBoard;
use crate::rays::{bishop_attacks, bishop_mask};
use crate::square::Square;

verus! {

/// The bishop's relevant-occupancy mask for a square; the per-square table
/// of these masks bounds each square's occupancy index space.
pub fn generate_bishop_attack(square: Square) -> (r: BitBoard)
    ensures
        r.0 == bishop_mask(square@ as int),
{
    crate::attacks::generate_bishop_mask(square)
}

/// The true bishop attack set for a square under an arbitrary blocker board.
pub fn generate_bishop_attacks_on_the_fly(square: Square, block_bitboard: BitBoard) -> (r: BitBoard)
    ensures
        r.0 == bishop_attacks(square@ as int, block_bitboard.0),
{
    crate::attacks::generate_bishop_attacks_on_the_fly(square, block_bitboard)
}

} // verus!
