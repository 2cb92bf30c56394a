use vstd::prelude::*;

use crate::bitboard::BitBoard;
use crate::rays::{
    bishop_attacks, bishop_mask, rook_attacks, rook_mask, walk_ray_attacks, walk_ray_inner,
};
use crate::square::Square;

verus! {

/// The rook's relevant-occupancy mask for a square: the rank and file rays,
/// short of the board edge and excluding the origin.
pub fn generate_rook_mask(square: Square) -> (r: BitBoard)
    ensures
        r.0 == rook_mask(square@ as int),
{
    let sr = square.get_rank().to_index() as u8;
    let sf = square.get_file().to_index() as u8;
    let up = walk_ray_inner(sr, sf, 1, 0);
    let down = walk_ray_inner(sr, sf, -1, 0);
    let right = walk_ray_inner(sr, sf, 0, 1);
    let left = walk_ray_inner(sr, sf, 0, -1);
    BitBoard(up | down | right | left)
}

/// The true rook attack set for a square under an arbitrary blocker board,
/// ray-cast out to the board edge.
pub fn generate_rook_attack(square: Square, block_bitboard: BitBoard) -> (r: BitBoard)
    ensures
        r.0 == rook_attacks(square@ as int, block_bitboard.0),
{
    let sr = square.get_rank().to_index() as u8;
    let sf = square.get_file().to_index() as u8;
    let occ = block_bitboard.0;
    let up = walk_ray_attacks(sr, sf, 1, 0, occ);
    let down = walk_ray_attacks(sr, sf, -1, 0, occ);
    let right = walk_ray_attacks(sr, sf, 0, 1, occ);
    let left = walk_ray_attacks(sr, sf, 0, -1, occ);
    BitBoard(up | down | right | left)
}

/// The bishop's relevant-occupancy mask for a square: the four diagonal
/// rays, short of the board edge and excluding the origin.
pub fn generate_bishop_mask(square: Square) -> (r: BitBoard)
    ensures
        r.0 == bishop_mask(square@ as int),
{
    let sr = square.get_rank().to_index() as u8;
    let sf = square.get_file().to_index() as u8;
    let ne = walk_ray_inner(sr, sf, 1, 1);
    let se = walk_ray_inner(sr, sf, -1, 1);
    let nw = walk_ray_inner(sr, sf, 1, -1);
    let sw = walk_ray_inner(sr, sf, -1, -1);
    BitBoard(ne | se | nw | sw)
}

/// The true bishop attack set for a square under an arbitrary blocker
/// board, ray-cast out to the board edge.
pub fn generate_bishop_attacks_on_the_fly(square: Square, block_bitboard: BitBoard) -> (r: BitBoard)
    ensures
        r.0 == bishop_attacks(square@ as int, block_bitboard.0),
{
    let sr = square.get_rank().to_index() as u8;
    let sf = square.get_file().to_index() as u8;
    let occ = block_bitboard.0;
    let ne = walk_ray_attacks(sr, sf, 1, 1, occ);
    let se = walk_ray_attacks(sr, sf, -1, 1, occ);
    let nw = walk_ray_attacks(sr, sf, 1, -1, occ);
    let sw = walk_ray_attacks(sr, sf, -1, -1, occ);
    BitBoard(ne | se | nw | sw)
}

} // verus!
