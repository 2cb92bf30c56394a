use vstd::prelude::*;

use crate::bitboard::BitBoard;

verus! {

/// The compressed table index of an occupancy under a magic hash: the
/// occupancy is reduced to the mask, multiplied (with 64-bit wraparound) by
/// the magic constant, and the top `64 - shift` bits are kept.
pub open spec fn magic_index_spec(mask: u64, magic: u64, shift: u64, occ: u64) -> u64 {
    vstd::wrapping::u64_specs::wrapping_mul(occ & mask, magic) >> shift
}

/// One square's perfect-hash parameters: the relevant-occupancy mask, the
/// multiplicative constant, and the right-shift that keeps the index bits.
#[derive(Clone, Copy, Debug, PartialEq, Eq, Structural)]
pub struct Magic {
    pub mask: BitBoard,
    pub magic: u64,
    pub shift: u8,
}

impl Magic {
    /// The table index this magic assigns to a blocker board.
    pub fn get_magic_index(&self, blocker_bitboard: BitBoard) -> (r: usize)
        requires
            32 <= self.shift < 64,
        ensures
            r == magic_index_spec(self.mask.0, self.magic, self.shift as u64, blocker_bitboard.0),
    {
        let blockers = blocker_bitboard.0 & self.mask.0;
        let hash = blockers.wrapping_mul(self.magic);
        proof {
            let s = self.shift as u64;
            assert(s >= 32 ==> (hash >> s) < 0x1_0000_0000) by (bit_vector);
        }
        (hash >> (self.shift as u64)) as usize
    }
}

/// One square's finished table parameters: the magic hash plus where this
/// square's sub-table starts inside the shared flat attack table.
#[derive(Clone, Copy, Debug, PartialEq, Eq, Structural)]
pub struct MagicEntry {
    pub mask: BitBoard,
    pub magic: u64,
    pub shift: u8,
    pub offset: usize,
}

/// The table index a finished entry assigns to a blocker board, relative to
/// the entry's offset.
pub fn get_magic_index(magic_entry: &MagicEntry, blocker_bitboard: BitBoard) -> (r: usize)
    requires
        32 <= magic_entry.shift < 64,
    ensures
        r == magic_index_spec(
            magic_entry.mask.0,
            magic_entry.magic,
            magic_entry.shift as u64,
            blocker_bitboard.0,
        ),
{
    let blockers = blocker_bitboard.0 & magic_entry.mask.0;
    let hash = blockers.wrapping_mul(magic_entry.magic);
    proof {
        let s = magic_entry.shift as u64;
        assert(s >= 32 ==> (hash >> s) < 0x1_0000_0000) by (bit_vector);
    }
    (hash >> (magic_entry.shift as u64)) as usize
}

} // verus!
