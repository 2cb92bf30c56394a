use vstd::prelude::*;

use crate::bitboard::BitBoard;
use crate::bits::{lemma_and_zero, lemma_set_bit_effect};
use crate::rays::sq_bit;

verus! {

/// The fixed board geometry masks that the generators lean on: one mask per
/// rank, one per file, the files adjacent to each file, and the board edge.
pub struct BoardConstants {
    pub rank_masks: Vec<BitBoard>,
    pub file_masks: Vec<BitBoard>,
    pub adjacent_file_masks: Vec<BitBoard>,
    pub edge_mask: BitBoard,
}

/// Which squares belong in one of the geometry masks.
#[derive(Clone, Copy, PartialEq, Eq, Structural)]
enum MaskKind {
    Rank,
    File,
    AdjacentFile,
    Edge,
}

/// Whether square `t` belongs to the mask of the given kind and index.
spec fn mask_member(kind: MaskKind, i: int, t: int) -> bool {
    match kind {
        MaskKind::Rank => t / 8 == i,
        MaskKind::File => t % 8 == i,
        MaskKind::AdjacentFile => t % 8 == i - 1 || t % 8 == i + 1,
        MaskKind::Edge => t / 8 == 0 || t / 8 == 7 || t % 8 == 0 || t % 8 == 7,
    }
}

/// Collects every square that belongs to the mask of one kind and index.
fn collect_mask(kind: MaskKind, i: u8) -> (r: u64)
    requires
        i < 8,
    ensures
        forall|t: int| 0 <= t < 64 ==> ((r & #[trigger] sq_bit(t)) != 0 <==> mask_member(kind, i as int, t)),
{
    let mut acc: u64 = 0;
    let mut t: u8 = 0;
    proof {
        assert forall|u: int| 0 <= u < 64 implies 0u64 & #[trigger] sq_bit(u) == 0 by {
            lemma_and_zero(sq_bit(u));
        }
    }
    while t < 64
        invariant
            i < 8,
            t <= 64,
            forall|u: int|
                0 <= u < t ==> ((acc & #[trigger] sq_bit(u)) != 0 <==> mask_member(
                    kind,
                    i as int,
                    u,
                )),
            forall|u: int| t <= u < 64 ==> acc & #[trigger] sq_bit(u) == 0,
        decreases 64 - t,
    {
        let rank = t / 8;
        let file = t % 8;
        let in_mask: bool = match kind {
            MaskKind::Rank => rank == i,
            MaskKind::File => file == i,
            MaskKind::AdjacentFile => file + 1 == i || file == i + 1,
            MaskKind::Edge => rank == 0 || rank == 7 || file == 0 || file == 7,
        };
        proof {
            assert(in_mask == mask_member(kind, i as int, t as int));
        }
        let ghost acc0 = acc;
        if in_mask {
            acc = acc | (1u64 << (t as u64));
        }
        proof {
            assert forall|u: int| 0 <= u < 64 implies ((acc & #[trigger] sq_bit(u)) != 0 <==> ((
            acc0 & sq_bit(u)) != 0 || (in_mask && u == t))) by {
                lemma_set_bit_effect(acc0, t as u64, u as u64);
            }
        }
        t = t + 1;
    }
    acc
}

/// Builds the geometry masks: each rank's squares, each file's squares, the
/// squares of the files adjacent to each file, and the board edge.
pub fn generate_constants() -> (r: BoardConstants)
    ensures
        r.rank_masks@.len() == 8,
        r.file_masks@.len() == 8,
        r.adjacent_file_masks@.len() == 8,
        forall|i: int, t: int|
            0 <= i < 8 && 0 <= t < 64 ==> ((#[trigger] (r.rank_masks@[i].0 & sq_bit(t))) != 0 <==> t
                / 8 == i),
        forall|i: int, t: int|
            0 <= i < 8 && 0 <= t < 64 ==> ((#[trigger] (r.file_masks@[i].0 & sq_bit(t))) != 0 <==> t
                % 8 == i),
        forall|i: int, t: int|
            0 <= i < 8 && 0 <= t < 64 ==> ((#[trigger] (r.adjacent_file_masks@[i].0 & sq_bit(t)))
                != 0 <==> (t % 8 == i - 1 || t % 8 == i + 1)),
        forall|t: int|
            0 <= t < 64 ==> ((r.edge_mask.0 & #[trigger] sq_bit(t)) != 0 <==> (t / 8 == 0 || t / 8
                == 7 || t % 8 == 0 || t % 8 == 7)),
{
    let mut rank_masks: Vec<BitBoard> = Vec::new();
    let mut file_masks: Vec<BitBoard> = Vec::new();
    let mut adjacent_file_masks: Vec<BitBoard> = Vec::new();
    let mut i: u8 = 0;
    while i < 8
        invariant
            i <= 8,
            rank_masks@.len() == i,
            file_masks@.len() == i,
            adjacent_file_masks@.len() == i,
            forall|k: int, t: int|
                0 <= k < i && 0 <= t < 64 ==> ((#[trigger] (rank_masks@[k].0 & sq_bit(t))) != 0
                    <==> t / 8 == k),
            forall|k: int, t: int|
                0 <= k < i && 0 <= t < 64 ==> ((#[trigger] (file_masks@[k].0 & sq_bit(t))) != 0
                    <==> t % 8 == k),
            forall|k: int, t: int|
                0 <= k < i && 0 <= t < 64 ==> ((#[trigger] (adjacent_file_masks@[k].0 & sq_bit(t)))
                    != 0 <==> (t % 8 == k - 1 || t % 8 == k + 1)),
        decreases 8 - i,
    {
        rank_masks.push(BitBoard(collect_mask(MaskKind::Rank, i)));
        file_masks.push(BitBoard(collect_mask(MaskKind::File, i)));
        adjacent_file_masks.push(BitBoard(collect_mask(MaskKind::AdjacentFile, i)));
        i = i + 1;
    }
    let edge_mask = BitBoard(collect_mask(MaskKind::Edge, 0));
    BoardConstants { rank_masks, file_masks, adjacent_file_masks, edge_mask }
}

} // verus!
