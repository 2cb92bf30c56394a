use vstd::prelude::*;

use crate::bitboard::BitBoard;
use crate::bits::{
    carry_next, lemma_and_is_submask, lemma_and_zero, lemma_carry_next, lemma_carry_next_minimal,
    lemma_pop64_zero, lemma_shifted_index_fits, lemma_submask_le, pop64, submask_of,
};
use crate::magic::{magic_index_spec, Magic, MagicEntry};
use crate::piece::Piece;
use crate::rays::{
    bishop_attacks, bishop_mask, lemma_bishop_attacks_mask_only, lemma_bishop_attacks_nonzero,
    lemma_bishop_mask_nonzero, lemma_bishop_mask_pop, lemma_rook_attacks_mask_only,
    lemma_rook_attacks_nonzero, lemma_rook_mask_nonzero, lemma_rook_mask_pop, rook_attacks,
    rook_mask,
};
use crate::square::Square;

verus! {

/// How many candidate magics are drawn for one square before the search
/// reports failure instead of spinning forever.
pub const RETRY_BUDGET: u32 = 1000000;

/// The sliding piece kinds: the only ones a magic table is built for.
pub open spec fn is_sliding(p: Piece) -> bool {
    p == Piece::Rook || p == Piece::Bishop
}

/// The true attack set of a sliding piece on square `s` under occupancy `occ`.
pub open spec fn sliding_attacks(p: Piece, s: int, occ: u64) -> u64 {
    if p == Piece::Rook {
        rook_attacks(s, occ)
    } else {
        bishop_attacks(s, occ)
    }
}

/// The relevant-occupancy mask of a sliding piece on square `s`.
pub open spec fn sliding_mask(p: Piece, s: int) -> u64 {
    if p == Piece::Rook {
        rook_mask(s)
    } else {
        bishop_mask(s)
    }
}

/// Two relevant occupancies whose attack sets differ are hashed to the same
/// index: the one collision that invalidates a candidate magic.
pub open spec fn destructive_collision(p: Piece, s: int, mask: u64, magic: u64, shift: u64) -> bool {
    exists|o1: u64, o2: u64|
        #![trigger magic_index_spec(mask, magic, shift, o1), magic_index_spec(mask, magic, shift, o2)]
        submask_of(o1, mask) && submask_of(o2, mask) && magic_index_spec(mask, magic, shift, o1)
            == magic_index_spec(mask, magic, shift, o2) && sliding_attacks(p, s, o1)
            != sliding_attacks(p, s, o2)
}

/// Why a magic search gave up on a square.
#[derive(Clone, Copy, Debug, PartialEq, Eq, Structural)]
pub enum MagicSearchError {
    /// The relevant-occupancy mask has no bits: the square's configuration
    /// is broken, and a one-entry table would hide that.
    DegenerateMask,
    /// No candidate within the retry budget built a collision-free table.
    RetriesExhausted,
}

/// Relies on rand::random::<u64>: draws one 64-bit value from the thread's
/// generator. Nothing is promised of the value; callers are correct for
/// every outcome.
#[verifier::external_body]
fn generate_random_u64() -> u64 {
    rand::random()
}

/// A candidate magic: the AND of three random draws, biased toward few set
/// bits, which empirically hashes better. Any value is a legal candidate.
fn generate_magic_number() -> u64 {
    generate_random_u64() & generate_random_u64() & generate_random_u64()
}

/// A magic index always fits the table the shift allows for.
proof fn lemma_index_in_range(magic: Magic, y: u64)
    requires
        33 <= magic.shift < 64,
    ensures
        magic_index_spec(magic.mask.0, magic.magic, magic.shift as u64, y) < (1u64 << ((64
            - magic.shift) as u64)),
{
    lemma_shifted_index_fits(
        vstd::wrapping::u64_specs::wrapping_mul(y & magic.mask.0, magic.magic),
        magic.shift as u64,
        (64 - magic.shift) as u64,
    );
}

/// Tries to build the full per-square attack table for one candidate magic:
/// enumerates every subset of the mask by the carry-rippler, ray-casts its
/// true attack set, and stores it at the hashed index. Succeeds exactly
/// when the candidate produces no destructive collision, and then the table
/// answers every relevant occupancy correctly.
pub fn try_make_table(piece: Piece, square: Square, magic: Magic) -> (r: Result<Vec<BitBoard>, ()>)
    requires
        is_sliding(piece),
        33 <= magic.shift < 64,
    ensures
        r matches Ok(table) ==> table@.len() == (1u64 << ((64 - magic.shift) as u64)) && (forall|
            occ: u64,
        |
            #[trigger] submask_of(occ, magic.mask.0) ==> table@[magic_index_spec(
                magic.mask.0,
                magic.magic,
                magic.shift as u64,
                occ,
            ) as int].0 == sliding_attacks(piece, square@ as int, occ)),
        r is Err <==> destructive_collision(
            piece,
            square@ as int,
            magic.mask.0,
            magic.magic,
            magic.shift as u64,
        ),
{
    let sq_index = square.to_index();
    let ghost gs = sq_index as int;
    let index_bits: u8 = 64 - magic.shift;
    let table_len_u64: u64 = 1u64 << (index_bits as u64);
    proof {
        let k = index_bits as u64;
        assert(1 <= k <= 31 ==> (1u64 << k) <= 0x8000_0000) by (bit_vector);
    }
    let table_len: usize = table_len_u64 as usize;

    let mut table: Vec<BitBoard> = Vec::new();
    let mut i: usize = 0;
    while i < table_len
        invariant
            i <= table_len,
            table@.len() == i,
            forall|j: int| 0 <= j < i ==> table@[j].0 == 0,
        decreases table_len - i,
    {
        table.push(BitBoard(0));
        i = i + 1;
    }

    let mut blockers: u64 = 0;
    let ghost mut setter: Map<int, u64> = Map::empty();
    proof {
        lemma_and_zero(magic.mask.0);
    }
    loop
        invariant
            is_sliding(piece),
            33 <= magic.shift < 64,
            gs == square@ as int,
            0 <= gs < 64,
            table@.len() == (1u64 << ((64 - magic.shift) as u64)),
            submask_of(blockers, magic.mask.0),
            forall|y: u64|
                #[trigger] submask_of(y, magic.mask.0) && y < blockers ==> table@[magic_index_spec(
                    magic.mask.0,
                    magic.magic,
                    magic.shift as u64,
                    y,
                ) as int].0 == sliding_attacks(piece, gs, y),
            forall|j: int|
                0 <= j < table@.len() && #[trigger] table@[j].0 != 0 ==> setter.dom().contains(j)
                    && submask_of(setter[j], magic.mask.0) && setter[j] <= blockers
                    && magic_index_spec(magic.mask.0, magic.magic, magic.shift as u64, setter[j])
                    == j && sliding_attacks(piece, gs, setter[j]) == table@[j].0,
        ensures
            table@.len() == (1u64 << ((64 - magic.shift) as u64)),
            forall|y: u64|
                #[trigger] submask_of(y, magic.mask.0) ==> table@[magic_index_spec(
                    magic.mask.0,
                    magic.magic,
                    magic.shift as u64,
                    y,
                ) as int].0 == sliding_attacks(piece, gs, y),
        decreases u64::MAX - blockers,
    {
        let ghost told = table@;
        let moves: BitBoard = match piece {
            Piece::Rook => crate::attacks::generate_rook_attack(square, BitBoard(blockers)),
            Piece::Bishop => crate::attacks::generate_bishop_attacks_on_the_fly(
                square,
                BitBoard(blockers),
            ),
            _ => {
                // Dead arm: only sliding pieces are admitted.
                proof {
                    assert(false);
                }
                BitBoard(0)
            },
        };
        proof {
            assert(moves.0 == sliding_attacks(piece, gs, blockers));
        }
        let idx: usize = magic.get_magic_index(BitBoard(blockers));
        proof {
            lemma_shifted_index_fits(
                vstd::wrapping::u64_specs::wrapping_mul(blockers & magic.mask.0, magic.magic),
                magic.shift as u64,
                (64 - magic.shift) as u64,
            );
            assert(idx < table@.len());
        }
        let entry = table[idx];
        if entry.0 == 0 {
            proof {
                // No earlier subset hashed here: its stored attack set would
                // not be empty.
                assert forall|y: u64|
                    #[trigger] submask_of(y, magic.mask.0) && y < blockers implies magic_index_spec(
                    magic.mask.0,
                    magic.magic,
                    magic.shift as u64,
                    y,
                ) != idx by {
                    if magic_index_spec(magic.mask.0, magic.magic, magic.shift as u64, y) == idx {
                        if piece == Piece::Rook {
                            lemma_rook_attacks_nonzero(gs, y);
                        } else {
                            lemma_bishop_attacks_nonzero(gs, y);
                        }
                    }
                }
            }
            table[idx] = moves;
            proof {
                assert(table@ == told.update(idx as int, moves));
                setter = setter.insert(idx as int, blockers);
            }
        } else if entry.0 != moves.0 {
            proof {
                let y = setter[idx as int];
                assert(submask_of(y, magic.mask.0) && submask_of(blockers, magic.mask.0)
                    && magic_index_spec(magic.mask.0, magic.magic, magic.shift as u64, y)
                    == magic_index_spec(magic.mask.0, magic.magic, magic.shift as u64, blockers)
                    && sliding_attacks(piece, gs, y) != sliding_attacks(piece, gs, blockers));
            }
            return Err(());
        }
        proof {
            // After this iteration the table answers every subset up to and
            // including the one just processed.
            assert(table@[magic_index_spec(
                magic.mask.0,
                magic.magic,
                magic.shift as u64,
                blockers,
            ) as int].0 == sliding_attacks(piece, gs, blockers));
            assert forall|y: u64|
                #[trigger] submask_of(y, magic.mask.0) && y <= blockers implies table@[
            magic_index_spec(magic.mask.0, magic.magic, magic.shift as u64, y) as int].0
                == sliding_attacks(piece, gs, y) by {
                if y < blockers {
                    lemma_index_in_range(magic, y);
                }
            }
        }
        let ghost bprev = blockers;
        let next = blockers.wrapping_sub(magic.mask.0) & magic.mask.0;
        proof {
            assert(next == carry_next(bprev, magic.mask.0));
            lemma_carry_next(bprev, magic.mask.0);
        }
        if next == 0 {
            proof {
                assert(bprev == magic.mask.0);
                assert forall|y: u64| #[trigger] submask_of(y, magic.mask.0) implies table@[
                magic_index_spec(magic.mask.0, magic.magic, magic.shift as u64, y) as int].0
                    == sliding_attacks(piece, gs, y) by {
                    lemma_submask_le(y, magic.mask.0);
                }
            }
            break ;
        }
        proof {
            assert(next > bprev);
            assert forall|y: u64|
                #[trigger] submask_of(y, magic.mask.0) && y < next implies y <= bprev by {
                if y > bprev {
                    lemma_carry_next_minimal(bprev, magic.mask.0, y);
                }
            }
        }
        blockers = next;
    }
    proof {
        // A collision-free build rules out any destructive pair: both halves
        // of such a pair would read back the same stored attack set.
        if destructive_collision(piece, gs, magic.mask.0, magic.magic, magic.shift as u64) {
            let (o1, o2) = choose|o1: u64, o2: u64|
                #![trigger magic_index_spec(magic.mask.0, magic.magic, magic.shift as u64, o1), magic_index_spec(magic.mask.0, magic.magic, magic.shift as u64, o2)]
                submask_of(o1, magic.mask.0) && submask_of(o2, magic.mask.0) && magic_index_spec(
                    magic.mask.0,
                    magic.magic,
                    magic.shift as u64,
                    o1,
                ) == magic_index_spec(magic.mask.0, magic.magic, magic.shift as u64, o2)
                    && sliding_attacks(piece, gs, o1) != sliding_attacks(piece, gs, o2);
            lemma_index_in_range(magic, o1);
            lemma_index_in_range(magic, o2);
            assert(table@[magic_index_spec(magic.mask.0, magic.magic, magic.shift as u64, o1) as int].0
                == sliding_attacks(piece, gs, o1));
            assert(table@[magic_index_spec(magic.mask.0, magic.magic, magic.shift as u64, o2) as int].0
                == sliding_attacks(piece, gs, o2));
            assert(false);
        }
    }
    Ok(table)
}

/// Tries to build a rook square's table for one candidate magic.
pub fn try_make_rook_table(square: Square, magic_entry: &Magic) -> (r: Result<Vec<BitBoard>, ()>)
    requires
        33 <= magic_entry.shift < 64,
    ensures
        r matches Ok(table) ==> table@.len() == (1u64 << ((64 - magic_entry.shift) as u64)) && (
        forall|occ: u64|
            #[trigger] submask_of(occ, magic_entry.mask.0) ==> table@[magic_index_spec(
                magic_entry.mask.0,
                magic_entry.magic,
                magic_entry.shift as u64,
                occ,
            ) as int].0 == rook_attacks(square@ as int, occ)),
        r is Err <==> destructive_collision(
            Piece::Rook,
            square@ as int,
            magic_entry.mask.0,
            magic_entry.magic,
            magic_entry.shift as u64,
        ),
{
    try_make_table(Piece::Rook, square, *magic_entry)
}

/// Tries to build a bishop square's table for one candidate magic.
pub fn try_make_bishop_table(square: Square, magic_entry: &Magic) -> (r: Result<Vec<BitBoard>, ()>)
    requires
        33 <= magic_entry.shift < 64,
    ensures
        r matches Ok(table) ==> table@.len() == (1u64 << ((64 - magic_entry.shift) as u64)) && (
        forall|occ: u64|
            #[trigger] submask_of(occ, magic_entry.mask.0) ==> table@[magic_index_spec(
                magic_entry.mask.0,
                magic_entry.magic,
                magic_entry.shift as u64,
                occ,
            ) as int].0 == bishop_attacks(square@ as int, occ)),
        r is Err <==> destructive_collision(
            Piece::Bishop,
            square@ as int,
            magic_entry.mask.0,
            magic_entry.magic,
            magic_entry.shift as u64,
        ),
{
    try_make_table(Piece::Bishop, square, *magic_entry)
}

/// What a successful magic search hands back for one square: the magic's
/// parameters are tied to the mask, and the returned table answers every
/// relevant occupancy with the true attack set.
pub open spec fn search_ok(
    piece: Piece,
    s: int,
    mask: u64,
    magic: Magic,
    table: Seq<BitBoard>,
) -> bool {
    &&& magic.mask.0 == mask
    &&& magic.shift == 64 - pop64(mask)
    &&& 33 <= magic.shift < 64
    &&& table.len() == (1u64 << ((64 - magic.shift) as u64))
    &&& forall|occ: u64|
        #[trigger] submask_of(occ, mask) ==> table[magic_index_spec(
            mask,
            magic.magic,
            magic.shift as u64,
            occ,
        ) as int].0 == sliding_attacks(piece, s, occ)
    &&& !destructive_collision(piece, s, mask, magic.magic, magic.shift as u64)
}

/// Searches for a collision-free magic for one square: draws candidates by
/// three ANDed random words and attempts a full table build for each, until
/// one succeeds or the retry budget is spent.
fn search_magic(piece: Piece, square: Square, mask: BitBoard) -> (r: Result<
    (Magic, Vec<BitBoard>),
    MagicSearchError,
>)
    requires
        is_sliding(piece),
        pop64(mask.0) <= 31,
    ensures
        mask.0 == 0 <==> (r matches Err(e) && e == MagicSearchError::DegenerateMask),
        r matches Ok(p) ==> search_ok(piece, square@ as int, mask.0, p.0, p.1@),
{
    let count = mask.count_bits();
    proof {
        lemma_pop64_zero(mask.0);
    }
    if count == 0 {
        return Err(MagicSearchError::DegenerateMask);
    }
    let shift: u8 = (64 - count) as u8;
    let mut attempt: u32 = 0;
    while attempt < RETRY_BUDGET
        invariant
            is_sliding(piece),
            mask.0 != 0,
            pop64(mask.0) <= 31,
            shift == 64 - pop64(mask.0),
            33 <= shift < 64,
        decreases RETRY_BUDGET - attempt,
    {
        let candidate = generate_magic_number();
        let magic = Magic { mask, magic: candidate, shift };
        match try_make_table(piece, square, magic) {
            Ok(table) => {
                return Ok((magic, table));
            },
            Err(()) => {},
        }
        attempt = attempt + 1;
    }
    Err(MagicSearchError::RetriesExhausted)
}

/// The rook's relevant-occupancy mask, as the magic generator derives it.
pub fn generate_magic_rook_mask(square: Square) -> (r: BitBoard)
    ensures
        r.0 == rook_mask(square@ as int),
{
    crate::attacks::generate_rook_mask(square)
}

/// The bishop's relevant-occupancy mask, as the magic generator derives it.
pub fn generate_magic_bishop_mask(square: Square) -> (r: BitBoard)
    ensures
        r.0 == bishop_mask(square@ as int),
{
    crate::attacks::generate_bishop_mask(square)
}

/// Searches a magic for a rook square over a caller-supplied mask.
pub fn generate_rook_magic(square: Square, mask: BitBoard) -> (r: Result<
    (Magic, Vec<BitBoard>),
    MagicSearchError,
>)
    requires
        pop64(mask.0) <= 31,
    ensures
        mask.0 == 0 <==> (r matches Err(e) && e == MagicSearchError::DegenerateMask),
        r matches Ok(p) ==> search_ok(Piece::Rook, square@ as int, mask.0, p.0, p.1@),
{
    search_magic(Piece::Rook, square, mask)
}

/// Searches a magic for a bishop square over a caller-supplied mask.
pub fn generate_bishop_magic(square: Square, mask: BitBoard) -> (r: Result<
    (Magic, Vec<BitBoard>),
    MagicSearchError,
>)
    requires
        pop64(mask.0) <= 31,
    ensures
        mask.0 == 0 <==> (r matches Err(e) && e == MagicSearchError::DegenerateMask),
        r matches Ok(p) ==> search_ok(Piece::Bishop, square@ as int, mask.0, p.0, p.1@),
{
    search_magic(Piece::Bishop, square, mask)
}

/// Derives the proper mask for a sliding piece's square and searches a
/// magic for it.
pub fn generate_magic(piece: Piece, square: Square) -> (r: Result<
    (Magic, Vec<BitBoard>),
    MagicSearchError,
>)
    requires
        is_sliding(piece),
    ensures
        r matches Ok(p) ==> search_ok(
            piece,
            square@ as int,
            sliding_mask(piece, square@ as int),
            p.0,
            p.1@,
        ),
        r matches Err(e) ==> e == MagicSearchError::RetriesExhausted,
{
    let _sq_index = square.to_index();
    let mask = match piece {
        Piece::Rook => generate_magic_rook_mask(square),
        Piece::Bishop => generate_magic_bishop_mask(square),
        _ => {
            // Dead arm: only sliding pieces are admitted.
            proof {
                assert(false);
            }
            BitBoard(0)
        },
    };
    proof {
        if piece == Piece::Rook {
            lemma_rook_mask_pop(square@ as int);
            lemma_rook_mask_nonzero(square@ as int);
        } else {
            lemma_bishop_mask_pop(square@ as int);
            lemma_bishop_mask_nonzero(square@ as int);
        }
        // The derived mask is never empty, so a degenerate-mask report
        // cannot arise here.
        assert(mask.0 != 0);
    }
    search_magic(piece, square, mask)
}

/// The finished artifact for one piece kind: one magic entry per square and
/// the shared flat attack table that all entries point into.
pub struct AttackTableSet {
    pub entries: Vec<MagicEntry>,
    pub table: Vec<BitBoard>,
}

/// One finished entry is correct for its square: its parameters are tied to
/// the square's mask, its sub-table lies inside the flat table, and every
/// relevant occupancy reads back its true attack set.
pub open spec fn entry_wf(e: MagicEntry, table: Seq<BitBoard>, piece: Piece, s: int) -> bool {
    &&& e.mask.0 == sliding_mask(piece, s)
    &&& 33 <= e.shift < 64
    &&& e.shift == 64 - pop64(e.mask.0)
    &&& e.offset + (1u64 << ((64 - e.shift) as u64)) <= table.len()
    &&& forall|occ: u64|
        #[trigger] submask_of(occ, e.mask.0) ==> table[e.offset + magic_index_spec(
            e.mask.0,
            e.magic,
            e.shift as u64,
            occ,
        )].0 == sliding_attacks(piece, s, occ)
}

/// A finished table set is correct for every square, and the per-square
/// sub-tables tile the flat table in square order, without gaps, from its
/// start to its end.
pub open spec fn table_set_wf(t: AttackTableSet, piece: Piece) -> bool {
    &&& t.entries@.len() == 64
    &&& forall|s: int| 0 <= s < 64 ==> entry_wf(#[trigger] t.entries@[s], t.table@, piece, s)
    &&& t.entries@[0].offset == 0
    &&& forall|s: int|
        0 <= s < 63 ==> (#[trigger] t.entries@[s + 1].offset) == t.entries@[s].offset + (1u64 << ((
        64 - t.entries@[s].shift) as u64))
    &&& t.table@.len() == t.entries@[63].offset + (1u64 << ((64 - t.entries@[63].shift) as u64))
}

/// Builds the finished table set for one sliding piece kind: for each of
/// the 64 squares, searches a magic, then appends the accepted sub-table to
/// the shared flat table and records its offset. Each square's search is
/// independent and bounded by the retry budget; the build stops at the
/// first square whose budget runs out, handing back nothing partial.
fn build_table_set(piece: Piece) -> (r: Result<AttackTableSet, MagicSearchError>)
    requires
        is_sliding(piece),
    ensures
        r matches Ok(t) ==> table_set_wf(t, piece),
        r matches Err(e) ==> e == MagicSearchError::RetriesExhausted,
{
    let mut entries: Vec<MagicEntry> = Vec::new();
    let mut table: Vec<BitBoard> = Vec::new();
    let mut sq: u8 = 0;
    while sq < 64
        invariant
            is_sliding(piece),
            sq <= 64,
            entries@.len() == sq,
            forall|s: int| 0 <= s < sq ==> entry_wf(#[trigger] entries@[s], table@, piece, s),
            sq > 0 ==> entries@[0].offset == 0,
            forall|s: int|
                0 <= s && s + 1 < sq ==> (#[trigger] entries@[s + 1].offset) == entries@[s].offset
                    + (1u64 << ((64 - entries@[s].shift) as u64)),
            table@.len() == if sq == 0 {
                0int
            } else {
                entries@[sq - 1].offset + (1u64 << ((64 - entries@[sq - 1].shift) as u64))
            },
        decreases 64 - sq,
    {
        let ghost entries0 = entries@;
        let ghost table0 = table@;
        proof {
            crate::bits::lemma_low6(sq);
        }
        let square = Square::new(sq);
        let ghost gs = square@ as int;
        match generate_magic(piece, square) {
            Ok((magic, mut sub)) => {
                let offset = table.len();
                let entry = MagicEntry {
                    mask: magic.mask,
                    magic: magic.magic,
                    shift: magic.shift,
                    offset,
                };
                entries.push(entry);
                table.append(&mut sub);
                proof {
                    // The new entry is correct: its sub-table sits at the end
                    // of the flat table, and indexes stay inside it.
                    assert(entry_wf(entry, table@, piece, gs)) by {
                        assert forall|occ: u64| #[trigger] submask_of(occ, entry.mask.0) implies table@[
                        entry.offset + magic_index_spec(
                            entry.mask.0,
                            entry.magic,
                            entry.shift as u64,
                            occ,
                        )].0 == sliding_attacks(piece, gs, occ) by {
                            lemma_index_in_range(magic, occ);
                        }
                    }
                    // The earlier entries are untouched: their sub-tables lie
                    // inside the unchanged prefix.
                    assert forall|s: int| 0 <= s < sq implies entry_wf(
                        #[trigger] entries@[s],
                        table@,
                        piece,
                        s,
                    ) by {
                        let e = entries0[s];
                        assert(entries@[s] == e);
                        assert(entry_wf(e, table0, piece, s));
                        assert forall|occ: u64| #[trigger] submask_of(occ, e.mask.0) implies table@[e.offset
                            + magic_index_spec(e.mask.0, e.magic, e.shift as u64, occ)].0
                            == sliding_attacks(piece, s, occ) by {
                            let em = Magic { mask: e.mask, magic: e.magic, shift: e.shift };
                            lemma_index_in_range(em, occ);
                            assert(table@[e.offset + magic_index_spec(
                                e.mask.0,
                                e.magic,
                                e.shift as u64,
                                occ,
                            )] == table0[e.offset + magic_index_spec(
                                e.mask.0,
                                e.magic,
                                e.shift as u64,
                                occ,
                            )]);
                        }
                    }
                }
                proof {
                    // The new offset extends the tiling of the flat table.
                    assert forall|s: int| 0 <= s && s + 1 < sq as int + 1 implies (#[trigger] entries@[s
                        + 1].offset) == entries@[s].offset + (1u64 << ((64 - entries@[s].shift)
                        as u64)) by {
                        assert(entries0.len() == sq as int);
                        assert(entries@ == entries0.push(entry));
                        assert(entries@[s + 1] == entries0.push(entry)[s + 1]);
                        assert(entries@[s] == entries0.push(entry)[s]);
                        assert(entries@[s] == entries0[s]);
                        if s + 1 < sq as int {
                            assert(entries@[s + 1] == entries0[s + 1]);
                            assert(entries0[s + 1].offset == entries0[s].offset + (1u64 << ((64
                                - entries0[s].shift) as u64)));
                        } else {
                            assert(entries@[s + 1] == entry);
                        }
                    }
                }
            },
            Err(e) => {
                return Err(e);
            },
        }
        sq = sq + 1;
    }
    Ok(AttackTableSet { entries, table })
}

impl AttackTableSet {
    /// Reads a square's attack set for an arbitrary occupancy from the
    /// compiled table; it always equals the direct ray-cast.
    pub fn lookup(&self, piece: Piece, square: Square, occupancy: BitBoard) -> (r: BitBoard)
        requires
            table_set_wf(*self, piece),
        ensures
            r.0 == sliding_attacks(piece, square@ as int, occupancy.0),
    {
        let sq_index = square.to_index();
        let entry = self.entries[sq_index];
        let idx = crate::magic::get_magic_index(&entry, occupancy);
        let _table_len = self.table.len();
        let ghost gs = square@ as int;
        proof {
            assert(entry_wf(self.entries@[gs], self.table@, piece, gs));
            let em = Magic { mask: entry.mask, magic: entry.magic, shift: entry.shift };
            lemma_index_in_range(em, occupancy.0);
            assert(entry.offset + idx < self.table@.len());
            lemma_and_is_submask(occupancy.0, entry.mask.0);
            let reduced = occupancy.0 & entry.mask.0;
            // The reduced occupancy indexes the same slot, and dropping the
            // squares outside the mask cannot change the attack set.
            assert(magic_index_spec(entry.mask.0, entry.magic, entry.shift as u64, reduced)
                == magic_index_spec(entry.mask.0, entry.magic, entry.shift as u64, occupancy.0));
            if piece == Piece::Rook {
                lemma_rook_attacks_mask_only(gs, occupancy.0);
            } else {
                lemma_bishop_attacks_mask_only(gs, occupancy.0);
            }
        }
        self.table[entry.offset + idx]
    }
}

/// An accepted magic admits only constructive collisions: when two relevant
/// occupancies of a finished entry hash to the same index, their true
/// attack sets agree.
pub proof fn lemma_accepted_magic_collision_safe(
    e: MagicEntry,
    table: Seq<BitBoard>,
    piece: Piece,
    s: int,
    o1: u64,
    o2: u64,
)
    requires
        entry_wf(e, table, piece, s),
        submask_of(o1, e.mask.0),
        submask_of(o2, e.mask.0),
        magic_index_spec(e.mask.0, e.magic, e.shift as u64, o1) == magic_index_spec(
            e.mask.0,
            e.magic,
            e.shift as u64,
            o2,
        ),
    ensures
        sliding_attacks(piece, s, o1) == sliding_attacks(piece, s, o2),
{
    let em = Magic { mask: e.mask, magic: e.magic, shift: e.shift };
    lemma_index_in_range(em, o1);
    lemma_index_in_range(em, o2);
    assert(table[e.offset + magic_index_spec(e.mask.0, e.magic, e.shift as u64, o1)].0
        == sliding_attacks(piece, s, o1));
    assert(table[e.offset + magic_index_spec(e.mask.0, e.magic, e.shift as u64, o2)].0
        == sliding_attacks(piece, s, o2));
}

/// Round trip: for any square and any occupancy, the compiled flat table at
/// `offset + index(occ & mask)` holds exactly what the direct ray-cast
/// computes — the defining correctness property of the whole artifact.
pub proof fn lemma_table_round_trip(t: AttackTableSet, piece: Piece, sq: int, occ: u64)
    requires
        table_set_wf(t, piece),
        0 <= sq < 64,
    ensures
        ({
            let e = t.entries@[sq];
            let i = e.offset + magic_index_spec(e.mask.0, e.magic, e.shift as u64, occ & e.mask.0);
            0 <= i < t.table@.len() && t.table@[i].0 == sliding_attacks(piece, sq, occ)
        }),
{
    let e = t.entries@[sq];
    assert(entry_wf(e, t.table@, piece, sq));
    let em = Magic { mask: e.mask, magic: e.magic, shift: e.shift };
    lemma_index_in_range(em, occ & e.mask.0);
    lemma_and_is_submask(occ, e.mask.0);
    if piece == Piece::Rook {
        lemma_rook_attacks_mask_only(sq, occ);
    } else {
        lemma_bishop_attacks_mask_only(sq, occ);
    }
}

/// Builds the rook tables for all 64 squares.
pub fn generate_rook_magics() -> (r: Result<AttackTableSet, MagicSearchError>)
    ensures
        r matches Ok(t) ==> table_set_wf(t, Piece::Rook),
        r matches Err(e) ==> e == MagicSearchError::RetriesExhausted,
{
    build_table_set(Piece::Rook)
}

/// Builds the bishop tables for all 64 squares.
pub fn generate_bishop_magics() -> (r: Result<AttackTableSet, MagicSearchError>)
    ensures
        r matches Ok(t) ==> table_set_wf(t, Piece::Bishop),
        r matches Err(e) ==> e == MagicSearchError::RetriesExhausted,
{
    build_table_set(Piece::Bishop)
}

/// Builds the full artifact: the rook tables and the bishop tables.
pub fn generate_magics() -> (r: Result<(AttackTableSet, AttackTableSet), MagicSearchError>)
    ensures
        r matches Ok(t) ==> table_set_wf(t.0, Piece::Rook) && table_set_wf(t.1, Piece::Bishop),
        r matches Err(e) ==> e == MagicSearchError::RetriesExhausted,
{
    let rook = match generate_rook_magics() {
        Ok(t) => t,
        Err(e) => {
            return Err(e);
        },
    };
    let bishop = match generate_bishop_magics() {
        Ok(t) => t,
        Err(e) => {
            return Err(e);
        },
    };
    Ok((rook, bishop))
}

} // verus!
