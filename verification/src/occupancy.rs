use vstd::prelude::*;

use crate::bitboard::BitBoard;
use crate::bits::{
    carry_next, lemma_and_self, lemma_and_zero, lemma_carry_next, lemma_carry_next_minimal,
    lemma_pop64_clear_lowest, lemma_submask_le, pop64, submask_of,
};
use vstd::arithmetic::power2::{lemma2_to64, lemma_pow2_unfold, pow2};
use vstd::relations::injective_on;
use vstd::set_lib::{lemma_map_size, lemma_set_disjoint_lens};

verus! {

/// One carry-rippler step: from the current subset of the mask to the next
/// one, via 64-bit wraparound subtraction of the mask followed by
/// re-masking. From the full mask the step returns to the empty subset.
pub fn next_occupancy(current: BitBoard, mask: BitBoard) -> (r: BitBoard)
    ensures
        r.0 == carry_next(current.0, mask.0),
{
    BitBoard(current.0.wrapping_sub(mask.0) & mask.0)
}

/// The carry-rippler cycle over the subsets of `mask` from the subset `cur`
/// on: every visited subset in visiting order, ending at the full mask.
pub open spec fn enumeration_from(mask: u64, cur: u64) -> Seq<u64>
    decreases mask - cur,
    when submask_of(cur, mask)
    via enumeration_from_decreases
{
    if cur == mask {
        seq![cur]
    } else {
        seq![cur] + enumeration_from(mask, carry_next(cur, mask))
    }
}

#[via_fn]
proof fn enumeration_from_decreases(mask: u64, cur: u64) {
    if submask_of(cur, mask) && cur != mask {
        lemma_carry_next(cur, mask);
        lemma_submask_le(carry_next(cur, mask), mask);
    }
}

/// The full carry-rippler enumeration of a mask, from the empty subset.
pub open spec fn enumeration(mask: u64) -> Seq<u64> {
    enumeration_from(mask, 0)
}

proof fn lemma_enumeration_from_exact(mask: u64, cur: u64)
    requires
        submask_of(cur, mask),
    ensures
        enumeration_from(mask, cur).len() >= 1,
        enumeration_from(mask, cur)[0] == cur,
        enumeration_from(mask, cur).last() == mask,
        forall|i: int|
            0 <= i < enumeration_from(mask, cur).len() ==> submask_of(
                #[trigger] enumeration_from(mask, cur)[i],
                mask,
            ) && cur <= enumeration_from(mask, cur)[i],
        forall|i: int, j: int|
            0 <= i < j < enumeration_from(mask, cur).len() ==> enumeration_from(mask, cur)[i]
                < enumeration_from(mask, cur)[j],
        forall|y: u64|
            #[trigger] submask_of(y, mask) && cur <= y ==> enumeration_from(mask, cur).contains(y),
    decreases mask - cur,
{
    let s = enumeration_from(mask, cur);
    if cur == mask {
        assert(s =~= seq![cur]);
        assert(s[0] == cur);
        assert forall|y: u64| #[trigger] submask_of(y, mask) && cur <= y implies s.contains(y) by {
            lemma_submask_le(y, mask);
            assert(y == cur);
            assert(s[0] == y);
        }
    } else {
        lemma_carry_next(cur, mask);
        let nxt = carry_next(cur, mask);
        lemma_submask_le(nxt, mask);
        lemma_enumeration_from_exact(mask, nxt);
        let tail = enumeration_from(mask, nxt);
        assert(s =~= seq![cur] + tail);
        assert(s[0] == cur);
        assert(forall|i: int| 0 <= i < tail.len() ==> s[i + 1] == #[trigger] tail[i]);
        assert(s.last() == tail.last());
        assert forall|i: int, j: int| 0 <= i < j < s.len() implies s[i] < s[j] by {
            if i == 0 {
                assert(s[j] == tail[j - 1]);
                assert(nxt <= tail[j - 1]);
            } else {
                assert(s[i] == tail[i - 1] && s[j] == tail[j - 1]);
            }
        }
        assert forall|y: u64| #[trigger] submask_of(y, mask) && cur <= y implies s.contains(y) by {
            if y == cur {
                assert(s[0] == y);
            } else {
                lemma_carry_next_minimal(cur, mask, y);
                assert(nxt <= y);
                assert(tail.contains(y));
                let k = choose|k: int| 0 <= k < tail.len() && tail[k] == y;
                assert(s[k + 1] == y);
            }
        }
    }
}

/// The set of all subsets of a mask.
pub open spec fn submasks_of(mask: u64) -> Set<u64> {
    Set::new(|y: u64| submask_of(y, mask))
}

/// A mask with k set bits has exactly 2^k subsets: clearing the lowest bit
/// splits them evenly into those without that bit and those with it.
pub proof fn lemma_submasks_count(mask: u64)
    ensures
        submasks_of(mask).finite(),
        submasks_of(mask).len() == pow2(pop64(mask)),
    decreases mask,
{
    if mask == 0 {
        assert forall|y: u64| #[trigger] submask_of(y, 0u64) implies y == 0 by {
            lemma_and_zero(y);
        }
        assert(submask_of(0u64, 0u64)) by {
            lemma_and_zero(0);
        }
        assert(submasks_of(0u64) =~= Set::empty().insert(0u64));
        assert(pow2(0) == 1) by {
            lemma2_to64();
        }
    } else {
        let m2 = mask & ((mask - 1) as u64);
        let b = mask ^ m2;
        assert(m2 < mask && m2 & m2 == m2 && b != 0 && b & m2 == 0) by (bit_vector)
            requires
                mask != 0,
                m2 == mask & ((mask - 1) as u64),
                b == mask ^ m2,
        ;
        lemma_submasks_count(m2);
        lemma_pop64_clear_lowest(mask);
        let low = submasks_of(m2);
        let f = |z: u64| z | b;
        let high = low.map(f);
        // Joining the lowest bit is injective on the subsets without it.
        assert forall|z1: u64, z2: u64|
            low.contains(z1) && low.contains(z2) && #[trigger] f(z1) == #[trigger] f(z2) implies z1
            == z2 by {
            assert(z1 & m2 == z1 && z2 & m2 == z2 && m2 == mask & ((mask - 1) as u64) && b == mask
                ^ m2 && mask != 0 && (z1 | b) == (z2 | b) ==> z1 == z2) by (bit_vector);
        }
        assert(injective_on(f, low));
        lemma_map_size(low, high, f);
        // The two halves are disjoint and together are all the subsets.
        assert forall|y: u64| #[trigger] submasks_of(mask).contains(y) implies (low + high).contains(
            y,
        ) by {
            if y & b == 0 {
                assert(y & mask == y && y & b == 0 && m2 == mask & ((mask - 1) as u64) && b == mask
                    ^ m2 ==> y & m2 == y) by (bit_vector);
                assert(low.contains(y));
            } else {
                let z = y & m2;
                assert(y & mask == y && y & b != 0 && m2 == mask & ((mask - 1) as u64) && b == mask
                    ^ m2 && z == y & m2 && mask != 0 ==> (z & m2 == z && (z | b) == y))
                    by (bit_vector);
                assert(low.contains(z) && f(z) == y);
                assert(high.contains(y));
            }
        }
        assert forall|y: u64| #[trigger] (low + high).contains(y) implies submasks_of(
            mask,
        ).contains(y) by {
            if low.contains(y) {
                assert(y & m2 == y && m2 == mask & ((mask - 1) as u64) ==> y & mask == y)
                    by (bit_vector);
            } else {
                let z = choose|z: u64| low.contains(z) && f(z) == y;
                assert(z & m2 == z && m2 == mask & ((mask - 1) as u64) && b == mask ^ m2 && mask
                    != 0 && y == (z | b) ==> y & mask == y) by (bit_vector);
            }
        }
        assert(submasks_of(mask) =~= low + high);
        assert(low.disjoint(high)) by {
            assert forall|y: u64| low.contains(y) && high.contains(y) implies false by {
                let z = choose|z: u64| low.contains(z) && f(z) == y;
                assert(y & m2 == y && z & m2 == z && y == (z | b) && b != 0 && b & m2 == 0 ==> false)
                    by (bit_vector);
            }
        }
        lemma_set_disjoint_lens(low, high);
        assert(pow2(pop64(mask)) == 2 * pow2((pop64(mask) - 1) as nat)) by {
            lemma_pow2_unfold(pop64(mask));
        }
    }
}

/// The enumeration from the empty subset visits exactly 2^k subsets, where
/// k is the number of set bits of the mask.
pub proof fn lemma_enumeration_count(mask: u64)
    ensures
        enumeration(mask).len() == pow2(pop64(mask)),
{
    lemma_enumeration_exact(mask);
    let e = enumeration(mask);
    e.unique_seq_to_set();
    assert(e.to_set() =~= submasks_of(mask));
    lemma_submasks_count(mask);
}

/// The load-bearing property of the occupancy enumerator: starting from the
/// empty subset, the carry-rippler visits exactly the subsets of the mask,
/// each one exactly once, in strictly increasing order; it ends at the full
/// mask, whose step returns to the empty subset and closes the cycle.
pub proof fn lemma_enumeration_exact(mask: u64)
    ensures
        enumeration(mask).len() >= 1,
        enumeration(mask)[0] == 0,
        enumeration(mask).last() == mask,
        carry_next(mask, mask) == 0,
        enumeration(mask).no_duplicates(),
        forall|y: u64| enumeration(mask).contains(y) <==> submask_of(y, mask),
        forall|i: int, j: int|
            0 <= i < j < enumeration(mask).len() ==> enumeration(mask)[i] < enumeration(mask)[j],
{
    lemma_and_zero(mask);
    lemma_enumeration_from_exact(mask, 0);
    lemma_and_self(mask);
    lemma_carry_next(mask, mask);
    let s = enumeration(mask);
    assert forall|i: int, j: int|
        0 <= i < s.len() && 0 <= j < s.len() && i != j implies s[i] != s[j] by {
        if i < j {
        } else {
        }
    }
    assert(s.no_duplicates());
    assert forall|y: u64| s.contains(y) implies submask_of(y, mask) by {
        let k = choose|k: int| 0 <= k < s.len() && s[k] == y;
    }
    assert forall|y: u64| submask_of(y, mask) implies s.contains(y) by {
    }
}

} // verus!
