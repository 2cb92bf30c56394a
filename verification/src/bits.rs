use vstd::arithmetic::power2::{lemma2_to64, lemma2_to64_rest, lemma_pow2_unfold, pow2};
use vstd::prelude::*;

verus! {

/// The number of set bits of a 64-bit word.
pub open spec fn pop64(x: u64) -> nat
    decreases x,
{
    if x == 0 {
        0
    } else {
        ((x % 2) + pop64((x / 2) as u64)) as nat
    }
}

/// `x` holds no bit outside `m`.
pub open spec fn submask_of(x: u64, m: u64) -> bool {
    x & m == x
}

/// The subset of `m` that follows `x` in the carry-rippler enumeration:
/// wraparound subtraction of the mask, re-masked.
pub open spec fn carry_next(x: u64, m: u64) -> u64 {
    vstd::wrapping::u64_specs::wrapping_sub(x, m) & m
}

/// A word has at most as many set bits as its bit width allows: `pop64` of a
/// word below `2^n` is at most `n`.
pub proof fn lemma_pop64_bound(x: u64, n: nat)
    requires
        x < pow2(n),
    ensures
        pop64(x) <= n,
    decreases n,
{
    if x == 0 {
    } else {
        if n == 0 {
            assert(pow2(0) == 1) by {
                lemma2_to64();
            }
        } else {
            assert(pow2(n) == 2 * pow2((n - 1) as nat)) by {
                lemma_pow2_unfold(n);
            }
            lemma_pop64_bound((x / 2) as u64, (n - 1) as nat);
        }
    }
}

/// No word has more than 64 set bits.
pub proof fn lemma_pop64_le_64(x: u64)
    ensures
        pop64(x) <= 64,
{
    assert(pow2(64) == 0x1_0000_0000_0000_0000) by {
        lemma2_to64_rest();
    }
    lemma_pop64_bound(x, 64);
}

/// Only the zero word has no set bits.
pub proof fn lemma_pop64_zero(x: u64)
    ensures
        pop64(x) == 0 <==> x == 0,
    decreases x,
{
    if x != 0 {
        if x % 2 == 0 {
            lemma_pop64_zero((x / 2) as u64);
        }
    }
}

/// A submask is numerically no larger than its mask.
pub proof fn lemma_submask_le(x: u64, m: u64)
    requires
        submask_of(x, m),
    ensures
        x <= m,
{
    assert(x & m == x ==> x <= m) by (bit_vector);
}

/// Intersecting with a mask yields a submask of it.
pub proof fn lemma_and_is_submask(x: u64, m: u64)
    ensures
        submask_of(x & m, m),
{
    assert((x & m) & m == (x & m)) by (bit_vector);
}

/// One carry-rippler step: from a proper submask it yields a strictly larger
/// submask; from the full mask it yields zero.
pub proof fn lemma_carry_next(x: u64, m: u64)
    requires
        submask_of(x, m),
    ensures
        submask_of(carry_next(x, m), m),
        x == m ==> carry_next(x, m) == 0,
        x != m ==> carry_next(x, m) > x,
{
    let w = vstd::wrapping::u64_specs::wrapping_sub(x, m);
    if x == m {
        assert(w == 0);
        assert(0u64 & m == 0) by (bit_vector);
    } else {
        lemma_submask_le(x, m);
        assert(w == x - m + 0x1_0000_0000_0000_0000);
        assert((w & m) & m == (w & m) && (w & m) > x) by (bit_vector)
            requires
                x & m == x,
                x < m,
                w == x - m + 0x1_0000_0000_0000_0000,
        ;
    }
}

/// No submask of `m` lies strictly between a submask and its carry-rippler
/// successor: the step is minimal.
pub proof fn lemma_carry_next_minimal(x: u64, m: u64, y: u64)
    requires
        submask_of(x, m),
        submask_of(y, m),
        x != m,
        y > x,
    ensures
        y >= carry_next(x, m),
{
    let w = vstd::wrapping::u64_specs::wrapping_sub(x, m);
    lemma_submask_le(x, m);
    assert(w == x - m + 0x1_0000_0000_0000_0000);
    assert(y >= (w & m)) by (bit_vector)
        requires
            x & m == x,
            y & m == y,
            x < m,
            y > x,
            w == x - m + 0x1_0000_0000_0000_0000,
    ;
}

/// A hash shifted right by `s` fits a table of `2^k` slots when `s + k == 64`.
pub proof fn lemma_shifted_index_fits(h: u64, s: u64, k: u64)
    requires
        s + k == 64,
        1 <= s,
    ensures
        (h >> s) < (1u64 << k),
{
    assert((h >> s) < (1u64 << k)) by (bit_vector)
        requires
            s + k == 64,
            1 <= s,
    ;
}

/// Keeping the low six bits of a byte stays below 64, and leaves a value
/// already below 64 unchanged.
pub proof fn lemma_low6(x: u8)
    ensures
        (x & 63) < 64,
        x < 64 ==> (x & 63) == x,
{
    assert((x & 63) < 64 && (x < 64 ==> (x & 63) == x)) by (bit_vector);
}

/// A square index below 64 splits into its rank (the high three bits) and
/// its file (the low three bits).
pub proof fn lemma_rank_file_split(s: u8)
    requires
        s < 64,
    ensures
        (s >> 3) == s / 8,
        s / 8 < 8,
        (s & 7) == s % 8,
        s % 8 < 8,
{
    assert(s < 64 ==> (s >> 3) == s / 8 && s / 8 < 8 && (s & 7) == s % 8 && s % 8 < 8)
        by (bit_vector);
}

pub proof fn lemma_or_zero(x: u64)
    ensures
        x | 0 == x,
        0 | x == x,
{
    assert(x | 0 == x && 0 | x == x) by (bit_vector);
}

pub proof fn lemma_and_zero(x: u64)
    ensures
        x & 0 == 0,
        0 & x == 0,
{
    assert(x & 0 == 0 && 0 & x == 0) by (bit_vector);
}

/// A bit is present in a union exactly when it is present in one of the parts.
pub proof fn lemma_or_and_split(a: u64, b: u64, c: u64)
    ensures
        ((a | b) & c != 0) <==> (a & c != 0 || b & c != 0),
{
    assert(((a | b) & c != 0) <==> (a & c != 0 || b & c != 0)) by (bit_vector);
}

pub proof fn lemma_single_bit_nonzero(s: u64)
    requires
        s < 64,
    ensures
        (1u64 << s) != 0,
{
    assert(s < 64 ==> (1u64 << s) != 0) by (bit_vector);
}

/// Two single-bit boards overlap exactly when they name the same bit.
pub proof fn lemma_single_bits_distinct(s: u64, t: u64)
    requires
        s < 64,
        t < 64,
    ensures
        ((1u64 << s) & (1u64 << t) != 0) <==> s == t,
{
    assert(s < 64 && t < 64 ==> (((1u64 << s) & (1u64 << t) != 0) <==> s == t)) by (bit_vector);
}

/// Setting one bit leaves every other bit as it was and sets that one.
pub proof fn lemma_set_bit_effect(acc: u64, j: u64, u: u64)
    requires
        j < 64,
        u < 64,
    ensures
        ((acc | (1u64 << j)) & (1u64 << u) != 0) <==> ((acc & (1u64 << u)) != 0 || u == j),
{
    lemma_or_and_split(acc, 1u64 << j, 1u64 << u);
    lemma_single_bits_distinct(j, u);
    lemma_single_bit_nonzero(j);
    lemma_and_self(1u64 << j);
}

/// Two words that agree inside a mask agree inside every submask of it.
pub proof fn lemma_masked_agree(a: u64, b: u64, m: u64, i: u64)
    requires
        a & m == b & m,
        i & m == i,
    ensures
        a & i == b & i,
{
    assert(a & m == b & m && i & m == i ==> a & i == b & i) by (bit_vector);
}

pub proof fn lemma_or_submask(x: u64, y: u64)
    ensures
        submask_of(x, x | y),
        submask_of(y, x | y),
{
    assert(x & (x | y) == x && y & (x | y) == y) by (bit_vector);
}

pub proof fn lemma_or_comm(x: u64, y: u64)
    ensures
        x | y == y | x,
{
    assert(x | y == y | x) by (bit_vector);
}

/// Folding a new bit into either side of a union reaches the same set.
pub proof fn lemma_or_shuffle(a: u64, b: u64, c: u64)
    ensures
        (a | b) | c == (a | c) | b,
{
    assert((a | b) | c == (a | c) | b) by (bit_vector);
}

pub proof fn lemma_or_assoc(x: u64, y: u64, z: u64)
    ensures
        (x | y) | z == x | (y | z),
{
    assert((x | y) | z == x | (y | z)) by (bit_vector);
}

pub proof fn lemma_or_idemp(x: u64, y: u64)
    ensures
        (x | y) | y == x | y,
{
    assert((x | y) | y == x | y) by (bit_vector);
}

pub proof fn lemma_and_self(x: u64)
    ensures
        x & x == x,
{
    assert(x & x == x) by (bit_vector);
}

pub proof fn lemma_submask_trans(a: u64, b: u64, c: u64)
    requires
        submask_of(a, b),
        submask_of(b, c),
    ensures
        submask_of(a, c),
{
    assert(a & b == a && b & c == b ==> a & c == a) by (bit_vector);
}

pub proof fn lemma_nonzero_and(a: u64, b: u64)
    ensures
        a & b != 0 ==> a != 0 && b != 0,
{
    assert(a & b != 0 ==> a != 0 && b != 0) by (bit_vector);
}

/// A single-bit board holds exactly one bit.
pub proof fn lemma_pop64_single(s: u64)
    requires
        s < 64,
    ensures
        pop64(1u64 << s) == 1,
    decreases s,
{
    if s == 0 {
        assert(1u64 << 0u64 == 1) by (bit_vector);
        assert(pop64(0u64) == 0);
        assert(pop64(1u64) == (1u64 % 2) + pop64((1u64 / 2) as u64));
    } else {
        let x = 1u64 << s;
        assert(x % 2 == 0 && ((x / 2) as u64) == (1u64 << ((s - 1) as u64)) && x != 0)
            by (bit_vector)
            requires
                1 <= s < 64,
                x == 1u64 << s,
        ;
        assert(pop64(x) == (x % 2) + pop64((x / 2) as u64));
        lemma_pop64_single((s - 1) as u64);
        assert(pop64((x / 2) as u64) == 1);
    }
}

/// Clearing the lowest set bit of a non-zero word removes exactly one bit.
pub proof fn lemma_pop64_clear_lowest(x: u64)
    requires
        x != 0,
    ensures
        pop64(x) >= 1,
        pop64(x & ((x - 1) as u64)) == pop64(x) - 1,
    decreases x,
{
    let m2 = x & ((x - 1) as u64);
    assert(pop64(x) == (x % 2) + pop64((x / 2) as u64));
    if x % 2 == 1 {
        assert(m2 == ((x - 1) as u64) && m2 % 2 == 0 && ((m2 / 2) as u64) == ((x / 2) as u64))
            by (bit_vector)
            requires
                x % 2 == 1,
                m2 == x & ((x - 1) as u64),
        ;
        if m2 == 0 {
            assert(x == 1) by (bit_vector)
                requires
                    x % 2 == 1,
                    0u64 == ((x - 1) as u64),
            ;
        } else {
            assert(pop64(m2) == (m2 % 2) + pop64((m2 / 2) as u64));
        }
    } else {
        let h = (x / 2) as u64;
        assert(h != 0 && m2 % 2 == 0 && ((m2 / 2) as u64) == (h & ((h - 1) as u64)))
            by (bit_vector)
            requires
                x != 0,
                x % 2 == 0,
                m2 == x & ((x - 1) as u64),
                h == (x / 2) as u64,
        ;
        lemma_pop64_clear_lowest(h);
        if m2 == 0 {
            assert(pop64((m2 / 2) as u64) == 0);
        } else {
            assert(pop64(m2) == (m2 % 2) + pop64((m2 / 2) as u64));
        }
    }
}

/// A union holds at most as many bits as its parts together.
pub proof fn lemma_pop64_or_le(a: u64, b: u64)
    ensures
        pop64(a | b) <= pop64(a) + pop64(b),
    decreases a,
{
    if a == 0 {
        lemma_or_zero(b);
    } else {
        assert((((a | b) / 2) as u64) == (((a / 2) as u64) | ((b / 2) as u64)) && (a | b) % 2 <= a
            % 2 + b % 2 && a / 2 < a && (a | b) != 0) by (bit_vector)
            requires
                a != 0,
        ;
        lemma_pop64_or_le((a / 2) as u64, (b / 2) as u64);
    }
}

/// Counts the set bits of a word.
pub fn popcount(x: u64) -> (r: u32)
    ensures
        r == pop64(x),
{
    let mut v: u64 = x;
    let mut c: u32 = 0;
    proof {
        lemma_pop64_le_64(x);
    }
    while v != 0
        invariant
            c + pop64(v) == pop64(x),
            pop64(x) <= 64,
        decreases v,
    {
        proof {
            assert(v != 0 ==> (v & 1) == v % 2 && (v & 1) <= 1 && (v >> 1u64) == v / 2)
                by (bit_vector);
            lemma_pop64_zero(v);
        }
        c = c + (v & 1) as u32;
        v = v >> 1u64;
    }
    c
}

} // verus!
