use vstd::prelude::*;

use crate::bits::{
    lemma_and_is_submask, lemma_and_self, lemma_and_zero, lemma_masked_agree, lemma_nonzero_and,
    lemma_or_and_split, lemma_or_assoc, lemma_or_submask, lemma_or_zero, lemma_pop64_or_le,
    lemma_pop64_single, lemma_single_bit_nonzero, lemma_single_bits_distinct, lemma_submask_trans,
    pop64, submask_of,
};

verus! {

/// Whether (rank, file) is a real board coordinate.
pub open spec fn in_board(r: int, f: int) -> bool {
    0 <= r < 8 && 0 <= f < 8
}

/// The index of the square at the given rank and file.
pub open spec fn coord(r: int, f: int) -> int {
    r * 8 + f
}

/// The single-square board holding exactly square `s`.
pub open spec fn sq_bit(s: int) -> u64 {
    1u64 << (s as u64)
}

/// How many steps a walk in direction (dr, df) can take before the leading
/// coordinate leaves the board; every ray recursion shrinks this measure.
pub open spec fn dir_measure(r: int, f: int, dr: int, df: int) -> int {
    if dr > 0 {
        7 - r
    } else if dr < 0 {
        r
    } else if df > 0 {
        7 - f
    } else {
        f
    }
}

/// A legal ray direction: a unit step that actually moves.
pub open spec fn is_direction(dr: int, df: int) -> bool {
    -1 <= dr <= 1 && -1 <= df <= 1 && !(dr == 0 && df == 0)
}

/// The squares a sliding piece at (r, f) reaches along direction (dr, df):
/// every traversed square out to the board edge, stopping at — and
/// including — the first square present in `occ`.
pub open spec fn ray_attacks(r: int, f: int, dr: int, df: int, occ: u64) -> u64
    decreases dir_measure(r, f, dr, df),
{
    if dr == 0 && df == 0 {
        0u64
    } else {
        let r2 = r + dr;
        let f2 = f + df;
        if !in_board(r2, f2) {
            0u64
        } else if occ & sq_bit(coord(r2, f2)) != 0 {
            sq_bit(coord(r2, f2))
        } else {
            sq_bit(coord(r2, f2)) | ray_attacks(r2, f2, dr, df, occ)
        }
    }
}

/// The interior of a ray from (r, f) in direction (dr, df): the traversed
/// squares short of the one where the walk leaves the board. Occupancy on
/// the excluded edge square can never block further movement, so these are
/// the only squares whose occupancy matters along this ray.
pub open spec fn ray_inner(r: int, f: int, dr: int, df: int) -> u64
    decreases dir_measure(r, f, dr, df),
{
    if dr == 0 && df == 0 {
        0u64
    } else {
        let r2 = r + dr;
        let f2 = f + df;
        if !in_board(r2, f2) || !in_board(r2 + dr, f2 + df) {
            0u64
        } else {
            sq_bit(coord(r2, f2)) | ray_inner(r2, f2, dr, df)
        }
    }
}

/// The relevant-occupancy mask of a rook on square `s`.
pub open spec fn rook_mask(s: int) -> u64 {
    ray_inner(s / 8, s % 8, 1, 0) | ray_inner(s / 8, s % 8, -1, 0) | ray_inner(s / 8, s % 8, 0, 1)
        | ray_inner(s / 8, s % 8, 0, -1)
}

/// The true attack set of a rook on square `s` under occupancy `occ`.
pub open spec fn rook_attacks(s: int, occ: u64) -> u64 {
    ray_attacks(s / 8, s % 8, 1, 0, occ) | ray_attacks(s / 8, s % 8, -1, 0, occ) | ray_attacks(
        s / 8,
        s % 8,
        0,
        1,
        occ,
    ) | ray_attacks(s / 8, s % 8, 0, -1, occ)
}

/// The relevant-occupancy mask of a bishop on square `s`.
pub open spec fn bishop_mask(s: int) -> u64 {
    ray_inner(s / 8, s % 8, 1, 1) | ray_inner(s / 8, s % 8, -1, 1) | ray_inner(s / 8, s % 8, 1, -1)
        | ray_inner(s / 8, s % 8, -1, -1)
}

/// The true attack set of a bishop on square `s` under occupancy `occ`.
pub open spec fn bishop_attacks(s: int, occ: u64) -> u64 {
    ray_attacks(s / 8, s % 8, 1, 1, occ) | ray_attacks(s / 8, s % 8, -1, 1, occ) | ray_attacks(
        s / 8,
        s % 8,
        1,
        -1,
        occ,
    ) | ray_attacks(s / 8, s % 8, -1, -1, occ)
}

/// Walks one attack ray, collecting every traversed square and stopping at
/// the first blocker (included) or at the board edge.
pub(crate) fn walk_ray_attacks(r0: u8, f0: u8, dr: i8, df: i8, occ: u64) -> (a: u64)
    requires
        r0 < 8,
        f0 < 8,
        is_direction(dr as int, df as int),
    ensures
        a == ray_attacks(r0 as int, f0 as int, dr as int, df as int, occ),
{
    let mut acc: u64 = 0;
    let mut cr: i16 = r0 as i16;
    let mut cf: i16 = f0 as i16;
    proof {
        lemma_or_zero(ray_attacks(r0 as int, f0 as int, dr as int, df as int, occ));
    }
    loop
        invariant
            0 <= cr < 8,
            0 <= cf < 8,
            is_direction(dr as int, df as int),
            ray_attacks(r0 as int, f0 as int, dr as int, df as int, occ) == acc | ray_attacks(
                cr as int,
                cf as int,
                dr as int,
                df as int,
                occ,
            ),
        ensures
            acc == ray_attacks(r0 as int, f0 as int, dr as int, df as int, occ),
        decreases dir_measure(cr as int, cf as int, dr as int, df as int),
    {
        let ghost acc0 = acc;
        let nr = cr + dr as i16;
        let nf = cf + df as i16;
        if nr < 0 || nr > 7 || nf < 0 || nf > 7 {
            proof {
                assert(ray_attacks(cr as int, cf as int, dr as int, df as int, occ) == 0);
                lemma_or_zero(acc);
            }
            break ;
        }
        let s: u16 = (nr * 8 + nf) as u16;
        let b: u64 = 1u64 << (s as u64);
        proof {
            assert(b == sq_bit(coord(nr as int, nf as int)));
        }
        acc = acc | b;
        if occ & b != 0 {
            proof {
                assert(ray_attacks(cr as int, cf as int, dr as int, df as int, occ) == b);
                crate::bits::lemma_or_idemp(acc0, b);
            }
            break ;
        }
        proof {
            assert(ray_attacks(cr as int, cf as int, dr as int, df as int, occ) == b
                | ray_attacks(nr as int, nf as int, dr as int, df as int, occ));
            lemma_or_assoc(
                acc0,
                b,
                ray_attacks(nr as int, nf as int, dr as int, df as int, occ),
            );
        }
        cr = nr;
        cf = nf;
    }
    acc
}

/// Walks the interior of one ray, collecting every traversed square short
/// of the one where the walk would leave the board.
pub(crate) fn walk_ray_inner(r0: u8, f0: u8, dr: i8, df: i8) -> (a: u64)
    requires
        r0 < 8,
        f0 < 8,
        is_direction(dr as int, df as int),
    ensures
        a == ray_inner(r0 as int, f0 as int, dr as int, df as int),
{
    let mut acc: u64 = 0;
    let mut cr: i16 = r0 as i16;
    let mut cf: i16 = f0 as i16;
    proof {
        lemma_or_zero(ray_inner(r0 as int, f0 as int, dr as int, df as int));
    }
    loop
        invariant
            0 <= cr < 8,
            0 <= cf < 8,
            is_direction(dr as int, df as int),
            ray_inner(r0 as int, f0 as int, dr as int, df as int) == acc | ray_inner(
                cr as int,
                cf as int,
                dr as int,
                df as int,
            ),
        ensures
            acc == ray_inner(r0 as int, f0 as int, dr as int, df as int),
        decreases dir_measure(cr as int, cf as int, dr as int, df as int),
    {
        let ghost acc0 = acc;
        let nr = cr + dr as i16;
        let nf = cf + df as i16;
        let nnr = nr + dr as i16;
        let nnf = nf + df as i16;
        if nr < 0 || nr > 7 || nf < 0 || nf > 7 || nnr < 0 || nnr > 7 || nnf < 0 || nnf > 7 {
            proof {
                assert(ray_inner(cr as int, cf as int, dr as int, df as int) == 0);
                lemma_or_zero(acc);
            }
            break ;
        }
        let s: u16 = (nr * 8 + nf) as u16;
        let b: u64 = 1u64 << (s as u64);
        proof {
            assert(b == sq_bit(coord(nr as int, nf as int)));
            assert(ray_inner(cr as int, cf as int, dr as int, df as int) == b | ray_inner(
                nr as int,
                nf as int,
                dr as int,
                df as int,
            ));
            lemma_or_assoc(acc0, b, ray_inner(nr as int, nf as int, dr as int, df as int));
        }
        acc = acc | b;
        cr = nr;
        cf = nf;
    }
    acc
}

/// Square `t` lies strictly beyond (r, f) on the open ray in direction
/// (dr, df): rank and file sit on the direction's side of the origin, and
/// on a diagonal they move in step.
pub open spec fn on_open_ray(r: int, f: int, dr: int, df: int, t: int) -> bool {
    &&& (dr == 0 ==> t / 8 == r)
    &&& (dr > 0 ==> t / 8 > r)
    &&& (dr < 0 ==> t / 8 < r)
    &&& (df == 0 ==> t % 8 == f)
    &&& (df > 0 ==> t % 8 > f)
    &&& (df < 0 ==> t % 8 < f)
    &&& (dr == df ==> t / 8 - r == t % 8 - f)
    &&& (dr == 0 - df ==> t / 8 - r == 0 - (t % 8 - f))
}

/// Every square of a ray interior lies on the open ray, and one further
/// step from it would still stay on the board — in particular the origin
/// itself and the directional edge square are never members.
pub proof fn lemma_ray_inner_members(r: int, f: int, dr: int, df: int)
    requires
        in_board(r, f),
        is_direction(dr, df),
    ensures
        forall|t: int|
            0 <= t < 64 && #[trigger] (ray_inner(r, f, dr, df) & sq_bit(t)) != 0 ==> on_open_ray(
                r,
                f,
                dr,
                df,
                t,
            ) && in_board(t / 8 + dr, t % 8 + df),
    decreases dir_measure(r, f, dr, df),
{
    let inner = ray_inner(r, f, dr, df);
    let r2 = r + dr;
    let f2 = f + df;
    if !in_board(r2, f2) || !in_board(r2 + dr, f2 + df) {
        assert forall|t: int| 0 <= t < 64 && #[trigger] (inner & sq_bit(t)) != 0 implies false by {
            lemma_and_zero(sq_bit(t));
        }
    } else {
        let b = sq_bit(coord(r2, f2));
        let rest = ray_inner(r2, f2, dr, df);
        lemma_ray_inner_members(r2, f2, dr, df);
        assert forall|t: int|
            0 <= t < 64 && #[trigger] (inner & sq_bit(t)) != 0 implies on_open_ray(r, f, dr, df, t)
            && in_board(t / 8 + dr, t % 8 + df) by {
            lemma_or_and_split(b, rest, sq_bit(t));
            if b & sq_bit(t) != 0 {
                lemma_single_bits_distinct(coord(r2, f2) as u64, t as u64);
                assert(t == coord(r2, f2));
                assert(t / 8 == r2 && t % 8 == f2);
            } else {
                assert(rest & sq_bit(t) != 0);
            }
        }
    }
}

/// The converse: every square on the open ray whose next step would still
/// stay on the board is a member of the ray interior.
pub proof fn lemma_ray_inner_covers(r: int, f: int, dr: int, df: int)
    requires
        in_board(r, f),
        is_direction(dr, df),
    ensures
        forall|t: int|
            0 <= t < 64 && on_open_ray(r, f, dr, df, t) && in_board(t / 8 + dr, t % 8 + df)
                ==> (#[trigger] (ray_inner(r, f, dr, df) & sq_bit(t))) != 0,
    decreases dir_measure(r, f, dr, df),
{
    let inner = ray_inner(r, f, dr, df);
    let r2 = r + dr;
    let f2 = f + df;
    if !in_board(r2, f2) || !in_board(r2 + dr, f2 + df) {
        // The first ray square is off the board, or it is the ray's edge
        // square: nothing qualifies.
        assert forall|t: int|
            0 <= t < 64 && on_open_ray(r, f, dr, df, t) && in_board(t / 8 + dr, t % 8 + df)
                implies (#[trigger] (inner & sq_bit(t))) != 0 by {
            assert(t / 8 * 8 + t % 8 == t);
            assert(false);
        }
    } else {
        let b = sq_bit(coord(r2, f2));
        let rest = ray_inner(r2, f2, dr, df);
        lemma_ray_inner_covers(r2, f2, dr, df);
        assert forall|t: int|
            0 <= t < 64 && on_open_ray(r, f, dr, df, t) && in_board(t / 8 + dr, t % 8 + df)
                implies (#[trigger] (inner & sq_bit(t))) != 0 by {
            assert(t / 8 * 8 + t % 8 == t);
            lemma_or_and_split(b, rest, sq_bit(t));
            if t == coord(r2, f2) {
                lemma_single_bits_distinct(coord(r2, f2) as u64, t as u64);
            } else {
                assert(on_open_ray(r2, f2, dr, df, t));
                assert(rest & sq_bit(t) != 0);
            }
        }
    }
}

/// An attack ray depends on the occupancy only through the ray's interior
/// squares: two occupancies that agree there yield the same attack set.
pub proof fn lemma_ray_attacks_agree(r: int, f: int, dr: int, df: int, occ1: u64, occ2: u64)
    requires
        is_direction(dr, df),
        occ1 & ray_inner(r, f, dr, df) == occ2 & ray_inner(r, f, dr, df),
    ensures
        ray_attacks(r, f, dr, df, occ1) == ray_attacks(r, f, dr, df, occ2),
    decreases dir_measure(r, f, dr, df),
{
    let r2 = r + dr;
    let f2 = f + df;
    if !in_board(r2, f2) {
    } else if !in_board(r2 + dr, f2 + df) {
        // Terminal square of the ray: included whether blocked or not, and
        // the walk goes no further either way.
        let b = sq_bit(coord(r2, f2));
        assert(ray_attacks(r2, f2, dr, df, occ1) == 0);
        assert(ray_attacks(r2, f2, dr, df, occ2) == 0);
        lemma_or_zero(b);
    } else {
        let inner = ray_inner(r, f, dr, df);
        let b = sq_bit(coord(r2, f2));
        let rest = ray_inner(r2, f2, dr, df);
        assert(inner == b | rest);
        lemma_or_submask(b, rest);
        lemma_masked_agree(occ1, occ2, inner, b);
        assert(submask_of(rest, b | rest)) by {
            lemma_or_submask(b, rest);
        }
        lemma_masked_agree(occ1, occ2, inner, rest);
        lemma_ray_attacks_agree(r2, f2, dr, df, occ1, occ2);
    }
}

/// When the first step of a ray stays on the board, the attack set holds
/// that square, so it is not empty.
pub proof fn lemma_ray_attacks_first(r: int, f: int, dr: int, df: int, occ: u64)
    requires
        is_direction(dr, df),
        in_board(r + dr, f + df),
    ensures
        ray_attacks(r, f, dr, df, occ) & sq_bit(coord(r + dr, f + df)) != 0,
        ray_attacks(r, f, dr, df, occ) != 0,
    decreases dir_measure(r, f, dr, df),
{
    let r2 = r + dr;
    let f2 = f + df;
    let b = sq_bit(coord(r2, f2));
    lemma_single_bit_nonzero(coord(r2, f2) as u64);
    lemma_and_self(b);
    if occ & b != 0 {
        assert(ray_attacks(r, f, dr, df, occ) == b);
    } else {
        let rest = ray_attacks(r2, f2, dr, df, occ);
        assert(ray_attacks(r, f, dr, df, occ) == b | rest);
        lemma_or_and_split(b, rest, b);
    }
    lemma_nonzero_and(ray_attacks(r, f, dr, df, occ), b);
}

/// Each of the four parts of a union of four rays is a submask of the whole.
proof fn lemma_union4_submasks(a1: u64, a2: u64, a3: u64, a4: u64)
    ensures
        submask_of(a1, a1 | a2 | a3 | a4),
        submask_of(a2, a1 | a2 | a3 | a4),
        submask_of(a3, a1 | a2 | a3 | a4),
        submask_of(a4, a1 | a2 | a3 | a4),
{
    lemma_or_submask(a1, a2);
    lemma_or_submask(a1 | a2, a3);
    lemma_or_submask((a1 | a2) | a3, a4);
    lemma_submask_trans(a1, a1 | a2, (a1 | a2) | a3);
    lemma_submask_trans(a1, (a1 | a2) | a3, ((a1 | a2) | a3) | a4);
    lemma_submask_trans(a2, a1 | a2, (a1 | a2) | a3);
    lemma_submask_trans(a2, (a1 | a2) | a3, ((a1 | a2) | a3) | a4);
    lemma_submask_trans(a3, (a1 | a2) | a3, ((a1 | a2) | a3) | a4);
}

/// A union of four rays is not empty when one of them holds a bit.
proof fn lemma_union4_nonzero(a1: u64, a2: u64, a3: u64, a4: u64, b: u64)
    requires
        a1 & b != 0 || a2 & b != 0 || a3 & b != 0 || a4 & b != 0,
    ensures
        a1 | a2 | a3 | a4 != 0,
{
    lemma_or_and_split(a1, a2, b);
    lemma_or_and_split(a1 | a2, a3, b);
    lemma_or_and_split((a1 | a2) | a3, a4, b);
    lemma_nonzero_and(((a1 | a2) | a3) | a4, b);
}

/// A rook always attacks at least one square, whatever the occupancy: its
/// rank and file never both end at the origin.
pub proof fn lemma_rook_attacks_nonzero(s: int, occ: u64)
    requires
        0 <= s < 64,
    ensures
        rook_attacks(s, occ) != 0,
{
    let r = s / 8;
    let f = s % 8;
    let a1 = ray_attacks(r, f, 1, 0, occ);
    let a2 = ray_attacks(r, f, -1, 0, occ);
    let a3 = ray_attacks(r, f, 0, 1, occ);
    let a4 = ray_attacks(r, f, 0, -1, occ);
    if r < 7 {
        lemma_ray_attacks_first(r, f, 1, 0, occ);
        lemma_union4_nonzero(a1, a2, a3, a4, sq_bit(coord(r + 1, f)));
    } else {
        lemma_ray_attacks_first(r, f, -1, 0, occ);
        lemma_union4_nonzero(a1, a2, a3, a4, sq_bit(coord(r - 1, f)));
    }
}

/// A bishop always attacks at least one square, whatever the occupancy:
/// every board square has at least one diagonal neighbor.
pub proof fn lemma_bishop_attacks_nonzero(s: int, occ: u64)
    requires
        0 <= s < 64,
    ensures
        bishop_attacks(s, occ) != 0,
{
    let r = s / 8;
    let f = s % 8;
    let a1 = ray_attacks(r, f, 1, 1, occ);
    let a2 = ray_attacks(r, f, -1, 1, occ);
    let a3 = ray_attacks(r, f, 1, -1, occ);
    let a4 = ray_attacks(r, f, -1, -1, occ);
    if r < 7 {
        if f < 7 {
            lemma_ray_attacks_first(r, f, 1, 1, occ);
            lemma_union4_nonzero(a1, a2, a3, a4, sq_bit(coord(r + 1, f + 1)));
        } else {
            lemma_ray_attacks_first(r, f, 1, -1, occ);
            lemma_union4_nonzero(a1, a2, a3, a4, sq_bit(coord(r + 1, f - 1)));
        }
    } else {
        if f < 7 {
            lemma_ray_attacks_first(r, f, -1, 1, occ);
            lemma_union4_nonzero(a1, a2, a3, a4, sq_bit(coord(r - 1, f + 1)));
        } else {
            lemma_ray_attacks_first(r, f, -1, -1, occ);
            lemma_union4_nonzero(a1, a2, a3, a4, sq_bit(coord(r - 1, f - 1)));
        }
    }
}

/// When a ray can take two steps without leaving the board, its interior
/// holds the first stepped-on square, so it is not empty.
pub proof fn lemma_ray_inner_first(r: int, f: int, dr: int, df: int)
    requires
        is_direction(dr, df),
        in_board(r + dr, f + df),
        in_board(r + 2 * dr, f + 2 * df),
    ensures
        ray_inner(r, f, dr, df) & sq_bit(coord(r + dr, f + df)) != 0,
        ray_inner(r, f, dr, df) != 0,
{
    let r2 = r + dr;
    let f2 = f + df;
    let b = sq_bit(coord(r2, f2));
    lemma_single_bit_nonzero(coord(r2, f2) as u64);
    lemma_and_self(b);
    let rest = ray_inner(r2, f2, dr, df);
    assert(ray_inner(r, f, dr, df) == b | rest);
    lemma_or_and_split(b, rest, b);
    lemma_nonzero_and(ray_inner(r, f, dr, df), b);
}

/// A rook mask is never empty: whatever the square, its file has at least
/// one interior square above or below the origin.
pub proof fn lemma_rook_mask_nonzero(s: int)
    requires
        0 <= s < 64,
    ensures
        rook_mask(s) != 0,
{
    let r = s / 8;
    let f = s % 8;
    let i1 = ray_inner(r, f, 1, 0);
    let i2 = ray_inner(r, f, -1, 0);
    let i3 = ray_inner(r, f, 0, 1);
    let i4 = ray_inner(r, f, 0, -1);
    if r <= 5 {
        lemma_ray_inner_first(r, f, 1, 0);
        lemma_union4_nonzero(i1, i2, i3, i4, sq_bit(coord(r + 1, f)));
    } else {
        lemma_ray_inner_first(r, f, -1, 0);
        lemma_union4_nonzero(i1, i2, i3, i4, sq_bit(coord(r - 1, f)));
    }
}

/// A bishop mask is never empty: some diagonal of the square has at least
/// two steps of room, so its interior holds the first of them.
pub proof fn lemma_bishop_mask_nonzero(s: int)
    requires
        0 <= s < 64,
    ensures
        bishop_mask(s) != 0,
{
    let r = s / 8;
    let f = s % 8;
    let i1 = ray_inner(r, f, 1, 1);
    let i2 = ray_inner(r, f, -1, 1);
    let i3 = ray_inner(r, f, 1, -1);
    let i4 = ray_inner(r, f, -1, -1);
    if r <= 5 {
        if f <= 5 {
            lemma_ray_inner_first(r, f, 1, 1);
            lemma_union4_nonzero(i1, i2, i3, i4, sq_bit(coord(r + 1, f + 1)));
        } else {
            lemma_ray_inner_first(r, f, 1, -1);
            lemma_union4_nonzero(i1, i2, i3, i4, sq_bit(coord(r + 1, f - 1)));
        }
    } else {
        if f <= 5 {
            lemma_ray_inner_first(r, f, -1, 1);
            lemma_union4_nonzero(i1, i2, i3, i4, sq_bit(coord(r - 1, f + 1)));
        } else {
            lemma_ray_inner_first(r, f, -1, -1);
            lemma_union4_nonzero(i1, i2, i3, i4, sq_bit(coord(r - 1, f - 1)));
        }
    }
}

/// A rook's attack set depends only on the occupancy inside its mask:
/// blockers on the excluded edge squares change nothing.
pub proof fn lemma_rook_attacks_mask_only(s: int, occ: u64)
    requires
        0 <= s < 64,
    ensures
        rook_attacks(s, occ & rook_mask(s)) == rook_attacks(s, occ),
{
    let r = s / 8;
    let f = s % 8;
    let m = rook_mask(s);
    let i1 = ray_inner(r, f, 1, 0);
    let i2 = ray_inner(r, f, -1, 0);
    let i3 = ray_inner(r, f, 0, 1);
    let i4 = ray_inner(r, f, 0, -1);
    lemma_union4_submasks(i1, i2, i3, i4);
    lemma_and_is_submask(occ, m);
    lemma_masked_agree(occ, occ & m, m, i1);
    lemma_masked_agree(occ, occ & m, m, i2);
    lemma_masked_agree(occ, occ & m, m, i3);
    lemma_masked_agree(occ, occ & m, m, i4);
    lemma_ray_attacks_agree(r, f, 1, 0, occ, occ & m);
    lemma_ray_attacks_agree(r, f, -1, 0, occ, occ & m);
    lemma_ray_attacks_agree(r, f, 0, 1, occ, occ & m);
    lemma_ray_attacks_agree(r, f, 0, -1, occ, occ & m);
}

/// A bishop's attack set depends only on the occupancy inside its mask.
pub proof fn lemma_bishop_attacks_mask_only(s: int, occ: u64)
    requires
        0 <= s < 64,
    ensures
        bishop_attacks(s, occ & bishop_mask(s)) == bishop_attacks(s, occ),
{
    let r = s / 8;
    let f = s % 8;
    let m = bishop_mask(s);
    let i1 = ray_inner(r, f, 1, 1);
    let i2 = ray_inner(r, f, -1, 1);
    let i3 = ray_inner(r, f, 1, -1);
    let i4 = ray_inner(r, f, -1, -1);
    lemma_union4_submasks(i1, i2, i3, i4);
    lemma_and_is_submask(occ, m);
    lemma_masked_agree(occ, occ & m, m, i1);
    lemma_masked_agree(occ, occ & m, m, i2);
    lemma_masked_agree(occ, occ & m, m, i3);
    lemma_masked_agree(occ, occ & m, m, i4);
    lemma_ray_attacks_agree(r, f, 1, 1, occ, occ & m);
    lemma_ray_attacks_agree(r, f, -1, 1, occ, occ & m);
    lemma_ray_attacks_agree(r, f, 1, -1, occ, occ & m);
    lemma_ray_attacks_agree(r, f, -1, -1, occ, occ & m);
}

/// A union of four rays excludes a square that none of the rays holds.
proof fn lemma_union4_excludes(a1: u64, a2: u64, a3: u64, a4: u64, b: u64)
    requires
        a1 & b == 0,
        a2 & b == 0,
        a3 & b == 0,
        a4 & b == 0,
    ensures
        (a1 | a2 | a3 | a4) & b == 0,
{
    lemma_or_and_split(a1, a2, b);
    lemma_or_and_split(a1 | a2, a3, b);
    lemma_or_and_split((a1 | a2) | a3, a4, b);
}

/// The rook mask excludes the origin square, and it excludes the edge
/// squares along its rays: the two ends of the origin's file and the two
/// ends of the origin's rank.
pub proof fn lemma_rook_mask_excludes(s: int)
    requires
        0 <= s < 64,
    ensures
        rook_mask(s) & sq_bit(s) == 0,
        forall|t: int|
            0 <= t < 64 && t % 8 == s % 8 && (t / 8 == 0 || t / 8 == 7) ==> rook_mask(s) & (
            #[trigger] sq_bit(t)) == 0,
        forall|t: int|
            0 <= t < 64 && t / 8 == s / 8 && (t % 8 == 0 || t % 8 == 7) ==> rook_mask(s) & (
            #[trigger] sq_bit(t)) == 0,
{
    let r = s / 8;
    let f = s % 8;
    let i1 = ray_inner(r, f, 1, 0);
    let i2 = ray_inner(r, f, -1, 0);
    let i3 = ray_inner(r, f, 0, 1);
    let i4 = ray_inner(r, f, 0, -1);
    lemma_ray_inner_members(r, f, 1, 0);
    lemma_ray_inner_members(r, f, -1, 0);
    lemma_ray_inner_members(r, f, 0, 1);
    lemma_ray_inner_members(r, f, 0, -1);
    assert forall|t: int|
        0 <= t < 64 && (t == s || (t % 8 == s % 8 && (t / 8 == 0 || t / 8 == 7)) || (t / 8 == s / 8
            && (t % 8 == 0 || t % 8 == 7))) implies rook_mask(s) & (#[trigger] sq_bit(t)) == 0 by {
        assert(t / 8 * 8 + t % 8 == t);
        assert(i1 & sq_bit(t) == 0 && i2 & sq_bit(t) == 0 && i3 & sq_bit(t) == 0 && i4 & sq_bit(t)
            == 0);
        lemma_union4_excludes(i1, i2, i3, i4, sq_bit(t));
    }
    assert(s / 8 * 8 + s % 8 == s);
    assert(rook_mask(s) & sq_bit(s) == 0);
}

/// The bishop mask excludes the origin square and every board-edge square:
/// a diagonal's edge square is exactly where one of its coordinates hits
/// the border.
pub proof fn lemma_bishop_mask_excludes(s: int)
    requires
        0 <= s < 64,
    ensures
        bishop_mask(s) & sq_bit(s) == 0,
        forall|t: int|
            0 <= t < 64 && (t / 8 == 0 || t / 8 == 7 || t % 8 == 0 || t % 8 == 7) ==> bishop_mask(s)
                & (#[trigger] sq_bit(t)) == 0,
{
    let r = s / 8;
    let f = s % 8;
    let i1 = ray_inner(r, f, 1, 1);
    let i2 = ray_inner(r, f, -1, 1);
    let i3 = ray_inner(r, f, 1, -1);
    let i4 = ray_inner(r, f, -1, -1);
    lemma_ray_inner_members(r, f, 1, 1);
    lemma_ray_inner_members(r, f, -1, 1);
    lemma_ray_inner_members(r, f, 1, -1);
    lemma_ray_inner_members(r, f, -1, -1);
    assert forall|t: int|
        0 <= t < 64 && (t == s || t / 8 == 0 || t / 8 == 7 || t % 8 == 0 || t % 8 == 7) implies bishop_mask(
        s,
    ) & (#[trigger] sq_bit(t)) == 0 by {
        assert(t / 8 * 8 + t % 8 == t);
        assert(i1 & sq_bit(t) == 0 && i2 & sq_bit(t) == 0 && i3 & sq_bit(t) == 0 && i4 & sq_bit(t)
            == 0);
        lemma_union4_excludes(i1, i2, i3, i4, sq_bit(t));
    }
    assert(s / 8 * 8 + s % 8 == s);
    assert(bishop_mask(s) & sq_bit(s) == 0);
}

/// A bit of a union of four rays lies in one of the four rays.
proof fn lemma_union4_bit(a1: u64, a2: u64, a3: u64, a4: u64, b: u64)
    ensures
        ((a1 | a2 | a3 | a4) & b != 0) <==> (a1 & b != 0 || a2 & b != 0 || a3 & b != 0 || a4 & b
            != 0),
{
    lemma_or_and_split(a1, a2, b);
    lemma_or_and_split(a1 | a2, a3, b);
    lemma_or_and_split((a1 | a2) | a3, a4, b);
}

/// The rook mask holds exactly the squares that share the origin's rank or
/// file, differ from the origin, and are interior for their ray: the
/// origin's rank short of files a and h, and the origin's file short of
/// ranks one and eight.
pub proof fn lemma_rook_mask_characterization(s: int)
    requires
        0 <= s < 64,
    ensures
        forall|t: int|
            0 <= t < 64 ==> ((#[trigger] (rook_mask(s) & sq_bit(t))) != 0 <==> ((t / 8 == s / 8
                && t != s && 1 <= t % 8 <= 6) || (t % 8 == s % 8 && t != s && 1 <= t / 8 <= 6))),
{
    let r = s / 8;
    let f = s % 8;
    let i1 = ray_inner(r, f, 1, 0);
    let i2 = ray_inner(r, f, -1, 0);
    let i3 = ray_inner(r, f, 0, 1);
    let i4 = ray_inner(r, f, 0, -1);
    lemma_ray_inner_members(r, f, 1, 0);
    lemma_ray_inner_members(r, f, -1, 0);
    lemma_ray_inner_members(r, f, 0, 1);
    lemma_ray_inner_members(r, f, 0, -1);
    lemma_ray_inner_covers(r, f, 1, 0);
    lemma_ray_inner_covers(r, f, -1, 0);
    lemma_ray_inner_covers(r, f, 0, 1);
    lemma_ray_inner_covers(r, f, 0, -1);
    assert(r * 8 + f == s);
    assert forall|t: int|
        0 <= t < 64 implies ((#[trigger] (rook_mask(s) & sq_bit(t))) != 0 <==> ((t / 8 == s / 8
        && t != s && 1 <= t % 8 <= 6) || (t % 8 == s % 8 && t != s && 1 <= t / 8 <= 6))) by {
        assert(t / 8 * 8 + t % 8 == t);
        lemma_union4_bit(i1, i2, i3, i4, sq_bit(t));
        if (t / 8 == s / 8 && t != s && 1 <= t % 8 <= 6) || (t % 8 == s % 8 && t != s && 1 <= t / 8
            <= 6) {
            if t / 8 == r && t % 8 > f {
                assert(i3 & sq_bit(t) != 0);
            } else if t / 8 == r && t % 8 < f {
                assert(i4 & sq_bit(t) != 0);
            } else if t % 8 == f && t / 8 > r {
                assert(i1 & sq_bit(t) != 0);
            } else {
                assert(i2 & sq_bit(t) != 0);
            }
        }
    }
}

/// The bishop mask holds exactly the squares that share a diagonal with the
/// origin, differ from it, and stand clear of every board edge.
pub proof fn lemma_bishop_mask_characterization(s: int)
    requires
        0 <= s < 64,
    ensures
        forall|t: int|
            0 <= t < 64 ==> ((#[trigger] (bishop_mask(s) & sq_bit(t))) != 0 <==> ((t / 8 - s / 8
                == t % 8 - s % 8 || t / 8 - s / 8 == 0 - (t % 8 - s % 8)) && t != s && 1 <= t / 8
                <= 6 && 1 <= t % 8 <= 6)),
{
    let r = s / 8;
    let f = s % 8;
    let i1 = ray_inner(r, f, 1, 1);
    let i2 = ray_inner(r, f, -1, 1);
    let i3 = ray_inner(r, f, 1, -1);
    let i4 = ray_inner(r, f, -1, -1);
    lemma_ray_inner_members(r, f, 1, 1);
    lemma_ray_inner_members(r, f, -1, 1);
    lemma_ray_inner_members(r, f, 1, -1);
    lemma_ray_inner_members(r, f, -1, -1);
    lemma_ray_inner_covers(r, f, 1, 1);
    lemma_ray_inner_covers(r, f, -1, 1);
    lemma_ray_inner_covers(r, f, 1, -1);
    lemma_ray_inner_covers(r, f, -1, -1);
    assert(r * 8 + f == s);
    assert forall|t: int|
        0 <= t < 64 implies ((#[trigger] (bishop_mask(s) & sq_bit(t))) != 0 <==> ((t / 8 - s / 8
        == t % 8 - s % 8 || t / 8 - s / 8 == 0 - (t % 8 - s % 8)) && t != s && 1 <= t / 8 <= 6 && 1
        <= t % 8 <= 6)) by {
        assert(t / 8 * 8 + t % 8 == t);
        lemma_union4_bit(i1, i2, i3, i4, sq_bit(t));
        if (t / 8 - r == t % 8 - f || t / 8 - r == 0 - (t % 8 - f)) && t != s && 1 <= t / 8 <= 6
            && 1 <= t % 8 <= 6 {
            if t / 8 > r && t % 8 > f {
                assert(i1 & sq_bit(t) != 0);
            } else if t / 8 < r && t % 8 > f {
                assert(i2 & sq_bit(t) != 0);
            } else if t / 8 > r && t % 8 < f {
                assert(i3 & sq_bit(t) != 0);
            } else {
                assert(i4 & sq_bit(t) != 0);
            }
        }
    }
}

/// A rook mask never holds more than 24 squares.
pub proof fn lemma_rook_mask_pop(s: int)
    requires
        0 <= s < 64,
    ensures
        pop64(rook_mask(s)) <= 24,
{
    let r = s / 8;
    let f = s % 8;
    let i1 = ray_inner(r, f, 1, 0);
    let i2 = ray_inner(r, f, -1, 0);
    let i3 = ray_inner(r, f, 0, 1);
    let i4 = ray_inner(r, f, 0, -1);
    lemma_ray_inner_pop(r, f, 1, 0);
    lemma_ray_inner_pop(r, f, -1, 0);
    lemma_ray_inner_pop(r, f, 0, 1);
    lemma_ray_inner_pop(r, f, 0, -1);
    lemma_pop64_or_le(i1, i2);
    lemma_pop64_or_le(i1 | i2, i3);
    lemma_pop64_or_le((i1 | i2) | i3, i4);
}

/// A bishop mask never holds more than 24 squares.
pub proof fn lemma_bishop_mask_pop(s: int)
    requires
        0 <= s < 64,
    ensures
        pop64(bishop_mask(s)) <= 24,
{
    let r = s / 8;
    let f = s % 8;
    let i1 = ray_inner(r, f, 1, 1);
    let i2 = ray_inner(r, f, -1, 1);
    let i3 = ray_inner(r, f, 1, -1);
    let i4 = ray_inner(r, f, -1, -1);
    lemma_ray_inner_pop(r, f, 1, 1);
    lemma_ray_inner_pop(r, f, -1, 1);
    lemma_ray_inner_pop(r, f, 1, -1);
    lemma_ray_inner_pop(r, f, -1, -1);
    lemma_pop64_or_le(i1, i2);
    lemma_pop64_or_le(i1 | i2, i3);
    lemma_pop64_or_le((i1 | i2) | i3, i4);
}

/// A ray interior holds fewer squares than the walk has steps: at most six.
pub proof fn lemma_ray_inner_pop(r: int, f: int, dr: int, df: int)
    requires
        in_board(r, f),
        is_direction(dr, df),
    ensures
        ray_inner(r, f, dr, df) == 0 || pop64(ray_inner(r, f, dr, df)) + 1 <= dir_measure(
            r,
            f,
            dr,
            df,
        ),
        pop64(ray_inner(r, f, dr, df)) <= 6,
    decreases dir_measure(r, f, dr, df),
{
    let r2 = r + dr;
    let f2 = f + df;
    if !in_board(r2, f2) || !in_board(r2 + dr, f2 + df) {
    } else {
        let b = sq_bit(coord(r2, f2));
        let rest = ray_inner(r2, f2, dr, df);
        lemma_ray_inner_pop(r2, f2, dr, df);
        lemma_pop64_or_le(b, rest);
        lemma_pop64_single(coord(r2, f2) as u64);
    }
}

} // verus!
