use vstd::prelude::*;

verus! {

/// The position of the first `sep` byte, or the length when none occurs.
pub open spec fn first_sep(s: Seq<u8>, sep: u8) -> int
    decreases s.len(),
{
    if s.len() == 0 {
        0
    } else if s[0] == sep {
        0
    } else {
        1 + first_sep(s.drop_first(), sep)
    }
}

pub proof fn lemma_first_sep(s: Seq<u8>, sep: u8)
    ensures
        0 <= first_sep(s, sep) <= s.len(),
        first_sep(s, sep) < s.len() ==> s[first_sep(s, sep)] == sep,
        forall|k: int| 0 <= k < first_sep(s, sep) ==> s[k] != sep,
    decreases s.len(),
{
    if s.len() == 0 {
    } else if s[0] == sep {
    } else {
        lemma_first_sep(s.drop_first(), sep);
        assert forall|k: int| 0 <= k < first_sep(s, sep) implies s[k] != sep by {
            if k > 0 {
                assert(s.drop_first()[k - 1] == s[k]);
            }
        }
    }
}

/// The fields of a record split on a separator byte: one more field than
/// there are separators, in order, each without the separator.
pub open spec fn split_on(s: Seq<u8>, sep: u8) -> Seq<Seq<u8>>
    decreases s.len(),
    via split_on_decreases
{
    let i = first_sep(s, sep);
    if i == s.len() {
        seq![s]
    } else {
        seq![s.take(i)] + split_on(s.skip(i + 1), sep)
    }
}

#[via_fn]
proof fn split_on_decreases(s: Seq<u8>, sep: u8) {
    lemma_first_sep(s, sep);
}

pub proof fn lemma_split_on_len(s: Seq<u8>, sep: u8)
    ensures
        split_on(s, sep).len() >= 1,
    decreases s.len(),
{
    lemma_first_sep(s, sep);
    let i = first_sep(s, sep);
    if i != s.len() {
        lemma_split_on_len(s.skip(i + 1), sep);
    }
}

/// How one leading byte relates a record's fields to its tail's fields: a
/// separator opens a fresh empty field, any other byte extends the first
/// field.
pub proof fn lemma_split_on_step(s: Seq<u8>, sep: u8)
    requires
        s.len() > 0,
    ensures
        split_on(s.drop_first(), sep).len() >= 1,
        s[0] == sep ==> split_on(s, sep) == seq![Seq::<u8>::empty()] + split_on(
            s.drop_first(),
            sep,
        ),
        s[0] != sep ==> split_on(s, sep) == seq![
            seq![s[0]] + split_on(s.drop_first(), sep)[0],
        ] + split_on(s.drop_first(), sep).drop_first(),
{
    let t = s.drop_first();
    lemma_split_on_len(t, sep);
    lemma_first_sep(s, sep);
    lemma_first_sep(t, sep);
    let i = first_sep(s, sep);
    let j = first_sep(t, sep);
    if s[0] == sep {
        assert(i == 0);
        assert(s.take(0) =~= Seq::<u8>::empty());
        assert(s.skip(1) =~= t);
        assert(split_on(s, sep) =~= seq![Seq::<u8>::empty()] + split_on(t, sep));
    } else {
        assert(i == 1 + j);
        if j == t.len() {
            assert(i == s.len());
            assert(split_on(s, sep) == seq![s]);
            assert(split_on(t, sep) == seq![t]);
            assert(s =~= seq![s[0]] + t);
            assert(split_on(t, sep).drop_first() =~= Seq::<Seq<u8>>::empty());
            assert(split_on(s, sep) =~= seq![seq![s[0]] + split_on(t, sep)[0]] + split_on(
                t,
                sep,
            ).drop_first());
        } else {
            assert(s.take(i) =~= seq![s[0]] + t.take(j));
            assert(s.skip(i + 1) =~= t.skip(j + 1));
            assert(split_on(t, sep) == seq![t.take(j)] + split_on(t.skip(j + 1), sep));
            assert(split_on(t, sep)[0] == t.take(j));
            assert(split_on(t, sep).drop_first() =~= split_on(t.skip(j + 1), sep));
            assert(split_on(s, sep) == seq![s.take(i)] + split_on(s.skip(i + 1), sep));
            assert(split_on(s, sep) =~= seq![seq![s[0]] + split_on(t, sep)[0]] + split_on(
                t,
                sep,
            ).drop_first());
        }
    }
}

/// Splits a byte record on a separator.
pub fn split_bytes(s: &[u8], sep: u8) -> (r: Vec<Vec<u8>>)
    ensures
        r@.map_values(|v: Vec<u8>| v@) == split_on(s@, sep),
{
    let mut fields: Vec<Vec<u8>> = Vec::new();
    let mut cur: Vec<u8> = Vec::new();
    let mut i: usize = 0;
    let n = s.len();
    proof {
        assert(s@.skip(0) =~= s@);
    }
    while i < n
        invariant
            i <= n,
            n == s@.len(),
            split_on(s@, sep) == fields@.map_values(|v: Vec<u8>| v@) + seq![
                cur@ + split_on(s@.skip(i as int), sep)[0],
            ] + split_on(s@.skip(i as int), sep).drop_first(),
            split_on(s@.skip(i as int), sep).len() >= 1,
        decreases n - i,
    {
        let ghost rem = s@.skip(i as int);
        let ghost fields0 = fields@;
        let ghost cur0 = cur@;
        proof {
            assert(rem.len() > 0);
            assert(rem[0] == s@[i as int]);
            assert(rem.drop_first() =~= s@.skip(i as int + 1));
            lemma_split_on_step(rem, sep);
        }
        let b = s[i];
        if b == sep {
            fields.push(cur);
            cur = Vec::new();
            proof {
                let f = |v: Vec<u8>| v@;
                assert(fields@.map_values(f) =~= fields0.map_values(f).push(cur0));
                assert(split_on(rem, sep) == seq![Seq::<u8>::empty()] + split_on(
                    rem.drop_first(),
                    sep,
                ));
                assert(split_on(rem, sep)[0] =~= Seq::<u8>::empty());
                assert(cur0 + split_on(rem, sep)[0] =~= cur0);
                assert(split_on(rem, sep).drop_first() =~= split_on(rem.drop_first(), sep));
                assert(split_on(s@, sep) =~= fields@.map_values(f) + seq![
                    cur@ + split_on(s@.skip(i as int + 1), sep)[0],
                ] + split_on(s@.skip(i as int + 1), sep).drop_first());
            }
        } else {
            cur.push(b);
            proof {
                let f = |v: Vec<u8>| v@;
                assert(split_on(rem, sep) == seq![seq![rem[0]] + split_on(rem.drop_first(), sep)[0]]
                    + split_on(rem.drop_first(), sep).drop_first());
                assert(split_on(rem, sep)[0] == seq![rem[0]] + split_on(rem.drop_first(), sep)[0]);
                assert(cur@ + split_on(rem.drop_first(), sep)[0] =~= cur0 + split_on(rem, sep)[0]);
                assert(split_on(rem, sep).drop_first() =~= split_on(
                    rem.drop_first(),
                    sep,
                ).drop_first());
                assert(split_on(s@, sep) =~= fields@.map_values(f) + seq![
                    cur@ + split_on(s@.skip(i as int + 1), sep)[0],
                ] + split_on(s@.skip(i as int + 1), sep).drop_first());
            }
        }
        i = i + 1;
    }
    proof {
        assert(s@.skip(n as int) =~= Seq::<u8>::empty());
        assert(first_sep(Seq::<u8>::empty(), sep) == 0);
        assert(split_on(Seq::<u8>::empty(), sep) == seq![Seq::<u8>::empty()]);
    }
    fields.push(cur);
    proof {
        let f = |v: Vec<u8>| v@;
        assert(cur@ + Seq::<u8>::empty() =~= cur@);
        assert(fields@.map_values(f) =~= split_on(s@, sep));
    }
    fields
}

/// Whether a byte is a decimal digit.
pub open spec fn is_digit(b: u8) -> bool {
    48 <= b <= 57
}

/// Whether a field is all decimal digits.
pub open spec fn all_digits(s: Seq<u8>) -> bool {
    forall|k: int| 0 <= k < s.len() ==> is_digit(#[trigger] s[k])
}

/// The value a field of decimal digits denotes.
pub open spec fn dec_value(s: Seq<u8>) -> int
    decreases s.len(),
{
    if s.len() == 0 {
        0
    } else {
        dec_value(s.drop_last()) * 10 + (s.last() - 48)
    }
}

pub proof fn lemma_dec_value_nonneg(s: Seq<u8>)
    requires
        all_digits(s),
    ensures
        dec_value(s) >= 0,
    decreases s.len(),
{
    if s.len() > 0 {
        assert(all_digits(s.drop_last())) by {
            assert(forall|k: int| 0 <= k < s.len() - 1 ==> s.drop_last()[k] == s[k]);
        }
        lemma_dec_value_nonneg(s.drop_last());
    }
}

/// A digit field's value only grows as more digits follow: every prefix
/// denotes at most the whole field's value.
pub proof fn lemma_dec_value_prefix_le(s: Seq<u8>, i: int)
    requires
        all_digits(s),
        0 <= i <= s.len(),
    ensures
        dec_value(s.take(i)) <= dec_value(s),
    decreases s.len() - i,
{
    if i == s.len() {
        assert(s.take(i) =~= s);
    } else {
        let t = s.take(i + 1);
        assert(t.drop_last() =~= s.take(i));
        assert(t.last() == s[i]);
        assert(all_digits(s.take(i))) by {
            assert(forall|k: int| 0 <= k < i ==> s.take(i)[k] == s[k]);
        }
        lemma_dec_value_nonneg(s.take(i));
        assert(dec_value(t) == dec_value(s.take(i)) * 10 + (s[i] - 48));
        lemma_dec_value_prefix_le(s, i + 1);
    }
}

/// Reads a decimal field: accepted exactly when it is a non-empty run of
/// digits whose value is at most `max`.
pub fn parse_decimal(s: &[u8], max: u32) -> (r: Result<u32, ()>)
    requires
        max <= 1000000,
    ensures
        r is Ok <==> (s@.len() >= 1 && all_digits(s@) && dec_value(s@) <= max),
        r matches Ok(v) ==> v == dec_value(s@),
{
    let n = s.len();
    if n == 0 {
        return Err(());
    }
    let mut acc: u32 = 0;
    let mut i: usize = 0;
    proof {
        assert(s@.take(0) =~= Seq::<u8>::empty());
    }
    while i < n
        invariant
            i <= n,
            n == s@.len(),
            max <= 1000000,
            all_digits(s@.take(i as int)),
            acc == dec_value(s@.take(i as int)),
            acc <= max,
        decreases n - i,
    {
        let b = s[i];
        if b < 48 || b > 57 {
            return Err(());
        }
        proof {
            assert(s@.take(i as int + 1).drop_last() =~= s@.take(i as int));
            assert(s@.take(i as int + 1).last() == s@[i as int]);
            assert(all_digits(s@.take(i as int + 1))) by {
                assert(forall|k: int|
                    0 <= k < i as int + 1 ==> s@.take(i as int + 1)[k] == #[trigger] s@.take(
                        i as int + 1,
                    )[k] && s@.take(i as int + 1)[k] == s@[k]);
            }
        }
        acc = acc * 10 + ((b - 48) as u32);
        if acc > max {
            proof {
                if all_digits(s@) {
                    lemma_dec_value_prefix_le(s@, i as int + 1);
                }
            }
            return Err(());
        }
        i = i + 1;
    }
    proof {
        assert(s@.take(n as int) =~= s@);
    }
    Ok(acc)
}

/// Whether the field holds a byte in the inclusive range.
pub open spec fn has_byte_in(s: Seq<u8>, lo: u8, hi: u8) -> bool {
    exists|k: int| 0 <= k < s.len() && lo <= #[trigger] s[k] <= hi
}

/// Scans a field for any byte in the inclusive range.
pub fn contains_byte_in(s: &[u8], lo: u8, hi: u8) -> (r: bool)
    ensures
        r == has_byte_in(s@, lo, hi),
{
    let n = s.len();
    let mut i: usize = 0;
    while i < n
        invariant
            i <= n,
            n == s@.len(),
            forall|k: int| 0 <= k < i ==> !(lo <= #[trigger] s@[k] <= hi),
        decreases n - i,
    {
        if lo <= s[i] && s[i] <= hi {
            return true;
        }
        i = i + 1;
    }
    false
}

} // verus!
