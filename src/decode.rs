//! Decimal amounts as they are written in the input: digits, optionally a
//! point and at most four more digits, read as ten-thousandths of a unit.
use vstd::prelude::*;
use crate::transaction::TransactionType;

verus! {

pub open spec fn is_digit(b: u8) -> bool {
    48 <= b <= 57
}

pub open spec fn all_digits(s: Seq<u8>) -> bool {
    forall|i: int| 0 <= i < s.len() ==> is_digit(#[trigger] s[i])
}

/// The number that a run of decimal digits writes.
pub open spec fn digits_value(s: Seq<u8>) -> int
    decreases s.len(),
{
    if s.len() == 0 {
        0
    } else {
        digits_value(s.drop_last()) * 10 + (s.last() - 48)
    }
}

/// `s` reads as digits up to `p` (at least one), then either nothing, or a
/// point and at most four digits.
pub open spec fn decimal_at(s: Seq<u8>, p: int) -> bool {
    &&& 0 < p <= s.len()
    &&& all_digits(s.take(p))
    &&& p < s.len() ==> {
        &&& s[p] == 46
        &&& s.len() - p - 1 <= 4
        &&& all_digits(s.skip(p + 1))
    }
}

/// The fractional digits after the point at `p`, padded with zeros to four.
pub open spec fn fraction_digits(s: Seq<u8>, p: int) -> Seq<u8> {
    let f = if p < s.len() { s.skip(p + 1) } else { Seq::empty() };
    f + Seq::new((4 - f.len()) as nat, |i: int| 48u8)
}

/// The amount, in ten-thousandths, of `s` read with its point at `p`.
pub open spec fn decimal_value(s: Seq<u8>, p: int) -> int {
    digits_value(s.take(p)) * 10000 + digits_value(fraction_digits(s, p))
}

/// A digit string's value is at least that of each of its prefixes, and
/// never negative.
pub proof fn lemma_digits_prefix(s: Seq<u8>, i: int)
    requires
        all_digits(s),
        0 <= i <= s.len(),
    ensures
        0 <= digits_value(s.take(i)) <= digits_value(s),
    decreases s.len(),
{
    if s.len() > 0 {
        let d = s.drop_last();
        assert(all_digits(d)) by {
            assert forall|j: int| 0 <= j < d.len() implies is_digit(#[trigger] d[j]) by {
                assert(d[j] == s[j]);
            }
        }
        assert(is_digit(s[s.len() - 1]));
        if i < s.len() {
            lemma_digits_prefix(d, i);
            assert(d.take(i) =~= s.take(i));
        } else {
            lemma_digits_prefix(d, 0);
            assert(s.take(i) =~= s);
        }
    }
}

/// With its point at `p`, `s` has four fraction digits once padded.
pub proof fn lemma_fraction_digits(s: Seq<u8>, p: int)
    requires
        decimal_at(s, p),
    ensures
        fraction_digits(s, p).len() == 4,
        all_digits(fraction_digits(s, p)),
{
    let f = if p < s.len() { s.skip(p + 1) } else { Seq::<u8>::empty() };
    let g = fraction_digits(s, p);
    assert forall|i: int| 0 <= i < g.len() implies is_digit(#[trigger] g[i]) by {
        if i < f.len() {
            assert(g[i] == f[i]);
        }
    }
}

/// Reads an amount such as `12`, `3.5` or `0.0001` as ten-thousandths.
/// Gives `None` when `s` is not so written or its amount exceeds `u64`.
pub fn parse_amount(s: &[u8]) -> (r: Option<u64>)
    ensures
        match r {
            Some(v) => exists|p: int| decimal_at(s@, p) && v == decimal_value(s@, p),
            None => forall|p: int| decimal_at(s@, p) ==> decimal_value(s@, p) > u64::MAX,
        },
{
    let n = s.len();
    let mut p: usize = 0;
    while p < n && 48 <= s[p] && s[p] <= 57
        invariant
            0 <= p <= n,
            n == s@.len(),
            all_digits(s@.take(p as int)),
        decreases n - p,
    {
        p += 1;
        assert(all_digits(s@.take(p as int))) by {
            assert forall|i: int| 0 <= i < p implies is_digit(#[trigger] s@.take(p as int)[i]) by {
                if i < p - 1 {
                    assert(s@.take(p as int)[i] == s@.take(p - 1)[i]);
                }
            }
        }
    }
    // Any reading of `s` puts its point at the first byte that is no digit.
    assert forall|q: int| decimal_at(s@, q) implies q == p by {
        if q < p {
            assert(is_digit(s@.take(p as int)[q]));
        } else if q > p {
            assert(is_digit(s@.take(q)[p as int]));
        }
    }
    if p == 0 {
        assert(!decimal_at(s@, 0));
        return None;
    }
    if p < n {
        if s[p] != 46 || n - p - 1 > 4 {
            assert(!decimal_at(s@, p as int));
            return None;
        }
        let mut k: usize = p + 1;
        while k < n
            invariant
                p + 1 <= k <= n,
                n == s@.len(),
                forall|q: int| decimal_at(s@, q) ==> q == p,
                forall|j: int| p + 1 <= j < k ==> is_digit(#[trigger] s@[j]),
            decreases n - k,
        {
            if s[k] < 48 || s[k] > 57 {
                assert(!all_digits(s@.skip(p + 1))) by {
                    assert(s@.skip(p + 1)[k - p - 1] == s@[k as int]);
                }
                assert(!decimal_at(s@, p as int));
                return None;
            }
            k += 1;
        }
        assert(all_digits(s@.skip(p + 1))) by {
            assert forall|j: int| 0 <= j < s@.skip(p + 1).len() implies is_digit(
                #[trigger] s@.skip(p + 1)[j],
            ) by {
                assert(s@.skip(p + 1)[j] == s@[p + 1 + j]);
            }
        }
    }
    assert(decimal_at(s@, p as int));
    proof {
        lemma_fraction_digits(s@, p as int);
        lemma_digits_prefix(fraction_digits(s@, p as int), 0);
    }
    // Whole units.
    let ghost w = s@.take(p as int);
    let mut units: u128 = 0;
    let mut i: usize = 0;
    while i < p
        invariant
            0 <= i <= p <= n,
            n == s@.len(),
            w == s@.take(p as int),
            all_digits(w),
            units == digits_value(w.take(i as int)),
            units <= u64::MAX,
            decimal_at(s@, p as int),
            0 <= digits_value(fraction_digits(s@, p as int)),
            forall|q: int| decimal_at(s@, q) ==> q == p,
        decreases p - i,
    {
        assert(w.take(i + 1).drop_last() =~= w.take(i as int));
        assert(is_digit(w[i as int]));
        units = units * 10 + (s[i] - 48) as u128;
        i += 1;
        if units > u64::MAX as u128 {
            proof {
                lemma_digits_prefix(w, i as int);
            }
            assert(decimal_value(s@, p as int) > u64::MAX);
            return None;
        }
    }
    assert(w.take(i as int) =~= w);
    // Ten-thousandths.
    let ghost f = fraction_digits(s@, p as int);
    let flen: usize = if p < n {
        n - p - 1
    } else {
        0
    };
    let mut frac: u128 = 0;
    let mut k: usize = 0;
    while k < 4
        invariant
            0 <= k <= 4,
            p <= n,
            flen == (if p < n { n - p - 1 } else { 0 }),
            flen <= 4,
            n == s@.len(),
            decimal_at(s@, p as int),
            f == fraction_digits(s@, p as int),
            f.len() == 4,
            frac == digits_value(f.take(k as int)),
            frac < (if k == 0 {
                1int
            } else if k == 1 {
                10
            } else if k == 2 {
                100
            } else if k == 3 {
                1000
            } else {
                10000
            }),
            units <= u64::MAX,
            units == digits_value(s@.take(p as int)),
            forall|q: int| decimal_at(s@, q) ==> q == p,
        decreases 4 - k,
    {
        assert(f.take(k + 1).drop_last() =~= f.take(k as int));
        let d: u8 = if k < flen {
            assert(f[k as int] == s@[p + 1 + k]);
            assert(is_digit(s@.skip(p + 1)[k as int]));
            s[p + 1 + k] - 48
        } else {
            0
        };
        assert(d as int == f[k as int] - 48);
        frac = frac * 10 + d as u128;
        k += 1;
    }
    assert(f.take(4) =~= f);
    let total: u128 = units * 10000 + frac;
    if total > u64::MAX as u128 {
        return None;
    }
    Some(total as u64)
}

/// An ASCII letter in lower case; other bytes as they are.
pub open spec fn lower(b: u8) -> u8 {
    if 65 <= b <= 90 {
        (b + 32) as u8
    } else {
        b
    }
}

/// `s` spells `name` when upper case is read as lower case.
pub open spec fn spells(s: Seq<u8>, name: Seq<u8>) -> bool {
    s.len() == name.len() && forall|i: int| 0 <= i < s.len() ==> lower(#[trigger] s[i]) == name[i]
}

/// The name of each kind, in lower case.
pub open spec fn kind_name(k: TransactionType) -> Seq<u8> {
    match k {
        // deposit
        TransactionType::Deposit => seq![100u8, 101, 112, 111, 115, 105, 116],
        // withdrawal
        TransactionType::Withdrawal => seq![119u8, 105, 116, 104, 100, 114, 97, 119, 97, 108],
        // dispute
        TransactionType::Dispute => seq![100u8, 105, 115, 112, 117, 116, 101],
        // resolve
        TransactionType::Resolve => seq![114u8, 101, 115, 111, 108, 118, 101],
        // chargeback
        TransactionType::Chargeback => seq![99u8, 104, 97, 114, 103, 101, 98, 97, 99, 107],
    }
}

fn spells_name(s: &[u8], name: &[u8]) -> (r: bool)
    ensures
        r == spells(s@, name@),
{
    if s.len() != name.len() {
        return false;
    }
    let mut i: usize = 0;
    while i < s.len()
        invariant
            0 <= i <= s@.len(),
            s@.len() == name@.len(),
            forall|j: int| 0 <= j < i ==> lower(#[trigger] s@[j]) == name@[j],
        decreases s@.len() - i,
    {
        let b = s[i];
        let l = if 65 <= b && b <= 90 {
            b + 32
        } else {
            b
        };
        if l != name[i] {
            return false;
        }
        i += 1;
    }
    true
}

/// Reads the kind of a record from its name, in any mix of cases.
pub fn parse_kind(s: &[u8]) -> (r: Option<TransactionType>)
    ensures
        match r {
            Some(k) => spells(s@, kind_name(k)),
            None => forall|k: TransactionType| !spells(s@, #[trigger] kind_name(k)),
        },
{
    // The names of `kind_name`, in the same order.
    if spells_name(s, &[100u8, 101, 112, 111, 115, 105, 116]) {
        Some(TransactionType::Deposit)
    } else if spells_name(s, &[119u8, 105, 116, 104, 100, 114, 97, 119, 97, 108]) {
        Some(TransactionType::Withdrawal)
    } else if spells_name(s, &[100u8, 105, 115, 112, 117, 116, 101]) {
        Some(TransactionType::Dispute)
    } else if spells_name(s, &[114u8, 101, 115, 111, 108, 118, 101]) {
        Some(TransactionType::Resolve)
    } else if spells_name(s, &[99u8, 104, 97, 114, 103, 101, 98, 97, 99, 107]) {
        Some(TransactionType::Chargeback)
    } else {
        None
    }
}

} // verus!
