//! Decimal text to fixed-point thousandths.
//!
//! A number is an optional `+` or `-`, then digits with at most one point
//! among them, before them or after them, and at least one digit: `12`,
//! `-12.5`, `+.5`, `5.`. Places after the third are cut off, so `1.2399` reads
//! as `1.239`, and a magnitude above `i64::MAX` thousandths is refused.
//!
//! Refused as no number: the empty text, a sign or a point alone, blanks
//! anywhere, a decimal comma, and the forms that only a floating-point reader
//! knows, namely an exponent (`1e3`), `inf`, `infinity` and `NaN`.
use vstd::prelude::*;

verus! {

/// Largest whole part whose thousandfold can still fit in 63 bits.
pub const WHOLE_LIMIT: u64 = 9_223_372_036_854_775;

pub open spec fn is_digit(b: u8) -> bool {
    48 <= b <= 57
}

pub open spec fn all_digits(s: Seq<u8>) -> bool {
    forall|i: int| 0 <= i < s.len() ==> is_digit(#[trigger] s[i])
}

/// How many bytes at the front of `s` are digits.
pub open spec fn leading_digits(s: Seq<u8>) -> nat
    decreases s.len(),
{
    if s.len() > 0 && is_digit(s[0]) {
        1 + leading_digits(s.drop_first())
    } else {
        0
    }
}

/// The number that the digits `s` write in base ten.
pub open spec fn digits_value(s: Seq<u8>) -> int
    decreases s.len(),
{
    if s.len() == 0 {
        0
    } else {
        digits_value(s.drop_last()) * 10 + (s.last() - 48)
    }
}

/// The digit at place `i` after the point, zero where the text has ended.
pub open spec fn digit_at(frac: Seq<u8>, i: int) -> int {
    if i < frac.len() {
        frac[i] - 48
    } else {
        0
    }
}

/// The first three places after the point, as thousandths; further places
/// are cut off.
pub open spec fn thousandths(frac: Seq<u8>) -> int {
    digit_at(frac, 0) * 100 + digit_at(frac, 1) * 10 + digit_at(frac, 2)
}

pub open spec fn in_range(m: int) -> Option<int> {
    if m <= i64::MAX {
        Some(m)
    } else {
        None
    }
}

/// Thousandths written by an unsigned decimal: digits, then optionally a
/// point and digits, with at least one digit in all.
pub open spec fn magnitude(body: Seq<u8>) -> Option<int> {
    let k = leading_digits(body) as int;
    let whole = body.take(k);
    let rest = body.skip(k);
    if rest.len() == 0 {
        if k == 0 {
            None
        } else {
            in_range(digits_value(whole) * 1000)
        }
    } else if rest[0] != 46 || !all_digits(rest.drop_first()) || (k == 0 && rest.len() == 1) {
        None
    } else {
        in_range(digits_value(whole) * 1000 + thousandths(rest.drop_first()))
    }
}

/// Thousandths written by a decimal with an optional leading `+` or `-`;
/// none where the text is no such decimal or its magnitude exceeds `i64::MAX`.
pub open spec fn decimal_value(s: Seq<u8>) -> Option<int> {
    let signed = s.len() > 0 && (s[0] == 45 || s[0] == 43);
    let body = if signed {
        s.drop_first()
    } else {
        s
    };
    match magnitude(body) {
        Some(m) => Some(
            if signed && s[0] == 45 {
                -m
            } else {
                m
            },
        ),
        None => None,
    }
}

proof fn lemma_leading_digits(s: Seq<u8>)
    ensures
        leading_digits(s) <= s.len(),
        forall|j: int| 0 <= j < leading_digits(s) ==> is_digit(#[trigger] s[j]),
    decreases s.len(),
{
    if s.len() > 0 && is_digit(s[0]) {
        let t = s.drop_first();
        lemma_leading_digits(t);
        assert forall|j: int| 0 <= j < leading_digits(s) implies is_digit(#[trigger] s[j]) by {
            if j > 0 {
                assert(s[j] == t[j - 1]);
            }
        }
    }
}

proof fn lemma_digits_monotone(s: Seq<u8>, j: int, k: int)
    requires
        0 <= j <= k <= s.len(),
        forall|i: int| 0 <= i < k ==> is_digit(#[trigger] s[i]),
    ensures
        0 <= digits_value(s.take(j)) <= digits_value(s.take(k)),
    decreases k - j,
{
    if j < k {
        lemma_digits_monotone(s, j, k - 1);
        assert(s.take(k).drop_last() =~= s.take(k - 1));
        assert(is_digit(s[k - 1]));
    } else {
        lemma_digits_nonnegative(s, j);
    }
}

proof fn lemma_digits_nonnegative(s: Seq<u8>, k: int)
    requires
        0 <= k <= s.len(),
        forall|i: int| 0 <= i < k ==> is_digit(#[trigger] s[i]),
    ensures
        0 <= digits_value(s.take(k)),
    decreases k,
{
    if k > 0 {
        lemma_digits_nonnegative(s, k - 1);
        assert(s.take(k).drop_last() =~= s.take(k - 1));
        assert(is_digit(s[k - 1]));
    }
}

fn digit(b: u8) -> (d: Option<u64>)
    ensures
        d is Some <==> is_digit(b),
        d matches Some(v) ==> v == b - 48,
{
    if b >= 48 && b <= 57 {
        Some((b - 48) as u64)
    } else {
        None
    }
}

fn digit_or_zero(frac: &[u8], at: usize) -> (d: u64)
    requires
        at < frac.len() ==> is_digit(frac@[at as int]),
    ensures
        d == digit_at(frac@, at as int),
        d <= 9,
{
    if at < frac.len() {
        (frac[at] - 48) as u64
    } else {
        0
    }
}

/// The whole part at the front of `body`: how many digits it has and their
/// value; none where the value exceeds [`WHOLE_LIMIT`].
fn read_whole(body: &[u8]) -> (r: Option<(usize, u64)>)
    ensures
        r matches Some((k, v)) ==> k == leading_digits(body@) && v == digits_value(
            body@.take(k as int),
        ) && v <= WHOLE_LIMIT,
        r is None ==> digits_value(body@.take(leading_digits(body@) as int)) > WHOLE_LIMIT,
{
    let n: usize = body.len();
    let mut i: usize = 0;
    let mut acc: u64 = 0;
    proof {
        lemma_leading_digits(body@);
        assert(body@.take(0) =~= Seq::<u8>::empty());
        assert(body@.skip(0) =~= body@);
    }
    while i < n && digit(body[i]).is_some()
        invariant
            0 <= i <= n,
            n == body@.len(),
            leading_digits(body@) == i + leading_digits(body@.skip(i as int)),
            leading_digits(body@) <= body@.len(),
            forall|j: int| 0 <= j < leading_digits(body@) ==> is_digit(#[trigger] body@[j]),
            acc == digits_value(body@.take(i as int)),
            acc <= WHOLE_LIMIT,
        decreases n - i,
    {
        let d: u64 = (body[i] - 48) as u64;
        proof {
            assert(body@.skip(i as int)[0] == body@[i as int]);
            assert(body@.skip(i as int).drop_first() =~= body@.skip(i + 1));
            assert(body@.take(i + 1).drop_last() =~= body@.take(i as int));
            assert(body@.take(i + 1).last() == body@[i as int]);
        }
        let next: u64 = acc * 10 + d;
        if next > WHOLE_LIMIT {
            proof {
                lemma_digits_monotone(body@, i + 1, leading_digits(body@) as int);
            }
            return None;
        }
        acc = next;
        i = i + 1;
    }
    proof {
        if i < n {
            assert(body@.skip(i as int)[0] == body@[i as int]);
        }
    }
    Some((i, acc))
}

/// The thousandths that the places `frac` after the point write; none where
/// one of them is no digit.
fn read_fraction(frac: &[u8]) -> (r: Option<u64>)
    ensures
        r is Some <==> all_digits(frac@),
        r matches Some(v) ==> v == thousandths(frac@) && v <= 999,
{
    let n: usize = frac.len();
    let mut j: usize = 0;
    while j < n
        invariant
            0 <= j <= n,
            n == frac@.len(),
            forall|m: int| 0 <= m < j ==> is_digit(#[trigger] frac@[m]),
        decreases n - j,
    {
        if digit(frac[j]).is_none() {
            return None;
        }
        j = j + 1;
    }
    let d0: u64 = digit_or_zero(frac, 0);
    let d1: u64 = digit_or_zero(frac, 1);
    let d2: u64 = digit_or_zero(frac, 2);
    Some(d0 * 100 + d1 * 10 + d2)
}

proof fn lemma_thousandths_nonnegative(frac: Seq<u8>)
    requires
        all_digits(frac),
    ensures
        0 <= thousandths(frac) <= 999,
{
    assert(frac.len() > 0 ==> is_digit(frac[0]));
    assert(frac.len() > 1 ==> is_digit(frac[1]));
    assert(frac.len() > 2 ==> is_digit(frac[2]));
}

/// Reads an unsigned decimal as thousandths.
fn parse_magnitude(body: &[u8]) -> (r: Option<u64>)
    ensures
        r matches Some(v) ==> magnitude(body@) == Some(v as int),
        r is None ==> magnitude(body@) is None,
{
    let n: usize = body.len();
    proof {
        lemma_leading_digits(body@);
    }
    let (k, whole) = match read_whole(body) {
        Some(found) => found,
        None => {
            proof {
                let rest = body@.skip(leading_digits(body@) as int);
                if rest.len() > 0 && all_digits(rest.drop_first()) {
                    lemma_thousandths_nonnegative(rest.drop_first());
                }
            }
            return None;
        },
    };
    if k == n {
        if k == 0 {
            return None;
        }
        proof {
            assert(body@.take(0) =~= Seq::<u8>::empty());
        }
    }
    let mut total: u64 = whole * 1000;
    if k < n {
        if body[k] != 46 || (k == 0 && n == 1) {
            return None;
        }
        let frac = vstd::slice::slice_subrange(body, k + 1, n);
        proof {
            assert(frac@ =~= body@.skip(k as int).drop_first());
        }
        match read_fraction(frac) {
            Some(f) => {
                total = total + f;
            },
            None => {
                return None;
            },
        }
    }
    if total > i64::MAX as u64 {
        return None;
    }
    Some(total)
}

/// Reads a decimal such as `-12.5` as thousandths.
pub fn parse_decimal(field: &[u8]) -> (r: Option<i64>)
    ensures
        r matches Some(v) ==> decimal_value(field@) == Some(v as int),
        r is None ==> decimal_value(field@) is None,
{
    let n: usize = field.len();
    let signed: bool = n > 0 && (field[0] == 45 || field[0] == 43);
    let negative: bool = signed && field[0] == 45;
    let body = if signed {
        vstd::slice::slice_subrange(field, 1, n)
    } else {
        field
    };
    proof {
        if signed {
            assert(body@ =~= field@.drop_first());
        }
    }
    match parse_magnitude(body) {
        None => None,
        Some(m) => if negative {
            Some(-(m as i64))
        } else {
            Some(m as i64)
        },
    }
}

} // verus!
