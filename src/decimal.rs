//! Decimal price and amount text, as the exchanges send it ("0.06250000",
//! "29321"), read into fixed-point integers counting `10^-SCALE_DIGITS`
//! units.
//!
//! Accepted text: one or more digits, optionally followed by `.` and one to
//! `SCALE_DIGITS` digits. Anything else, or a value past `u64::MAX` units,
//! is rejected.

use vstd::prelude::*;

verus! {

/// Fractional digits kept by a fixed-point value.
pub const SCALE_DIGITS: usize = 8;

pub open spec fn is_digit(c: char) -> bool {
    '0' <= c && c <= '9'
}

pub open spec fn all_digits(s: Seq<char>) -> bool {
    forall|i: int| 0 <= i < s.len() ==> is_digit(#[trigger] s[i])
}

pub open spec fn digit_value(c: char) -> int {
    c as u32 - '0' as u32
}

/// The number that a string of decimal digits denotes.
pub open spec fn digits_value(s: Seq<char>) -> int
    decreases s.len(),
{
    if s.len() == 0 {
        0
    } else {
        digits_value(s.drop_last()) * 10 + digit_value(s.last())
    }
}

/// How many digits `s` starts with.
pub open spec fn leading_digits(s: Seq<char>) -> nat
    decreases s.len(),
{
    if s.len() > 0 && is_digit(s[0]) {
        1 + leading_digits(s.drop_first())
    } else {
        0
    }
}

pub open spec fn zeros(n: nat) -> Seq<char> {
    Seq::new(n, |i: int| '0')
}

/// The digits of a decimal text with the point removed and the fraction
/// padded to `SCALE_DIGITS` places; `None` when the text is not a decimal.
pub open spec fn scaled_digits(s: Seq<char>) -> Option<Seq<char>> {
    let k = leading_digits(s) as int;
    let f = s.len() - k - 1;
    if k == 0 {
        None
    } else if k == s.len() {
        Some(s + zeros(SCALE_DIGITS as nat))
    } else if s[k] == '.' && 1 <= f <= SCALE_DIGITS && all_digits(s.skip(k + 1)) {
        Some(s.take(k) + s.skip(k + 1) + zeros((SCALE_DIGITS - f) as nat))
    } else {
        None
    }
}

/// The fixed-point value of a decimal text, when it is one and fits a `u64`.
pub open spec fn fixed_value(s: Seq<char>) -> Option<u64> {
    match scaled_digits(s) {
        Some(d) => if digits_value(d) <= u64::MAX {
            Some(digits_value(d) as u64)
        } else {
            None
        },
        None => None,
    }
}

proof fn lemma_digits_value_grows(a: Seq<char>, b: Seq<char>)
    requires
        all_digits(a),
        all_digits(b),
    ensures
        0 <= digits_value(a) <= digits_value(a + b),
    decreases b.len(),
{
    if b.len() == 0 {
        assert(a + b =~= a);
        lemma_digits_value_nonneg(a);
    } else {
        assert((a + b).drop_last() =~= a + b.drop_last());
        assert(all_digits(b.drop_last())) by {
            assert forall|i: int| 0 <= i < b.drop_last().len() implies is_digit(
                #[trigger] b.drop_last()[i],
            ) by {
                assert(b.drop_last()[i] == b[i]);
            }
        }
        lemma_digits_value_grows(a, b.drop_last());
        assert((a + b).last() == b[b.len() - 1]);
    }
}

proof fn lemma_digits_value_nonneg(a: Seq<char>)
    requires
        all_digits(a),
    ensures
        0 <= digits_value(a),
    decreases a.len(),
{
    if a.len() > 0 {
        assert(all_digits(a.drop_last())) by {
            assert forall|i: int| 0 <= i < a.drop_last().len() implies is_digit(
                #[trigger] a.drop_last()[i],
            ) by {
                assert(a.drop_last()[i] == a[i]);
            }
        }
        lemma_digits_value_nonneg(a.drop_last());
    }
}

proof fn lemma_leading_digits(s: Seq<char>, k: int)
    requires
        0 <= k <= s.len(),
        all_digits(s.take(k)),
        k == s.len() || !is_digit(s[k]),
    ensures
        leading_digits(s) == k,
    decreases k,
{
    if k > 0 {
        let t = s.drop_first();
        assert(s.take(k)[0] == s[0]);
        assert(all_digits(t.take(k - 1))) by {
            assert forall|i: int| 0 <= i < t.take(k - 1).len() implies is_digit(
                #[trigger] t.take(k - 1)[i],
            ) by {
                assert(t.take(k - 1)[i] == s.take(k)[i + 1]);
            }
        }
        lemma_leading_digits(t, k - 1);
    }
}

fn char_is_digit(c: char) -> (r: bool)
    ensures
        r == is_digit(c),
{
    '0' <= c && c <= '9'
}

/// The number that a string of decimal digits denotes, if it fits a `u64`.
fn digits_to_u64(ds: &Vec<char>) -> (r: Option<u64>)
    requires
        all_digits(ds@),
    ensures
        r == (if digits_value(ds@) <= u64::MAX {
            Some(digits_value(ds@) as u64)
        } else {
            None
        }),
{
    let mut acc: u64 = 0;
    let mut i: usize = 0;
    while i < ds.len()
        invariant
            i <= ds@.len(),
            all_digits(ds@),
            acc as int == digits_value(ds@.take(i as int)),
        decreases ds@.len() - i,
    {
        let c = ds[i];
        let d: u64 = (c as u32 - '0' as u32) as u64;
        proof {
            assert(ds@.take(i + 1).drop_last() =~= ds@.take(i as int));
            assert(ds@.take(i + 1).last() == c);
        }
        if acc > (u64::MAX - d) / 10 {
            proof {
                assert(acc * 10 + d > u64::MAX) by (nonlinear_arith)
                    requires
                        acc > (u64::MAX - d) / 10,
                        d <= 9,
                ;
                assert(ds@ =~= ds@.take(i + 1) + ds@.skip(i + 1));
                assert(all_digits(ds@.take(i + 1)));
                assert(all_digits(ds@.skip(i + 1)));
                lemma_digits_value_grows(ds@.take(i + 1), ds@.skip(i + 1));
            }
            return None;
        }
        acc = acc * 10 + d;
        i = i + 1;
    }
    proof {
        assert(ds@.take(i as int) =~= ds@);
    }
    Some(acc)
}

/// Reads a decimal text into a fixed-point value; `None` when the text is
/// not a decimal with at most `SCALE_DIGITS` fractional digits, or when the
/// value does not fit a `u64`.
pub fn parse_fixed(s: &str) -> (r: Option<u64>)
    ensures
        r == fixed_value(s@),
{
    let n = s.unicode_len();
    let mut cs: Vec<char> = Vec::new();
    let mut i: usize = 0;
    while i < n
        invariant
            n == s@.len(),
            i <= n,
            cs@ == s@.take(i as int),
        decreases n - i,
    {
        cs.push(s.get_char(i));
        i = i + 1;
        proof {
            assert(cs@ =~= s@.take(i as int));
        }
    }
    proof {
        assert(s@.take(n as int) =~= s@);
    }
    let mut k: usize = 0;
    while k < n && char_is_digit(cs[k])
        invariant
            cs@ == s@,
            n == s@.len(),
            k <= n,
            all_digits(s@.take(k as int)),
        decreases n - k,
    {
        k = k + 1;
        proof {
            assert forall|j: int| 0 <= j < s@.take(k as int).len() implies is_digit(
                #[trigger] s@.take(k as int)[j],
            ) by {
                if j < k - 1 {
                    assert(s@.take(k as int)[j] == s@.take(k - 1)[j]);
                }
            }
        }
    }
    proof {
        lemma_leading_digits(s@, k as int);
    }
    if k == 0 {
        return None;
    }
    let mut ds: Vec<char> = Vec::new();
    let mut j: usize = 0;
    while j < k
        invariant
            cs@ == s@,
            n == s@.len(),
            k <= n,
            j <= k,
            ds@ == s@.take(j as int),
        decreases k - j,
    {
        ds.push(cs[j]);
        j = j + 1;
        proof {
            assert(ds@ =~= s@.take(j as int));
        }
    }
    let mut pad: usize = SCALE_DIGITS;
    if k < n {
        if cs[k] != '.' || n - k - 1 < 1 || n - k - 1 > SCALE_DIGITS {
            return None;
        }
        pad = SCALE_DIGITS - (n - k - 1);
        let mut m: usize = k + 1;
        while m < n
            invariant
                cs@ == s@,
                n == s@.len(),
                leading_digits(s@) == k,
                k < m <= n,
                ds@ == s@.take(k as int) + s@.subrange(k + 1, m as int),
                all_digits(s@.subrange(k + 1, m as int)),
            decreases n - m,
        {
            if !char_is_digit(cs[m]) {
                proof {
                    assert(s@.skip(k + 1)[m - k - 1] == s@[m as int]);
                    assert(!is_digit(s@.skip(k + 1)[m - k - 1]));
                }
                return None;
            }
            ds.push(cs[m]);
            m = m + 1;
            proof {
                assert(ds@ =~= s@.take(k as int) + s@.subrange(k + 1, m as int));
                assert forall|q: int| 0 <= q < s@.subrange(k + 1, m as int).len() implies is_digit(
                    #[trigger] s@.subrange(k + 1, m as int)[q],
                ) by {
                    if q < m - k - 2 {
                        assert(s@.subrange(k + 1, m as int)[q] == s@.subrange(k + 1, m - 1)[q]);
                    }
                }
            }
        }
        proof {
            assert(s@.subrange(k + 1, n as int) =~= s@.skip(k + 1));
        }
    } else {
        proof {
            assert(s@.take(k as int) =~= s@);
        }
    }
    let ghost base = ds@;
    let mut z: usize = 0;
    while z < pad
        invariant
            z <= pad,
            ds@ == base + zeros(z as nat),
        decreases pad - z,
    {
        ds.push('0');
        z = z + 1;
        proof {
            assert(ds@ =~= base + zeros(z as nat));
        }
    }
    proof {
        let d = ds@;
        assert(all_digits(d)) by {
            assert forall|q: int| 0 <= q < d.len() implies is_digit(#[trigger] d[q]) by {
                if q >= base.len() {
                    assert(d[q] == zeros(z as nat)[q - base.len()]);
                } else if q < k {
                    assert(d[q] == s@.take(k as int)[q]);
                } else {
                    assert(d[q] == s@.skip(k + 1)[q - k]);
                }
            }
        }
    }
    digits_to_u64(&ds)
}

/// The decimal numeral of `n`: its digits, most significant first, with no
/// sign and no leading zero.
pub open spec fn decimal_text(n: nat) -> Seq<char>
    decreases n,
{
    if n < 10 {
        seq!["0123456789"@[n as int]]
    } else {
        decimal_text(n / 10).push("0123456789"@[(n % 10) as int])
    }
}

/// Relies on `ToString` for `u64` (through `Display`): it writes the plain
/// decimal numeral.
#[verifier::external_body]
pub(crate) fn decimal_of(n: u64) -> (r: String)
    ensures
        r@ == decimal_text(n as nat),
{
    n.to_string()
}

} // verus!
