use vstd::prelude::*;

verus! {

/// Fixed-point scale: one unit is 10^-8 of a price, quantity, rate or ratio.
pub const SCALE: u64 = 100_000_000;

/// Largest integer part whose scaled value can still fit in a `u64`.
pub const INT_LIMIT: u64 = 184_467_440_737;

pub open spec fn is_digit(c: u8) -> bool {
    48 <= c <= 57
}

pub open spec fn all_digits(s: Seq<u8>) -> bool {
    forall|i: int| 0 <= i < s.len() ==> is_digit(#[trigger] s[i])
}

/// Value of a string of decimal digits.
pub open spec fn digits_value(s: Seq<u8>) -> nat
    decreases s.len(),
{
    if s.len() == 0 {
        0
    } else {
        digits_value(s.drop_last()) * 10 + (s.last() - 48) as nat
    }
}

/// The `i`-th digit after the point, zero past the end.
pub open spec fn frac_digit(f: Seq<u8>, i: int) -> nat {
    if 0 <= i < f.len() {
        (f[i] - 48) as nat
    } else {
        0
    }
}

/// The first `k` fractional digits as an integer, zero-padded on the right.
pub open spec fn frac_prefix_value(f: Seq<u8>, k: nat) -> nat
    decreases k,
{
    if k == 0 {
        0
    } else {
        frac_prefix_value(f, (k - 1) as nat) * 10 + frac_digit(f, k - 1)
    }
}

/// Fractional digits in units of 10^-8; digits past the eighth are truncated.
pub open spec fn frac_units(f: Seq<u8>) -> nat {
    frac_prefix_value(f, 8)
}

pub open spec fn sign_len(s: Seq<u8>) -> int {
    if s.len() > 0 && (s[0] == 43 || s[0] == 45) {
        1
    } else {
        0
    }
}

pub open spec fn is_negative(s: Seq<u8>) -> bool {
    s.len() > 0 && s[0] == 45
}

/// `body` is digits, optionally followed by `.` and more digits, with the point at
/// `p` (or no point when `p` is the length), holding at least one digit in all.
pub open spec fn split_at_point(body: Seq<u8>, p: int) -> bool {
    &&& 0 <= p <= body.len()
    &&& all_digits(body.take(p))
    &&& p == body.len() || (body[p] == 46 && all_digits(body.skip(p + 1)))
    &&& p > 0 || body.len() > p + 1
}

/// The digits after the point at `p`, none where there is no point.
pub open spec fn frac_part(body: Seq<u8>, p: int) -> Seq<u8> {
    if p < body.len() {
        body.skip(p + 1)
    } else {
        Seq::empty()
    }
}

pub open spec fn decimal_body(s: Seq<u8>) -> Seq<u8> {
    s.skip(sign_len(s))
}

/// The value in units of 10^-8 of text of the form `[+-]digits[.digits]`, or
/// `None` when the text has another form.
pub open spec fn decimal_value(s: Seq<u8>) -> Option<int> {
    let body = decimal_body(s);
    if exists|p: int| split_at_point(body, p) {
        let p = choose|p: int| split_at_point(body, p);
        let mag = digits_value(body.take(p)) * SCALE + frac_units(frac_part(body, p));
        Some(
            if is_negative(s) {
                -mag
            } else {
                mag as int
            },
        )
    } else {
        None
    }
}

/// `decimal_value`, where its magnitude fits in a `u64`.
pub open spec fn bounded_decimal(s: Seq<u8>) -> Option<int> {
    match decimal_value(s) {
        Some(v) => if -(u64::MAX as int) <= v <= u64::MAX {
            Some(v)
        } else {
            None
        },
        None => None,
    }
}

/// A price or quantity: its decimal value, or zero where the text is no
/// non-negative decimal that fits.
pub open spec fn quantity_of(s: Seq<char>) -> u64 {
    match bounded_decimal(vstd::utf8::encode_utf8(s)) {
        Some(v) => if v >= 0 {
            v as u64
        } else {
            0
        },
        None => 0,
    }
}

/// A signed rate, where the text is a decimal that fits in an `i64`.
pub open spec fn rate_of(s: Seq<char>) -> Option<i64> {
    match bounded_decimal(vstd::utf8::encode_utf8(s)) {
        Some(v) => if i64::MIN <= v <= i64::MAX {
            Some(v as i64)
        } else {
            None
        },
        None => None,
    }
}

proof fn lemma_digits_push(s: Seq<u8>, c: u8)
    ensures
        digits_value(s.push(c)) == digits_value(s) * 10 + (c - 48) as nat,
{
    assert(s.push(c).drop_last() =~= s);
}

proof fn lemma_split_unique(body: Seq<u8>, p: int, q: int)
    requires
        split_at_point(body, q),
        0 <= p <= body.len(),
        all_digits(body.take(p)),
        p == body.len() || !is_digit(body[p]),
    ensures
        p == q,
{
    if q < p {
        assert(body.take(p)[q] == body[q]);
    } else if p < q {
        assert(body.take(q)[p] == body[p]);
    }
}

/// Parses `[+-]digits[.digits]` into units of 10^-8, keeping eight fractional
/// digits. `None` when the text has another form or its magnitude exceeds `u64::MAX`.
pub fn parse_decimal(b: &[u8]) -> (r: Option<i128>)
    ensures
        r == (match bounded_decimal(b@) {
            Some(v) => Some(v as i128),
            None => None::<i128>,
        }),
{
    let n = b.len();
    let mut i: usize = 0;
    let mut neg = false;
    if n > 0 && (b[0] == 43 || b[0] == 45) {
        neg = b[0] == 45;
        i = 1;
    }
    let start = i;
    let ghost body = b@.skip(start as int);
    assert(body =~= decimal_body(b@));
    let mut int_acc: u64 = 0;
    let mut too_big = false;
    while i < n && b[i] >= 48 && b[i] <= 57
        invariant
            start <= i <= n,
            n == b@.len(),
            body == b@.skip(start as int),
            body == decimal_body(b@),
            all_digits(body.take(i - start)),
            !too_big ==> int_acc == digits_value(body.take(i - start)) && int_acc <= INT_LIMIT,
            too_big ==> digits_value(body.take(i - start)) > INT_LIMIT,
        decreases n - i,
    {
        proof {
            assert(body.take(i - start + 1) =~= body.take(i - start).push(b@[i as int]));
            lemma_digits_push(body.take(i - start), b@[i as int]);
        }
        if !too_big {
            let next = int_acc * 10 + (b[i] - 48) as u64;
            if next > INT_LIMIT {
                too_big = true;
            } else {
                int_acc = next;
            }
        }
        i = i + 1;
    }
    let p = i;
    let ghost pp = (p - start) as int;
    assert(pp == body.len() || !is_digit(body[pp]));
    let mut has_point = false;
    if i < n {
        if b[i] != 46 {
            proof {
                assert forall|q: int| !split_at_point(body, q) by {
                    if split_at_point(body, q) {
                        lemma_split_unique(body, pp, q);
                    }
                }
            }
            return None;
        }
        has_point = true;
        i = i + 1;
    }
    let fstart = i;
    let ghost frac = b@.skip(fstart as int);
    while i < n
        invariant
            fstart <= i <= n,
            n == b@.len(),
            frac == b@.skip(fstart as int),
            all_digits(frac.take(i - fstart)),
            body == b@.skip(start as int),
            body == decimal_body(b@),
            start <= p <= n,
            pp == p - start,
            all_digits(body.take(pp)),
            pp == body.len() || !is_digit(body[pp]),
            has_point ==> p < n && b@[p as int] == 46 && fstart == p + 1,
            !has_point ==> p == n && fstart == n,
        decreases n - i,
    {
        if b[i] < 48 || b[i] > 57 {
            proof {
                assert(frac[i - fstart] == b@[i as int]);
                assert forall|q: int| !split_at_point(body, q) by {
                    if split_at_point(body, q) {
                        lemma_split_unique(body, pp, q);
                        assert(body.skip(pp + 1)[i - fstart] == b@[i as int]);
                    }
                }
            }
            return None;
        }
        proof {
            assert forall|j: int| 0 <= j < i - fstart + 1 implies is_digit(
                #[trigger] frac.take(i - fstart + 1)[j],
            ) by {
                if j < i - fstart {
                    assert(frac.take(i - fstart)[j] == frac[j]);
                }
            }
        }
        i = i + 1;
    }
    if p == start && n <= fstart {
        proof {
            assert forall|q: int| !split_at_point(body, q) by {
                if split_at_point(body, q) {
                    lemma_split_unique(body, pp, q);
                }
            }
        }
        return None;
    }
    proof {
        assert(frac.take(n - fstart) =~= frac);
        if has_point {
            assert(body.skip(pp + 1) =~= frac);
        } else {
            assert(body.take(pp) =~= body);
            assert(frac =~= Seq::<u8>::empty());
        }
        assert(frac_part(body, pp) =~= frac);
        assert(split_at_point(body, pp));
        let q = choose|q: int| split_at_point(body, q);
        lemma_split_unique(body, pp, q);
    }
    let mut frac_acc: u64 = 0;
    let mut k: usize = 0;
    while k < 8
        invariant
            k <= 8,
            fstart <= n,
            n == b@.len(),
            frac == b@.skip(fstart as int),
            frac_acc == frac_prefix_value(frac, k as nat),
            all_digits(frac),
            frac_acc < pow10(k as nat),
        decreases 8 - k,
    {
        proof {
            lemma_pow10_le(k as nat);
            reveal_with_fuel(pow10, 9);
            if k < n - fstart {
                assert(frac[k as int] == b@[fstart + k]);
            }
        }
        let d: u64 = if k < n - fstart {
            (b[fstart + k] - 48) as u64
        } else {
            0
        };
        proof {
            if k < n - fstart {
                assert(frac[k as int] == b@[fstart + k]);
            }
            assert(pow10((k + 1) as nat) == pow10(k as nat) * 10);
            assert(frac_acc * 10 + d < pow10(k as nat) * 10) by (nonlinear_arith)
                requires
                    frac_acc < pow10(k as nat),
                    d <= 9,
            ;
        }
        frac_acc = frac_acc * 10 + d;
        k = k + 1;
    }
    if too_big {
        proof {
            assert(digits_value(body.take(pp)) * SCALE >= (INT_LIMIT + 1) * SCALE) by (nonlinear_arith)
                requires
                    digits_value(body.take(pp)) > INT_LIMIT,
            ;
        }
        return None;
    }
    proof {
        reveal_with_fuel(pow10, 9);
    }
    assert(pow10(8) == 100_000_000);
    let mag: u128 = int_acc as u128 * SCALE as u128 + frac_acc as u128;
    if mag > u64::MAX as u128 {
        return None;
    }
    if neg {
        Some(-(mag as i128))
    } else {
        Some(mag as i128)
    }
}

proof fn lemma_pow10_le(k: nat)
    requires
        k <= 8,
    ensures
        pow10(k) <= pow10(8),
    decreases 8 - k,
{
    if k < 8 {
        lemma_pow10_le(k + 1);
    }
}

pub open spec fn pow10(k: nat) -> nat
    decreases k,
{
    if k == 0 {
        1
    } else {
        pow10((k - 1) as nat) * 10
    }
}

/// Reads a price or quantity; text that is no non-negative decimal within range
/// reads as zero.
pub fn parse_quantity(s: &str) -> (r: u64)
    ensures
        r == quantity_of(s@),
{
    match parse_decimal(s.as_bytes()) {
        Some(v) => if v >= 0 {
            v as u64
        } else {
            0
        },
        None => 0,
    }
}

/// Reads a signed rate; `None` when the text is no decimal within `i64` range.
pub fn parse_rate(s: &str) -> (r: Option<i64>)
    ensures
        r == rate_of(s@),
{
    match parse_decimal(s.as_bytes()) {
        Some(v) => if i64::MIN as i128 <= v && v <= i64::MAX as i128 {
            Some(v as i64)
        } else {
            None
        },
        None => None,
    }
}

} // verus!
