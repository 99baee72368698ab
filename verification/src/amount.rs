//! Money amounts as fixed-point counts of hundredths, with parsing of the
//! signed decimal layout used by upload rows: an optional sign, up to sixteen
//! integer digits, and an optional dot with one or two fraction digits.

use crate::date::{digit_val, is_digit};
use vstd::prelude::*;

verus! {

/// A money amount held as a count of hundredths of the unit.
#[derive(Clone, Copy, Debug, PartialEq, Eq, Structural, Hash)]
pub struct Amount {
    pub cents: i64,
}

/// Exclusive bound on the magnitude of any parsed amount, in hundredths:
/// sixteen integer digits and two fraction digits at most.
pub open spec fn amount_limit() -> int {
    1000000000000000000
}

pub open spec fn all_digits(s: Seq<u8>) -> bool {
    forall|i: int| 0 <= i < s.len() ==> is_digit(s[i])
}

pub open spec fn digits_value(s: Seq<u8>) -> int
    decreases s.len(),
{
    if s.len() == 0 {
        0
    } else {
        digits_value(s.drop_last()) * 10 + digit_val(s.last())
    }
}

pub open spec fn pow10(n: nat) -> int
    decreases n,
{
    if n == 0 {
        1
    } else {
        10 * pow10((n - 1) as nat)
    }
}

pub open spec fn dot_free(s: Seq<u8>) -> bool {
    forall|i: int| 0 <= i < s.len() ==> s[i] != 46u8
}

pub open spec fn first_dot(s: Seq<u8>) -> int
    decreases s.len(),
{
    if s.len() == 0 {
        0
    } else if s[0] == 46u8 {
        0
    } else {
        1 + first_dot(s.skip(1))
    }
}

pub open spec fn frac_cents(fp: Seq<u8>) -> int {
    if fp.len() == 1 {
        digit_val(fp[0]) * 10
    } else {
        digit_val(fp[0]) * 10 + digit_val(fp[1])
    }
}

/// Hundredths denoted by an unsigned decimal body.
pub open spec fn spec_decimal_cents(body: Seq<u8>) -> Option<int> {
    if body.len() == 0 {
        None
    } else if dot_free(body) {
        if all_digits(body) && body.len() <= 16 {
            Some(digits_value(body) * 100)
        } else {
            None
        }
    } else {
        let k = first_dot(body);
        let ip = body.take(k);
        let fp = body.skip(k + 1);
        if 1 <= ip.len() <= 16 && all_digits(ip) && 1 <= fp.len() <= 2 && all_digits(fp) {
            Some(digits_value(ip) * 100 + frac_cents(fp))
        } else {
            None
        }
    }
}

/// What a field must look like to be accepted as an amount, and the value in
/// hundredths that it denotes.
pub open spec fn spec_parse_amount(s: Seq<u8>) -> Option<int> {
    if s.len() > 0 && (s[0] == 43u8 || s[0] == 45u8) {
        match spec_decimal_cents(s.skip(1)) {
            Some(v) => Some(
                if s[0] == 45u8 {
                    -v
                } else {
                    v
                },
            ),
            None => None,
        }
    } else {
        spec_decimal_cents(s)
    }
}

proof fn lemma_pow10_pos(n: nat)
    ensures
        0 < pow10(n),
    decreases n,
{
    if n > 0 {
        lemma_pow10_pos((n - 1) as nat);
    }
}

proof fn lemma_pow10_mono(a: nat, b: nat)
    requires
        a <= b,
    ensures
        0 < pow10(a) <= pow10(b),
    decreases b,
{
    lemma_pow10_pos(a);
    if a < b {
        lemma_pow10_mono(a, (b - 1) as nat);
        lemma_pow10_pos((b - 1) as nat);
    }
}

proof fn lemma_digits_value_bound(s: Seq<u8>)
    requires
        all_digits(s),
    ensures
        0 <= digits_value(s) < pow10(s.len() as nat),
    decreases s.len(),
{
    if s.len() == 0 {
    } else {
        assert(forall|i: int|
            0 <= i < s.len() - 1 ==> #[trigger] s.drop_last()[i] == s[i] && is_digit(
                s.drop_last()[i],
            ));
        lemma_digits_value_bound(s.drop_last());
        assert(is_digit(s.last()));
    }
}

proof fn lemma_first_dot_props(s: Seq<u8>)
    requires
        !dot_free(s),
    ensures
        0 <= first_dot(s) < s.len(),
        s[first_dot(s)] == 46u8,
        forall|j: int| 0 <= j < first_dot(s) ==> s[j] != 46u8,
    decreases s.len(),
{
    let w = choose|i: int| 0 <= i < s.len() && s[i] == 46u8;
    assert(0 <= w < s.len() && s[w] == 46u8);
    if s[0] == 46u8 {
    } else {
        assert(s.skip(1)[w - 1] == s[w]);
        assert(!dot_free(s.skip(1)));
        lemma_first_dot_props(s.skip(1));
        assert(first_dot(s) == 1 + first_dot(s.skip(1)));
        assert(s[first_dot(s)] == s.skip(1)[first_dot(s.skip(1))]);
        assert forall|j: int| 0 <= j < first_dot(s) implies s[j] != 46u8 by {
            if j >= 1 {
                assert(s.skip(1)[j - 1] == s[j]);
            }
        }
    }
}

/// Every amount that the grammar accepts lies strictly within
/// [`amount_limit`] of zero.
pub proof fn lemma_parse_amount_bound(s: Seq<u8>)
    ensures
        match spec_parse_amount(s) {
            Some(v) => -amount_limit() < v < amount_limit(),
            None => true,
        },
{
    let body = if s.len() > 0 && (s[0] == 43u8 || s[0] == 45u8) {
        s.skip(1)
    } else {
        s
    };
    if spec_decimal_cents(body) is Some {
        assert(pow10(16) == 10000000000000000) by {
            reveal_with_fuel(pow10, 17);
        }
        if dot_free(body) {
            lemma_digits_value_bound(body);
            lemma_pow10_mono(body.len() as nat, 16);
        } else {
            let k = first_dot(body);
            let ip = body.take(k);
            let fp = body.skip(k + 1);
            if 1 <= ip.len() <= 16 && all_digits(ip) && 1 <= fp.len() <= 2 && all_digits(fp) {
                lemma_digits_value_bound(ip);
                lemma_pow10_mono(ip.len() as nat, 16);
                assert(is_digit(fp[0]));
                assert(0 <= frac_cents(fp) <= 99);
            }
        }
    }
}

pub fn parse_amount(s: &Vec<u8>) -> (r: Option<Amount>)
    ensures
        match spec_parse_amount(s@) {
            Some(v) => r == Some(Amount { cents: v as i64 }) && -amount_limit() < v
                < amount_limit(),
            None => r is None,
        },
{
    let n = s.len();
    if n == 0 {
        return None;
    }
    let neg = s[0] == 45u8;
    let start: usize = if s[0] == 45u8 || s[0] == 43u8 {
        1
    } else {
        0
    };
    let ghost body = s@.subrange(start as int, n as int);
    proof {
        if start == 1 {
            assert(body =~= s@.skip(1));
        } else {
            assert(body =~= s@);
        }
    }
    let mut i: usize = start;
    let mut acc: u64 = 0;
    while i < n && s[i] >= 48u8 && s[i] <= 57u8
        invariant
            start <= i <= n,
            n == s@.len(),
            n > 0,
            neg == (s@[0] == 45u8),
            body == s@.subrange(start as int, n as int),
            if s@[0] == 43u8 || s@[0] == 45u8 {
                start == 1 && body == s@.skip(1)
            } else {
                start == 0 && body == s@
            },
            all_digits(s@.subrange(start as int, i as int)),
            acc == digits_value(s@.subrange(start as int, i as int)),
            i - start <= 16,
            acc < pow10((i - start) as nat),
        decreases n - i,
    {
        let ghost pre = s@.subrange(start as int, i as int);
        if i - start == 16 {
            // A seventeenth integer digit: the integer part is too long in
            // every reading of the remainder of the field.
            proof {
                assert(forall|j: int|
                    0 <= j < 17 ==> is_digit(#[trigger] body[j]) && body[j] != 46u8) by {
                    assert(forall|j: int|
                        0 <= j < 16 ==> body[j] == #[trigger] pre[j] && is_digit(pre[j]));
                    assert(body[16] == s@[i as int]);
                };
                if !dot_free(body) {
                    lemma_first_dot_props(body);
                    assert(first_dot(body) >= 17);
                    assert(body.take(first_dot(body)).len() > 16);
                }
            }
            return None;
        }
        let d = s[i] - 48;
        proof {
            lemma_digits_value_bound(pre);
            lemma_pow10_mono((i - start) as nat, 16);
            assert(pow10(16) == 10000000000000000) by {
                reveal_with_fuel(pow10, 17);
            }
            assert(s@.subrange(start as int, i as int + 1) =~= pre.push(s@[i as int]));
            assert(pre.push(s@[i as int]).drop_last() =~= pre);
        }
        acc = acc * 10 + (d as u64);
        i += 1;
    }
    let count = i - start;
    let ghost ip_scanned = s@.subrange(start as int, i as int);
    if count == 0 {
        // Empty integer part: either an empty body, or a body that opens with
        // a dot or another non-digit byte.
        proof {
            if body.len() > 0 {
                assert(body[0] == s@[start as int]);
                if !dot_free(body) {
                    lemma_first_dot_props(body);
                    if first_dot(body) > 0 {
                        assert(body.take(first_dot(body))[0] == body[0]);
                    }
                }
            }
        }
        return None;
    }
    proof {
        lemma_digits_value_bound(ip_scanned);
        lemma_pow10_mono(count as nat, 16);
        assert(pow10(16) == 10000000000000000) by {
            reveal_with_fuel(pow10, 17);
        }
        assert(forall|j: int|
            0 <= j < count ==> body[j] == #[trigger] ip_scanned[j] && is_digit(ip_scanned[j])
                && ip_scanned[j] != 46u8);
    }
    if i == n {
        // No fraction: the whole body is the integer part.
        proof {
            assert(body =~= ip_scanned);
        }
        let total: u64 = acc * 100;
        let cents: i64 = if neg {
            -(total as i64)
        } else {
            total as i64
        };
        return Some(Amount { cents });
    }
    let sep = s[i];
    if sep != 46u8 {
        // A byte that is neither digit nor dot ends every accepted shape.
        proof {
            assert(body[i - start] == s@[i as int]);
            if !dot_free(body) {
                lemma_first_dot_props(body);
                assert(first_dot(body) > i - start);
                assert(body.take(first_dot(body))[i - start] == body[i - start]);
            }
        }
        return None;
    }
    proof {
        assert(body[i - start] == s@[i as int]);
        assert(!dot_free(body));
        lemma_first_dot_props(body);
        assert(first_dot(body) == i - start);
        assert(body.take(i - start) =~= ip_scanned);
        assert(body.skip(i - start + 1) =~= s@.subrange(i as int + 1, n as int));
    }
    let ghost fp = s@.subrange(i as int + 1, n as int);
    let fs = i + 1;
    let flen = n - fs;
    if flen < 1 || flen > 2 {
        return None;
    }
    let d1 = s[fs];
    if d1 < 48u8 || d1 > 57u8 {
        proof {
            assert(fp[0] == s@[fs as int]);
        }
        return None;
    }
    let mut frac: u64 = ((d1 - 48) as u64) * 10;
    if flen == 2 {
        let d2 = s[fs + 1];
        if d2 < 48u8 || d2 > 57u8 {
            proof {
                assert(fp[1] == s@[fs as int + 1]);
            }
            return None;
        }
        frac = frac + (d2 - 48) as u64;
    }
    proof {
        assert(all_digits(fp)) by {
            assert(forall|j: int| 0 <= j < fp.len() ==> fp[j] == s@[fs + j]);
        }
    }
    let total: u64 = acc * 100 + frac;
    let cents: i64 = if neg {
        -(total as i64)
    } else {
        total as i64
    };
    Some(Amount { cents })
}

} // verus!
