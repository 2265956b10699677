//! Decimal numbers on the wire: parsing and formatting byte strings.

use vstd::prelude::*;

verus! {

/// An ASCII decimal digit.
pub open spec fn is_digit(b: u8) -> bool {
    48 <= b <= 57
}

/// The numeric value of a digit byte.
pub open spec fn digit_val(b: u8) -> nat {
    (b - 48) as nat
}

/// Every byte of `s` is a digit.
pub open spec fn all_digits(s: Seq<u8>) -> bool {
    forall|i: int| 0 <= i < s.len() ==> is_digit(#[trigger] s[i])
}

/// The value of a digit string, most significant digit first.
pub open spec fn dec_val(s: Seq<u8>) -> nat
    decreases s.len(),
{
    if s.len() == 0 {
        0
    } else {
        dec_val(s.drop_last()) * 10 + digit_val(s.last())
    }
}

/// The digit part of an unsigned number: everything after one optional
/// leading plus sign.
pub open spec fn u64_digits(s: Seq<u8>) -> Seq<u8> {
    if s.len() > 0 && s[0] == 43 {
        s.drop_first()
    } else {
        s
    }
}

/// `s` is a well-formed unsigned decimal whose value fits in a `u64`.
pub open spec fn is_u64_text(s: Seq<u8>) -> bool {
    let d = u64_digits(s);
    &&& d.len() > 0
    &&& all_digits(d)
    &&& dec_val(d) <= u64::MAX
}

/// The digit part of a signed number: everything after one optional sign.
pub open spec fn int_digits(s: Seq<u8>) -> Seq<u8> {
    if s.len() > 0 && (s[0] == 43 || s[0] == 45) {
        s.drop_first()
    } else {
        s
    }
}

/// The sign of a signed decimal text.
pub open spec fn int_sign(s: Seq<u8>) -> int {
    if s.len() > 0 && s[0] == 45 {
        -1
    } else {
        1
    }
}

/// The value of a signed decimal text.
pub open spec fn int_val(s: Seq<u8>) -> int {
    int_sign(s) * dec_val(int_digits(s))
}

/// `s` is a well-formed signed decimal whose value fits in an `i64`.
pub open spec fn is_i64_text(s: Seq<u8>) -> bool {
    let d = int_digits(s);
    &&& d.len() > 0
    &&& all_digits(d)
    &&& i64::MIN <= int_val(s) <= i64::MAX
}

/// Values of digit-string prefixes never shrink as the prefix grows.
proof fn lemma_dec_val_prefix_monotone(s: Seq<u8>, a: int, b: int)
    requires
        0 <= a <= b <= s.len(),
    ensures
        dec_val(s.take(a)) <= dec_val(s.take(b)),
    decreases b - a,
{
    if a < b {
        lemma_dec_val_prefix_monotone(s, a, b - 1);
        assert(s.take(b).drop_last() =~= s.take(b - 1));
        assert(dec_val(s.take(b)) == dec_val(s.take(b - 1)) * 10 + digit_val(s.take(b).last()));
        assert(dec_val(s.take(b - 1)) * 10 >= dec_val(s.take(b - 1))) by (nonlinear_arith);
    }
}

/// Accumulating digits left to right computes `dec_val`, one digit at a
/// time; the core of both parsers.
fn accumulate_digits(s: &Vec<u8>, start: usize, bound: u64) -> (r: Option<u64>)
    requires
        start <= s@.len(),
        bound >= 9,
    ensures
        match r {
            Some(v) => {
                &&& all_digits(s@.skip(start as int))
                &&& s@.len() > start
                &&& v == dec_val(s@.skip(start as int))
                &&& v <= bound
            },
            None => s@.len() == start || !all_digits(s@.skip(start as int)) || dec_val(
                s@.skip(start as int),
            ) > bound,
        },
{
    let ghost d = s@.skip(start as int);
    let n = s.len();
    if start >= n {
        return None;
    }
    let mut acc: u64 = 0;
    let mut i: usize = start;
    while i < n
        invariant
            d == s@.skip(start as int),
            start <= i <= n,
            n == s@.len(),
            bound >= 9,
            forall|j: int| 0 <= j < i - start ==> is_digit(#[trigger] d[j]),
            acc == dec_val(d.take(i - start)),
            acc <= bound,
        decreases n - i,
    {
        let b = s[i];
        proof {
            assert(d[i - start] == s@[i as int]);
        }
        if b < 48 || b > 57 {
            proof {
                assert(!is_digit(d[i - start]));
            }
            return None;
        }
        let digit = (b - 48) as u64;
        proof {
            assert(d.take(i - start + 1).drop_last() =~= d.take(i - start));
            assert(d.take(i - start + 1).last() == d[i - start]);
        }
        if acc > (bound - digit) / 10 {
            proof {
                assert(acc * 10 + digit > bound) by (nonlinear_arith)
                    requires
                        acc > (bound - digit) / 10,
                        digit <= bound,
                ;
                assert(dec_val(d.take(i - start + 1)) > bound);
                lemma_dec_val_prefix_monotone(d, i - start + 1, d.len() as int);
                assert(d.take(d.len() as int) =~= d);
            }
            return None;
        }
        proof {
            assert(acc * 10 + digit <= bound) by (nonlinear_arith)
                requires
                    acc <= (bound - digit) / 10,
                    digit <= bound,
            ;
        }
        acc = acc * 10 + digit;
        i += 1;
    }
    proof {
        assert(d.take(d.len() as int) =~= d);
    }
    Some(acc)
}

/// Parses an unsigned decimal: one optional `+`, then digits, value within
/// `u64`. Reports exactly the well-formed texts.
pub fn parse_u64(s: &Vec<u8>) -> (r: Option<u64>)
    ensures
        match r {
            Some(v) => is_u64_text(s@) && v == dec_val(u64_digits(s@)),
            None => !is_u64_text(s@),
        },
{
    let start: usize = if s.len() > 0 && s[0] == 43 {
        1
    } else {
        0
    };
    proof {
        assert(u64_digits(s@) =~= s@.skip(start as int));
    }
    accumulate_digits(s, start, u64::MAX)
}

/// Parses a signed decimal: one optional `+` or `-`, then digits, value
/// within `i64`. Reports exactly the well-formed texts.
pub fn parse_i64(s: &Vec<u8>) -> (r: Option<i64>)
    ensures
        match r {
            Some(v) => is_i64_text(s@) && v == int_val(s@),
            None => !is_i64_text(s@),
        },
{
    let negative = s.len() > 0 && s[0] == 45;
    let start: usize = if s.len() > 0 && (s[0] == 43 || s[0] == 45) {
        1
    } else {
        0
    };
    proof {
        assert(int_digits(s@) =~= s@.skip(start as int));
    }
    let bound: u64 = if negative {
        9223372036854775808u64
    } else {
        9223372036854775807u64
    };
    match accumulate_digits(s, start, bound) {
        None => None,
        Some(mag) => {
            if negative {
                if mag == 9223372036854775808u64 {
                    Some(i64::MIN)
                } else {
                    Some(-(mag as i64))
                }
            } else {
                Some(mag as i64)
            }
        },
    }
}

/// Addition that stops at the top of the range; deadlines saturate rather
/// than wrap.
pub open spec fn sat_add(a: u64, b: u64) -> u64 {
    if a + b > u64::MAX {
        u64::MAX
    } else {
        (a + b) as u64
    }
}

/// Computes `a + b`, saturating at the top of the range.
pub fn sat_add_u64(a: u64, b: u64) -> (r: u64)
    ensures
        r == sat_add(a, b),
{
    if b > u64::MAX - a {
        u64::MAX
    } else {
        a + b
    }
}

/// The canonical decimal digits of `n`: no leading zero except for zero
/// itself.
pub open spec fn dec_digits(n: nat) -> Seq<u8>
    decreases n,
{
    if n < 10 {
        seq![(48 + n) as u8]
    } else {
        dec_digits(n / 10).push((48 + n % 10) as u8)
    }
}

/// The canonical signed decimal text of `n`.
pub open spec fn dec_int(n: int) -> Seq<u8> {
    if n < 0 {
        seq![45u8] + dec_digits((-n) as nat)
    } else {
        dec_digits(n as nat)
    }
}

/// Formats `n` as decimal digits.
pub fn u64_to_dec(n: u64) -> (r: Vec<u8>)
    ensures
        r@ == dec_digits(n as nat),
    decreases n,
{
    if n < 10 {
        let mut v: Vec<u8> = Vec::new();
        v.push(48 + n as u8);
        proof {
            assert(v@ =~= dec_digits(n as nat));
        }
        v
    } else {
        let mut v = u64_to_dec(n / 10);
        v.push(48 + (n % 10) as u8);
        v
    }
}

/// Formats `n` as a signed decimal text.
pub fn i64_to_dec(n: i64) -> (r: Vec<u8>)
    ensures
        r@ == dec_int(n as int),
{
    if n >= 0 {
        u64_to_dec(n as u64)
    } else {
        let mag: u64 = ((-(n + 1)) as u64) + 1;
        proof {
            assert(mag == -(n as int));
        }
        let mut v: Vec<u8> = Vec::new();
        v.push(45u8);
        let d = u64_to_dec(mag);
        crate::bytes::append_bytes(&mut v, &d);
        proof {
            assert(v@ =~= dec_int(n as int));
        }
        v
    }
}

} // verus!
