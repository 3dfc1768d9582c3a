//! The exact order of a BigInt and a Number: the BigInt's decimal digits
//! against the Number's exact value, a significand times a power of two,
//! found by halving the digits rather than by rounding either side.
use vstd::prelude::*;
use vstd::arithmetic::power2::{pow2, lemma_pow2_adds, lemma_pow2_pos, lemma2_to64};
use vstd::arithmetic::div_mod::{lemma_div_denominator, lemma_mod_breakdown, lemma_fundamental_div_mod};
use crate::bigint::{
    bigint_value, is_canonical_bigint, is_negative_text, magnitude_text, sign_of, pow10,
    lemma_pow10_grows, lemma_value_concat, lemma_value_at_least, lemma_nonzero_magnitude,
};
use crate::number::{
    is_nan, is_infinite, is_finite, is_zero, is_integral, sign_bit, significand, scale, exponent_field, fraction_field,
    trunc_magnitude, two52, fields, significand_of, number_is_nan, number_is_finite, number_is_zero, number_is_integral,
    trunc_magnitude_u64,
};
use crate::property_keys::{digits_value, is_ascii_digit};
use crate::text::chars_of;

verus! {

/// Every character is an ASCII digit.
pub open spec fn all_digits(s: Seq<char>) -> bool {
    forall|i: int| 0 <= i < s.len() ==> is_ascii_digit(#[trigger] s[i])
}

/// The character of a digit.
fn digit_char_of(d: u32) -> (c: char)
    requires
        d < 10,
    ensures
        is_ascii_digit(c),
        c as nat - '0' as nat == d,
{
    if d == 0 { '0' }
    else if d == 1 { '1' }
    else if d == 2 { '2' }
    else if d == 3 { '3' }
    else if d == 4 { '4' }
    else if d == 5 { '5' }
    else if d == 6 { '6' }
    else if d == 7 { '7' }
    else if d == 8 { '8' }
    else { '9' }
}

/// A prefix of digits is worth no more than the whole.
proof fn lemma_prefix_value(s: Seq<char>, k: int)
    requires
        0 <= k <= s.len(),
    ensures
        digits_value(s.take(k)) <= digits_value(s),
{
    assert(s =~= s.take(k) + s.skip(k));
    lemma_value_concat(s.take(k), s.skip(k));
    lemma_pow10_grows(0, (s.len() - k) as nat);
    let p = pow10((s.len() - k) as nat);
    let a = digits_value(s.take(k));
    assert(a * p >= a) by (nonlinear_arith)
        requires
            p >= 1,
    ;
}

/// Halves a digit text: the quotient's digits (as many, leading zeros
/// kept) and the remainder.
fn halve(ds: &Vec<char>) -> (r: (Vec<char>, u32))
    requires
        all_digits(ds@),
    ensures
        all_digits(r.0@),
        r.0@.len() == ds@.len(),
        r.1 < 2,
        digits_value(ds@) == 2 * digits_value(r.0@) + r.1,
{
    let mut q: Vec<char> = Vec::new();
    let mut rem: u32 = 0;
    let mut i: usize = 0;
    while i < ds.len()
        invariant
            i <= ds@.len(),
            all_digits(ds@),
            all_digits(q@),
            q@.len() == i,
            rem < 2,
            digits_value(ds@.take(i as int)) == 2 * digits_value(q@) + rem,
        decreases ds@.len() - i,
    {
        let c = ds[i];
        assert(is_ascii_digit(ds@[i as int]));
        let d: u32 = (c as u32) - ('0' as u32);
        let t: u32 = 10 * rem + d;
        let qd: u32 = t / 2;
        let ghost q0 = q@;
        let ghost v0 = digits_value(q0);
        assert(ds@.take(i + 1).drop_last() =~= ds@.take(i as int));
        assert(ds@.take(i + 1).last() == c);
        let qc = digit_char_of(qd);
        q.push(qc);
        assert(q@.drop_last() =~= q0);
        assert(digits_value(q@) == v0 * 10 + qd);
        rem = t % 2;
        i = i + 1;
    }
    assert(ds@.take(ds@.len() as int) =~= ds@);
    (q, rem)
}

/// Halves a digit text `s` times: the digits of the value divided by
/// `2^s` (rounded down), and whether that division was exact.
fn halve_times(ds: Vec<char>, s: u64) -> (r: (Vec<char>, bool))
    requires
        all_digits(ds@),
    ensures
        all_digits(r.0@),
        digits_value(r.0@) as int == digits_value(ds@) as int / pow2(s as nat) as int,
        r.1 == (digits_value(ds@) as int % pow2(s as nat) as int == 0),
{
    let ghost x = digits_value(ds@) as int;
    let mut cur = ds;
    let mut exact = true;
    let mut j: u64 = 0;
    proof {
        lemma2_to64();
        assert(x / 1 == x);
        assert(x % 1 == 0);
    }
    while j < s
        invariant
            j <= s,
            x == digits_value(ds@) as int,
            x >= 0,
            all_digits(cur@),
            digits_value(cur@) as int == x / pow2(j as nat) as int,
            exact == (x % pow2(j as nat) as int == 0),
        decreases s - j,
    {
        let (q, r) = halve(&cur);
        proof {
            let p = pow2(j as nat) as int;
            lemma_pow2_pos(j as nat);
            lemma_pow2_adds(j as nat, 1);
            lemma2_to64();
            assert(pow2((j + 1) as nat) as int == p * 2);
            lemma_div_denominator(x, p, 2);
            lemma_mod_breakdown(x, p, 2);
            let c = x / p;
            assert(c == 2 * digits_value(q@) + r);
            assert(c / 2 == digits_value(q@) as int);
            assert(c % 2 == r as int);
            assert(x % p >= 0);
            assert(p * (r as int) >= 0) by (nonlinear_arith)
                requires
                    p > 0,
                    r >= 0,
            ;
            assert(p * (r as int) == 0 <==> r == 0) by (nonlinear_arith)
                requires
                    p > 0,
                    r >= 0,
            ;
        }
        exact = exact && r == 0;
        cur = q;
        j = j + 1;
    }
    (cur, exact)
}

/// The value of a digit text as a `u64`, when it fits.
pub(crate) fn digits_to_u64(ds: &Vec<char>) -> (r: Option<u64>)
    requires
        all_digits(ds@),
    ensures
        match r {
            Some(v) => v == digits_value(ds@),
            None => digits_value(ds@) > u64::MAX,
        },
{
    let mut acc: u64 = 0;
    let mut i: usize = 0;
    while i < ds.len()
        invariant
            i <= ds@.len(),
            all_digits(ds@),
            acc == digits_value(ds@.take(i as int)),
        decreases ds@.len() - i,
    {
        let c = ds[i];
        assert(is_ascii_digit(ds@[i as int]));
        let d: u64 = ((c as u32) - ('0' as u32)) as u64;
        assert(ds@.take(i + 1).drop_last() =~= ds@.take(i as int));
        assert(ds@.take(i + 1).last() == c);
        match acc.checked_mul(10) {
            None => {
                proof {
                    lemma_prefix_value(ds@, i + 1);
                }
                return None;
            },
            Some(a10) => match a10.checked_add(d) {
                None => {
                    proof {
                        lemma_prefix_value(ds@, i + 1);
                    }
                    return None;
                },
                Some(v) => {
                    acc = v;
                },
            },
        }
        i = i + 1;
    }
    assert(ds@.take(ds@.len() as int) =~= ds@);
    Some(acc)
}

/// The order of a natural number and the magnitude of a finite Number,
/// `significand · 2^scale`: -1, 0 or 1 (compared, for a negative scale,
/// after multiplying both sides by `2^-scale`).
pub open spec fn magnitude_order(m: nat, n: u64) -> int {
    if scale(n) >= 0 {
        sign_of(m - significand(n) * pow2(scale(n) as nat))
    } else {
        sign_of(m * pow2((-scale(n)) as nat) - significand(n))
    }
}

/// Compares the value of a digit text with the magnitude of a finite
/// Number.
fn compare_magnitude(ds: Vec<char>, n: u64) -> (r: i8)
    requires
        all_digits(ds@),
        is_finite(n),
    ensures
        r == magnitude_order(digits_value(ds@), n),
{
    let ghost x = digits_value(ds@) as int;
    let (_, e, f) = fields(n);
    let m = significand_of(e, f);
    proof {
        assert(m == significand(n));
    }
    if e >= 1075 {
        let s = e - 1075;
        assert(scale(n) == s);
        let (q, exact) = halve_times(ds, s);
        let ghost p = pow2(s as nat) as int;
        proof {
            lemma_pow2_pos(s as nat);
            lemma_fundamental_div_mod(x, p);
        }
        let ghost qq = x / p;
        let ghost rr = x % p;
        match digits_to_u64(&q) {
            None => {
                proof {
                    assert(x - m * p > 0) by (nonlinear_arith)
                        requires
                            x == p * qq + rr,
                            rr >= 0,
                            qq > m,
                            p > 0,
                    ;
                }
                1
            },
            Some(qv) => {
                if qv > m {
                    proof {
                        assert(x - m * p > 0) by (nonlinear_arith)
                            requires
                                x == p * qq + rr,
                                rr >= 0,
                                qq > m,
                                p > 0,
                        ;
                    }
                    1
                } else if qv < m {
                    proof {
                        assert(x - m * p < 0) by (nonlinear_arith)
                            requires
                                x == p * qq + rr,
                                rr < p,
                                qq < m,
                                p > 0,
                        ;
                    }
                    -1
                } else if exact {
                    proof {
                        assert(x - m * p == 0) by (nonlinear_arith)
                            requires
                                x == p * qq + rr,
                                rr == 0,
                                qq == m,
                        ;
                    }
                    0
                } else {
                    proof {
                        assert(x - m * p > 0) by (nonlinear_arith)
                            requires
                                x == p * qq + rr,
                                rr != 0,
                                rr >= 0,
                                qq == m,
                        ;
                    }
                    1
                }
            },
        }
    } else {
        let ghost k: nat = if e == 0 { 1074 } else { (1075 - e) as nat };
        assert(scale(n) == -k);
        let ghost p = pow2(k) as int;
        proof {
            lemma_pow2_pos(k);
            lemma_fundamental_div_mod(m as int, p);
        }
        let t: u64 = match trunc_magnitude_u64(n) {
            Some(t) => t,
            None => {
                proof {
                    vstd::arithmetic::div_mod::lemma_div_is_ordered_by_denominator(m as int, 1, p);
                }
                0
            },
        };
        assert(t == m as int / p);
        let ghost rr = m as int % p;
        let integral = number_is_integral(n);
        assert(integral == (rr == 0));
        match digits_to_u64(&ds) {
            None => {
                proof {
                    assert(x * p - m > 0) by (nonlinear_arith)
                        requires
                            x > u64::MAX,
                            m <= u64::MAX,
                            p >= 1,
                    ;
                }
                1
            },
            Some(xv) => {
                if xv < t {
                    proof {
                        assert(x * p - m < 0) by (nonlinear_arith)
                            requires
                                m == p * t + rr,
                                rr >= 0,
                                x < t,
                                p > 0,
                        ;
                    }
                    -1
                } else if xv > t {
                    proof {
                        assert(x * p - m > 0) by (nonlinear_arith)
                            requires
                                m == p * t + rr,
                                rr < p,
                                x > t,
                                p > 0,
                        ;
                    }
                    1
                } else if integral {
                    proof {
                        assert(x * p - m == 0) by (nonlinear_arith)
                            requires
                                m == p * t + rr,
                                rr == 0,
                                x == t,
                        ;
                    }
                    0
                } else {
                    proof {
                        assert(x * p - m < 0) by (nonlinear_arith)
                            requires
                                m == p * t + rr,
                                rr != 0,
                                rr >= 0,
                                x == t,
                        ;
                    }
                    -1
                }
            },
        }
    }
}

/// The order of an integer `x` and the exact value of a finite Number:
/// -1, 0 or 1 (compared, for a negative scale, after multiplying both
/// sides by `2^-scale`).
pub open spec fn exact_order(x: int, n: u64) -> int {
    let v = if sign_bit(n) { -significand(n) } else { significand(n) };
    if scale(n) >= 0 {
        sign_of(x - v * pow2(scale(n) as nat))
    } else {
        sign_of(x * pow2((-scale(n)) as nat) - v)
    }
}

/// The order of a BigInt (its canonical text) and a Number: `None` when
/// the Number is NaN; below `+Infinity` and above `-Infinity`; otherwise
/// the order of the two exact values.
pub open spec fn bigint_number_order(d: Seq<char>, n: u64) -> Option<int> {
    if is_nan(n) {
        None
    } else if is_infinite(n) {
        Some(if sign_bit(n) { 1int } else { -1int })
    } else {
        Some(exact_order(bigint_value(d), n))
    }
}

/// Against a Number that is an integer, a BigInt compares as against that
/// integer: equal exactly when it has the Number's value.
pub proof fn law_bigint_meets_an_integral_number_at_its_value(d: Seq<char>, n: u64)
    requires
        is_integral(n),
    ensures
        bigint_number_order(d, n) == Some(sign_of(bigint_value(d) - crate::number::trunc(n))),
{
    let b = bigint_value(d);
    let sig = significand(n);
    let v = if sign_bit(n) { -sig } else { sig };
    let t = crate::number::trunc(n);
    if scale(n) >= 0 {
        let p = pow2(scale(n) as nat) as int;
        assert(v * p == t) by (nonlinear_arith)
            requires
                v == sig || v == -sig,
                sign_bit(n) ==> v == -sig && t == -(sig * p),
                !sign_bit(n) ==> v == sig && t == sig * p,
        ;
    } else {
        let p = pow2((-scale(n)) as nat) as int;
        lemma_pow2_pos((-scale(n)) as nat);
        lemma_fundamental_div_mod(sig, p);
        let tm = sig / p;
        assert(sig == p * tm);
        assert(v == p * t) by (nonlinear_arith)
            requires
                sig == p * tm,
                sign_bit(n) ==> v == -sig && t == -tm,
                !sign_bit(n) ==> v == sig && t == tm,
        ;
        assert(sign_of(b * p - v) == sign_of(b - t)) by (nonlinear_arith)
            requires
                v == p * t,
                p > 0,
        ;
    }
}

/// Compares a BigInt, given by its canonical text, with a Number: -1, 0 or
/// 1, or `None` when the Number is NaN.
pub fn compare_bigint_number(d: &str, n: u64) -> (r: Option<i8>)
    requires
        is_canonical_bigint(d@),
    ensures
        match bigint_number_order(d@, n) {
            Some(o) => r == Some(o as i8),
            None => r is None,
        },
{
    if number_is_nan(n) {
        return None;
    }
    if !number_is_finite(n) {
        return Some(if n >= 0x8000_0000_0000_0000 { 1 } else { -1 });
    }
    let mut cs = chars_of(d);
    let neg = cs.len() > 0 && cs[0] == '-';
    if neg {
        cs.remove(0);
    }
    let ghost mt = magnitude_text(d@);
    assert(cs@ =~= mt);
    let zero_b = cs.len() == 1 && cs[0] == '0';
    proof {
        lemma_nonzero_magnitude(d@);
        if zero_b {
            assert(mt =~= seq!['0']);
            assert(mt.drop_last() =~= Seq::<char>::empty());
            assert(mt.last() == '0');
            assert(digits_value(mt.drop_last()) == 0);
            assert(digits_value(mt) == 0);
        } else if !neg {
            lemma_value_at_least(mt);
            lemma_pow10_grows(0, (mt.len() - 1) as nat);
        }
    }
    let ghost mv = digits_value(mt) as int;
    let ghost b = bigint_value(d@);
    assert(neg ==> b == -mv && mv > 0);
    assert(!neg && zero_b ==> b == 0);
    assert(!neg && !zero_b ==> b == mv && mv > 0);
    let sb: i8 = if neg { -1 } else if zero_b { 0 } else { 1 };
    let (negx, e, f) = fields(n);
    let sx: i8 = if number_is_zero(n) { 0 } else if negx { -1 } else { 1 };
    let ghost sig = significand(n);
    let ghost v = if sign_bit(n) { -sig } else { sig };
    assert(sx == 0 ==> v == 0);
    assert(sx > 0 ==> v > 0);
    assert(sx < 0 ==> v < 0);
    proof {
        if scale(n) >= 0 {
            let p = pow2(scale(n) as nat) as int;
            lemma_pow2_pos(scale(n) as nat);
            assert(v > 0 ==> v * p > 0) by (nonlinear_arith)
                requires
                    p > 0,
            ;
            assert(v < 0 ==> v * p < 0) by (nonlinear_arith)
                requires
                    p > 0,
            ;
            assert(v == 0 ==> v * p == 0) by (nonlinear_arith);
            assert(v * p == -(sig * p) || v * p == sig * p) by (nonlinear_arith)
                requires
                    v == -sig || v == sig,
            ;
            assert(sign_bit(n) ==> v * p == -(sig * p)) by (nonlinear_arith)
                requires
                    sign_bit(n) ==> v == -sig,
            ;
        } else {
            let p = pow2((-scale(n)) as nat) as int;
            lemma_pow2_pos((-scale(n)) as nat);
            assert(b > 0 ==> b * p > 0) by (nonlinear_arith)
                requires
                    p > 0,
            ;
            assert(b < 0 ==> b * p < 0) by (nonlinear_arith)
                requires
                    p > 0,
            ;
            assert(b == 0 ==> b * p == 0) by (nonlinear_arith);
            assert(neg ==> b * p == -(mv * p)) by (nonlinear_arith)
                requires
                    neg ==> b == -mv,
            ;
        }
    }
    if sb != sx {
        return Some(if sb < sx { -1 } else { 1 });
    }
    if sb == 0 {
        return Some(0);
    }
    let o = compare_magnitude(cs, n);
    Some(if sb > 0 { o } else { -o })
}

} // verus!
