//! JavaScript numbers: IEEE 754 binary64 values held by their bit pattern,
//! with the exact integer questions the runtime asks of them (is it NaN or
//! zero, is it an integer, what does truncation toward zero give) and the
//! numbers of small integers.
use vstd::prelude::*;
use vstd::arithmetic::power2::{pow2, lemma_pow2_adds, lemma_pow2_pos, lemma_pow2_strictly_increases, lemma2_to64};
use vstd::arithmetic::div_mod::{lemma_basic_div, lemma_small_mod, lemma_mod_multiples_basic, lemma_div_by_multiple, lemma_fundamental_div_mod_converse};
use vstd::bits::{lemma_u64_shl_is_mul, lemma_u64_pow2_no_overflow};

verus! {

// ------------------------------------------------------------ the fields

/// 2^52, the weight of the lowest exponent bit.
pub open spec fn two52() -> int {
    0x10_0000_0000_0000
}

/// 2^63, the weight of the sign bit.
pub open spec fn two63() -> int {
    0x8000_0000_0000_0000
}

/// The sign bit is set.
pub open spec fn sign_bit(b: u64) -> bool {
    b as int >= two63()
}

/// The biased exponent, 0 to 2047.
pub open spec fn exponent_field(b: u64) -> int {
    (b as int / two52()) % 2048
}

/// The 52 fraction bits.
pub open spec fn fraction_field(b: u64) -> int {
    b as int % two52()
}

pub open spec fn is_nan(b: u64) -> bool {
    exponent_field(b) == 2047 && fraction_field(b) != 0
}

pub open spec fn is_infinite(b: u64) -> bool {
    exponent_field(b) == 2047 && fraction_field(b) == 0
}

pub open spec fn is_finite(b: u64) -> bool {
    exponent_field(b) != 2047
}

/// `+0` or `-0`.
pub open spec fn is_zero(b: u64) -> bool {
    exponent_field(b) == 0 && fraction_field(b) == 0
}

/// The integer significand: a finite number is `±significand · 2^scale`.
pub open spec fn significand(b: u64) -> int {
    if exponent_field(b) == 0 {
        fraction_field(b)
    } else {
        fraction_field(b) + two52()
    }
}

/// The power of two that weighs the significand.
pub open spec fn scale(b: u64) -> int {
    if exponent_field(b) == 0 {
        -1074
    } else {
        exponent_field(b) - 1075
    }
}

/// A finite number with no fractional part (`x.fract() == 0.0`).
pub open spec fn is_integral(b: u64) -> bool {
    is_finite(b) && (scale(b) >= 0 || significand(b) % (pow2((-scale(b)) as nat) as int) == 0)
}

/// The magnitude of a finite number, truncated toward zero.
pub open spec fn trunc_magnitude(b: u64) -> int {
    if scale(b) >= 0 {
        significand(b) * pow2(scale(b) as nat)
    } else {
        significand(b) / (pow2((-scale(b)) as nat) as int)
    }
}

/// A finite number truncated toward zero (`x.trunc()`).
pub open spec fn trunc(b: u64) -> int {
    if sign_bit(b) {
        -trunc_magnitude(b)
    } else {
        trunc_magnitude(b)
    }
}

/// `x as i64`: NaN gives 0, anything else is truncated toward zero and
/// saturated to the range of `i64`.
pub open spec fn to_i64_saturating(b: u64) -> int {
    if is_nan(b) {
        0
    } else if is_infinite(b) {
        if sign_bit(b) { i64::MIN as int } else { i64::MAX as int }
    } else if trunc(b) < i64::MIN {
        i64::MIN as int
    } else if trunc(b) > i64::MAX {
        i64::MAX as int
    } else {
        trunc(b)
    }
}

/// `x as u32`: NaN gives 0, anything else is truncated toward zero and
/// saturated to the range of `u32`.
pub open spec fn to_u32_saturating(b: u64) -> int {
    if is_nan(b) {
        0
    } else if is_infinite(b) {
        if sign_bit(b) { 0 } else { u32::MAX as int }
    } else if trunc(b) < 0 {
        0
    } else if trunc(b) > u32::MAX {
        u32::MAX as int
    } else {
        trunc(b)
    }
}

/// ToUint32 (§7.1.7): 0 for NaN, the zeros and the infinities, else the
/// number truncated toward zero, modulo 2^32.
pub open spec fn to_uint32(b: u64) -> int {
    if is_nan(b) || is_zero(b) || is_infinite(b) {
        0
    } else {
        trunc(b) % 0x1_0000_0000
    }
}

/// The product `n * x` of an integer `n` and a number `x`, rounded to the
/// nearest double as `f64` multiplication rounds it, exceeds 2^29: exactly
/// when `n * x` exceeds `2^29 + 2^-24`, the midpoint between 2^29 and the
/// next double (a product at the midpoint rounds to the even 2^29). Scaled
/// by 2^24 this compares `n * significand * 2^(scale + 24)` with `2^53 + 1`.
pub open spec fn rounded_product_exceeds_2_29(n: nat, b: u64) -> bool {
    let k = scale(b) + 24;
    if k >= 0 {
        n * significand(b) * pow2(k as nat) > 2 * two52() + 1
    } else {
        n * significand(b) > (2 * two52() + 1) * pow2((-k) as nat)
    }
}

/// IEEE equality (`==` on `f64`): NaN equals nothing, and the two zeros are
/// equal.
pub open spec fn num_eq(a: u64, b: u64) -> bool {
    !is_nan(a) && !is_nan(b) && (a == b || (is_zero(a) && is_zero(b)))
}

/// `b` is the number of the integer `k`.
pub open spec fn denotes_int(b: u64, k: int) -> bool {
    is_integral(b) && trunc(b) == k
}

/// A finite integer `x` with `i64::MIN as f64 <= x <= i64::MAX as f64`, that
/// is with `-2^63 <= x <= 2^63` (`i64::MAX as f64` rounds up to `2^63`).
pub open spec fn is_i64_range_integer(b: u64) -> bool {
    is_integral(b) && -two63() <= trunc(b) <= two63()
}

/// A number whose product with a positive integer stays within 2^29 (as
/// rounded) truncates to less than 2^53.
pub proof fn lemma_bounded_product_bounds_trunc(n: nat, b: u64)
    requires
        n >= 1,
        is_finite(b),
        !rounded_product_exceeds_2_29(n, b),
    ensures
        trunc_magnitude(b) < 2 * two52(),
{
    lemma2_to64();
    assert(pow2(52) == two52()) by {
        lemma_pow2_adds(32, 20);
        lemma_pow2_adds(16, 4);
    }
    let m = significand(b);
    let sc = scale(b);
    assert(0 <= m < 2 * two52());
    if sc >= 0 {
        let k = (sc + 24) as nat;
        lemma_pow2_adds(sc as nat, 24);
        assert(pow2(24) == 0x100_0000) by {
            lemma_pow2_adds(16, 8);
        }
        let ps = pow2(sc as nat);
        assert(m * ps * 0x100_0000 <= n * m * pow2(k)) by (nonlinear_arith)
            requires
                n >= 1,
                m >= 0,
                ps >= 0,
                pow2(k) == ps * 0x100_0000,
        ;
        assert(m * ps < 2 * two52()) by (nonlinear_arith)
            requires
                m * ps * 0x100_0000 <= 2 * two52() + 1,
                m >= 0,
                ps >= 0,
        ;
    } else {
        let j = (-sc) as nat;
        lemma_pow2_pos(j);
        vstd::arithmetic::div_mod::lemma_div_is_ordered_by_denominator(m, 1, pow2(j) as int);
        assert(m / 1 == m);
    }
}

// ------------------------------------------------------------- exec

/// The sign bit, biased exponent and fraction of a number.
pub(crate) fn fields(b: u64) -> (r: (bool, u64, u64))
    ensures
        r.0 == sign_bit(b),
        r.1 == exponent_field(b),
        r.2 == fraction_field(b),
        r.1 < 2048,
        r.2 < two52(),
{
    (b >= 0x8000_0000_0000_0000, (b / 0x10_0000_0000_0000) % 2048, b % 0x10_0000_0000_0000)
}

/// The significand of a number with the given fields.
pub(crate) fn significand_of(e: u64, f: u64) -> (m: u64)
    requires
        e < 2048,
        f < two52(),
    ensures
        m == (if e == 0 { f as int } else { f + two52() }),
        m < 2 * two52(),
{
    if e == 0 { f } else { f + 0x10_0000_0000_0000 }
}

/// `2^k` for `k < 64`.
fn pow2_u64(k: u64) -> (p: u64)
    requires
        k < 64,
    ensures
        p == pow2(k as nat),
        p > 0,
{
    proof {
        lemma_pow2_pos(k as nat);
        lemma_u64_pow2_no_overflow(k as nat);
        lemma_u64_shl_is_mul(1, k);
    }
    1u64 << k
}

/// The number NaN (the bit pattern of `f64::NAN`).
pub fn nan() -> (b: u64)
    ensures
        is_nan(b),
{
    0x7ff8_0000_0000_0000
}

/// The number `-1`.
pub fn minus_one() -> (b: u64)
    ensures
        denotes_int(b, -1),
        sign_bit(b),
{
    let b: u64 = 0xbff0_0000_0000_0000;
    proof {
        assert(exponent_field(b) == 1023);
        assert(fraction_field(b) == 0);
        assert(pow2(52) == two52()) by {
            lemma2_to64();
            lemma_pow2_adds(32, 20);
            lemma_pow2_adds(16, 4);
        }
        lemma_mod_multiples_basic(1, two52());
        lemma_div_by_multiple(1, two52());
    }
    b
}

pub fn number_is_nan(b: u64) -> (r: bool)
    ensures
        r == is_nan(b),
{
    let (_, e, f) = fields(b);
    e == 2047 && f != 0
}

pub fn number_is_finite(b: u64) -> (r: bool)
    ensures
        r == is_finite(b),
{
    let (_, e, _) = fields(b);
    e != 2047
}

pub fn number_is_zero(b: u64) -> (r: bool)
    ensures
        r == is_zero(b),
{
    let (_, e, f) = fields(b);
    e == 0 && f == 0
}

/// The sign bit is set (`!x.is_sign_positive()`).
pub fn number_is_sign_negative(b: u64) -> (r: bool)
    ensures
        r == sign_bit(b),
{
    b >= 0x8000_0000_0000_0000
}

/// `x == y` on numbers.
pub fn number_eq(a: u64, b: u64) -> (r: bool)
    ensures
        r == num_eq(a, b),
{
    if number_is_nan(a) || number_is_nan(b) {
        false
    } else {
        a == b || (number_is_zero(a) && number_is_zero(b))
    }
}

/// The truncated magnitude of a finite number, when it fits in a `u64`.
pub fn trunc_magnitude_u64(b: u64) -> (r: Option<u64>)
    requires
        is_finite(b),
    ensures
        match r {
            Some(t) => t == trunc_magnitude(b),
            None => trunc_magnitude(b) > u64::MAX,
        },
{
    let (_, e, f) = fields(b);
    let m = significand_of(e, f);
    if e >= 1087 {
        proof {
            let s = (e - 1075) as nat;
            lemma2_to64();
            if s > 12 {
                lemma_pow2_strictly_increases(12, s);
            }
            assert(pow2(12) == 4096) by {
                lemma_pow2_adds(8, 4);
            }
            let p = pow2(s);
            assert(m * p >= two52() * 4096) by (nonlinear_arith)
                requires
                    m >= two52(),
                    p >= 4096,
            ;
        }
        None
    } else if e >= 1075 {
        let s = e - 1075;
        let p = pow2_u64(s);
        proof {
            lemma2_to64();
            if s < 11 {
                lemma_pow2_strictly_increases(s as nat, 11);
            }
            assert(m * p < 2 * two52() * 2048) by (nonlinear_arith)
                requires
                    m < 2 * two52(),
                    p <= 2048,
            ;
        }
        Some(m * p)
    } else {
        let k: u64 = if e == 0 { 1074 } else { 1075 - e };
        if k >= 64 {
            proof {
                lemma2_to64();
                if k > 64 {
                    lemma_pow2_strictly_increases(64, k as nat);
                }
                lemma_basic_div(m as int, pow2(k as nat) as int);
            }
            Some(0)
        } else {
            let p = pow2_u64(k);
            Some(m / p)
        }
    }
}

/// The truncated magnitude of a finite number, when it is below `2^116`.
pub fn trunc_magnitude_u128(b: u64) -> (r: Option<u128>)
    requires
        is_finite(b),
    ensures
        match r {
            Some(t) => t == trunc_magnitude(b),
            None => trunc_magnitude(b) >= two52() * 0x1_0000_0000_0000_0000,
        },
{
    let (_, e, f) = fields(b);
    let m = significand_of(e, f);
    if e >= 1139 {
        proof {
            let s = (e - 1075) as nat;
            lemma2_to64();
            if s > 64 {
                lemma_pow2_strictly_increases(64, s);
            }
            let p = pow2(s);
            assert(m * p >= two52() * 0x1_0000_0000_0000_0000) by (nonlinear_arith)
                requires
                    m >= two52(),
                    p >= 0x1_0000_0000_0000_0000,
            ;
        }
        None
    } else if e >= 1075 {
        let s = e - 1075;
        let p = pow2_u64(s);
        proof {
            lemma2_to64();
            lemma_u64_pow2_no_overflow(s as nat);
            assert((m as u128) * (p as u128) < 2 * two52() * 0x1_0000_0000_0000_0000) by (nonlinear_arith)
                requires
                    m < 2 * two52(),
                    p < 0x1_0000_0000_0000_0000,
            ;
        }
        Some((m as u128) * (p as u128))
    } else {
        match trunc_magnitude_u64(b) {
            Some(t) => Some(t as u128),
            None => {
                proof {
                    let k = if e == 0 { 1074nat } else { (1075 - e) as nat };
                    lemma_pow2_pos(k);
                    vstd::arithmetic::div_mod::lemma_div_is_ordered_by_denominator(m as int, 1, pow2(k) as int);
                }
                None
            },
        }
    }
}

/// `x as usize`: NaN and anything below zero give 0, anything else is
/// truncated toward zero and saturated at `usize::MAX`.
pub open spec fn to_usize_saturating(b: u64) -> int {
    if is_nan(b) {
        0
    } else if is_infinite(b) {
        if sign_bit(b) { 0 } else { usize::MAX as int }
    } else if trunc(b) < 0 {
        0
    } else if trunc(b) > usize::MAX {
        usize::MAX as int
    } else {
        trunc(b)
    }
}

/// `x as usize`.
pub fn number_to_usize(b: u64) -> (r: usize)
    ensures
        r == to_usize_saturating(b),
{
    let (neg, e, f) = fields(b);
    if e == 2047 {
        if f != 0 || neg { 0 } else { usize::MAX }
    } else {
        match trunc_magnitude_u64(b) {
            None => if neg { 0 } else { usize::MAX },
            Some(t) => {
                if neg || t == 0 {
                    0
                } else if t > usize::MAX as u64 {
                    usize::MAX
                } else {
                    t as usize
                }
            },
        }
    }
}

/// `x.is_finite() && x.fract() == 0.0`.
pub fn number_is_integral(b: u64) -> (r: bool)
    ensures
        r == is_integral(b),
{
    let (_, e, f) = fields(b);
    if e == 2047 {
        return false;
    }
    if e >= 1075 {
        return true;
    }
    let m = significand_of(e, f);
    let k: u64 = if e == 0 { 1074 } else { 1075 - e };
    if k >= 64 {
        proof {
            lemma2_to64();
            if k > 64 {
                lemma_pow2_strictly_increases(64, k as nat);
            }
            lemma_small_mod(m as nat, pow2(k as nat));
        }
        m == 0
    } else {
        let p = pow2_u64(k);
        m % p == 0
    }
}

/// `x as i64`.
pub fn number_to_i64(b: u64) -> (r: i64)
    ensures
        r == to_i64_saturating(b),
{
    let (neg, e, f) = fields(b);
    if e == 2047 {
        if f != 0 {
            0
        } else if neg {
            i64::MIN
        } else {
            i64::MAX
        }
    } else {
        match trunc_magnitude_u64(b) {
            None => if neg { i64::MIN } else { i64::MAX },
            Some(t) => {
                if neg {
                    if t >= 0x8000_0000_0000_0000 { i64::MIN } else { -(t as i64) }
                } else {
                    if t > 0x7fff_ffff_ffff_ffff { i64::MAX } else { t as i64 }
                }
            },
        }
    }
}

/// `x as u32`.
pub fn number_to_u32(b: u64) -> (r: u32)
    ensures
        r == to_u32_saturating(b),
{
    let (neg, e, f) = fields(b);
    if e == 2047 {
        if f != 0 || neg { 0 } else { u32::MAX }
    } else {
        match trunc_magnitude_u64(b) {
            None => if neg { 0 } else { u32::MAX },
            Some(t) => {
                if neg || t == 0 {
                    0
                } else if t > 0xffff_ffff {
                    u32::MAX
                } else {
                    t as u32
                }
            },
        }
    }
}

/// The truncated magnitude of a finite number, modulo 2^32.
fn trunc_magnitude_mod_2_32(b: u64) -> (r: u64)
    requires
        is_finite(b),
    ensures
        r == trunc_magnitude(b) % 0x1_0000_0000,
{
    let (_, e, f) = fields(b);
    if e >= 1107 {
        proof {
            let s = (e - 1075) as nat;
            let m = significand(b);
            lemma_pow2_adds((s - 32) as nat, 32);
            lemma2_to64();
            assert(m * pow2(s) == (m * pow2((s - 32) as nat)) * 0x1_0000_0000) by (nonlinear_arith)
                requires
                    pow2(s) == pow2((s - 32) as nat) * pow2(32),
                    pow2(32) == 0x1_0000_0000,
            ;
            lemma_mod_multiples_basic(m * pow2((s - 32) as nat), 0x1_0000_0000);
        }
        0
    } else if e >= 1075 {
        let m = significand_of(e, f);
        let s = e - 1075;
        let p = pow2_u64(s);
        proof {
            lemma2_to64();
            if s < 31 {
                lemma_pow2_strictly_increases(s as nat, 31);
            }
            assert((m as int) * (p as int) < 0x1_0000_0000_0000_0000_0000_0000_0000_0000) by (nonlinear_arith)
                requires
                    m < 2 * two52(),
                    p <= 0x8000_0000,
            ;
        }
        let wide: u128 = (m as u128) * (p as u128);
        (wide % 0x1_0000_0000) as u64
    } else {
        proof {
            // Below 2^1075 the significand is shifted right: it fits.
            let k: nat = if e == 0 { 1074 } else { (1075 - e) as nat };
            assert(scale(b) == -(k as int));
            lemma_pow2_pos(k);
            vstd::arithmetic::div_mod::lemma_div_is_ordered_by_denominator(significand(b), 1, pow2(k) as int);
            assert(significand(b) / 1 == significand(b));
            assert(trunc_magnitude(b) <= significand(b));
        }
        trunc_magnitude_u64(b).unwrap() % 0x1_0000_0000
    }
}

/// ToUint32 (§7.1.7).
pub fn number_to_uint32(b: u64) -> (r: u32)
    ensures
        r == to_uint32(b),
{
    let (neg, e, f) = fields(b);
    if e == 2047 || (e == 0 && f == 0) {
        return 0;
    }
    let m = trunc_magnitude_mod_2_32(b);
    if !neg {
        m as u32
    } else if m == 0 {
        0
    } else {
        proof {
            let t = trunc_magnitude(b);
            assert((-t) % 0x1_0000_0000 == 0x1_0000_0000 - t % 0x1_0000_0000) by {
                vstd::arithmetic::div_mod::lemma_fundamental_div_mod_converse(
                    -t, 0x1_0000_0000, -(t / 0x1_0000_0000) - 1, 0x1_0000_0000 - t % 0x1_0000_0000);
                vstd::arithmetic::div_mod::lemma_fundamental_div_mod(t, 0x1_0000_0000);
            }
        }
        (0x1_0000_0000 - m) as u32
    }
}

/// Whether `(n as f64) * x` exceeds 2^29, for `n < 2^53` (so that `n as f64`
/// is exact) and a finite `x`.
pub fn number_rounded_product_exceeds_2_29(n: u64, b: u64) -> (r: bool)
    requires
        n < 2 * two52(),
        is_finite(b),
    ensures
        r == rounded_product_exceeds_2_29(n as nat, b),
{
    let (_, e, f) = fields(b);
    let m = significand_of(e, f);
    proof {
        assert((n as int) * (m as int) < 0x2_0000_0000_0000_0000_0000_0000_0000) by (nonlinear_arith)
            requires
                n < 2 * two52(),
                m < 2 * two52(),
        ;
    }
    let p: u128 = (n as u128) * (m as u128);
    proof {
        lemma2_to64();
        assert(pow2(52) == two52()) by {
            lemma_pow2_adds(32, 20);
            lemma_pow2_adds(16, 4);
        }
    }
    if e >= 1051 {
        // scale + 24 = e - 1051 >= 0
        let k = e - 1051;
        proof {
            lemma_pow2_pos(k as nat);
        }
        if p >= 0x40_0000_0000_0000 {
            proof {
                assert(p * pow2(k as nat) >= p) by (nonlinear_arith)
                    requires
                        pow2(k as nat) >= 1,
                        p >= 0,
                ;
            }
            return true;
        }
        if k >= 64 {
            proof {
                if k > 64 {
                    lemma_pow2_strictly_increases(64, k as nat);
                }
                assert(p as int == (n as int) * significand(b));
                if p >= 1 {
                    assert(p * pow2(k as nat) >= pow2(k as nat)) by (nonlinear_arith)
                        requires
                            p >= 1,
                            pow2(k as nat) >= 1,
                    ;
                } else {
                    assert(p * pow2(k as nat) == 0) by (nonlinear_arith)
                        requires
                            p == 0,
                    ;
                }
                assert((n as int) * significand(b) * pow2(k as nat) == p * pow2(k as nat));
            }
            return p > 0;
        }
        let q = pow2_u64(k) as u128;
        proof {
            assert(p * q < 0x40_0000_0000_0000 * 0x1_0000_0000_0000_0000) by (nonlinear_arith)
                requires
                    p < 0x40_0000_0000_0000,
                    q < 0x1_0000_0000_0000_0000,
            ;
        }
        p * q > 0x20_0000_0000_0001
    } else {
        // scale + 24 = -j
        let j: u64 = if e == 0 { 1050 } else { 1051 - e };
        if j >= 64 {
            proof {
                if j > 64 {
                    lemma_pow2_strictly_increases(64, j as nat);
                }
                assert((2 * two52() + 1) * pow2(j as nat) >= 0x20_0000_0000_0001 * 0x1_0000_0000_0000_0000)
                    by (nonlinear_arith)
                    requires
                        pow2(j as nat) >= 0x1_0000_0000_0000_0000,
                        two52() == 0x10_0000_0000_0000,
                ;
            }
            return false;
        }
        let q = pow2_u64(j) as u128;
        proof {
            assert(0x20_0000_0000_0001 * q < 0x40_0000_0000_0000 * 0x1_0000_0000_0000_0000) by (nonlinear_arith)
                requires
                    q < 0x1_0000_0000_0000_0000,
            ;
        }
        p > 0x20_0000_0000_0001 * q
    }
}

/// A finite integer between `-2^63` and `2^63`.
pub fn number_is_i64_range_integer(b: u64) -> (r: bool)
    ensures
        r == is_i64_range_integer(b),
{
    if !number_is_integral(b) {
        return false;
    }
    match trunc_magnitude_u64(b) {
        Some(t) => t <= 0x8000_0000_0000_0000,
        None => false,
    }
}

/// The number of the integer `n`, exact for `n < 2^53` (`n as f64`).
pub fn number_from_u64(n: u64) -> (b: u64)
    requires
        n < 2 * two52(),
    ensures
        denotes_int(b, n as int),
        !sign_bit(b),
{
    if n == 0 {
        proof {
            lemma_pow2_pos(1074);
            lemma_small_mod(0, pow2(1074));
            lemma_basic_div(0, pow2(1074) as int);
        }
        return 0;
    }
    proof {
        lemma2_to64();
        assert(pow2(52) == two52()) by {
            lemma_pow2_adds(32, 20);
            lemma_pow2_adds(16, 4);
        }
        assert(pow2(53) == 2 * two52()) by {
            lemma_pow2_adds(52, 1);
        }
    }
    let mut t: u64 = 52;
    while n < pow2_u64(t)
        invariant
            0 <= t <= 52,
            1 <= n,
            n < pow2((t + 1) as nat),
            pow2(0) == 1,
        decreases t,
    {
        t = t - 1;
    }
    let k = 52 - t;
    let pt = pow2_u64(t);
    let pk = pow2_u64(k);
    proof {
        lemma_pow2_adds(t as nat, 1);
        lemma_pow2_adds(t as nat, k as nat);
        assert(pow2(52) == two52()) by {
            lemma_pow2_adds(32, 20);
            lemma_pow2_adds(16, 4);
        }
        assert((n - pt) * pk < pt * pk) by (nonlinear_arith)
            requires
                n - pt < pt,
                pk > 0,
                n >= pt,
        ;
    }
    let frac = (n - pt) * pk;
    let e = 1023 + t;
    proof {
        assert(e * 0x10_0000_0000_0000 + frac < 1076 * 0x10_0000_0000_0000) by (nonlinear_arith)
            requires
                e <= 1075,
                frac < 0x10_0000_0000_0000,
        ;
    }
    let b = e * 0x10_0000_0000_0000 + frac;
    proof {
        lemma_fundamental_div_mod_converse(b as int, two52(), e as int, frac as int);
        assert(b as int / two52() == e) by {
            lemma_div_by_multiple(e as int, two52());
            vstd::arithmetic::div_mod::lemma_div_multiples_vanish_fancy(e as int, frac as int, two52());
            assert(e * two52() == two52() * e) by (nonlinear_arith);
        }
        lemma_small_mod(e as nat, 2048);
        assert(exponent_field(b) == e);
        assert(fraction_field(b) == frac);
        assert(significand(b) == n * pk) by (nonlinear_arith)
            requires
                significand(b) == frac + two52(),
                frac == (n - pt) * pk,
                pt * pk == two52(),
        ;
        assert(scale(b) == -(k as int));
        lemma_pow2_pos(k as nat);
        if k == 0 {
            assert(pk == 1) by {
                assert(pow2(0) == 1);
            }
            assert(n * pk == n) by (nonlinear_arith)
                requires
                    pk == 1,
            ;
            assert(significand(b) == n);
            assert(scale(b) == 0);
            assert(trunc_magnitude(b) == significand(b) * pow2(0));
            assert(significand(b) * pow2(0) == n);
        } else {
            lemma_mod_multiples_basic(n as int, pk as int);
            lemma_div_by_multiple(n as int, pk as int);
        }
    }
    b
}

/// Setting the sign bit of a number without it keeps its exponent and
/// fraction, so its magnitude, and negates its truncation.
proof fn lemma_set_sign(b: u64)
    requires
        !sign_bit(b),
    ensures
        sign_bit((b + two63()) as u64),
        exponent_field((b + two63()) as u64) == exponent_field(b),
        fraction_field((b + two63()) as u64) == fraction_field(b),
        is_integral((b + two63()) as u64) == is_integral(b),
        trunc((b + two63()) as u64) == -trunc_magnitude(b),
{
    let c = b + two63();
    assert(two63() == 2048 * two52());
    vstd::arithmetic::div_mod::lemma_hoist_over_denominator(b as int, 2048, two52() as nat);
    assert(c / two52() == b as int / two52() + 2048);
    vstd::arithmetic::div_mod::lemma_mod_add_multiples_vanish(b as int / two52(), 2048);
    assert((2048 + b as int / two52()) % 2048 == (b as int / two52()) % 2048);
    vstd::arithmetic::div_mod::lemma_mod_multiples_vanish(2048, b as int, two52());
    assert(two52() * 2048 + b == c);
    assert(exponent_field(c as u64) == exponent_field(b));
    assert(fraction_field(c as u64) == fraction_field(b));
}

/// The number of the integer `n` for `|n| < 2^53` (`n as f64`).
pub fn number_from_i64(n: i64) -> (b: u64)
    requires
        -2 * two52() < n < 2 * two52(),
    ensures
        denotes_int(b, n as int),
        n >= 0 ==> !sign_bit(b),
{
    if n >= 0 {
        return number_from_u64(n as u64);
    }
    let m = number_from_u64((-n) as u64);
    proof {
        lemma_set_sign(m);
        assert(trunc(m) == trunc_magnitude(m));
    }
    m + 0x8000_0000_0000_0000
}

/// How many times `m` is halved (rounding down) before it is below 2^53.
pub open spec fn excess_bits(m: nat) -> nat
    decreases m,
{
    if m < 2 * two52() { 0 } else { 1 + excess_bits(m / 2) }
}

/// The double nearest to the natural number `m`, as an integer: `m` itself
/// below 2^53; above, `m` rounded to a multiple of `2^s`, where `s` is the
/// number of bits beyond 53 that `m` has, to the nearer multiple, and on a
/// tie to the one whose quotient is even (`m as f64`).
pub open spec fn nearest_double(m: nat) -> nat {
    let s = excess_bits(m);
    let p = pow2(s);
    let q = m / p;
    let r = m % p;
    if s == 0 {
        m
    } else if r > p / 2 || (r == p / 2 && q % 2 == 1) {
        (q + 1) * p
    } else {
        q * p
    }
}

/// The number of a `u64`, rounded to the nearest double (`n as f64`).
pub fn number_from_u64_rounded(n: u64) -> (b: u64)
    ensures
        !sign_bit(b),
        is_integral(b),
        trunc(b) == nearest_double(n as nat),
{
    if n < 0x20_0000_0000_0000 {
        let b = number_from_u64(n);
        proof {
            assert(excess_bits(n as nat) == 0);
        }
        return b;
    }
    proof {
        lemma2_to64();
        assert(pow2(0) == 1);
    }
    let mut s: u64 = 0;
    let mut p: u64 = 1;
    while n / p >= 0x20_0000_0000_0000
        invariant
            s < 12,
            p == pow2(s as nat),
            p > 0,
            n >= 2 * two52(),
            excess_bits(n as nat) == s + excess_bits((n as nat / p as nat) as nat),
            s > 0 ==> n / p >= two52(),
        decreases 12 - s,
    {
        proof {
            let q = n as nat / p as nat;
            assert(excess_bits(q) == 1 + excess_bits(q / 2));
            lemma_pow2_adds(s as nat, 1);
            vstd::arithmetic::div_mod::lemma_div_denominator(n as int, p as int, 2);
            lemma2_to64();
            if s == 11 {
                assert(p == 2048);
                assert(n / 2048 < 0x20_0000_0000_0000);
            }
            assert(s < 11);
        }
        s = s + 1;
        p = p * 2;
    }
    assert(s > 0);
    let q: u64 = n / p;
    let r: u64 = n % p;
    let h: u64 = p / 2;
    proof {
        assert(excess_bits((n as nat / p as nat) as nat) == 0);
        assert(excess_bits(n as nat) == s);
        vstd::arithmetic::div_mod::lemma_fundamental_div_mod(n as int, p as int);
    }
    let up = r > h || (r == h && q % 2 == 1);
    let q2: u64 = if up { q + 1 } else { q };
    let (q3, s3): (u64, u64) = if q2 == 0x20_0000_0000_0000 { (0x10_0000_0000_0000, s + 1) } else { (q2, s) };
    proof {
        lemma_pow2_adds(s as nat, 1);
        assert(q3 * pow2(s3 as nat) == q2 * pow2(s as nat)) by (nonlinear_arith)
            requires
                q2 == 2 * two52() ==> q3 == two52() && s3 == s + 1,
                q2 != 2 * two52() ==> q3 == q2 && s3 == s,
                pow2((s + 1) as nat) == pow2(s as nat) * 2,
                2 * two52() == two52() * 2,
        ;
        assert(two52() <= q3 < 2 * two52());
    }
    let frac = q3 - 0x10_0000_0000_0000;
    let e = 1075 + s3;
    proof {
        assert(e * 0x10_0000_0000_0000 + frac < 1088 * 0x10_0000_0000_0000) by (nonlinear_arith)
            requires
                e <= 1087,
                frac < 0x10_0000_0000_0000,
        ;
    }
    let b = e * 0x10_0000_0000_0000 + frac;
    proof {
        lemma_fundamental_div_mod_converse(b as int, two52(), e as int, frac as int);
        lemma_small_mod(e as nat, 2048);
        assert(exponent_field(b) == e);
        assert(fraction_field(b) == frac);
        assert(significand(b) == q3);
        assert(scale(b) == s3);
        assert(trunc_magnitude(b) == q3 * pow2(s3 as nat));
        assert(nearest_double(n as nat) == q2 * p);
    }
    b
}

/// The double nearest to an `i64`, as an integer: the nearest double to
/// its magnitude, with its sign.
pub open spec fn nearest_double_signed(n: int) -> int {
    if n < 0 { -(nearest_double((-n) as nat) as int) } else { nearest_double(n as nat) as int }
}

/// The number of an `i64`, rounded to the nearest double (`n as f64`).
pub fn number_from_i64_rounded(n: i64) -> (b: u64)
    ensures
        is_integral(b),
        trunc(b) == nearest_double_signed(n as int),
{
    if n >= 0 {
        return number_from_u64_rounded(n as u64);
    }
    let mag: u64 = if n == i64::MIN { 0x8000_0000_0000_0000 } else { (-n) as u64 };
    let m = number_from_u64_rounded(mag);
    proof {
        lemma_set_sign(m);
        assert(trunc(m) == trunc_magnitude(m));
        lemma_set_sign_integral(m);
    }
    m + 0x8000_0000_0000_0000
}

proof fn lemma_set_sign_integral(b: u64)
    requires
        !sign_bit(b),
    ensures
        is_integral((b + two63()) as u64) == is_integral(b),
{
    lemma_set_sign(b);
}

// ------------------------------------------------------------ the order

/// The magnitude of a non-NaN number on one integer scale: a finite number
/// times 2^1074 (an integer, exact), and for the infinities 2^2100, beyond
/// every finite one.
pub open spec fn magnitude_value(b: u64) -> int {
    if is_infinite(b) {
        pow2(2100) as int
    } else {
        significand(b) * pow2((scale(b) + 1074) as nat)
    }
}

/// The value of a non-NaN number on that scale, with its sign.
pub open spec fn signed_value(b: u64) -> int {
    if sign_bit(b) { -magnitude_value(b) } else { magnitude_value(b) }
}

/// The numeric order of two numbers (`f64` comparison): `None` when either
/// is NaN, else -1, 0 or 1 as the first is below, equal to (the zeros are
/// equal) or above the second.
pub open spec fn num_order(a: u64, b: u64) -> Option<int> {
    if is_nan(a) || is_nan(b) {
        None
    } else if signed_value(a) < signed_value(b) {
        Some(-1)
    } else if signed_value(a) == signed_value(b) {
        Some(0)
    } else {
        Some(1)
    }
}

/// The bits of a number without its sign.
pub open spec fn magnitude_bits(b: u64) -> int {
    if sign_bit(b) { b - two63() } else { b as int }
}

/// The magnitude grows strictly with the magnitude bits, from 0 for the
/// zeros.
proof fn lemma_magnitude_monotone(a: u64, b: u64)
    requires
        !is_nan(a),
        !is_nan(b),
        magnitude_bits(a) < magnitude_bits(b),
    ensures
        magnitude_value(a) < magnitude_value(b),
{
    lemma_fields_of_magnitude(a);
    lemma_fields_of_magnitude(b);
    let ea = exponent_field(a);
    let eb = exponent_field(b);
    let fa = fraction_field(a);
    let fb = fraction_field(b);
    lemma2_to64();
    assert(pow2(52) == two52()) by {
        lemma_pow2_adds(32, 20);
        lemma_pow2_adds(16, 4);
    }
    assert(ea <= eb) by (nonlinear_arith)
        requires
            magnitude_bits(a) == ea * two52() + fa,
            magnitude_bits(b) == eb * two52() + fb,
            0 <= fa < two52(),
            0 <= fb < two52(),
            magnitude_bits(a) < magnitude_bits(b),
    ;
    if eb == 2047 {
        assert(is_infinite(b));
        if ea == 2047 {
            assert(fa < fb) by (nonlinear_arith)
                requires
                    magnitude_bits(a) == ea * two52() + fa,
                    magnitude_bits(b) == eb * two52() + fb,
                    ea == eb,
                    magnitude_bits(a) < magnitude_bits(b),
            ;
            assert(false);
        }
        lemma_magnitude_below(a);
        lemma_pow2_strictly_increases(2098, 2100);
    } else if ea == eb {
        assert(fa < fb) by (nonlinear_arith)
            requires
                magnitude_bits(a) == ea * two52() + fa,
                magnitude_bits(b) == eb * two52() + fb,
                ea == eb,
                magnitude_bits(a) < magnitude_bits(b),
        ;
        let p = pow2((scale(a) + 1074) as nat);
        lemma_pow2_pos((scale(a) + 1074) as nat);
        assert(significand(a) < significand(b));
        assert(significand(a) * p < significand(b) * p) by (nonlinear_arith)
            requires
                significand(a) < significand(b),
                p > 0,
        ;
    } else {
        // ea < eb < 2047: a's magnitude is below 2^52 · 2^ea, b's at least
        // 2^52 · 2^(eb - 1).
        let pb = pow2((eb - 1) as nat);
        lemma_pow2_pos((eb - 1) as nat);
        assert(magnitude_value(b) == (fb + two52()) * pb);
        assert(magnitude_value(b) >= two52() * pb) by (nonlinear_arith)
            requires
                magnitude_value(b) == (fb + two52()) * pb,
                fb >= 0,
                pb > 0,
        ;
        if ea < eb - 1 {
            lemma_pow2_strictly_increases(ea as nat, (eb - 1) as nat);
        }
        let pa = pow2(ea as nat);
        assert(pa <= pb);
        assert(two52() * pa <= two52() * pb) by (nonlinear_arith)
            requires
                pa <= pb,
        ;
        if ea == 0 {
            assert(pow2(0) == 1);
            assert(scale(a) == -1074);
            assert(significand(a) == fa);
            assert(magnitude_value(a) == fa * pow2(0));
            assert(magnitude_value(a) == fa);
        } else {
            let q = pow2((ea - 1) as nat);
            lemma_pow2_pos((ea - 1) as nat);
            lemma_pow2_adds((ea - 1) as nat, 1);
            assert(pa == q * 2);
            assert(magnitude_value(a) == (fa + two52()) * q);
            assert((fa + two52()) * q < two52() * pa) by (nonlinear_arith)
                requires
                    fa < two52(),
                    pa == q * 2,
                    q > 0,
            ;
        }
    }
}

/// The exponent and fraction fields give the magnitude bits.
proof fn lemma_fields_of_magnitude(b: u64)
    ensures
        magnitude_bits(b) == exponent_field(b) * two52() + fraction_field(b),
        0 <= fraction_field(b) < two52(),
        0 <= exponent_field(b) < 2048,
        0 <= magnitude_bits(b) < two63(),
{
    let m = magnitude_bits(b);
    assert(two63() == 2048 * two52());
    vstd::arithmetic::div_mod::lemma_fundamental_div_mod(b as int, two52());
    vstd::arithmetic::div_mod::lemma_fundamental_div_mod(b as int / two52(), 2048);
    if sign_bit(b) {
        assert(b as int / two52() >= 2048) by {
            vstd::arithmetic::div_mod::lemma_div_is_ordered(two63(), b as int, two52());
            vstd::arithmetic::div_mod::lemma_div_by_multiple(2048, two52());
        }
        assert(b as int / two52() < 4096) by {
            vstd::arithmetic::div_mod::lemma_div_is_ordered(b as int, 2 * two63() - 1, two52());
            vstd::arithmetic::div_mod::lemma_div_by_multiple(4096, two52());
            vstd::arithmetic::div_mod::lemma_div_is_ordered(2 * two63() - 1, 4096 * two52(), two52());
        }
    } else {
        assert(b as int / two52() < 2048) by {
            vstd::arithmetic::div_mod::lemma_div_by_multiple(2048, two52());
            vstd::arithmetic::div_mod::lemma_div_is_ordered(b as int, two63(), two52());
            if b as int / two52() >= 2048 {
                vstd::arithmetic::div_mod::lemma_fundamental_div_mod(b as int, two52());
            }
        }
    }
    vstd::arithmetic::div_mod::lemma_mod_bound(b as int, two52());
    vstd::arithmetic::div_mod::lemma_mod_bound(b as int / two52(), 2048);
}

/// A finite magnitude stays below 2^2098.
proof fn lemma_magnitude_below(a: u64)
    requires
        !is_nan(a),
        !is_infinite(a),
    ensures
        magnitude_value(a) < pow2(2098),
{
    lemma_fields_of_magnitude(a);
    lemma2_to64();
    assert(pow2(52) == two52()) by {
        lemma_pow2_adds(32, 20);
        lemma_pow2_adds(16, 4);
    }
    assert(pow2(53) == 2 * two52()) by {
        lemma_pow2_adds(52, 1);
    }
    let k = (scale(a) + 1074) as nat;
    assert(k <= 2045);
    lemma_pow2_pos(k);
    assert(significand(a) < pow2(53));
    assert(significand(a) * pow2(k) < pow2(53) * pow2(k)) by (nonlinear_arith)
        requires
            significand(a) < pow2(53),
            pow2(k) > 0,
    ;
    lemma_pow2_adds(53, k);
    if 53 + k < 2098 {
        lemma_pow2_strictly_increases(53 + k, 2098);
    }
}

/// The order key of a number: its magnitude bits, negated for a negative
/// number (the two zeros share the key 0).
pub open spec fn order_key(b: u64) -> int {
    if sign_bit(b) { -magnitude_bits(b) } else { magnitude_bits(b) }
}

/// The bit patterns of non-NaN numbers, read as sign and magnitude, are
/// ordered as the numbers are.
pub proof fn law_order_key_is_numeric_order(a: u64, b: u64)
    requires
        !is_nan(a),
        !is_nan(b),
    ensures
        order_key(a) < order_key(b) <==> signed_value(a) < signed_value(b),
        order_key(a) == order_key(b) <==> signed_value(a) == signed_value(b),
{
    lemma_fields_of_magnitude(a);
    lemma_fields_of_magnitude(b);
    lemma_magnitude_zero(a);
    lemma_magnitude_zero(b);
    if magnitude_bits(a) < magnitude_bits(b) {
        lemma_magnitude_monotone(a, b);
    } else if magnitude_bits(b) < magnitude_bits(a) {
        lemma_magnitude_monotone(b, a);
    } else {
        lemma_same_magnitude(a, b);
    }
}

/// Magnitude 0 exactly for the zeros (magnitude bits 0); never negative.
proof fn lemma_magnitude_zero(b: u64)
    requires
        !is_nan(b),
    ensures
        magnitude_value(b) >= 0,
        magnitude_value(b) == 0 <==> magnitude_bits(b) == 0,
{
    lemma_fields_of_magnitude(b);
    lemma2_to64();
    lemma_pow2_pos(2100);
    let k = (scale(b) + 1074) as nat;
    lemma_pow2_pos(k);
    assert(significand(b) >= 0);
    assert(significand(b) * pow2(k) >= 0) by (nonlinear_arith)
        requires
            significand(b) >= 0,
            pow2(k) > 0,
    ;
    if magnitude_bits(b) == 0 {
        assert(exponent_field(b) == 0 && fraction_field(b) == 0) by (nonlinear_arith)
            requires
                magnitude_bits(b) == exponent_field(b) * two52() + fraction_field(b),
                0 <= fraction_field(b),
                0 <= exponent_field(b),
                magnitude_bits(b) == 0,
        ;
        assert(!is_infinite(b));
        assert(significand(b) == 0);
        assert(magnitude_value(b) == 0 * pow2(k));
    }
    if magnitude_bits(b) != 0 && !is_infinite(b) {
        if exponent_field(b) == 0 {
            assert(fraction_field(b) > 0);
        }
        assert(significand(b) > 0);
        assert(significand(b) * pow2(k) > 0) by (nonlinear_arith)
            requires
                significand(b) > 0,
                pow2(k) > 0,
        ;
    }
}

/// Equal magnitude bits give equal magnitudes.
proof fn lemma_same_magnitude(a: u64, b: u64)
    requires
        magnitude_bits(a) == magnitude_bits(b),
    ensures
        magnitude_value(a) == magnitude_value(b),
{
    lemma_fields_of_magnitude(a);
    lemma_fields_of_magnitude(b);
    assert(exponent_field(a) == exponent_field(b) && fraction_field(a) == fraction_field(b)) by (nonlinear_arith)
        requires
            magnitude_bits(a) == exponent_field(a) * two52() + fraction_field(a),
            magnitude_bits(b) == exponent_field(b) * two52() + fraction_field(b),
            0 <= fraction_field(a) < two52(),
            0 <= fraction_field(b) < two52(),
            magnitude_bits(a) == magnitude_bits(b),
    ;
}

/// The comparison of two numbers (`f64` `<`, `==`, `>`): `None` when
/// either is NaN, else -1, 0 or 1 by their numeric order.
pub fn number_compare(a: u64, b: u64) -> (r: Option<i8>)
    ensures
        match num_order(a, b) {
            Some(o) => r == Some(o as i8),
            None => r is None,
        },
{
    if number_is_nan(a) || number_is_nan(b) {
        return None;
    }
    let ka: i128 = if a >= 0x8000_0000_0000_0000 { -((a - 0x8000_0000_0000_0000) as i128) } else { a as i128 };
    let kb: i128 = if b >= 0x8000_0000_0000_0000 { -((b - 0x8000_0000_0000_0000) as i128) } else { b as i128 };
    proof {
        law_order_key_is_numeric_order(a, b);
        assert(ka == order_key(a));
        assert(kb == order_key(b));
    }
    if ka < kb {
        Some(-1)
    } else if ka == kb {
        Some(0)
    } else {
        Some(1)
    }
}

} // verus!
