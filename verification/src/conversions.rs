//! ToString and ToPropertyKey on primitive values, and the text of a Number
//! where that text is exact: NaN, the infinities, zero and the integers
//! below 10^21. Any other Number is written by shortest round-trip float
//! formatting, which is left to the caller: these functions answer `None`
//! exactly there.
use vstd::prelude::*;
use crate::number::{
    is_nan, is_infinite, is_zero, is_integral, sign_bit, trunc, trunc_magnitude, significand, scale, two52,
    number_is_nan, number_is_finite, number_is_zero, number_is_integral, number_is_sign_negative, trunc_magnitude_u128,
};
use crate::interp::RuntimeError;
use crate::number::{fields, significand_of, trunc_magnitude_u64};
use crate::bigint::{is_canonical_bigint, bigint_value};
use crate::bigint_arith::{integer_text, lemma_decimal_value};
use crate::bigint_number::all_digits;
use crate::property_keys::digits_value;
use crate::string_proto::lemma_trunc_magnitude_nonnegative;
use crate::text::{decimal, signed_decimal, append_decimal, append_signed_decimal, push_char, str_trim, trim};
use crate::value::Value;
use vstd::arithmetic::power2::{pow2, lemma_pow2_pos};

verus! {

/// 10^21, from which on Number::toString writes an exponent.
pub open spec fn ten21() -> int {
    1_000_000_000_000_000_000_000
}

/// The text Number::toString gives `b` where it is exact: `NaN`,
/// `Infinity`, `-Infinity`, `0` for both zeros, and the decimal digits
/// (with a `-` when negative) of an integer whose magnitude is below
/// 10^21; `None` for every other Number.
pub open spec fn exact_number_text(b: u64) -> Option<Seq<char>> {
    if is_nan(b) {
        Some("NaN"@)
    } else if is_infinite(b) {
        if sign_bit(b) { Some("-Infinity"@) } else { Some("Infinity"@) }
    } else if is_zero(b) {
        Some("0"@)
    } else if is_integral(b) && trunc_magnitude(b) < ten21() {
        Some(signed_decimal(trunc(b)))
    } else {
        None
    }
}

/// An integer that is not zero has a magnitude of at least one.
proof fn lemma_integral_nonzero(b: u64)
    requires
        is_integral(b),
        !is_zero(b),
    ensures
        trunc_magnitude(b) >= 1,
{
    let m = significand(b);
    assert(m > 0);
    if scale(b) >= 0 {
        let p = pow2(scale(b) as nat);
        lemma_pow2_pos(scale(b) as nat);
        assert(m * p >= 1) by (nonlinear_arith)
            requires
                m > 0,
                p > 0,
        ;
    } else {
        let p = pow2((-scale(b)) as nat) as int;
        lemma_pow2_pos((-scale(b)) as nat);
        vstd::arithmetic::div_mod::lemma_fundamental_div_mod(m, p);
        if m / p == 0 {
            assert(m == p * (m / p) + m % p);
            assert(p * 0 == 0) by (nonlinear_arith);
        }
        vstd::arithmetic::div_mod::lemma_div_pos_is_pos(m, p);
    }
}

/// Number::toString where its text is exact; `None` for a Number that is
/// not an integer, or whose magnitude is 10^21 or more.
pub fn number_to_string_exact(b: u64) -> (r: Option<String>)
    ensures
        match r {
            Some(s) => exact_number_text(b) == Some(s@),
            None => exact_number_text(b) is None,
        },
{
    if number_is_nan(b) {
        return Some(String::from_str("NaN"));
    }
    if !number_is_finite(b) {
        if number_is_sign_negative(b) {
            return Some(String::from_str("-Infinity"));
        }
        return Some(String::from_str("Infinity"));
    }
    if number_is_zero(b) {
        return Some(String::from_str("0"));
    }
    if !number_is_integral(b) {
        return None;
    }
    match trunc_magnitude_u128(b) {
        None => {
            assert(two52() * 0x1_0000_0000_0000_0000 >= ten21());
            None
        },
        Some(t) => {
            if t >= 1_000_000_000_000_000_000_000u128 {
                None
            } else {
                proof {
                    lemma_integral_nonzero(b);
                }
                let mut out = String::new();
                if number_is_sign_negative(b) {
                    push_char(&mut out, '-');
                }
                append_decimal(&mut out, t);
                proof {
                    if sign_bit(b) {
                        assert(out@ =~= seq!['-'] + decimal(t as nat));
                        assert((-trunc(b)) as nat == t as nat);
                    } else {
                        assert(out@ =~= decimal(t as nat));
                    }
                }
                Some(out)
            }
        },
    }
}

/// ToString (§7.1.17) on a primitive: `undefined`, `null`, `true` or
/// `false`, a Number's exact text, a String itself, a BigInt's decimal
/// text, a Symbol's canonical key (which doubles as its property key), and
/// `[object Object]` for an object; `None` for a Number whose text is not
/// exact.
pub open spec fn to_string_text(v: Value) -> Option<Seq<char>> {
    match v {
        Value::Undefined => Some("undefined"@),
        Value::Null => Some("null"@),
        Value::Boolean(b) => if b { Some("true"@) } else { Some("false"@) },
        Value::Number(n) => exact_number_text(n),
        Value::String(s) => Some(s@),
        Value::BigInt(d) => Some(d@),
        Value::Symbol(s) => Some(s@),
        Value::Object(_) => Some("[object Object]"@),
    }
}

/// ToString on a value, as `to_string_text` says.
pub fn to_string(v: &Value) -> (r: Option<String>)
    ensures
        match r {
            Some(s) => to_string_text(*v) == Some(s@),
            None => to_string_text(*v) is None,
        },
{
    match v {
        Value::Undefined => Some(String::from_str("undefined")),
        Value::Null => Some(String::from_str("null")),
        Value::Boolean(b) => if *b {
            Some(String::from_str("true"))
        } else {
            Some(String::from_str("false"))
        },
        Value::Number(n) => number_to_string_exact(*n),
        Value::String(s) => Some(s.clone()),
        Value::BigInt(d) => Some(d.clone()),
        Value::Symbol(s) => Some(s.clone()),
        Value::Object(_) => Some(String::from_str("[object Object]")),
    }
}

/// A property key: a symbol by its canonical key, or a string.
#[derive(Debug, Clone, PartialEq, Eq, Hash)]
pub enum PropertyKey {
    String(String),
    Symbol(String),
}

/// ToPropertyKey (§7.1.19) on a primitive: a Symbol is its own key, any
/// other value the string ToString gives; `None` where that text is not
/// exact.
pub open spec fn property_key_of(v: Value) -> Option<(bool, Seq<char>)> {
    match v {
        Value::Symbol(s) => Some((true, s@)),
        _ => match to_string_text(v) {
            Some(t) => Some((false, t)),
            None => None,
        },
    }
}

/// The key and whether it is a symbol.
pub open spec fn key_view(k: PropertyKey) -> (bool, Seq<char>) {
    match k {
        PropertyKey::Symbol(s) => (true, s@),
        PropertyKey::String(s) => (false, s@),
    }
}

/// ToPropertyKey on a value, as `property_key_of` says.
pub fn property_key(v: &Value) -> (r: Option<PropertyKey>)
    ensures
        match r {
            Some(k) => property_key_of(*v) == Some(key_view(k)),
            None => property_key_of(*v) is None,
        },
{
    match v {
        Value::Symbol(s) => Some(PropertyKey::Symbol(s.clone())),
        _ => match to_string(v) {
            Some(t) => Some(PropertyKey::String(t)),
            None => None,
        },
    }
}

/// What ToBigInt (§7.1.13, as the `BigInt` function applies it to a
/// primitive) makes of a value: the BigInt's canonical text; a String's
/// text without surrounding white space, left to the caller to read as a
/// BigInt (a SyntaxError when it does not read as one); a Number that is
/// not an integer, a RangeError whose message writes the Number as a float;
/// or the error raised.
#[derive(Debug)]
pub enum BigIntConversion {
    Converted(String),
    ReadDecimal(String),
    NotIntegral(u64),
    Refused(RuntimeError),
}

/// ToBigInt on a primitive (an object is first converted by ToPrimitive
/// with the hint "number"): a BigInt is itself; a Boolean is 1 or 0; a
/// String is read as a BigInt after trimming; an integral Number is the
/// BigInt of the same value; any other Number is a RangeError; `undefined`, `null`, a Symbol and an object are TypeErrors.
pub fn to_bigint(prim: &Value) -> (r: BigIntConversion)
    ensures
        match *prim {
            Value::BigInt(d) => r matches BigIntConversion::Converted(t) && t@ == d@,
            Value::Boolean(b) => r matches BigIntConversion::Converted(t) && t@ == (if b { "1"@ } else { "0"@ }),
            Value::String(s) => r matches BigIntConversion::ReadDecimal(t) && t@ == trim(s@),
            Value::Number(n) => if is_integral(n) {
                r matches BigIntConversion::Converted(t) && is_canonical_bigint(t@) && bigint_value(t@) == trunc(n)
            } else {
                r matches BigIntConversion::NotIntegral(m) && m == n
            },
            Value::Undefined => r matches BigIntConversion::Refused(RuntimeError::TypeError(m))
                && m@ == "Cannot convert undefined to a BigInt"@,
            Value::Null => r matches BigIntConversion::Refused(RuntimeError::TypeError(m))
                && m@ == "Cannot convert null to a BigInt"@,
            Value::Symbol(_) => r matches BigIntConversion::Refused(RuntimeError::TypeError(m))
                && m@ == "Cannot convert a Symbol value to a BigInt"@,
            Value::Object(_) => r matches BigIntConversion::Refused(RuntimeError::TypeError(m))
                && m@ == "Cannot convert object to a BigInt"@,
        },
{
    match prim {
        Value::BigInt(d) => BigIntConversion::Converted(d.clone()),
        Value::Boolean(b) => BigIntConversion::Converted(if *b {
            String::from_str("1")
        } else {
            String::from_str("0")
        }),
        Value::String(s) => BigIntConversion::ReadDecimal(String::from_str(str_trim(s.as_str()))),
        Value::Number(n) => {
            if number_is_integral(*n) {
                let (neg, e, f) = fields(*n);
                if e >= 1075 {
                    let m = significand_of(e, f);
                    BigIntConversion::Converted(integer_text(neg, m, e - 1075))
                } else {
                    let t = match trunc_magnitude_u64(*n) {
                        Some(t) => t,
                        None => {
                            proof {
                                let k = if e == 0 { 1074nat } else { (1075 - e) as nat };
                                lemma_pow2_pos(k);
                                vstd::arithmetic::div_mod::lemma_div_is_ordered_by_denominator(significand(*n), 1, pow2(k) as int);
                            }
                            0
                        },
                    };
                    proof {
                        assert(t * pow2(0) == t) by {
                            vstd::arithmetic::power2::lemma2_to64();
                        }
                    }
                    BigIntConversion::Converted(integer_text(neg, t, 0))
                }
            } else {
                BigIntConversion::NotIntegral(*n)
            }
        },
        Value::Undefined => BigIntConversion::Refused(RuntimeError::TypeError(
            String::from_str("Cannot convert undefined to a BigInt"),
        )),
        Value::Null => BigIntConversion::Refused(RuntimeError::TypeError(String::from_str("Cannot convert null to a BigInt"))),
        Value::Symbol(_) => BigIntConversion::Refused(RuntimeError::TypeError(
            String::from_str("Cannot convert a Symbol value to a BigInt"),
        )),
        Value::Object(_) => BigIntConversion::Refused(RuntimeError::TypeError(
            String::from_str("Cannot convert object to a BigInt"),
        )),
    }
}

// ------------------------------------------------------------------ laws

/// The text ToString gives an integral Number below 10^21 in magnitude
/// reads back as that Number: a `-` exactly when it is negative (never for
/// `-0`), then decimal digits, without a leading zero unless the Number is
/// zero, whose value is the Number's magnitude.
pub proof fn law_integer_number_text_reads_back(b: u64)
    requires
        is_integral(b),
        trunc_magnitude(b) < ten21(),
    ensures
        exact_number_text(b) matches Some(t) && {
            let digits = if sign_bit(b) && !is_zero(b) { t.skip(1) } else { t };
            &&& (t.len() > 0 && t[0] == '-') <==> (sign_bit(b) && !is_zero(b))
            &&& digits.len() > 0
            &&& all_digits(digits)
            &&& digits_value(digits) == trunc_magnitude(b)
            &&& (digits[0] == '0' ==> digits.len() == 1 && is_zero(b))
        },
{
    lemma_trunc_magnitude_nonnegative(b);
    if is_zero(b) {
        reveal_strlit("0");
        lemma_decimal_value(0);
        assert("0"@ =~= decimal(0));
    } else {
        lemma_integral_nonzero(b);
        let m = trunc_magnitude(b) as nat;
        lemma_decimal_value(m);
        lemma_decimal_has_no_leading_zero(m);
        if sign_bit(b) {
            let t = signed_decimal(trunc(b));
            assert(t == seq!['-'] + decimal(m));
            assert(t.skip(1) =~= decimal(m));
        } else {
            assert(signed_decimal(trunc(b)) == decimal(m));
            assert(decimal(m)[0] != '-');
        }
    }
}

/// The decimal text of a number starts with `0` only when it is zero, and
/// holds only digits.
proof fn lemma_decimal_has_no_leading_zero(n: nat)
    ensures
        decimal(n)[0] == '0' ==> n == 0,
        decimal(n)[0] != '-',
    decreases n,
{
    if n >= 10 {
        lemma_decimal_has_no_leading_zero(n / 10);
        lemma_decimal_value(n / 10);
        assert(decimal(n)[0] == decimal(n / 10)[0]);
    }
}

} // verus!
