//! The abstract operations of ECMA-262 §7 on values: ToBoolean, strict
//! equality, SameValue and SameValueZero, and the result of an abstract
//! relational comparison.
use vstd::prelude::*;
use crate::number::{num_order, number_compare, is_nan, is_zero, num_eq, sign_bit, number_eq, number_is_nan, number_is_zero, number_is_sign_negative};
use crate::string_proto::{code_point_order, string_locale_compare, law_locale_compare_is_antisymmetric};
use crate::value::{Value, is_bigint_zero, bigint_is_zero};
use crate::bigint::{bigint_value, compare_bigints, is_canonical_bigint, sign_of};
use crate::bigint_number::{bigint_number_order, compare_bigint_number};
use crate::bigint_arith::bigint_add;
use crate::conversions::{to_string, to_string_text};

verus! {

/// ToBoolean (§7.1.2).
pub open spec fn spec_to_boolean(v: Value) -> bool {
    match v {
        Value::Undefined | Value::Null => false,
        Value::Boolean(b) => b,
        Value::Number(n) => !(is_nan(n) || is_zero(n)),
        Value::String(s) => s@.len() > 0,
        Value::BigInt(d) => !is_bigint_zero(d@),
        Value::Symbol(_) => true,
        Value::Object(_) => true,
    }
}

/// IsStrictlyEqual (§7.2.15): same type and same value, where NaN is
/// unequal to itself and the two zeros are equal.
pub open spec fn spec_is_strictly_equal(a: Value, b: Value) -> bool {
    match (a, b) {
        (Value::Undefined, Value::Undefined) => true,
        (Value::Null, Value::Null) => true,
        (Value::Boolean(x), Value::Boolean(y)) => x == y,
        (Value::Number(x), Value::Number(y)) => num_eq(x, y),
        (Value::String(x), Value::String(y)) => x@ == y@,
        (Value::BigInt(x), Value::BigInt(y)) => x@ == y@,
        (Value::Symbol(x), Value::Symbol(y)) => x@ == y@,
        (Value::Object(x), Value::Object(y)) => x == y,
        _ => false,
    }
}

/// SameValue (§7.2.10): strict equality, except that NaN equals NaN and
/// `+0` does not equal `-0`.
pub open spec fn spec_same_value(a: Value, b: Value) -> bool {
    match (a, b) {
        (Value::Number(x), Value::Number(y)) => {
            if is_nan(x) && is_nan(y) {
                true
            } else if is_zero(x) && is_zero(y) {
                sign_bit(x) == sign_bit(y)
            } else {
                num_eq(x, y)
            }
        },
        _ => spec_is_strictly_equal(a, b),
    }
}

/// SameValueZero (§7.2.11): strict equality, except that NaN equals NaN.
pub open spec fn spec_same_value_zero(a: Value, b: Value) -> bool {
    match (a, b) {
        (Value::Number(x), Value::Number(y)) => (is_nan(x) && is_nan(y)) || num_eq(x, y),
        _ => spec_is_strictly_equal(a, b),
    }
}

/// ToBoolean per §7.1.2.
pub fn to_boolean(v: &Value) -> (r: bool)
    ensures
        r == spec_to_boolean(*v),
{
    match v {
        Value::Undefined | Value::Null => false,
        Value::Boolean(b) => *b,
        Value::Number(n) => !(number_is_nan(*n) || number_is_zero(*n)),
        Value::String(s) => !s.as_str().is_empty(),
        Value::BigInt(d) => !bigint_is_zero(d),
        Value::Symbol(_) => true,
        Value::Object(_) => true,
    }
}

/// Strict equality per §7.2.15.
pub fn is_strictly_equal(a: &Value, b: &Value) -> (r: bool)
    ensures
        r == spec_is_strictly_equal(*a, *b),
{
    match (a, b) {
        (Value::Undefined, Value::Undefined) => true,
        (Value::Null, Value::Null) => true,
        (Value::Boolean(x), Value::Boolean(y)) => *x == *y,
        (Value::Number(x), Value::Number(y)) => number_eq(*x, *y),
        (Value::String(x), Value::String(y)) => *x == *y,
        (Value::BigInt(x), Value::BigInt(y)) => *x == *y,
        (Value::Symbol(x), Value::Symbol(y)) => *x == *y,
        (Value::Object(x), Value::Object(y)) => x.0 == y.0,
        _ => false,
    }
}

/// SameValue per §7.2.10, as used by `Object.is`.
pub fn same_value(a: &Value, b: &Value) -> (r: bool)
    ensures
        r == spec_same_value(*a, *b),
{
    match (a, b) {
        (Value::Number(x), Value::Number(y)) => {
            if number_is_nan(*x) && number_is_nan(*y) {
                return true;
            }
            if number_is_zero(*x) && number_is_zero(*y) {
                return number_is_sign_negative(*x) == number_is_sign_negative(*y);
            }
            number_eq(*x, *y)
        },
        _ => is_strictly_equal(a, b),
    }
}

/// SameValueZero per §7.2.11, as used by `Array.prototype.includes` and
/// the keys of `Set` and `Map`.
pub fn same_value_zero(a: &Value, b: &Value) -> (r: bool)
    ensures
        r == spec_same_value_zero(*a, *b),
{
    match (a, b) {
        (Value::Number(x), Value::Number(y)) => {
            if number_is_nan(*x) && number_is_nan(*y) {
                return true;
            }
            number_eq(*x, *y)
        },
        _ => is_strictly_equal(a, b),
    }
}

/// The outcome of an abstract relational comparison (§7.2.14), as used by
/// the `<`, `>`, `<=` and `>=` operators; `Undefined` when a NaN takes part.
#[derive(Debug, Clone, Copy, PartialEq, Eq, Structural)]
pub enum RelOrder {
    Less,
    Greater,
    Equal,
    Undefined,
}

/// The order a three-way comparison result gives.
pub open spec fn rel_of(o: int) -> RelOrder {
    if o < 0 {
        RelOrder::Less
    } else if o == 0 {
        RelOrder::Equal
    } else {
        RelOrder::Greater
    }
}

/// The comparison of two Numbers, the last step of the abstract
/// relational comparison: `Undefined` when either is NaN, else their
/// numeric order (the two zeros are equal).
pub fn compare_numbers(a: u64, b: u64) -> (r: RelOrder)
    ensures
        r == match num_order(a, b) {
            Some(o) => rel_of(o),
            None => RelOrder::Undefined,
        },
{
    match number_compare(a, b) {
        None => RelOrder::Undefined,
        Some(o) => if o < 0 {
            RelOrder::Less
        } else if o == 0 {
            RelOrder::Equal
        } else {
            RelOrder::Greater
        },
    }
}

/// The comparison of two Strings: by their code points, the shorter
/// first when one begins the other.
pub fn compare_strings(a: &str, b: &str) -> (r: RelOrder)
    ensures
        r == rel_of(code_point_order(a@, b@)),
{
    let o = string_locale_compare(a, b);
    if o < 0 {
        RelOrder::Less
    } else if o == 0 {
        RelOrder::Equal
    } else {
        RelOrder::Greater
    }
}

/// The two values are of the same type.
pub open spec fn same_type(a: Value, b: Value) -> bool {
    match (a, b) {
        (Value::Undefined, Value::Undefined) => true,
        (Value::Null, Value::Null) => true,
        (Value::Boolean(_), Value::Boolean(_)) => true,
        (Value::Number(_), Value::Number(_)) => true,
        (Value::String(_), Value::String(_)) => true,
        (Value::BigInt(_), Value::BigInt(_)) => true,
        (Value::Symbol(_), Value::Symbol(_)) => true,
        (Value::Object(_), Value::Object(_)) => true,
        _ => false,
    }
}

fn same_type_exec(a: &Value, b: &Value) -> (r: bool)
    ensures
        r == same_type(*a, *b),
{
    match (a, b) {
        (Value::Undefined, Value::Undefined) => true,
        (Value::Null, Value::Null) => true,
        (Value::Boolean(_), Value::Boolean(_)) => true,
        (Value::Number(_), Value::Number(_)) => true,
        (Value::String(_), Value::String(_)) => true,
        (Value::BigInt(_), Value::BigInt(_)) => true,
        (Value::Symbol(_), Value::Symbol(_)) => true,
        (Value::Object(_), Value::Object(_)) => true,
        _ => false,
    }
}

/// A BigInt carries its canonical text.
pub open spec fn bigint_canonical(v: Value) -> bool {
    v matches Value::BigInt(d) ==> is_canonical_bigint(d@)
}

/// The Number a Boolean converts to: 1 or +0.
pub open spec fn bool_number(b: bool) -> u64 {
    if b { 0x3ff0_0000_0000_0000 } else { 0 }
}

/// Loose equality (§7.2.13) as far as the library decides it, and what it
/// leaves to the caller: a Number against the text of a String (equal
/// when StringToNumber reads the text as the same number, neither being
/// NaN), or a BigInt (its text) against the text of a String (equal when
/// the text reads as the same BigInt). Both readings parse text as a float
/// or a BigInt.
#[derive(Debug)]
pub enum LooseEquality {
    Decided(bool),
    NumberAndText(u64, String),
    BigIntAndText(String, String),
}

/// Loose equality of the Number `n` with a value of another type.
pub open spec fn loose_with_number(n: u64, other: Value) -> LooseEquality {
    match other {
        Value::Number(m) => LooseEquality::Decided(num_eq(n, m)),
        Value::String(s) => LooseEquality::NumberAndText(n, s),
        Value::BigInt(d) => LooseEquality::Decided(bigint_number_order(d@, n) == Some(0int)),
        _ => LooseEquality::Decided(false),
    }
}

/// IsLooselyEqual (§7.2.13) on primitives: values of one type compare
/// strictly; `null` equals `undefined`; a BigInt equals a Number of the
/// same exact value; a Boolean compares as the Number 1 or 0; a String
/// against a Number or a BigInt is left to the caller; nothing else is
/// equal.
pub open spec fn loose_equality(a: Value, b: Value) -> LooseEquality {
    if same_type(a, b) {
        LooseEquality::Decided(spec_is_strictly_equal(a, b))
    } else {
        match (a, b) {
            (Value::Null, Value::Undefined) => LooseEquality::Decided(true),
            (Value::Undefined, Value::Null) => LooseEquality::Decided(true),
            (Value::Number(x), Value::String(s)) => LooseEquality::NumberAndText(x, s),
            (Value::String(s), Value::Number(x)) => LooseEquality::NumberAndText(x, s),
            (Value::BigInt(d), Value::Number(n)) => LooseEquality::Decided(bigint_number_order(d@, n) == Some(0int)),
            (Value::Number(n), Value::BigInt(d)) => LooseEquality::Decided(bigint_number_order(d@, n) == Some(0int)),
            (Value::BigInt(d), Value::String(s)) => LooseEquality::BigIntAndText(d, s),
            (Value::String(s), Value::BigInt(d)) => LooseEquality::BigIntAndText(d, s),
            (Value::Boolean(x), other) => loose_with_number(bool_number(x), other),
            (other, Value::Boolean(y)) => loose_with_number(bool_number(y), other),
            _ => LooseEquality::Decided(false),
        }
    }
}

fn bool_number_exec(b: bool) -> (r: u64)
    ensures
        r == bool_number(b),
{
    if b { 0x3ff0_0000_0000_0000 } else { 0 }
}

fn bigint_equals_number(d: &String, n: u64) -> (r: bool)
    requires
        is_canonical_bigint(d@),
    ensures
        r == (bigint_number_order(d@, n) == Some(0int)),
{
    match compare_bigint_number(d.as_str(), n) {
        Some(o) => o == 0,
        None => false,
    }
}

fn loose_with_number_exec(n: u64, other: &Value) -> (r: LooseEquality)
    requires
        bigint_canonical(*other),
    ensures
        r == loose_with_number(n, *other),
{
    match other {
        Value::Number(m) => LooseEquality::Decided(number_eq(n, *m)),
        Value::String(s) => LooseEquality::NumberAndText(n, s.clone()),
        Value::BigInt(d) => LooseEquality::Decided(bigint_equals_number(d, n)),
        _ => LooseEquality::Decided(false),
    }
}

/// Loose equality, as `loose_equality` says.
pub fn is_loosely_equal(a: &Value, b: &Value) -> (r: LooseEquality)
    requires
        bigint_canonical(*a),
        bigint_canonical(*b),
    ensures
        r == loose_equality(*a, *b),
{
    if same_type_exec(a, b) {
        return LooseEquality::Decided(is_strictly_equal(a, b));
    }
    match (a, b) {
        (Value::Null, Value::Undefined) => LooseEquality::Decided(true),
        (Value::Undefined, Value::Null) => LooseEquality::Decided(true),
        (Value::Number(x), Value::String(s)) => LooseEquality::NumberAndText(*x, s.clone()),
        (Value::String(s), Value::Number(x)) => LooseEquality::NumberAndText(*x, s.clone()),
        (Value::BigInt(d), Value::Number(n)) => LooseEquality::Decided(bigint_equals_number(d, *n)),
        (Value::Number(n), Value::BigInt(d)) => LooseEquality::Decided(bigint_equals_number(d, *n)),
        (Value::BigInt(d), Value::String(s)) => LooseEquality::BigIntAndText(d.clone(), s.clone()),
        (Value::String(s), Value::BigInt(d)) => LooseEquality::BigIntAndText(d.clone(), s.clone()),
        (Value::Boolean(x), other) => loose_with_number_exec(bool_number_exec(*x), other),
        (other, Value::Boolean(y)) => loose_with_number_exec(bool_number_exec(*y), other),
        _ => LooseEquality::Decided(false),
    }
}

/// The bits of the NaN that ToNumber gives.
pub open spec fn nan_bits() -> u64 {
    0x7ff8_0000_0000_0000
}

/// ToNumber (§7.1.4) where it needs no parsing: NaN for `undefined`, a
/// Symbol or an object, +0 for `null`, 1 or +0 for a Boolean, a Number
/// itself; `None` for a String or a BigInt, whose text is read as a float.
pub open spec fn exact_to_number(v: Value) -> Option<u64> {
    match v {
        Value::Undefined => Some(nan_bits()),
        Value::Null => Some(0),
        Value::Boolean(b) => Some(bool_number(b)),
        Value::Number(n) => Some(n),
        Value::String(_) => None,
        Value::BigInt(_) => None,
        Value::Symbol(_) => Some(nan_bits()),
        Value::Object(_) => Some(nan_bits()),
    }
}

/// ToNumber, as `exact_to_number` says.
pub fn to_number_exact(v: &Value) -> (r: Option<u64>)
    ensures
        r == exact_to_number(*v),
{
    match v {
        Value::Undefined => Some(0x7ff8_0000_0000_0000),
        Value::Null => Some(0),
        Value::Boolean(b) => Some(bool_number_exec(*b)),
        Value::Number(n) => Some(*n),
        Value::String(_) => None,
        Value::BigInt(_) => None,
        Value::Symbol(_) => Some(0x7ff8_0000_0000_0000),
        Value::Object(_) => Some(0x7ff8_0000_0000_0000),
    }
}

/// The abstract relational comparison as far as the library decides it;
/// `AfterToNumber` when both sides are to be compared as Numbers and the
/// ToNumber of one of them reads a text as a float.
#[derive(Debug, Clone, Copy, PartialEq, Eq, Structural)]
pub enum RelationalComparison {
    Decided(RelOrder),
    AfterToNumber,
}

/// The order a comparison of two Numbers gives.
pub open spec fn number_rel(p: u64, q: u64) -> RelOrder {
    match num_order(p, q) {
        Some(o) => rel_of(o),
        None => RelOrder::Undefined,
    }
}

/// The abstract relational comparison (§7.2.14) on primitives: two
/// Strings by their code points, two BigInts by value, a BigInt and a
/// Number by their exact values (`Undefined` against NaN); any other pair
/// as Numbers after ToNumber, `Undefined` when either side is NaN.
pub open spec fn relational_comparison(x: Value, y: Value) -> RelationalComparison {
    match (x, y) {
        (Value::String(a), Value::String(b)) => RelationalComparison::Decided(rel_of(code_point_order(a@, b@))),
        (Value::BigInt(a), Value::BigInt(b)) => RelationalComparison::Decided(rel_of(sign_of(bigint_value(a@) - bigint_value(b@)))),
        (Value::BigInt(a), Value::Number(n)) => RelationalComparison::Decided(match bigint_number_order(a@, n) {
            Some(o) => rel_of(o),
            None => RelOrder::Undefined,
        }),
        (Value::Number(n), Value::BigInt(b)) => RelationalComparison::Decided(match bigint_number_order(b@, n) {
            Some(o) => rel_of(-o),
            None => RelOrder::Undefined,
        }),
        _ => match (exact_to_number(x), exact_to_number(y)) {
            (Some(p), Some(q)) => RelationalComparison::Decided(number_rel(p, q)),
            (Some(p), None) => if is_nan(p) {
                RelationalComparison::Decided(RelOrder::Undefined)
            } else {
                RelationalComparison::AfterToNumber
            },
            (None, Some(q)) => if is_nan(q) {
                RelationalComparison::Decided(RelOrder::Undefined)
            } else {
                RelationalComparison::AfterToNumber
            },
            (None, None) => RelationalComparison::AfterToNumber,
        },
    }
}

fn rel_of_exec(o: i8) -> (r: RelOrder)
    ensures
        r == rel_of(o as int),
{
    if o < 0 {
        RelOrder::Less
    } else if o == 0 {
        RelOrder::Equal
    } else {
        RelOrder::Greater
    }
}

/// The abstract relational comparison, as `relational_comparison` says.
pub fn abstract_relational_compare(x: &Value, y: &Value) -> (r: RelationalComparison)
    requires
        bigint_canonical(*x),
        bigint_canonical(*y),
    ensures
        r == relational_comparison(*x, *y),
{
    match (x, y) {
        (Value::String(a), Value::String(b)) => RelationalComparison::Decided(compare_strings(a, b)),
        (Value::BigInt(a), Value::BigInt(b)) => RelationalComparison::Decided(rel_of_exec(compare_bigints(a, b))),
        (Value::BigInt(a), Value::Number(n)) => RelationalComparison::Decided(match compare_bigint_number(a, *n) {
            Some(o) => rel_of_exec(o),
            None => RelOrder::Undefined,
        }),
        (Value::Number(n), Value::BigInt(b)) => RelationalComparison::Decided(match compare_bigint_number(b, *n) {
            Some(o) => rel_of_exec(-o),
            None => RelOrder::Undefined,
        }),
        _ => match (to_number_exact(x), to_number_exact(y)) {
            (Some(p), Some(q)) => RelationalComparison::Decided(compare_numbers(p, q)),
            (Some(p), None) => if number_is_nan(p) {
                RelationalComparison::Decided(RelOrder::Undefined)
            } else {
                RelationalComparison::AfterToNumber
            },
            (None, Some(q)) => if number_is_nan(q) {
                RelationalComparison::Decided(RelOrder::Undefined)
            } else {
                RelationalComparison::AfterToNumber
            },
            (None, None) => RelationalComparison::AfterToNumber,
        },
    }
}

/// One side of a concatenation: its text, or a Number whose text is float
/// formatting, left to the caller.
#[derive(Debug)]
pub enum AddPiece {
    Text(String),
    Number(u64),
}

/// The piece stands for ToString of `v`.
pub open spec fn piece_of(p: AddPiece, v: Value) -> bool {
    match p {
        AddPiece::Text(t) => to_string_text(v) == Some(t@),
        AddPiece::Number(n) => v == Value::Number(n) && to_string_text(v) is None,
    }
}

/// What the `+` operator makes of two primitives: the concatenation of
/// their ToString; the same with a Number's text left to the caller; the
/// sum of two BigInts (canonical text); or, for any other pair, the sum of
/// their ToNumber, a float addition left to the caller.
#[derive(Debug)]
pub enum Addition {
    Concatenated(String),
    Concatenate(AddPiece, AddPiece),
    BigIntSum(String),
    NumberSum,
}

fn piece(v: &Value) -> (r: AddPiece)
    ensures
        piece_of(r, *v),
{
    match to_string(v) {
        Some(t) => AddPiece::Text(t),
        None => match v {
            Value::Number(n) => AddPiece::Number(*n),
            _ => AddPiece::Text(String::new()),
        },
    }
}

/// The `+` operator (§13.15.3) on primitives: with a String on either side
/// it concatenates the two ToString texts; two BigInts add exactly; any
/// other pair adds as Numbers.
pub fn op_add(x: &Value, y: &Value) -> (r: Addition)
    requires
        bigint_canonical(*x),
        bigint_canonical(*y),
    ensures
        if x is String || y is String {
            match (to_string_text(*x), to_string_text(*y)) {
                (Some(p), Some(q)) => r matches Addition::Concatenated(t) && t@ == p + q,
                _ => r matches Addition::Concatenate(l, rr) && piece_of(l, *x) && piece_of(rr, *y),
            }
        } else {
            match (*x, *y) {
                (Value::BigInt(a), Value::BigInt(b)) => r matches Addition::BigIntSum(t)
                    && is_canonical_bigint(t@) && bigint_value(t@) == bigint_value(a@) + bigint_value(b@),
                _ => r is NumberSum,
            }
        },
{
    if matches!(x, Value::String(_)) || matches!(y, Value::String(_)) {
        let l = piece(x);
        let rr = piece(y);
        return match (l, rr) {
            (AddPiece::Text(mut p), AddPiece::Text(q)) => {
                p.append(q.as_str());
                Addition::Concatenated(p)
            },
            (l, rr) => Addition::Concatenate(l, rr),
        };
    }
    match (x, y) {
        (Value::BigInt(a), Value::BigInt(b)) => Addition::BigIntSum(bigint_add(a, b)),
        _ => Addition::NumberSum,
    }
}

// ------------------------------------------------------------------ laws

/// The value is a NaN number.
pub open spec fn is_nan_value(v: Value) -> bool {
    v matches Value::Number(n) && is_nan(n)
}

/// SameValue on numbers is equality of bit patterns, NaNs all alike: the
/// two zeros differ, and so SameValue tells every non-NaN number apart.
pub proof fn law_same_value_on_numbers(x: u64, y: u64)
    ensures
        spec_same_value(Value::Number(x), Value::Number(y)) <==> ((is_nan(x) && is_nan(y)) || x == y),
{
}

/// Strict equality is symmetric, and reflexive on every value but NaN.
pub proof fn law_strict_equality_symmetric_and_reflexive_but_nan(a: Value, b: Value)
    ensures
        spec_is_strictly_equal(a, b) == spec_is_strictly_equal(b, a),
        spec_is_strictly_equal(a, a) <==> !is_nan_value(a),
{
}

/// SameValue is an equivalence: reflexive (NaN included), symmetric and
/// transitive.
pub proof fn law_same_value_is_an_equivalence(a: Value, b: Value, c: Value)
    ensures
        spec_same_value(a, a),
        spec_same_value(a, b) == spec_same_value(b, a),
        spec_same_value(a, b) && spec_same_value(b, c) ==> spec_same_value(a, c),
{
    if let (Value::Number(x), Value::Number(y)) = (a, b) {
        law_same_value_on_numbers(x, y);
    }
    if let (Value::Number(y), Value::Number(z)) = (b, c) {
        law_same_value_on_numbers(y, z);
    }
    if let (Value::Number(x), Value::Number(z)) = (a, c) {
        law_same_value_on_numbers(x, z);
    }
    if let Value::Number(x) = a {
        law_same_value_on_numbers(x, x);
    }
}

/// SameValueZero is an equivalence: reflexive (NaN included), symmetric and
/// transitive.
pub proof fn law_same_value_zero_is_an_equivalence(a: Value, b: Value, c: Value)
    ensures
        spec_same_value_zero(a, a),
        spec_same_value_zero(a, b) == spec_same_value_zero(b, a),
        spec_same_value_zero(a, b) && spec_same_value_zero(b, c) ==> spec_same_value_zero(a, c),
{
}

/// SameValue is strict equality but that NaN equals NaN and `+0` does not
/// equal `-0`.
pub proof fn law_same_value_is_strict_equality_but_nan_and_signed_zero(a: Value, b: Value)
    ensures
        is_nan_value(a) && is_nan_value(b) ==> spec_same_value(a, b) && !spec_is_strictly_equal(a, b),
        (a matches Value::Number(x) && b matches Value::Number(y) && is_zero(x) && is_zero(y)
            && sign_bit(x) != sign_bit(y)) ==> !spec_same_value(a, b) && spec_is_strictly_equal(a, b),
        !(is_nan_value(a) && is_nan_value(b))
            && !(a matches Value::Number(x) && b matches Value::Number(y) && is_zero(x) && is_zero(y)
            && sign_bit(x) != sign_bit(y)) ==> spec_same_value(a, b) == spec_is_strictly_equal(a, b),
{
}

/// SameValueZero is strict equality but that NaN equals NaN; SameValue
/// implies it.
pub proof fn law_same_value_zero_is_strict_equality_but_nan(a: Value, b: Value)
    ensures
        spec_same_value_zero(a, b) == (spec_is_strictly_equal(a, b) || (is_nan_value(a) && is_nan_value(b))),
        spec_same_value(a, b) ==> spec_same_value_zero(a, b),
{
}

/// Strictly equal values have the same truthiness.
pub proof fn law_strictly_equal_values_are_equally_truthy(a: Value, b: Value)
    requires
        spec_is_strictly_equal(a, b),
    ensures
        spec_to_boolean(a) == spec_to_boolean(b),
{
}

/// The order with its sides exchanged.
pub open spec fn flipped(o: RelOrder) -> RelOrder {
    match o {
        RelOrder::Less => RelOrder::Greater,
        RelOrder::Greater => RelOrder::Less,
        other => other,
    }
}

/// `null` and `undefined` are loosely equal to each other and to
/// themselves, and to no other value, on either side: `false == null`,
/// `0 == undefined` and `"" == null` are all false.
pub proof fn law_null_and_undefined_equal_only_each_other(v: Value)
    ensures
        (v is Null || v is Undefined) ==> {
            &&& loose_equality(v, Value::Null) == LooseEquality::Decided(true)
            &&& loose_equality(v, Value::Undefined) == LooseEquality::Decided(true)
        },
        !(v is Null || v is Undefined) ==> {
            &&& loose_equality(v, Value::Null) == LooseEquality::Decided(false)
            &&& loose_equality(Value::Null, v) == LooseEquality::Decided(false)
            &&& loose_equality(v, Value::Undefined) == LooseEquality::Decided(false)
            &&& loose_equality(Value::Undefined, v) == LooseEquality::Decided(false)
        },
{
}

/// A Boolean compares loosely with any value of another type as the Number
/// it converts to (1 or +0) does, on either side.
pub proof fn law_booleans_compare_as_their_numbers(b: bool, v: Value)
    requires
        !(v is Boolean),
    ensures
        loose_equality(Value::Boolean(b), v) == loose_equality(Value::Number(bool_number(b)), v),
        loose_equality(v, Value::Boolean(b)) == loose_equality(v, Value::Number(bool_number(b))),
{
}

/// Loose equality does not depend on the order of its operands, and
/// strictly equal values are loosely equal.
pub proof fn law_loose_equality_is_symmetric(a: Value, b: Value)
    ensures
        loose_equality(a, b) == loose_equality(b, a),
        spec_is_strictly_equal(a, b) ==> loose_equality(a, b) == LooseEquality::Decided(true),
{
    law_strict_equality_symmetric_and_reflexive_but_nan(a, b);
}

/// Exchanging the operands of a relational comparison flips a decided
/// order (and leaves `Undefined` as it is), and leaves an undecided one
/// undecided.
pub proof fn law_relational_comparison_flips(x: Value, y: Value)
    ensures
        match relational_comparison(x, y) {
            RelationalComparison::Decided(o) => relational_comparison(y, x) == RelationalComparison::Decided(flipped(o)),
            RelationalComparison::AfterToNumber => relational_comparison(y, x) == RelationalComparison::AfterToNumber,
        },
{
    match (x, y) {
        (Value::String(a), Value::String(b)) => {
            law_locale_compare_is_antisymmetric(a@, b@);
        },
        (Value::BigInt(a), Value::BigInt(b)) => {},
        (Value::BigInt(a), Value::Number(n)) => {},
        (Value::Number(n), Value::BigInt(b)) => {},
        _ => {
            if let (Some(p), Some(q)) = (exact_to_number(x), exact_to_number(y)) {
                crate::ops::law_number_comparisons(p, q, q);
            }
        },
    }
}

} // verus!
