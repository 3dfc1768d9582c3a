use rusty_js_runtime::abstract_ops::{
    abstract_relational_compare, is_loosely_equal, to_number_exact, LooseEquality, RelOrder, RelationalComparison,
};
use rusty_js_runtime::bigint_number::compare_bigint_number;
use rusty_js_runtime::conversions::{number_to_string_exact, property_key, to_string, PropertyKey};
use rusty_js_runtime::interp::{unbox_int64, Int64Refusal};
use rusty_js_runtime::number::{number_from_i64_rounded, number_from_u64_rounded};
use rusty_js_runtime::property_keys::parse_i64;
use rusty_js_runtime::value::{ObjectId, Value};

fn num(x: f64) -> Value {
    Value::Number(x.to_bits())
}

fn big(d: &str) -> Value {
    Value::BigInt(d.to_string())
}

fn st(s: &str) -> Value {
    Value::String(s.to_string())
}

fn exact(x: f64) -> Option<String> {
    number_to_string_exact(x.to_bits())
}

#[test]
fn exact_number_texts() {
    assert_eq!(exact(f64::NAN).as_deref(), Some("NaN"));
    assert_eq!(exact(f64::INFINITY).as_deref(), Some("Infinity"));
    assert_eq!(exact(f64::NEG_INFINITY).as_deref(), Some("-Infinity"));
    assert_eq!(exact(0.0).as_deref(), Some("0"));
    assert_eq!(exact(-0.0).as_deref(), Some("0"));
    assert_eq!(exact(42.0).as_deref(), Some("42"));
    assert_eq!(exact(-7.0).as_deref(), Some("-7"));
    assert_eq!(exact(9007199254740993.0).as_deref(), Some("9007199254740992"));
    assert_eq!(exact(1152921504606846976.0).as_deref(), Some("1152921504606846976"));
    assert_eq!(exact(1e20).as_deref(), Some("100000000000000000000"));
    assert_eq!(exact(-1e20).as_deref(), Some("-100000000000000000000"));
    assert_eq!(exact(1e21), None);
    assert_eq!(exact(1.5), None);
    assert_eq!(exact(1e-7), None);
}

#[test]
fn to_string_of_primitives() {
    assert_eq!(to_string(&Value::Undefined).as_deref(), Some("undefined"));
    assert_eq!(to_string(&Value::Null).as_deref(), Some("null"));
    assert_eq!(to_string(&Value::Boolean(true)).as_deref(), Some("true"));
    assert_eq!(to_string(&Value::Boolean(false)).as_deref(), Some("false"));
    assert_eq!(to_string(&num(12.0)).as_deref(), Some("12"));
    assert_eq!(to_string(&num(0.5)), None);
    assert_eq!(to_string(&st("hi")).as_deref(), Some("hi"));
    assert_eq!(to_string(&big("-123")).as_deref(), Some("-123"));
    assert_eq!(to_string(&Value::Symbol("@@sym:1:x".to_string())).as_deref(), Some("@@sym:1:x"));
    assert_eq!(to_string(&Value::Object(ObjectId(3))).as_deref(), Some("[object Object]"));
}

#[test]
fn property_keys_of_values() {
    assert_eq!(property_key(&Value::Symbol("@@iterator".to_string())), Some(PropertyKey::Symbol("@@iterator".to_string())));
    assert_eq!(property_key(&st("a")), Some(PropertyKey::String("a".to_string())));
    assert_eq!(property_key(&num(3.0)), Some(PropertyKey::String("3".to_string())));
    assert_eq!(property_key(&Value::Null), Some(PropertyKey::String("null".to_string())));
    assert_eq!(property_key(&num(0.25)), None);
}

#[test]
fn unbox_int64_accepts_integer_numbers_only() {
    assert_eq!(unbox_int64(&num(5.0)), Ok(5));
    assert_eq!(unbox_int64(&num(-3.0)), Ok(-3));
    assert_eq!(unbox_int64(&num(9223372036854775808.0)), Ok(i64::MAX));
    assert_eq!(unbox_int64(&Value::Boolean(true)), Err(Int64Refusal::NotNumber));
    assert_eq!(unbox_int64(&Value::Boolean(false)), Err(Int64Refusal::NotNumber));
    assert_eq!(unbox_int64(&num(1.5)), Err(Int64Refusal::NotIntegral(1.5f64.to_bits())));
    assert_eq!(unbox_int64(&num(f64::NAN)), Err(Int64Refusal::NotIntegral(f64::NAN.to_bits())));
    assert_eq!(unbox_int64(&num(1e19)), Err(Int64Refusal::NotIntegral(1e19f64.to_bits())));
    assert_eq!(unbox_int64(&st("5")), Err(Int64Refusal::NotNumber));
}

#[test]
fn bigints_compare_with_numbers_exactly() {
    let c = |d: &str, x: f64| compare_bigint_number(d, x.to_bits());
    assert_eq!(c("5", 5.0), Some(0));
    assert_eq!(c("5", 5.5), Some(-1));
    assert_eq!(c("6", 5.5), Some(1));
    assert_eq!(c("-5", -5.5), Some(1));
    assert_eq!(c("-6", -5.5), Some(-1));
    assert_eq!(c("0", -0.0), Some(0));
    assert_eq!(c("0", 0.25), Some(-1));
    assert_eq!(c("-1", 0.0), Some(-1));
    assert_eq!(c("1", f64::NAN), None);
    assert_eq!(c("99999999999999999999999999", f64::INFINITY), Some(-1));
    assert_eq!(c("-99999999999999999999999999", f64::NEG_INFINITY), Some(1));
    // 2^64 is a double exactly; its neighbours as BigInts are not.
    assert_eq!(c("18446744073709551616", 18446744073709551616.0), Some(0));
    assert_eq!(c("18446744073709551617", 18446744073709551616.0), Some(1));
    assert_eq!(c("18446744073709551615", 18446744073709551616.0), Some(-1));
    // 2^100.
    assert_eq!(c("1267650600228229401496703205376", 2f64.powi(100)), Some(0));
    assert_eq!(c("1267650600228229401496703205375", 2f64.powi(100)), Some(-1));
    assert_eq!(c("-1267650600228229401496703205376", -(2f64.powi(100))), Some(0));
    // 9007199254740993 lies between two doubles.
    assert_eq!(c("9007199254740993", 9007199254740992.0), Some(1));
}

#[test]
fn loose_equality_outcomes() {
    let d = |a: &Value, b: &Value| match is_loosely_equal(a, b) {
        LooseEquality::Decided(r) => Some(r),
        _ => None,
    };
    assert_eq!(d(&Value::Null, &Value::Undefined), Some(true));
    assert_eq!(d(&Value::Undefined, &Value::Null), Some(true));
    assert_eq!(d(&Value::Null, &num(0.0)), Some(false));
    assert_eq!(d(&num(f64::NAN), &num(f64::NAN)), Some(false));
    assert_eq!(d(&num(0.0), &num(-0.0)), Some(true));
    assert_eq!(d(&big("10"), &num(10.0)), Some(true));
    assert_eq!(d(&num(10.5), &big("10")), Some(false));
    assert_eq!(d(&Value::Boolean(true), &num(1.0)), Some(true));
    assert_eq!(d(&num(0.0), &Value::Boolean(false)), Some(true));
    assert_eq!(d(&Value::Boolean(true), &big("1")), Some(true));
    assert_eq!(d(&Value::Boolean(true), &Value::Null), Some(false));
    assert_eq!(d(&st("a"), &st("a")), Some(true));
    assert_eq!(d(&Value::Object(ObjectId(1)), &Value::Object(ObjectId(1))), Some(true));
    assert_eq!(d(&Value::Object(ObjectId(1)), &st("[object Object]")), Some(false));
    match is_loosely_equal(&st("12"), &num(12.0)) {
        LooseEquality::NumberAndText(x, s) => {
            assert_eq!(x, 12f64.to_bits());
            assert_eq!(s, "12");
        }
        other => panic!("unexpected {:?}", other),
    }
    match is_loosely_equal(&Value::Boolean(true), &st("1")) {
        LooseEquality::NumberAndText(x, s) => {
            assert_eq!(x, 1f64.to_bits());
            assert_eq!(s, "1");
        }
        other => panic!("unexpected {:?}", other),
    }
    match is_loosely_equal(&st("7"), &big("7")) {
        LooseEquality::BigIntAndText(d, s) => {
            assert_eq!(d, "7");
            assert_eq!(s, "7");
        }
        other => panic!("unexpected {:?}", other),
    }
}

#[test]
fn relational_comparison_outcomes() {
    let r = |a: &Value, b: &Value| abstract_relational_compare(a, b);
    assert_eq!(r(&st("a"), &st("b")), RelationalComparison::Decided(RelOrder::Less));
    assert_eq!(r(&st("b"), &st("ab")), RelationalComparison::Decided(RelOrder::Greater));
    assert_eq!(r(&big("-5"), &big("3")), RelationalComparison::Decided(RelOrder::Less));
    assert_eq!(r(&big("3"), &num(2.5)), RelationalComparison::Decided(RelOrder::Greater));
    assert_eq!(r(&num(2.5), &big("3")), RelationalComparison::Decided(RelOrder::Less));
    assert_eq!(r(&num(f64::NAN), &big("3")), RelationalComparison::Decided(RelOrder::Undefined));
    assert_eq!(r(&num(1.0), &num(2.0)), RelationalComparison::Decided(RelOrder::Less));
    assert_eq!(r(&Value::Null, &num(0.0)), RelationalComparison::Decided(RelOrder::Equal));
    assert_eq!(r(&Value::Boolean(true), &num(0.5)), RelationalComparison::Decided(RelOrder::Greater));
    assert_eq!(r(&Value::Undefined, &num(0.5)), RelationalComparison::Decided(RelOrder::Undefined));
    assert_eq!(r(&Value::Undefined, &st("1")), RelationalComparison::Decided(RelOrder::Undefined));
    assert_eq!(r(&st("1"), &num(0.5)), RelationalComparison::AfterToNumber);
    assert_eq!(r(&big("1"), &st("2")), RelationalComparison::AfterToNumber);
}

#[test]
fn to_number_where_exact() {
    assert!(f64::from_bits(to_number_exact(&Value::Undefined).unwrap()).is_nan());
    assert_eq!(to_number_exact(&Value::Null), Some(0));
    assert_eq!(to_number_exact(&Value::Boolean(true)), Some(1f64.to_bits()));
    assert_eq!(to_number_exact(&num(3.5)), Some(3.5f64.to_bits()));
    assert_eq!(to_number_exact(&st("3")), None);
    assert_eq!(to_number_exact(&big("3")), None);
    assert!(f64::from_bits(to_number_exact(&Value::Object(ObjectId(0))).unwrap()).is_nan());
}

#[test]
fn integers_round_to_the_nearest_double() {
    let samples: [u64; 12] = [
        0,
        1,
        9007199254740991,
        9007199254740992,
        9007199254740993,
        9007199254740995,
        18014398509481987,
        123456789012345678,
        u64::MAX,
        u64::MAX - 1024,
        (1u64 << 63) + 1025,
        (1u64 << 63) + 1024,
    ];
    for n in samples {
        assert_eq!(number_from_u64_rounded(n), (n as f64).to_bits(), "rounding {}", n);
    }
    let signed: [i64; 6] = [0, -1, i64::MIN, i64::MAX, -9007199254740993, -123456789012345678];
    for n in signed {
        assert_eq!(number_from_i64_rounded(n), (n as f64).to_bits(), "rounding {}", n);
    }
}

#[test]
fn i64_texts_parse_as_from_str() {
    for t in ["0", "-0", "+7", "-9223372036854775808", "9223372036854775807", "9223372036854775808", "-", "+", "", "-+1", "1.0", " 1", "007", "-12"] {
        assert_eq!(parse_i64(t), t.parse::<i64>().ok(), "parsing {:?}", t);
    }
}
