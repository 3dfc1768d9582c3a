use rusty_js_runtime::abstract_ops::{op_add, AddPiece, Addition};
use rusty_js_runtime::bigint::is_canonical_bigint_text;
use rusty_js_runtime::bigint_arith::{bigint_binary, bigint_from_decimal, bigint_unary, BigIntBinaryOp, BigIntUnaryOp};
use rusty_js_runtime::conversions::{to_bigint, BigIntConversion};
use rusty_js_runtime::interp::RuntimeError;
use rusty_js_runtime::value::{ObjectId, Value};

fn bin(op: BigIntBinaryOp, a: &str, b: &str) -> String {
    match bigint_binary(op, a, b) {
        Ok(t) => t,
        Err(e) => panic!("unexpected {:?}", e),
    }
}

fn add(a: &str, b: &str) -> String {
    bin(BigIntBinaryOp::Add, a, b)
}

fn sub(a: &str, b: &str) -> String {
    bin(BigIntBinaryOp::Sub, a, b)
}

#[test]
fn bigint_addition() {
    assert_eq!(add("0", "0"), "0");
    assert_eq!(add("1", "2"), "3");
    assert_eq!(add("999", "1"), "1000");
    assert_eq!(add("-999", "-1"), "-1000");
    assert_eq!(add("5", "-5"), "0");
    assert_eq!(add("-5", "5"), "0");
    assert_eq!(add("1000", "-1"), "999");
    assert_eq!(add("-1000", "1"), "-999");
    assert_eq!(add("1", "-1000"), "-999");
    assert_eq!(add("18446744073709551615", "1"), "18446744073709551616");
    assert_eq!(
        add("123456789012345678901234567890", "987654321098765432109876543210"),
        "1111111110111111111011111111100"
    );
}

#[test]
fn bigint_subtraction_and_unary_operators() {
    assert_eq!(sub("10", "3"), "7");
    assert_eq!(sub("3", "10"), "-7");
    assert_eq!(sub("-3", "-10"), "7");
    assert_eq!(sub("7", "7"), "0");
    assert_eq!(sub("100000000000000000000", "1"), "99999999999999999999");
    assert_eq!(bigint_unary(BigIntUnaryOp::Neg, "0"), "0");
    assert_eq!(bigint_unary(BigIntUnaryOp::Neg, "12"), "-12");
    assert_eq!(bigint_unary(BigIntUnaryOp::Neg, "-12"), "12");
    assert_eq!(bigint_unary(BigIntUnaryOp::Inc, "-1"), "0");
    assert_eq!(bigint_unary(BigIntUnaryOp::Inc, "99"), "100");
    assert_eq!(bigint_unary(BigIntUnaryOp::Dec, "0"), "-1");
    assert_eq!(bigint_unary(BigIntUnaryOp::Dec, "-99"), "-100");
    // Subtracting what was added gives the same text back.
    let s = add("-4711", "123456789");
    assert_eq!(sub(&s, "123456789"), "-4711");
    assert_eq!(add("123456789", "-4711"), s);
}

#[test]
fn bigint_multiplication() {
    assert_eq!(bin(BigIntBinaryOp::Mul, "0", "-5"), "0");
    assert_eq!(bin(BigIntBinaryOp::Mul, "12", "12"), "144");
    assert_eq!(bin(BigIntBinaryOp::Mul, "-12", "12"), "-144");
    assert_eq!(bin(BigIntBinaryOp::Mul, "-12", "-12"), "144");
    assert_eq!(
        bin(BigIntBinaryOp::Mul, "18446744073709551616", "18446744073709551616"),
        "340282366920938463463374607431768211456"
    );
    assert_eq!(bin(BigIntBinaryOp::Mul, "99999", "99999"), "9999800001");
}

#[test]
fn bigint_division_truncates_toward_zero() {
    assert_eq!(bin(BigIntBinaryOp::Div, "7", "2"), "3");
    assert_eq!(bin(BigIntBinaryOp::Div, "-7", "2"), "-3");
    assert_eq!(bin(BigIntBinaryOp::Div, "7", "-2"), "-3");
    assert_eq!(bin(BigIntBinaryOp::Div, "-7", "-2"), "3");
    assert_eq!(bin(BigIntBinaryOp::Mod, "7", "2"), "1");
    assert_eq!(bin(BigIntBinaryOp::Mod, "-7", "2"), "-1");
    assert_eq!(bin(BigIntBinaryOp::Mod, "7", "-2"), "1");
    assert_eq!(bin(BigIntBinaryOp::Mod, "-6", "2"), "0");
    assert_eq!(bin(BigIntBinaryOp::Div, "1", "5"), "0");
    assert_eq!(bin(BigIntBinaryOp::Div, "-1", "5"), "0");
    assert_eq!(
        bin(BigIntBinaryOp::Div, "340282366920938463463374607431768211457", "18446744073709551616"),
        "18446744073709551616"
    );
    assert_eq!(bin(BigIntBinaryOp::Mod, "340282366920938463463374607431768211457", "18446744073709551616"), "1");
    for op in [BigIntBinaryOp::Div, BigIntBinaryOp::Mod] {
        match bigint_binary(op, "5", "0") {
            Err(RuntimeError::TypeError(m)) => assert_eq!(m, "Division by zero"),
            other => panic!("unexpected {:?}", other),
        }
    }
}

fn big(d: &str) -> Value {
    Value::BigInt(d.to_string())
}

#[test]
fn plus_operator_outcomes() {
    match op_add(&Value::String("a".to_string()), &Value::Number(2f64.to_bits())) {
        Addition::Concatenated(s) => assert_eq!(s, "a2"),
        other => panic!("unexpected {:?}", other),
    }
    match op_add(&Value::Null, &Value::String("x".to_string())) {
        Addition::Concatenated(s) => assert_eq!(s, "nullx"),
        other => panic!("unexpected {:?}", other),
    }
    match op_add(&Value::Number(0.5f64.to_bits()), &Value::String("x".to_string())) {
        Addition::Concatenate(AddPiece::Number(n), AddPiece::Text(t)) => {
            assert_eq!(n, 0.5f64.to_bits());
            assert_eq!(t, "x");
        }
        other => panic!("unexpected {:?}", other),
    }
    match op_add(&big("20"), &big("-22")) {
        Addition::BigIntSum(d) => assert_eq!(d, "-2"),
        other => panic!("unexpected {:?}", other),
    }
    assert!(matches!(op_add(&big("1"), &Value::Number(1f64.to_bits())), Addition::NumberSum));
    assert!(matches!(op_add(&Value::Boolean(true), &Value::Object(ObjectId(0))), Addition::NumberSum));
}

#[test]
fn to_bigint_outcomes() {
    assert!(matches!(to_bigint(&big("-9")), BigIntConversion::Converted(d) if d == "-9"));
    assert!(matches!(to_bigint(&Value::Boolean(true)), BigIntConversion::Converted(d) if d == "1"));
    assert!(matches!(to_bigint(&Value::Boolean(false)), BigIntConversion::Converted(d) if d == "0"));
    assert!(matches!(to_bigint(&Value::Number(42f64.to_bits())), BigIntConversion::Converted(d) if d == "42"));
    assert!(matches!(to_bigint(&Value::Number((-0.0f64).to_bits())), BigIntConversion::Converted(d) if d == "0"));
    assert!(matches!(to_bigint(&Value::Number(1e20f64.to_bits())), BigIntConversion::Converted(d) if d == "100000000000000000000"));
    assert!(matches!(to_bigint(&Value::Number(1e30f64.to_bits())), BigIntConversion::Converted(d) if d == "1000000000000000019884624838656"));
    assert!(matches!(to_bigint(&Value::Number((-(2f64.powi(80))).to_bits())), BigIntConversion::Converted(d) if d == "-1208925819614629174706176"));
    assert!(matches!(to_bigint(&Value::Number((-7.0f64).to_bits())), BigIntConversion::Converted(d) if d == "-7"));
    assert!(matches!(to_bigint(&Value::Number(1.5f64.to_bits())), BigIntConversion::NotIntegral(b) if b == 1.5f64.to_bits()));
    assert!(matches!(to_bigint(&Value::Number(f64::NAN.to_bits())), BigIntConversion::NotIntegral(_)));
    assert!(matches!(to_bigint(&Value::String("  12 \n".to_string())), BigIntConversion::ReadDecimal(t) if t == "12"));
    let refused = |v: &Value| match to_bigint(v) {
        BigIntConversion::Refused(RuntimeError::TypeError(m)) => m,
        other => panic!("unexpected {:?}", other),
    };
    assert_eq!(refused(&Value::Undefined), "Cannot convert undefined to a BigInt");
    assert_eq!(refused(&Value::Null), "Cannot convert null to a BigInt");
    assert_eq!(refused(&Value::Symbol("@@sym:1:".to_string())), "Cannot convert a Symbol value to a BigInt");
    assert_eq!(refused(&Value::Object(ObjectId(2))), "Cannot convert object to a BigInt");
}

#[test]
fn decimal_texts_read_as_bigints() {
    assert_eq!(bigint_from_decimal("123").as_deref(), Some("123"));
    assert_eq!(bigint_from_decimal("-0045").as_deref(), Some("-45"));
    assert_eq!(bigint_from_decimal("+7").as_deref(), Some("7"));
    assert_eq!(bigint_from_decimal("-000").as_deref(), Some("0"));
    assert_eq!(bigint_from_decimal(""), None);
    assert_eq!(bigint_from_decimal("-"), None);
    assert_eq!(bigint_from_decimal("1.5"), None);
    assert_eq!(bigint_from_decimal(" 1"), None);
    assert!(is_canonical_bigint_text("0"));
    assert!(is_canonical_bigint_text("-12"));
    assert!(!is_canonical_bigint_text("-0"));
    assert!(!is_canonical_bigint_text("012"));
    assert!(!is_canonical_bigint_text(""));
    assert!(!is_canonical_bigint_text("1a"));
}
