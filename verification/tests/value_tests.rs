use rusty_js_runtime::abstract_ops::{compare_numbers, compare_strings, is_strictly_equal, same_value, same_value_zero, to_boolean, RelOrder};
use rusty_js_runtime::interp::{jit_threshold, load_global, store_global, FrameState, jit_compatible_arg, jit_compatible_int_arg, unbox_arg, unbox_int_arg, RuntimeError, TryFrame};
use rusty_js_runtime::number::{
    minus_one, nan, number_eq, number_from_i64, number_from_u64, number_is_finite, number_is_i64_range_integer, number_is_integral,
    number_is_nan, number_is_sign_negative, number_is_zero, number_to_i64, trunc_magnitude_u64,
};
use rusty_js_runtime::bigint::compare_bigints;
use rusty_js_runtime::value::{bigint_is_zero, ObjectId, Value};

fn num(x: f64) -> Value {
    Value::Number(x.to_bits())
}

fn st(s: &str) -> Value {
    Value::String(s.to_string())
}

#[test]
fn number_classification() {
    assert!(number_is_nan(f64::NAN.to_bits()));
    assert!(number_is_nan(nan()));
    assert!(f64::from_bits(nan()).is_nan());
    assert!(!number_is_nan(f64::INFINITY.to_bits()));
    assert!(!number_is_finite(f64::NEG_INFINITY.to_bits()));
    assert!(number_is_finite(1e308f64.to_bits()));
    assert!(number_is_zero(0.0f64.to_bits()));
    assert!(number_is_zero((-0.0f64).to_bits()));
    assert!(!number_is_zero(f64::MIN_POSITIVE.to_bits()));
    assert!(number_is_sign_negative((-0.0f64).to_bits()));
    assert!(!number_is_sign_negative(0.0f64.to_bits()));
}

#[test]
fn number_equality_is_ieee() {
    assert!(number_eq(0.0f64.to_bits(), (-0.0f64).to_bits()));
    assert!(!number_eq(f64::NAN.to_bits(), f64::NAN.to_bits()));
    assert!(number_eq(1.5f64.to_bits(), 1.5f64.to_bits()));
    assert!(!number_eq(1.5f64.to_bits(), 2.5f64.to_bits()));
}

#[test]
fn integral_and_truncation() {
    for x in [0.0, -0.0, 1.0, -7.0, 4503599627370496.0, 1e300, 9.007199254740993e15] {
        assert!(number_is_integral(f64::to_bits(x)), "{x}");
    }
    for x in [0.5, -2.25, 1e-300, f64::MIN_POSITIVE / 4.0, f64::NAN, f64::INFINITY] {
        assert!(!number_is_integral(f64::to_bits(x)), "{x}");
    }
    assert_eq!(trunc_magnitude_u64(2.75f64.to_bits()), Some(2));
    assert_eq!(trunc_magnitude_u64((-2.75f64).to_bits()), Some(2));
    assert_eq!(trunc_magnitude_u64(18446744073709549568.0f64.to_bits()), Some(18446744073709549568));
    assert_eq!(trunc_magnitude_u64(18446744073709551616.0f64.to_bits()), None);
    assert_eq!(trunc_magnitude_u64(1e-310f64.to_bits()), Some(0));
}

#[test]
fn to_i64_matches_as_cast() {
    let samples = [
        0.0, -0.0, 1.9, -1.9, 123456789.75, -9.223372036854776e18, 9.223372036854776e18, 1e19, -1e19,
        f64::INFINITY, f64::NEG_INFINITY, f64::NAN, 4.5e15, -3.0e-5, 9007199254740993.0, 1e300,
    ];
    for x in samples {
        assert_eq!(number_to_i64(x.to_bits()), x as i64, "{x}");
    }
}

#[test]
fn i64_range_integers() {
    assert!(number_is_i64_range_integer(9.223372036854776e18f64.to_bits()));
    assert!(number_is_i64_range_integer((-9.223372036854776e18f64).to_bits()));
    assert!(!number_is_i64_range_integer(1.8446744073709552e19f64.to_bits()));
    assert!(!number_is_i64_range_integer(0.5f64.to_bits()));
    assert!(number_is_i64_range_integer((-0.0f64).to_bits()));
}

#[test]
fn small_integers_to_numbers() {
    for n in [0u64, 1, 2, 3, 97, 255, 1 << 20, 123456789, (1 << 53) - 1] {
        assert_eq!(number_from_u64(n), (n as f64).to_bits(), "{n}");
    }
    assert_eq!(minus_one(), (-1.0f64).to_bits());
}

#[test]
fn truthiness() {
    assert!(!to_boolean(&Value::Undefined));
    assert!(!to_boolean(&Value::Null));
    assert!(to_boolean(&Value::Boolean(true)));
    assert!(!to_boolean(&num(0.0)));
    assert!(!to_boolean(&num(-0.0)));
    assert!(!to_boolean(&num(f64::NAN)));
    assert!(to_boolean(&num(-3.5)));
    assert!(!to_boolean(&st("")));
    assert!(to_boolean(&st("0")));
    assert!(!to_boolean(&Value::BigInt("0".to_string())));
    assert!(to_boolean(&Value::BigInt("-12".to_string())));
    assert!(to_boolean(&Value::Symbol("@@sym:1:x".to_string())));
    assert!(to_boolean(&Value::Object(ObjectId(0))));
    assert!(bigint_is_zero(&"0".to_string()));
    assert!(!bigint_is_zero(&"00".to_string()));
}

#[test]
fn strict_equality() {
    assert!(is_strictly_equal(&Value::Undefined, &Value::Undefined));
    assert!(!is_strictly_equal(&Value::Undefined, &Value::Null));
    assert!(is_strictly_equal(&num(0.0), &num(-0.0)));
    assert!(!is_strictly_equal(&num(f64::NAN), &num(f64::NAN)));
    assert!(is_strictly_equal(&st("ab"), &st("ab")));
    assert!(!is_strictly_equal(&st("ab"), &Value::Symbol("ab".to_string())));
    assert!(is_strictly_equal(&Value::BigInt("5".to_string()), &Value::BigInt("5".to_string())));
    assert!(!is_strictly_equal(&Value::BigInt("5".to_string()), &num(5.0)));
    assert!(is_strictly_equal(&Value::Object(ObjectId(3)), &Value::Object(ObjectId(3))));
    assert!(!is_strictly_equal(&Value::Object(ObjectId(3)), &Value::Object(ObjectId(4))));
    assert!(!is_strictly_equal(&Value::Boolean(true), &num(1.0)));
}

#[test]
fn same_value_and_same_value_zero() {
    // SameValue: NaN equals NaN, +0 differs from -0.
    assert!(same_value(&num(f64::NAN), &num(f64::NAN)));
    assert!(same_value(&num(f64::NAN), &Value::Number(0x7ff0_0000_0000_0001)));
    assert!(!same_value(&num(0.0), &num(-0.0)));
    assert!(same_value(&num(-0.0), &num(-0.0)));
    assert!(same_value(&num(2.0), &num(2.0)));
    assert!(same_value(&st("x"), &st("x")));
    // SameValueZero: NaN equals NaN, +0 equals -0.
    assert!(same_value_zero(&num(f64::NAN), &num(f64::NAN)));
    assert!(same_value_zero(&num(0.0), &num(-0.0)));
    assert!(!same_value_zero(&num(1.0), &num(2.0)));
    assert!(!same_value_zero(&Value::Null, &Value::Undefined));
}

#[test]
fn jit_argument_guards() {
    assert!(jit_compatible_int_arg(&num(42.0)));
    assert!(jit_compatible_int_arg(&num(-9.223372036854776e18)));
    assert!(jit_compatible_int_arg(&num(9.223372036854776e18)));
    assert!(!jit_compatible_int_arg(&num(1.5)));
    assert!(!jit_compatible_int_arg(&num(f64::NAN)));
    assert!(!jit_compatible_int_arg(&num(1e19)));
    assert!(!jit_compatible_int_arg(&Value::Object(ObjectId(1))));
    assert!(jit_compatible_arg(&Value::Object(ObjectId(1))));
    assert!(jit_compatible_arg(&num(-7.0)));
    assert!(!jit_compatible_arg(&Value::Boolean(true)));
    assert!(!jit_compatible_arg(&st("1")));
}

#[test]
fn jit_argument_unboxing() {
    assert_eq!(unbox_int_arg(&num(42.0)), 42);
    assert_eq!(unbox_int_arg(&num(-42.9)), -42);
    assert_eq!(unbox_int_arg(&num(9.223372036854776e18)), i64::MAX);
    assert_eq!(unbox_int_arg(&num(f64::NAN)), 0);
    assert_eq!(unbox_int_arg(&Value::Object(ObjectId(9))), 0);
    assert_eq!(unbox_arg(&Value::Object(ObjectId(9))), 9);
    assert_eq!(unbox_arg(&Value::Object(ObjectId(u32::MAX))), 4294967295);
    assert_eq!(unbox_arg(&num(-5.0)), -5);
    assert_eq!(unbox_arg(&Value::Null), 0);
}

#[test]
fn runtime_errors_and_frames() {
    let e = RuntimeError::Thrown(num(1.0));
    assert!(matches!(e.clone(), RuntimeError::Thrown(Value::Number(b)) if b == 1.0f64.to_bits()));
    let t = RuntimeError::TypeError("x".to_string());
    assert!(format!("{:?}", t).contains("TypeError"));
    let f = TryFrame { catch_offset: 12, sp_at_entry: 3 };
    assert_eq!(f.catch_offset + f.sp_at_entry, 15);
    assert_eq!(RelOrder::Less, RelOrder::Less);
    assert_ne!(RelOrder::Equal, RelOrder::Undefined);
}

#[test]
fn jit_threshold_takes_the_first_setting_present() {
    use_jit_threshold();
}

fn use_jit_threshold() {
    assert_eq!(jit_threshold(None, None), 100);
    assert_eq!(jit_threshold(Some("1"), Some("7")), 1);
    assert_eq!(jit_threshold(None, Some("7")), 7);
    // A primary that does not parse does not fall back.
    assert_eq!(jit_threshold(Some("x"), Some("7")), 100);
    assert_eq!(jit_threshold(Some("4294967295"), None), u32::MAX);
    assert_eq!(jit_threshold(Some("4294967296"), None), 100);
    assert_eq!(jit_threshold(Some("+12"), None), 12);
}

#[test]
fn frame_stack_and_locals() {
    use_frame_state();
}

fn use_frame_state() {
    let mut f = FrameState::new_module(2, true);
    assert_eq!(f.locals.len(), 2);
    assert!(f.strict && f.pc == 0);
    match f.pop() {
        Err(RuntimeError::TypeError(m)) => assert_eq!(m, "operand stack underflow"),
        other => panic!("expected a TypeError, got {:?}", other),
    }
    f.push(Value::Boolean(true));
    f.push(Value::Null);
    assert!(matches!(f.peek(1), Ok(Value::Boolean(true))));
    match f.peek(2) {
        Err(RuntimeError::TypeError(m)) => assert_eq!(m, "operand stack peek underflow"),
        other => panic!("expected a TypeError, got {:?}", other),
    }
    assert!(matches!(f.pop(), Ok(Value::Null)));
    f.write_local(4, Value::Boolean(false));
    assert_eq!(f.locals.len(), 5);
    assert!(matches!(f.read_local(4), Value::Boolean(false)));
    assert!(matches!(f.read_local(3), Value::Undefined));
    assert!(matches!(f.read_local(9), Value::Undefined));
}

#[test]
fn numbers_compare_by_value() {
    use_number_compare();
}

fn use_number_compare() {
    let b = |x: f64| x.to_bits();
    assert_eq!(compare_numbers(b(1.0), b(2.0)), RelOrder::Less);
    assert_eq!(compare_numbers(b(-1.0), b(-2.0)), RelOrder::Greater);
    assert_eq!(compare_numbers(b(-0.0), b(0.0)), RelOrder::Equal);
    assert_eq!(compare_numbers(b(f64::NEG_INFINITY), b(-1e308)), RelOrder::Less);
    assert_eq!(compare_numbers(b(f64::INFINITY), b(f64::MAX)), RelOrder::Greater);
    assert_eq!(compare_numbers(b(5e-324), b(0.0)), RelOrder::Greater);
    assert_eq!(compare_numbers(b(-5e-324), b(0.0)), RelOrder::Less);
    assert_eq!(compare_numbers(b(f64::NAN), b(1.0)), RelOrder::Undefined);
    assert_eq!(compare_numbers(b(1.5), b(1.5)), RelOrder::Equal);
    assert_eq!(compare_numbers(b(0.1), b(0.2)), RelOrder::Less);
    assert_eq!(number_from_i64(-7), b(-7.0));
    assert_eq!(number_from_i64(0), b(0.0));
    assert_eq!(number_from_i64(9007199254740991), b(9007199254740991.0));
}

#[test]
fn strings_and_bigints_compare() {
    assert_eq!(compare_strings("a", "b"), RelOrder::Less);
    assert_eq!(compare_strings("ab", "a"), RelOrder::Greater);
    assert_eq!(compare_strings("", ""), RelOrder::Equal);
    assert_eq!(compare_strings("Z", "a"), RelOrder::Less);
    assert_eq!(compare_bigints("10", "9"), 1);
    assert_eq!(compare_bigints("-10", "-9"), -1);
    assert_eq!(compare_bigints("-1", "0"), -1);
    assert_eq!(compare_bigints("123", "123"), 0);
    assert_eq!(compare_bigints("123", "124"), -1);
    assert_eq!(compare_bigints("0", "-5"), 1);
    assert_eq!(compare_bigints("99999999999999999999999", "100000000000000000000000"), -1);
}

#[test]
fn resumed_frame_overlays_recovered_values() {
    let args = vec![Value::Boolean(true), Value::String("b".to_string()), Value::Null];
    let f = FrameState::resumed(
        4,
        2,
        &args,
        Value::Object(ObjectId(7)),
        true,
        &vec![(1, 5), (3, -2), (1, 6), (9, 1)],
        &vec![(0, 1 << 60), (1, 3)],
        12,
    );
    assert_eq!(f.locals.len(), 4);
    assert!(matches!(f.locals[0], Value::Boolean(true)));
    assert!(matches!(f.locals[1], Value::Number(b) if f64::from_bits(b) == 6.0));
    assert!(matches!(f.locals[2], Value::Undefined));
    assert!(matches!(f.locals[3], Value::Number(b) if f64::from_bits(b) == -2.0));
    assert_eq!(f.operand_stack.len(), 2);
    assert!(matches!(f.operand_stack[0], Value::Number(b) if b == ((1i64 << 60) as f64).to_bits()));
    assert!(matches!(f.operand_stack[1], Value::Number(b) if f64::from_bits(b) == 3.0));
    assert_eq!(f.pc, 12);
    assert!(f.try_stack.is_empty());
    assert!(matches!(f.this_value, Value::Object(ObjectId(7))));
    assert!(f.strict);
}

#[test]
fn globals_load_and_store() {
    let mut globals: Vec<(String, Value)> = vec![("x".to_string(), Value::Null)];
    let helpers: Vec<(String, Value)> = vec![("x".to_string(), Value::Boolean(true)), ("h".to_string(), Value::Boolean(false))];
    assert!(matches!(load_global(&globals, &helpers, &"x".to_string()), Value::Null));
    assert!(matches!(load_global(&globals, &helpers, &"h".to_string()), Value::Boolean(false)));
    assert!(matches!(load_global(&globals, &helpers, &"nope".to_string()), Value::Undefined));
    match store_global(&mut globals, "y".to_string(), Value::Null, true) {
        Err(RuntimeError::ReferenceError(m)) => assert_eq!(m, "y is not defined"),
        other => panic!("unexpected {:?}", other),
    }
    assert_eq!(globals.len(), 1);
    assert!(store_global(&mut globals, "x".to_string(), Value::Boolean(true), true).is_ok());
    assert!(matches!(load_global(&globals, &helpers, &"x".to_string()), Value::Boolean(true)));
    assert!(store_global(&mut globals, "y".to_string(), Value::Undefined, false).is_ok());
    assert_eq!(globals.len(), 2);
    assert!(store_global(&mut globals, "h".to_string(), Value::Null, false).is_ok());
    assert!(matches!(load_global(&globals, &helpers, &"h".to_string()), Value::Null));
}
