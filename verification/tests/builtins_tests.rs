use rusty_js_runtime::builtins::{
    error_to_string, js_number_is_finite, math_clz32, math_imul, object_to_string, string_raw, ObjectKind, js_number_is_integer, js_number_is_nan, js_number_is_safe_integer,
    string_from_char_codes, symbol_key_for, symbol_to_string, to_uint32_strict,
};
use rusty_js_runtime::interp::RuntimeError;
use rusty_js_runtime::number::{number_to_u32, number_to_uint32};
use rusty_js_runtime::value::{ObjectId, Value};

fn num(x: f64) -> Value {
    Value::Number(x.to_bits())
}

#[test]
fn number_predicates() {
    assert!(js_number_is_integer(&num(5.0)));
    assert!(js_number_is_integer(&num(-0.0)));
    assert!(!js_number_is_integer(&num(5.5)));
    assert!(!js_number_is_integer(&num(f64::INFINITY)));
    assert!(!js_number_is_integer(&Value::String("5".into())));
    assert!(js_number_is_finite(&num(1e308)));
    assert!(!js_number_is_finite(&num(f64::NEG_INFINITY)));
    assert!(!js_number_is_finite(&Value::Null));
    assert!(js_number_is_nan(&num(f64::NAN)));
    assert!(!js_number_is_nan(&Value::Undefined));
    assert!(js_number_is_safe_integer(&num(9007199254740991.0)));
    assert!(js_number_is_safe_integer(&num(-9007199254740991.0)));
    assert!(!js_number_is_safe_integer(&num(9007199254740992.0)));
    assert!(!js_number_is_safe_integer(&num(1.5)));
    assert!(!js_number_is_safe_integer(&Value::Object(ObjectId(0))));
}

#[test]
fn uint32_conversions() {
    let samples = [0.0, -0.0, 1.0, -1.0, 4294967295.0, 4294967296.0, 4294967297.5, -4294967297.0, 1e20, -1e20, 3.7, -3.7, f64::NAN, f64::INFINITY, 1e300];
    for x in samples {
        let expect = if x.is_nan() || x == 0.0 || x.is_infinite() {
            0u32
        } else {
            x.trunc().rem_euclid(4294967296.0) as u32
        };
        assert_eq!(number_to_uint32(x.to_bits()), expect, "{x}");
        assert_eq!(number_to_u32(x.to_bits()), x as u32, "{x}");
    }
}

#[test]
fn array_length_round_trip() {
    assert_eq!(to_uint32_strict(3.0f64.to_bits()).unwrap(), 3);
    assert_eq!(to_uint32_strict((-0.0f64).to_bits()).unwrap(), 0);
    assert_eq!(to_uint32_strict(4294967295.0f64.to_bits()).unwrap(), 4294967295);
    for bad in [4294967296.0, -1.0, 1.5, f64::NAN, f64::INFINITY] {
        match to_uint32_strict(f64::to_bits(bad)) {
            Err(RuntimeError::RangeError(m)) => assert_eq!(m, "Invalid array length: ToUint32 does not round-trip"),
            other => panic!("{bad}: {:?}", other),
        }
    }
}

#[test]
fn from_char_code() {
    let codes: Vec<u64> = [72.0, 105.0, 65601.0, -1.0, 55296.0, 233.9, f64::NAN].iter().map(|x: &f64| x.to_bits()).collect();
    // 65601 wraps to 65; -1 and NaN give code unit 0; the lone surrogate is dropped.
    assert_eq!(string_from_char_codes(&codes), "HiA\u{0}\u{e9}\u{0}");
    assert_eq!(string_from_char_codes(&[]), "");
    // A huge code saturates to u32::MAX, whose low 16 bits are 0xFFFF.
    assert_eq!(string_from_char_codes(&[1e12f64.to_bits()]), "\u{ffff}");
}

#[test]
fn symbol_registry_and_text() {
    let reg = Value::Symbol("@@sym:app.key".to_string());
    match symbol_key_for(&[reg]) {
        Ok(Value::String(k)) => assert_eq!(k, "app.key"),
        other => panic!("{:?}", other),
    }
    assert!(matches!(symbol_key_for(&[Value::Symbol("@@sym:12:desc".into())]), Ok(Value::Undefined)));
    assert!(matches!(symbol_key_for(&[Value::Symbol("plain".into())]), Ok(Value::Undefined)));
    match symbol_key_for(&[Value::String("@@sym:x".into())]) {
        Err(RuntimeError::TypeError(m)) => assert_eq!(m, "Symbol.keyFor: argument is not a Symbol"),
        other => panic!("{:?}", other),
    }
    assert!(matches!(symbol_key_for(&[]), Err(RuntimeError::TypeError(_))));
    assert_eq!(symbol_to_string("@@sym:12:desc"), "Symbol(desc)");
    assert_eq!(symbol_to_string("@@sym:12:a:b"), "Symbol(a:b)");
    assert_eq!(symbol_to_string("@@sym:7"), "Symbol()");
    assert_eq!(symbol_to_string("@@sym:app.key"), "Symbol(app.key)");
    assert_eq!(symbol_to_string("odd"), "Symbol(odd)");
}

#[test]
fn error_text() {
    assert_eq!(error_to_string("TypeError", "bad"), "TypeError: bad");
    assert_eq!(error_to_string("Error", ""), "Error");
    assert_eq!(error_to_string("", "m"), ": m");
}

fn arg(x: f64) -> Option<u64> {
    Some(x.to_bits())
}

#[test]
fn imul_multiplies_with_32_bit_wrapping() {
    assert_eq!(math_imul(arg(3.0), arg(4.0)), 12);
    assert_eq!(math_imul(arg(-5.0), arg(12.0)), -60);
    assert_eq!(math_imul(arg(4294967295.0), arg(5.0)), -5);
    assert_eq!(math_imul(arg(2147483648.0), arg(2.0)), 0);
    assert_eq!(math_imul(arg(2.7), arg(-3.9)), -6);
    assert_eq!(math_imul(arg(f64::NAN), arg(5.0)), 0);
    assert_eq!(math_imul(None, arg(5.0)), 0);
    // The conversion saturates at i64::MAX before the cut to 32 bits.
    assert_eq!(math_imul(arg(1e19), arg(1.0)), -1);
}

#[test]
fn clz32_counts_leading_zero_bits() {
    assert_eq!(math_clz32(arg(1.0)), 31);
    assert_eq!(math_clz32(arg(0.0)), 32);
    assert_eq!(math_clz32(None), 32);
    assert_eq!(math_clz32(arg(-1.0)), 0);
    assert_eq!(math_clz32(arg(0.5)), 32);
    assert_eq!(math_clz32(arg(4294967296.0)), 32);
    assert_eq!(math_clz32(arg(65535.0)), 16);
}

fn strings(xs: &[&str]) -> Vec<String> {
    xs.iter().map(|x| x.to_string()).collect()
}

#[test]
fn string_raw_interleaves_substitutions() {
    assert_eq!(string_raw(&strings(&["a", "b", "c"]), &strings(&["1", "2", "3"])), "a1b2c");
    assert_eq!(string_raw(&strings(&["a", "b", "c"]), &strings(&["1"])), "a1bc");
    assert_eq!(string_raw(&strings(&["x"]), &strings(&["1"])), "x");
    assert_eq!(string_raw(&strings(&[]), &strings(&["1"])), "");
}

#[test]
fn object_to_string_tags() {
    let obj = Value::Object(ObjectId(1));
    assert_eq!(object_to_string(&Value::Undefined, &Value::Undefined, ObjectKind::Ordinary), "[object Undefined]");
    assert_eq!(object_to_string(&Value::Null, &Value::Undefined, ObjectKind::Array), "[object Null]");
    assert_eq!(object_to_string(&num(1.0), &Value::Undefined, ObjectKind::Ordinary), "[object Number]");
    assert_eq!(object_to_string(&obj, &Value::Undefined, ObjectKind::Array), "[object Array]");
    assert_eq!(object_to_string(&obj, &Value::Undefined, ObjectKind::BigIntWrapper), "[object BigInt]");
    assert_eq!(object_to_string(&obj, &Value::String("Custom".into()), ObjectKind::Array), "[object Custom]");
    assert_eq!(object_to_string(&obj, &num(3.0), ObjectKind::Ordinary), "[object Object]");
}
