use rusty_js_runtime::interp::RuntimeError;
use rusty_js_runtime::to_object::{string_wrapper_properties, to_object_conversion, ObjectConversion, WrapperKind};
use rusty_js_runtime::value::{ObjectId, Value};

#[test]
fn to_object_decides_by_kind() {
    assert_eq!(to_object_conversion(&Value::Object(ObjectId(1)), false).unwrap(), ObjectConversion::Itself);
    assert_eq!(to_object_conversion(&Value::Symbol("@@sym:1:x".into()), false).unwrap(), ObjectConversion::Itself);
    assert_eq!(to_object_conversion(&Value::Boolean(true), false).unwrap(), ObjectConversion::Wrap(WrapperKind::Boolean));
    assert_eq!(
        to_object_conversion(&Value::Number(1.5f64.to_bits()), false).unwrap(),
        ObjectConversion::Wrap(WrapperKind::Number)
    );
    assert_eq!(to_object_conversion(&Value::String("s".into()), false).unwrap(), ObjectConversion::Wrap(WrapperKind::String));
    assert_eq!(to_object_conversion(&Value::BigInt("12".into()), false).unwrap(), ObjectConversion::Wrap(WrapperKind::BigInt));
    assert_eq!(to_object_conversion(&Value::Null, true).unwrap(), ObjectConversion::Fresh);
    match to_object_conversion(&Value::Undefined, false) {
        Err(RuntimeError::TypeError(m)) => assert_eq!(m, "Cannot convert undefined or null to object"),
        other => panic!("expected a TypeError, got {:?}", other),
    }
}

#[test]
fn string_wrapper_has_one_property_per_character_then_length() {
    let props = string_wrapper_properties("hé😀");
    assert_eq!(props.len(), 4);
    let keys: Vec<&str> = props.iter().map(|p| p.0.as_str()).collect();
    assert_eq!(keys, vec!["0", "1", "2", "length"]);
    assert!(matches!(&props[1].1, Value::String(t) if t == "é"));
    assert!(matches!(&props[2].1, Value::String(t) if t == "😀"));
    assert!(props[0].2 && props[1].2 && props[2].2 && !props[3].2);
    assert!(matches!(props[3].1, Value::Number(b) if b == 3.0f64.to_bits()));
    let empty = string_wrapper_properties("");
    assert_eq!(empty.len(), 1);
    assert!(matches!(empty[0].1, Value::Number(b) if b == 0.0f64.to_bits()));
}
