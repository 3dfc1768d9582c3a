use rusty_js_runtime::property_keys::{array_own_property_names, own_property_names, own_property_symbols, parse_u64};
use rusty_js_runtime::interp::RuntimeError;
use rusty_js_runtime::property::{
    array_length_set, array_length_writable, delete_own, object_create_property, object_create_prototype, object_freeze, object_is_frozen, object_is_sealed, object_seal,
    validate_and_apply_property_descriptor,
    DescriptorFields, PropertyDescriptor,
};
use rusty_js_runtime::proxy::{
    apply_proxy_define_property_invariant, apply_proxy_delete_invariant, apply_proxy_get_invariant,
    apply_proxy_get_own_property_descriptor_invariant, apply_proxy_has_invariant, apply_proxy_own_keys_invariants,
    apply_proxy_set_invariant,
};
use rusty_js_runtime::value::{ObjectId, Value};

fn s(x: &str) -> Value {
    Value::String(x.to_string())
}

fn sym(x: &str) -> Value {
    Value::Symbol(x.to_string())
}

fn target(keys: &[(&str, bool)]) -> Vec<(String, bool)> {
    keys.iter().map(|(k, c)| (k.to_string(), *c)).collect()
}

fn type_error_message<T: std::fmt::Debug>(r: Result<T, RuntimeError>) -> String {
    match r {
        Err(RuntimeError::TypeError(m)) => m,
        other => panic!("expected a TypeError, got {:?}", other),
    }
}

#[test]
fn own_keys_accepts_a_valid_list() {
    let keys = vec![s("a"), sym("@@sym:1:x"), s("b")];
    let r = apply_proxy_own_keys_invariants(keys, &target(&[("a", false), ("c", true)]), true).unwrap();
    assert_eq!(r.len(), 3);
    // A non-extensible target: exactly its keys, in any order.
    let r2 = apply_proxy_own_keys_invariants(vec![s("b"), s("a")], &target(&[("a", true), ("b", false)]), false);
    assert!(r2.is_ok());
}

#[test]
fn own_keys_rejects_bad_lists() {
    assert_eq!(
        type_error_message(apply_proxy_own_keys_invariants(vec![s("a"), Value::Null], &target(&[]), true)),
        "Proxy 'ownKeys' trap result must contain only property keys"
    );
    assert_eq!(
        type_error_message(apply_proxy_own_keys_invariants(vec![s("a"), s("a")], &target(&[]), true)),
        "Proxy 'ownKeys' trap returned duplicate keys"
    );
    // A string and a symbol of the same text are different keys.
    assert!(apply_proxy_own_keys_invariants(vec![s("a"), sym("a")], &target(&[]), true).is_ok());
    // The first bad entry decides the message.
    assert_eq!(
        type_error_message(apply_proxy_own_keys_invariants(vec![s("a"), s("a"), Value::Undefined], &target(&[]), true)),
        "Proxy 'ownKeys' trap returned duplicate keys"
    );
}

#[test]
fn own_keys_target_invariants() {
    assert_eq!(
        type_error_message(apply_proxy_own_keys_invariants(vec![s("a")], &target(&[("a", true), ("fixed", false)]), true)),
        "Proxy 'ownKeys' trap result must include non-configurable target key 'fixed'"
    );
    assert_eq!(
        type_error_message(apply_proxy_own_keys_invariants(vec![s("a")], &target(&[("a", true), ("b", true)]), false)),
        "Proxy 'ownKeys' trap result missing target key 'b' (non-extensible target)"
    );
    assert_eq!(
        type_error_message(apply_proxy_own_keys_invariants(vec![s("a"), s("z")], &target(&[("a", true)]), false)),
        "Proxy 'ownKeys' trap result added key 'z' to non-extensible target"
    );
    // An extensible target may gain keys.
    assert!(apply_proxy_own_keys_invariants(vec![s("a"), s("z")], &target(&[("a", true)]), true).is_ok());
}

fn data(value: Value, writable: bool, enumerable: bool, configurable: bool) -> PropertyDescriptor {
    PropertyDescriptor { value, writable, enumerable, configurable, getter: None, setter: None }
}

fn fields() -> DescriptorFields {
    DescriptorFields {
        get: None,
        get_callable: false,
        set: None,
        set_callable: false,
        value: None,
        writable: None,
        enumerable: None,
        configurable: None,
    }
}

fn num(x: f64) -> Value {
    Value::Number(x.to_bits())
}

#[test]
fn define_new_data_property() {
    let d = DescriptorFields { value: Some(num(1.0)), writable: Some(true), ..fields() };
    let p = validate_and_apply_property_descriptor("x", None, true, d).unwrap();
    assert!(matches!(p.value, Value::Number(b) if b == 1.0f64.to_bits()));
    assert!(p.writable && !p.enumerable && !p.configurable);
    assert!(p.getter.is_none() && p.setter.is_none());
    let e = validate_and_apply_property_descriptor("x", None, false, fields()).unwrap_err();
    assert_eq!(type_error_message::<()>(Err(e)), "Cannot add property 'x': object is not extensible");
}

#[test]
fn define_generic_keeps_kind() {
    let existing = PropertyDescriptor {
        value: Value::Undefined,
        writable: false,
        enumerable: false,
        configurable: true,
        getter: Some(Value::Object(ObjectId(7))),
        setter: None,
    };
    let d = DescriptorFields { enumerable: Some(true), ..fields() };
    let p = validate_and_apply_property_descriptor("g", Some(existing), true, d).unwrap();
    assert!(p.enumerable && p.configurable);
    assert!(matches!(p.getter, Some(Value::Object(ObjectId(7)))));
    let q = validate_and_apply_property_descriptor("g", None, true, DescriptorFields { configurable: Some(true), ..fields() }).unwrap();
    assert!(matches!(q.value, Value::Undefined) && q.configurable && !q.writable);
}

#[test]
fn define_accessor() {
    let d = DescriptorFields { get: Some(Value::Object(ObjectId(3))), get_callable: true, enumerable: Some(true), ..fields() };
    let p = validate_and_apply_property_descriptor("a", None, true, d).unwrap();
    assert!(matches!(p.getter, Some(Value::Object(ObjectId(3)))));
    assert!(p.setter.is_none() && p.enumerable && !p.configurable);
    let bad = DescriptorFields { get: Some(s("not a function")), ..fields() };
    assert_eq!(
        type_error_message(validate_and_apply_property_descriptor("a", None, true, bad)),
        "Invalid property descriptor: getter must be callable"
    );
    let mixed = DescriptorFields { set: Some(Value::Undefined), value: Some(num(1.0)), ..fields() };
    assert_eq!(
        type_error_message(validate_and_apply_property_descriptor("a", None, true, mixed)),
        "Invalid property descriptor: cannot both specify accessors and a value or writable attribute"
    );
}

#[test]
fn define_against_non_configurable() {
    let frozen = || data(num(1.0), false, true, false);
    assert_eq!(
        type_error_message(validate_and_apply_property_descriptor(
            "k", Some(frozen()), true, DescriptorFields { configurable: Some(true), ..fields() })),
        "Cannot redefine non-configurable property 'k': configurable would change"
    );
    assert_eq!(
        type_error_message(validate_and_apply_property_descriptor(
            "k", Some(frozen()), true, DescriptorFields { enumerable: Some(false), ..fields() })),
        "Cannot redefine non-configurable property 'k': enumerable would change"
    );
    assert_eq!(
        type_error_message(validate_and_apply_property_descriptor(
            "k", Some(frozen()), true, DescriptorFields { writable: Some(true), ..fields() })),
        "Cannot redefine non-configurable non-writable property 'k': writable would change"
    );
    assert_eq!(
        type_error_message(validate_and_apply_property_descriptor(
            "k", Some(frozen()), true, DescriptorFields { value: Some(num(2.0)), ..fields() })),
        "Cannot redefine non-configurable non-writable property 'k'"
    );
    assert_eq!(
        type_error_message(validate_and_apply_property_descriptor(
            "k", Some(frozen()), true,
            DescriptorFields { get: Some(Value::Undefined), ..fields() })),
        "Cannot redefine non-configurable data property 'k' as accessor"
    );
    // The same value by SameValue is accepted: NaN for NaN, but not -0 for +0.
    assert!(validate_and_apply_property_descriptor(
        "k", Some(frozen()), true, DescriptorFields { value: Some(num(1.0)), ..fields() }).is_ok());
    let zero = data(num(0.0), false, false, false);
    assert_eq!(
        type_error_message(validate_and_apply_property_descriptor(
            "z", Some(zero), true, DescriptorFields { value: Some(num(-0.0)), ..fields() })),
        "Cannot redefine non-configurable non-writable property 'z'"
    );
    let nan = data(num(f64::NAN), false, false, false);
    assert!(validate_and_apply_property_descriptor(
        "n", Some(nan), true, DescriptorFields { value: Some(num(f64::NAN)), ..fields() }).is_ok());
    // A writable one may change its value and become non-writable.
    let open = data(num(1.0), true, false, false);
    let p = validate_and_apply_property_descriptor(
        "w", Some(open), true, DescriptorFields { value: Some(num(5.0)), writable: Some(false), ..fields() }).unwrap();
    assert!(matches!(p.value, Value::Number(b) if b == 5.0f64.to_bits()) && !p.writable);
}

#[test]
fn define_against_non_configurable_accessor() {
    let acc = || PropertyDescriptor {
        value: Value::Undefined,
        writable: false,
        enumerable: false,
        configurable: false,
        getter: Some(Value::Object(ObjectId(1))),
        setter: None,
    };
    assert_eq!(
        type_error_message(validate_and_apply_property_descriptor(
            "p", Some(acc()), true,
            DescriptorFields { get: Some(Value::Object(ObjectId(2))), get_callable: true, ..fields() })),
        "Cannot redefine non-configurable accessor 'p': [[Get]] would change"
    );
    assert_eq!(
        type_error_message(validate_and_apply_property_descriptor(
            "p", Some(acc()), true,
            DescriptorFields { set: Some(Value::Object(ObjectId(2))), set_callable: true, ..fields() })),
        "Cannot redefine non-configurable accessor 'p': [[Set]] would change"
    );
    assert_eq!(
        type_error_message(validate_and_apply_property_descriptor(
            "p", Some(acc()), true, DescriptorFields { value: Some(num(1.0)), ..fields() })),
        "Cannot redefine non-configurable accessor 'p' as data property"
    );
    let same = validate_and_apply_property_descriptor(
        "p", Some(acc()), true,
        DescriptorFields { get: Some(Value::Object(ObjectId(1))), get_callable: true, set: Some(Value::Undefined), ..fields() });
    assert!(same.is_ok());
}

#[test]
fn array_names_sort_integer_keys_then_length() {
    let keys = vec![s("2"), s("10"), s("a"), sym("@@sym:1:x"), s("1"), s("+3"), s("01")];
    let names = array_own_property_names(&keys);
    assert_eq!(names, vec!["1", "01", "2", "+3", "10", "length"]);
}

#[test]
fn array_names_of_no_integer_keys_is_length_alone() {
    let keys = vec![s("x"), s("-1"), s(""), s("18446744073709551616")];
    assert_eq!(array_own_property_names(&keys), vec!["length"]);
    assert_eq!(array_own_property_names(&vec![]), vec!["length"]);
}

#[test]
fn parse_u64_follows_from_str() {
    assert_eq!(parse_u64("42"), Some(42));
    assert_eq!(parse_u64("+7"), Some(7));
    assert_eq!(parse_u64("007"), Some(7));
    assert_eq!(parse_u64("18446744073709551615"), Some(u64::MAX));
    assert_eq!(parse_u64("18446744073709551616"), None);
    assert_eq!(parse_u64("+"), None);
    assert_eq!(parse_u64(""), None);
    assert_eq!(parse_u64("-1"), None);
    assert_eq!(parse_u64("1a"), None);
    assert_eq!(parse_u64(" 1"), None);
}

fn getter_only(configurable: bool) -> PropertyDescriptor {
    PropertyDescriptor {
        value: Value::Undefined,
        writable: false,
        enumerable: false,
        configurable,
        getter: Some(Value::Object(ObjectId(7))),
        setter: None,
    }
}

#[test]
fn has_trap_cannot_hide_fixed_properties() {
    let fixed = data(num(1.0), false, true, false);
    let loose = data(num(1.0), true, true, true);
    assert!(apply_proxy_has_invariant(Some(&fixed), true, true).is_ok());
    assert_eq!(
        type_error_message(apply_proxy_has_invariant(Some(&fixed), true, false)),
        "Proxy 'has' trap returned false for a non-configurable own property of target"
    );
    assert_eq!(
        type_error_message(apply_proxy_has_invariant(Some(&loose), false, false)),
        "Proxy 'has' trap returned false for an own property of a non-extensible target"
    );
    assert!(apply_proxy_has_invariant(Some(&loose), true, false).is_ok());
    assert!(apply_proxy_has_invariant(None, false, false).is_ok());
}

#[test]
fn get_trap_must_report_fixed_values() {
    let fixed = data(num(1.0), false, true, false);
    assert!(apply_proxy_get_invariant(Some(&fixed), &num(1.0)).is_ok());
    assert_eq!(
        type_error_message(apply_proxy_get_invariant(Some(&fixed), &num(2.0))),
        "Proxy 'get' trap returned a value inconsistent with the non-configurable non-writable own data property of target"
    );
    // Strict equality: a NaN value never matches itself.
    let nan = data(num(f64::NAN), false, true, false);
    assert!(apply_proxy_get_invariant(Some(&nan), &num(f64::NAN)).is_err());
    assert!(apply_proxy_get_invariant(Some(&getter_only(false)), &Value::Undefined).is_ok());
    assert!(apply_proxy_get_invariant(Some(&getter_only(true)), &num(3.0)).is_ok());
    let no_getter = PropertyDescriptor { getter: None, setter: Some(Value::Object(ObjectId(8))), ..getter_only(false) };
    assert_eq!(
        type_error_message(apply_proxy_get_invariant(Some(&no_getter), &num(3.0))),
        "Proxy 'get' trap returned a non-undefined value for a non-configurable accessor property with undefined getter on target"
    );
}

#[test]
fn set_and_delete_traps_respect_fixed_properties() {
    let fixed = data(num(1.0), false, true, false);
    assert!(apply_proxy_set_invariant(Some(&fixed), &num(1.0), true).is_ok());
    assert!(apply_proxy_set_invariant(Some(&fixed), &num(2.0), false).is_ok());
    assert_eq!(
        type_error_message(apply_proxy_set_invariant(Some(&fixed), &num(2.0), true)),
        "Proxy 'set' trap returned true for a non-configurable non-writable own data property whose value differs"
    );
    assert_eq!(
        type_error_message(apply_proxy_set_invariant(Some(&getter_only(false)), &num(2.0), true)),
        "Proxy 'set' trap returned true for a non-configurable accessor own property with undefined setter"
    );
    assert_eq!(
        type_error_message(apply_proxy_delete_invariant(Some(&fixed), true, true)),
        "Proxy 'deleteProperty' trap returned true for a non-configurable own property of target"
    );
    let loose = data(num(1.0), true, true, true);
    assert_eq!(
        type_error_message(apply_proxy_delete_invariant(Some(&loose), false, true)),
        "Proxy 'deleteProperty' trap returned true for an own property of a non-extensible target"
    );
    assert!(apply_proxy_delete_invariant(Some(&loose), true, true).is_ok());
}

#[test]
fn get_own_property_descriptor_trap_results() {
    let fixed = data(num(1.0), false, true, false);
    assert_eq!(
        type_error_message(apply_proxy_get_own_property_descriptor_invariant(None, true, "k", &num(1.0))),
        "Proxy 'getOwnPropertyDescriptor' trap returned non-Object non-Undefined"
    );
    assert!(apply_proxy_get_own_property_descriptor_invariant(Some(&fixed), true, "k", &Value::Object(ObjectId(1))).is_ok());
    assert_eq!(
        type_error_message(apply_proxy_get_own_property_descriptor_invariant(Some(&fixed), true, "k", &Value::Undefined)),
        "Proxy 'getOwnPropertyDescriptor' trap returned undefined for non-configurable own property 'k' of target"
    );
    let loose = data(num(1.0), true, true, true);
    assert_eq!(
        type_error_message(apply_proxy_get_own_property_descriptor_invariant(Some(&loose), false, "k", &Value::Undefined)),
        "Proxy 'getOwnPropertyDescriptor' trap returned undefined for own property 'k' of non-extensible target"
    );
}

#[test]
fn define_property_trap_results() {
    let non_config = DescriptorFields { configurable: Some(false), ..fields() };
    assert!(apply_proxy_define_property_invariant(None, true, "k", None).is_ok());
    assert_eq!(
        type_error_message(apply_proxy_define_property_invariant(None, false, "k", Some(&fields()))),
        "Proxy 'defineProperty' trap returned true for adding property 'k' to non-extensible target"
    );
    assert_eq!(
        type_error_message(apply_proxy_define_property_invariant(None, true, "k", Some(&non_config))),
        "Proxy 'defineProperty' trap returned true for defining non-configurable property 'k' on target without one"
    );
    let loose = data(num(1.0), true, true, true);
    assert_eq!(
        type_error_message(apply_proxy_define_property_invariant(Some(&loose), true, "k", Some(&non_config))),
        "Proxy 'defineProperty' trap returned true for defining non-configurable property 'k' which is configurable in target"
    );
    let sticky = data(num(1.0), true, true, false);
    let read_only = DescriptorFields { writable: Some(false), ..fields() };
    assert_eq!(
        type_error_message(apply_proxy_define_property_invariant(Some(&sticky), true, "k", Some(&read_only))),
        "Proxy 'defineProperty' trap returned true for defining property 'k' as non-writable while target's is non-configurable data + writable"
    );
    assert!(apply_proxy_define_property_invariant(Some(&sticky), true, "k", Some(&fields())).is_ok());
}

#[test]
fn freeze_and_seal_set_integrity_levels() {
    let mut props = vec![data(num(1.0), true, true, true), getter_only(true)];
    let mut extensible = true;
    assert!(!object_is_sealed(&props, extensible));
    assert!(!object_is_frozen(&props, extensible));
    object_seal(&mut props, &mut extensible);
    assert!(!extensible);
    assert!(object_is_sealed(&props, extensible));
    assert!(!object_is_frozen(&props, extensible));
    assert!(props[0].writable && props[0].enumerable && !props[0].configurable);
    object_freeze(&mut props, &mut extensible);
    assert!(object_is_frozen(&props, extensible));
    assert!(object_is_sealed(&props, extensible));
    assert!(!props[0].writable && !props[0].configurable);
    assert!(matches!(props[0].value, Value::Number(b) if b == 1.0f64.to_bits()));
    assert!(matches!(props[1].getter, Some(Value::Object(ObjectId(7)))));
    // An object with no properties is frozen once it is not extensible.
    assert!(object_is_frozen(&vec![], false));
    assert!(!object_is_frozen(&vec![], true));
}

#[test]
fn object_create_prototype_and_properties() {
    assert!(matches!(object_create_prototype(&Value::Object(ObjectId(3))), Ok(Some(ObjectId(3)))));
    assert!(matches!(object_create_prototype(&Value::Null), Ok(None)));
    assert_eq!(
        type_error_message(object_create_prototype(&Value::Undefined)),
        "Object.create: prototype must be object or null"
    );
    assert_eq!(type_error_message(object_create_property(None)), "Property description must be an object");
    let p = object_create_property(Some(DescriptorFields { value: Some(num(2.0)), enumerable: Some(true), ..fields() })).unwrap();
    assert!(matches!(p.value, Value::Number(b) if b == 2.0f64.to_bits()));
    assert!(!p.writable && p.enumerable && !p.configurable);
    let acc = object_create_property(Some(DescriptorFields {
        get: Some(Value::Object(ObjectId(4))),
        get_callable: true,
        set: Some(Value::Undefined),
        ..fields()
    }))
    .unwrap();
    assert!(matches!(acc.getter, Some(Value::Object(ObjectId(4)))));
    assert!(acc.setter.is_none());
    assert_eq!(
        type_error_message(object_create_property(Some(DescriptorFields { get: Some(num(1.0)), ..fields() }))),
        "Object.create: getter must be callable"
    );
    assert_eq!(
        type_error_message(object_create_property(Some(DescriptorFields { set: Some(num(1.0)), ..fields() }))),
        "Object.create: setter must be callable"
    );
    assert_eq!(
        type_error_message(object_create_property(Some(DescriptorFields {
            get: Some(Value::Undefined),
            writable: Some(true),
            ..fields()
        }))),
        "Object.create: cannot both specify accessors and a value or writable"
    );
}

#[test]
fn own_property_tables() {
    let mut props = vec![
        ("a".to_string(), data(num(1.0), true, true, true)),
        ("b".to_string(), data(num(2.0), true, true, false)),
        ("c".to_string(), data(num(3.0), true, true, true)),
    ];
    assert!(!delete_own(&mut props, "b"));
    assert_eq!(props.len(), 3);
    assert!(delete_own(&mut props, "a"));
    let keys: Vec<&str> = props.iter().map(|p| p.0.as_str()).collect();
    assert_eq!(keys, vec!["b", "c"]);
    assert!(delete_own(&mut props, "zz"));
    assert!(array_length_writable(&props));
    array_length_set(&mut props, &num(5.0), &Value::Boolean(false));
    assert_eq!(props.len(), 3);
    assert_eq!(props[2].0, "length");
    assert!(!array_length_writable(&props));
    assert!(matches!(props[2].1.value, Value::Number(b) if b == 5.0f64.to_bits()));
    assert!(!props[2].1.enumerable && !props[2].1.configurable);
    array_length_set(&mut props, &Value::Null, &Value::Boolean(true));
    assert_eq!(props.len(), 3);
    assert!(array_length_writable(&props));
    assert!(matches!(props[2].1.value, Value::Number(0)));
}

#[test]
fn own_names_and_symbols_by_kind() {
    let keys = vec![s("b"), sym("@@sym:1:x"), s("10"), s("2"), s("@@iterator"), sym("@@sym:2:y")];
    assert_eq!(own_property_names(&keys, false), vec!["b", "10", "2", "@@iterator"]);
    assert_eq!(own_property_names(&keys, true), vec!["2", "10", "length"]);
    let syms = own_property_symbols(&keys);
    assert_eq!(syms.len(), 2);
    assert!(matches!(&syms[0], Value::Symbol(t) if t == "@@sym:1:x"));
    assert!(matches!(&syms[1], Value::Symbol(t) if t == "@@sym:2:y"));
}
