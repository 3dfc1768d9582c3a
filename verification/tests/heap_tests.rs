use rusty_js_runtime::heap::{
    delete_property, new_empty_object,
    find_getter, find_setter, get_prototype_of, has_property, is_prototype_of, object_get, object_has_own, object_set,
    object_set_prototype_of, proxy_own_keys, proxy_own_keys_with_length, reflect_set_prototype_of, Heap, ObjectRecord,
};
use rusty_js_runtime::interp::RuntimeError;
use rusty_js_runtime::property::PropertyDescriptor;
use rusty_js_runtime::value::{ObjectId, Value};

fn data(v: Value) -> PropertyDescriptor {
    PropertyDescriptor { value: v, writable: true, enumerable: true, configurable: true, getter: None, setter: None }
}

fn accessor(getter: Option<Value>, setter: Option<Value>) -> PropertyDescriptor {
    PropertyDescriptor { value: Value::Undefined, writable: false, enumerable: true, configurable: true, getter, setter }
}

fn record(props: Vec<(&str, PropertyDescriptor)>, proto: Option<u32>) -> ObjectRecord {
    ObjectRecord {
        props: props.into_iter().map(|(k, d)| (k.to_string(), d)).collect(),
        proto: proto.map(ObjectId),
        extensible: true,
        is_array: false,
    }
}

/// 0: the root prototype with `toString` and an accessor `size`;
/// 1: a prototype under it with `greet`; 2: an instance with `name` and a
/// `size` of its own (a data property, which shadows the accessor);
/// 3: an object without a prototype.
fn sample() -> Heap {
    Heap {
        objects: vec![
            record(
                vec![("toString", data(Value::Object(ObjectId(9)))), ("size", accessor(Some(Value::Object(ObjectId(7))), Some(Value::Object(ObjectId(8)))))],
                None,
            ),
            record(vec![("greet", data(Value::Number(0)))], Some(0)),
            record(vec![("name", data(Value::String("x".to_string())))], Some(1)),
            record(vec![], None),
        ],
    }
}

fn object_id(v: &Value) -> Option<u32> {
    match v {
        Value::Object(ObjectId(i)) => Some(*i),
        _ => None,
    }
}

#[test]
fn has_property_finds_own_and_inherited_keys() {
    let h = sample();
    assert!(has_property(&h, ObjectId(2), "name"));
    assert!(has_property(&h, ObjectId(2), "greet"));
    assert!(has_property(&h, ObjectId(2), "toString"));
    assert!(!has_property(&h, ObjectId(2), "missing"));
    assert!(!has_property(&h, ObjectId(1), "name"));
    assert!(!has_property(&h, ObjectId(3), "toString"));
}

#[test]
fn getter_and_setter_come_from_the_first_holder() {
    let mut h = sample();
    assert_eq!(find_getter(&h, ObjectId(2), "size").as_ref().and_then(object_id), Some(7));
    assert_eq!(find_setter(&h, ObjectId(2), "size").as_ref().and_then(object_id), Some(8));
    assert!(find_getter(&h, ObjectId(2), "name").is_none());
    assert!(find_getter(&h, ObjectId(2), "missing").is_none());
    // A data property on the instance shadows the inherited accessor.
    h.objects[2].props.push(("size".to_string(), data(Value::Number(0))));
    assert!(find_getter(&h, ObjectId(2), "size").is_none());
    assert!(find_setter(&h, ObjectId(2), "size").is_none());
}

#[test]
fn is_prototype_of_walks_the_prototypes() {
    let h = sample();
    let o = |i: u32| Value::Object(ObjectId(i));
    assert!(is_prototype_of(&h, &o(0), &o(2)));
    assert!(is_prototype_of(&h, &o(1), &o(2)));
    assert!(!is_prototype_of(&h, &o(2), &o(2)));
    assert!(!is_prototype_of(&h, &o(2), &o(1)));
    assert!(!is_prototype_of(&h, &o(0), &o(3)));
    assert!(!is_prototype_of(&h, &Value::Null, &o(2)));
    assert!(!is_prototype_of(&h, &o(0), &Value::Number(0)));
}

#[test]
fn get_prototype_of_gives_the_prototype_or_null() {
    let h = sample();
    assert_eq!(object_id(&get_prototype_of(&h, &Value::Object(ObjectId(2)))), Some(1));
    assert!(matches!(get_prototype_of(&h, &Value::Object(ObjectId(3))), Value::Null));
    assert!(matches!(get_prototype_of(&h, &Value::Boolean(true)), Value::Null));
}

#[test]
fn reflect_set_prototype_of_sets_and_refuses() {
    let mut h = sample();
    let r = reflect_set_prototype_of(&mut h, &Value::Object(ObjectId(3)), &Value::Object(ObjectId(1)));
    assert!(matches!(r, Ok(true)));
    assert_eq!(h.objects[3].proto, Some(ObjectId(1)));
    assert!(has_property(&h, ObjectId(3), "greet"));
    let r = reflect_set_prototype_of(&mut h, &Value::Object(ObjectId(3)), &Value::Null);
    assert!(matches!(r, Ok(true)));
    assert_eq!(h.objects[3].proto, None);
    match reflect_set_prototype_of(&mut h, &Value::Object(ObjectId(3)), &Value::Number(0)) {
        Err(RuntimeError::TypeError(m)) => assert_eq!(m, "Reflect.setPrototypeOf: prototype must be Object or null"),
        other => panic!("unexpected {:?}", other),
    }
    match reflect_set_prototype_of(&mut h, &Value::Undefined, &Value::Null) {
        Err(RuntimeError::TypeError(m)) => assert_eq!(m, "Reflect.setPrototypeOf: target must be Object"),
        other => panic!("unexpected {:?}", other),
    }
}

#[test]
fn object_set_prototype_of_hands_the_value_back() {
    let mut h = sample();
    let r = object_set_prototype_of(&mut h, Value::Object(ObjectId(2)), &Value::Object(ObjectId(0)));
    assert_eq!(r.ok().as_ref().and_then(object_id), Some(2));
    assert_eq!(h.objects[2].proto, Some(ObjectId(0)));
    assert!(!has_property(&h, ObjectId(2), "greet"));
    let r = object_set_prototype_of(&mut h, Value::Boolean(false), &Value::Null);
    assert!(matches!(r, Ok(Value::Boolean(false))));
    match object_set_prototype_of(&mut h, Value::Object(ObjectId(2)), &Value::String("p".to_string())) {
        Err(RuntimeError::TypeError(m)) => assert_eq!(m, "Object.setPrototypeOf: prototype must be Object or null"),
        other => panic!("unexpected {:?}", other),
    }
    assert_eq!(h.objects[2].proto, Some(ObjectId(0)));
}

#[test]
fn object_has_own_sees_only_own_keys() {
    let h = sample();
    assert!(object_has_own(&h, &Value::Object(ObjectId(2)), "name"));
    assert!(!object_has_own(&h, &Value::Object(ObjectId(2)), "greet"));
    assert!(!object_has_own(&h, &Value::String("name".to_string()), "name"));
}

fn number_of(v: &Value) -> Option<f64> {
    match v {
        Value::Number(b) => Some(f64::from_bits(*b)),
        _ => None,
    }
}

#[test]
fn object_get_reads_the_first_holder() {
    let h = sample();
    assert_eq!(object_id(&object_get(&h, ObjectId(2), "toString")), Some(9));
    assert_eq!(number_of(&object_get(&h, ObjectId(2), "greet")), Some(0.0));
    assert!(matches!(object_get(&h, ObjectId(2), "name"), Value::String(s) if s == "x"));
    assert!(matches!(object_get(&h, ObjectId(2), "missing"), Value::Undefined));
    // An accessor's read gives its value field, not a call of its getter.
    assert!(matches!(object_get(&h, ObjectId(2), "size"), Value::Undefined));
}

#[test]
fn array_length_is_derived_without_an_own_length() {
    let mut h = sample();
    h.objects.push(ObjectRecord {
        props: vec![
            ("0".to_string(), data(Value::Null)),
            ("7".to_string(), data(Value::Null)),
            ("+9".to_string(), data(Value::Null)),
            ("-20".to_string(), data(Value::Null)),
            ("x".to_string(), data(Value::Null)),
        ],
        proto: None,
        extensible: true,
        is_array: true,
    });
    assert_eq!(number_of(&object_get(&h, ObjectId(4), "length")), Some(10.0));
    h.objects[4].props.push(("9007199254740993".to_string(), data(Value::Null)));
    assert_eq!(number_of(&object_get(&h, ObjectId(4), "length")), Some(9007199254740994.0));
    // An own length wins.
    h.objects[4].props.push(("length".to_string(), data(Value::Number(3f64.to_bits()))));
    assert_eq!(number_of(&object_get(&h, ObjectId(4), "length")), Some(3.0));
    // An empty array has length 0; a non-array reads `length` on its chain.
    h.objects.push(ObjectRecord { props: vec![], proto: None, extensible: true, is_array: true });
    assert_eq!(number_of(&object_get(&h, ObjectId(5), "length")), Some(0.0));
    assert!(matches!(object_get(&h, ObjectId(3), "length"), Value::Undefined));
}

#[test]
fn object_set_then_get() {
    let mut h = sample();
    object_set(&mut h, ObjectId(2), "greet".to_string(), Value::Boolean(true));
    assert!(matches!(object_get(&h, ObjectId(2), "greet"), Value::Boolean(true)));
    // The prototype keeps its own property.
    assert_eq!(number_of(&object_get(&h, ObjectId(1), "greet")), Some(0.0));
    assert_eq!(h.objects[2].props.len(), 2);
    let d = &h.objects[2].props[1].1;
    assert!(d.writable && d.enumerable && d.configurable);
    // An existing writable property takes the value in place.
    object_set(&mut h, ObjectId(2), "name".to_string(), Value::Null);
    assert!(matches!(object_get(&h, ObjectId(2), "name"), Value::Null));
    assert_eq!(h.objects[2].props.len(), 2);
    // A read-only data property keeps its value.
    h.objects[3].props.push(("k".to_string(), PropertyDescriptor {
        value: Value::Boolean(false), writable: false, enumerable: true, configurable: false, getter: None, setter: None,
    }));
    object_set(&mut h, ObjectId(3), "k".to_string(), Value::Boolean(true));
    assert!(matches!(object_get(&h, ObjectId(3), "k"), Value::Boolean(false)));
    // Another key is not touched.
    assert_eq!(object_id(&object_get(&h, ObjectId(2), "toString")), Some(9));
}

fn keys_array(keys: &[&str], length: Option<Value>) -> ObjectRecord {
    let mut props: Vec<(String, PropertyDescriptor)> =
        keys.iter().enumerate().map(|(i, k)| (i.to_string(), data(Value::String(k.to_string())))).collect();
    if let Some(l) = length {
        props.push(("length".to_string(), data(l)));
    }
    ObjectRecord { props, proto: None, extensible: true, is_array: true }
}

fn texts(r: &Result<Vec<Value>, RuntimeError>) -> Vec<String> {
    match r {
        Ok(v) => v.iter().map(|k| match k {
            Value::String(s) => s.clone(),
            other => panic!("unexpected key {:?}", other),
        }).collect(),
        Err(e) => panic!("unexpected error {:?}", e),
    }
}

#[test]
fn proxy_own_keys_reads_the_trap_result() {
    let mut h = sample();
    // 4: the trap result ["name", "extra"]; 5: a result listing "name" twice;
    // 6: one with a length of "2" (a String).
    h.objects.push(keys_array(&["name", "extra"], Some(Value::Number(2f64.to_bits()))));
    h.objects.push(keys_array(&["name", "name"], None));
    h.objects.push(keys_array(&["name"], Some(Value::String("2".to_string()))));
    let r = proxy_own_keys(&h, &Value::Object(ObjectId(4)), ObjectId(2)).unwrap();
    assert_eq!(texts(&r), vec!["name", "extra"]);
    match proxy_own_keys(&h, &Value::Object(ObjectId(5)), ObjectId(2)).unwrap() {
        Err(RuntimeError::TypeError(m)) => assert_eq!(m, "Proxy 'ownKeys' trap returned duplicate keys"),
        other => panic!("unexpected {:?}", other),
    }
    match proxy_own_keys(&h, &Value::Null, ObjectId(2)).unwrap() {
        Err(RuntimeError::TypeError(m)) => assert_eq!(m, "Proxy 'ownKeys' trap returned non-Object"),
        other => panic!("unexpected {:?}", other),
    }
    assert!(proxy_own_keys(&h, &Value::Object(ObjectId(6)), ObjectId(2)).is_none());
    // Reading one element only: the elements past the length are not read.
    let r = proxy_own_keys_with_length(&h, &Value::Object(ObjectId(4)), ObjectId(2), 1);
    assert_eq!(texts(&r), vec!["name"]);
    // A missing element reads as undefined, which is no property key.
    match proxy_own_keys_with_length(&h, &Value::Object(ObjectId(4)), ObjectId(2), 3) {
        Err(RuntimeError::TypeError(m)) => assert_eq!(m, "Proxy 'ownKeys' trap result must contain only property keys"),
        other => panic!("unexpected {:?}", other),
    }
    // A non-extensible target must be listed exactly.
    h.objects[2].extensible = false;
    match proxy_own_keys(&h, &Value::Object(ObjectId(4)), ObjectId(2)).unwrap() {
        Err(RuntimeError::TypeError(m)) => assert_eq!(m, "Proxy 'ownKeys' trap result added key 'extra' to non-extensible target"),
        other => panic!("unexpected {:?}", other),
    }
}

#[test]
fn new_objects_and_delete() {
    let mut h = sample();
    let v = new_empty_object(&mut h, true, Some(ObjectId(1)));
    assert_eq!(object_id(&v), Some(4));
    assert_eq!(h.objects.len(), 5);
    assert!(h.objects[4].is_array && h.objects[4].extensible && h.objects[4].props.is_empty());
    assert_eq!(h.objects[4].proto, Some(ObjectId(1)));
    assert!(has_property(&h, ObjectId(4), "greet"));
    // delete: a configurable own property goes, the others stay in order.
    h.objects[2].props.push(("keep".to_string(), PropertyDescriptor {
        value: Value::Null, writable: true, enumerable: true, configurable: false, getter: None, setter: None,
    }));
    h.objects[2].props.push(("z".to_string(), data(Value::Null)));
    assert!(delete_property(&mut h, &Value::Object(ObjectId(2)), "name"));
    let names: Vec<&str> = h.objects[2].props.iter().map(|(k, _)| k.as_str()).collect();
    assert_eq!(names, vec!["keep", "z"]);
    assert!(!delete_property(&mut h, &Value::Object(ObjectId(2)), "keep"));
    assert_eq!(h.objects[2].props.len(), 2);
    assert!(delete_property(&mut h, &Value::Object(ObjectId(2)), "absent"));
    assert!(!delete_property(&mut h, &Value::String("s".to_string()), "length"));
}
