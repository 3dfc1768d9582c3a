use rusty_js_runtime::map_ops::{map_delete, map_get, map_has, map_set, map_storage_key};
use rusty_js_runtime::set_ops::{
    set_difference, set_intersection, set_is_disjoint_from, set_is_subset_of, set_is_superset_of,
    set_symmetric_difference, set_union, Entry,
};
use rusty_js_runtime::value::{ObjectId, Value};

fn e(k: &str) -> Entry {
    (k.to_string(), Value::String(k.to_string()))
}

fn tagged(k: &str, tag: &str) -> Entry {
    (k.to_string(), Value::String(tag.to_string()))
}

fn keys(es: &[Entry]) -> Vec<String> {
    es.iter().map(|(k, _)| k.clone()).collect()
}

fn values(es: &[Entry]) -> Vec<String> {
    es.iter()
        .map(|(_, v)| match v {
            Value::String(t) => t.clone(),
            other => format!("{:?}", other),
        })
        .collect()
}

#[test]
fn union_keeps_order_and_skips_stored_texts() {
    let (u, size) = set_union(&vec![e("a"), e("b")], &vec![e("b"), e("c"), e("c")]);
    assert_eq!(keys(&u), vec!["a", "b", "c"]);
    assert_eq!(size, 3);
}

#[test]
fn intersection_and_difference_split_the_set() {
    let this = vec![e("a"), e("b"), e("c")];
    let other = vec![e("c"), e("a"), e("z")];
    let (i, isize) = set_intersection(&this, &other);
    let (d, dsize) = set_difference(&this, &other);
    assert_eq!(keys(&i), vec!["a", "c"]);
    assert_eq!(keys(&d), vec!["b"]);
    assert_eq!(isize + dsize, this.len());
}

#[test]
fn symmetric_difference_counts_repeats() {
    let this = vec![e("a"), e("b")];
    let (s, size) = set_symmetric_difference(&this, &vec![e("b"), e("c")]);
    assert_eq!(keys(&s), vec!["a", "c"]);
    assert_eq!(size, 2);
    // A text repeated in the other operand keeps its first place, takes the
    // later value, and is counted each time.
    let (s, size) = set_symmetric_difference(&this, &vec![tagged("c", "first"), tagged("c", "second")]);
    assert_eq!(keys(&s), vec!["a", "b", "c"]);
    assert_eq!(values(&s), vec!["a", "b", "second"]);
    assert_eq!(size, 4);
}

#[test]
fn subset_superset_disjoint() {
    let small = vec![e("a")];
    let big = vec![e("a"), e("b")];
    let other = vec![e("x")];
    assert!(set_is_subset_of(&small, &big));
    assert!(!set_is_subset_of(&big, &small));
    assert!(set_is_superset_of(&big, &small));
    assert!(!set_is_superset_of(&small, &big));
    assert!(set_is_disjoint_from(&big, &other));
    assert!(!set_is_disjoint_from(&big, &small));
    assert!(set_is_subset_of(&vec![], &other));
    assert!(set_is_disjoint_from(&vec![], &vec![]));
}

#[test]
fn map_set_get_has_delete() {
    use_map_ops();
}

fn use_map_ops() {
    let mut m: Vec<Entry> = Vec::new();
    assert!(map_set(&mut m, "a".to_string(), Value::Boolean(true)));
    assert!(map_set(&mut m, "b".to_string(), Value::Null));
    // A second set keeps the place and takes the new value.
    assert!(!map_set(&mut m, "a".to_string(), Value::Boolean(false)));
    assert_eq!(keys(&m), vec!["a", "b"]);
    assert!(matches!(map_get(&m, &"a".to_string()), Value::Boolean(false)));
    assert!(matches!(map_get(&m, &"zz".to_string()), Value::Undefined));
    assert!(map_has(&m, &"b".to_string()));
    assert!(map_delete(&mut m, &"a".to_string()));
    assert!(!map_delete(&mut m, &"a".to_string()));
    assert!(!map_has(&m, &"a".to_string()));
    assert_eq!(keys(&m), vec!["b"]);
}

#[test]
fn map_keys_are_stored_under_their_texts() {
    let k = |v: Value| map_storage_key(&v);
    assert_eq!(k(Value::Object(ObjectId(42))).as_deref(), Some("__objkey@42"));
    assert_eq!(k(Value::Symbol("@@iterator".to_string())).as_deref(), Some("@@iterator"));
    assert_eq!(k(Value::Symbol("7:desc".to_string())).as_deref(), Some("@@sym:7:desc"));
    assert_eq!(k(Value::String("a".to_string())).as_deref(), Some("a"));
    assert_eq!(k(Value::Number(3f64.to_bits())).as_deref(), Some("3"));
    assert_eq!(k(Value::Number(0.5f64.to_bits())), None);
    assert_eq!(k(Value::Boolean(true)).as_deref(), Some("true"));
    assert_eq!(k(Value::Undefined).as_deref(), Some("undefined"));
}
