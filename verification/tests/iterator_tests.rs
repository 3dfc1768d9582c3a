use rusty_js_runtime::iterator::{iter_result_done, iter_result_value, string_iterator_elements, ArrayIterator};
use rusty_js_runtime::value::Value;

#[test]
fn array_iterator_walks_then_stays_done() {
    let elems = vec![Some(Value::Boolean(true)), None, Some(Value::Null)];
    let mut it = ArrayIterator::new();
    let a = it.next(&elems);
    assert!(!a.done && matches!(a.value, Value::Boolean(true)));
    let b = it.next(&elems);
    assert!(!b.done && matches!(b.value, Value::Undefined));
    let c = it.next(&elems);
    assert!(!c.done && matches!(c.value, Value::Null));
    let d = it.next(&elems);
    assert!(d.done && matches!(d.value, Value::Undefined));
    assert!(it.next(&elems).done);
    // The length is read at each step: an array that grows is walked on.
    let mut grown = elems.clone();
    grown.push(Some(Value::Boolean(false)));
    let e = it.next(&grown);
    assert!(!e.done && matches!(e.value, Value::Boolean(false)));
}

#[test]
fn string_iterator_walks_characters() {
    let elems = string_iterator_elements("a😀b");
    assert_eq!(elems.len(), 3);
    assert!(matches!(&elems[1], Some(Value::String(t)) if t == "😀"));
    let mut it = ArrayIterator::new();
    let first = it.next(&elems);
    assert!(matches!(first.value, Value::String(ref t) if t == "a"));
    assert!(string_iterator_elements("").is_empty());
}

#[test]
fn iter_results() {
    let r = iter_result_value(Value::Boolean(true));
    assert!(!r.done && matches!(r.value, Value::Boolean(true)));
    let d = iter_result_done();
    assert!(d.done && matches!(d.value, Value::Undefined));
}
