use rusty_js_runtime::array_proto::{
    array_at, array_copy_within, array_fill, array_includes, array_index_of, array_last_index_of, array_pop,
    array_push, array_reverse, array_shift, array_slice, array_splice, array_to_reversed, array_to_spliced,
    array_sort_order, array_unshift, array_with,
};
use rusty_js_runtime::interp::RuntimeError;
use rusty_js_runtime::value::Value;

fn num(x: f64) -> Value {
    Value::Number(x.to_bits())
}

fn n(x: f64) -> Option<u64> {
    Some(x.to_bits())
}

fn elems() -> Vec<Option<Value>> {
    vec![
        Some(num(1.0)),
        None,
        Some(Value::String("a".into())),
        Some(num(f64::NAN)),
        Some(num(1.0)),
        Some(num(-0.0)),
    ]
}

#[test]
fn index_of_skips_holes_and_uses_strict_equality() {
    let e = elems();
    assert_eq!(array_index_of(&e, &num(1.0), None), Some(0));
    assert_eq!(array_index_of(&e, &num(1.0), n(1.0)), Some(4));
    assert_eq!(array_index_of(&e, &num(1.0), n(-2.0)), Some(4));
    assert_eq!(array_index_of(&e, &num(1.0), n(-100.0)), Some(0));
    assert_eq!(array_index_of(&e, &num(1.0), n(100.0)), None);
    assert_eq!(array_index_of(&e, &Value::Undefined, None), None);
    assert_eq!(array_index_of(&e, &num(f64::NAN), None), None);
    assert_eq!(array_index_of(&e, &num(0.0), None), Some(5));
    assert_eq!(array_index_of(&e, &Value::String("a".into()), n(2.9)), Some(2));
}

#[test]
fn last_index_of_searches_backwards() {
    let e = elems();
    assert_eq!(array_last_index_of(&e, &num(1.0), None), Some(4));
    assert_eq!(array_last_index_of(&e, &num(1.0), n(3.0)), Some(0));
    assert_eq!(array_last_index_of(&e, &num(1.0), n(-3.0)), Some(0));
    assert_eq!(array_last_index_of(&e, &num(1.0), n(-7.0)), None);
    assert_eq!(array_last_index_of(&e, &num(1.0), n(99.0)), Some(4));
    assert_eq!(array_last_index_of(&Vec::new(), &num(1.0), None), None);
}

#[test]
fn includes_uses_same_value_zero_and_reads_holes_as_undefined() {
    let e = elems();
    assert!(array_includes(&e, &num(f64::NAN)));
    assert!(array_includes(&e, &Value::Undefined));
    assert!(array_includes(&e, &num(0.0)));
    assert!(!array_includes(&e, &num(2.0)));
    assert!(!array_includes(&vec![Some(num(1.0))], &Value::Undefined));
}

fn s(x: &str) -> Value {
    Value::String(x.into())
}

fn show(vs: &[Value]) -> String {
    format!("{:?}", vs)
}

fn show_elems(vs: &[Option<Value>]) -> String {
    format!("{:?}", vs)
}

fn abc() -> Vec<Option<Value>> {
    vec![Some(s("a")), None, Some(s("c")), Some(s("d"))]
}

#[test]
fn at_counts_from_the_end_when_negative() {
    let e = abc();
    assert_eq!(show(&[array_at(&e, None)]), show(&[s("a")]));
    assert_eq!(show(&[array_at(&e, n(-1.0))]), show(&[s("d")]));
    assert_eq!(show(&[array_at(&e, n(1.0))]), show(&[Value::Undefined]));
    assert_eq!(show(&[array_at(&e, n(4.0))]), show(&[Value::Undefined]));
    assert_eq!(show(&[array_at(&e, n(-5.0))]), show(&[Value::Undefined]));
    assert_eq!(show(&[array_at(&e, n(f64::NAN))]), show(&[s("a")]));
    assert_eq!(show(&[array_at(&e, n(2.7))]), show(&[s("c")]));
}

#[test]
fn slice_reads_between_relative_positions() {
    let e = abc();
    assert_eq!(show(&array_slice(&e, n(1.0), None)), show(&[Value::Undefined, s("c"), s("d")]));
    assert_eq!(show(&array_slice(&e, n(-2.0), None)), show(&[s("c"), s("d")]));
    assert_eq!(show(&array_slice(&e, None, n(-3.0))), show(&[s("a")]));
    assert_eq!(show(&array_slice(&e, n(3.0), n(1.0))), show(&[]));
    assert_eq!(show(&array_slice(&e, n(f64::NEG_INFINITY), n(f64::INFINITY))), show(&[s("a"), Value::Undefined, s("c"), s("d")]));
}

#[test]
fn to_reversed_and_reverse_agree() {
    let e = abc();
    let copy = array_to_reversed(&e);
    assert_eq!(show(&copy), show(&[s("d"), s("c"), Value::Undefined, s("a")]));
    let mut m = abc();
    array_reverse(&mut m);
    assert_eq!(show_elems(&m), show_elems(&[Some(s("d")), Some(s("c")), Some(Value::Undefined), Some(s("a"))]));
    let mut odd = vec![Some(s("x")), None, Some(s("z"))];
    array_reverse(&mut odd);
    assert_eq!(show_elems(&odd), show_elems(&[Some(s("z")), None, Some(s("x"))]));
}

#[test]
fn with_replaces_one_element_or_is_a_range_error() {
    let e = abc();
    let r = array_with(&e, n(-1.0), s("z")).unwrap();
    assert_eq!(show(&r), show(&[s("a"), Value::Undefined, s("c"), s("z")]));
    match array_with(&e, n(4.0), s("z")) {
        Err(RuntimeError::RangeError(m)) => assert_eq!(m, "with: index 4 out of bounds"),
        other => panic!("expected a RangeError, got {:?}", other),
    }
    match array_with(&e, n(-5.5), s("z")) {
        Err(RuntimeError::RangeError(m)) => assert_eq!(m, "with: index -5 out of bounds"),
        other => panic!("expected a RangeError, got {:?}", other),
    }
}

#[test]
fn to_spliced_copies_what_splice_leaves() {
    let e = abc();
    let items = vec![s("x"), s("y")];
    let copy = array_to_spliced(&e, n(1.0), n(2.0), &items);
    assert_eq!(show(&copy), show(&[s("a"), s("x"), s("y"), s("d")]));
    let mut m = abc();
    let removed = array_splice(&mut m, n(1.0), n(2.0), &items);
    assert_eq!(show(&removed), show(&[Value::Undefined, s("c")]));
    assert_eq!(show_elems(&m), show_elems(&[Some(s("a")), Some(s("x")), Some(s("y")), Some(s("d"))]));
    // An absent count deletes the rest; an undefined one (NaN) deletes none.
    assert_eq!(show(&array_to_spliced(&e, n(2.0), None, &vec![])), show(&[s("a"), Value::Undefined]));
    assert_eq!(show(&array_to_spliced(&e, n(2.0), n(f64::NAN), &vec![])), show(&[s("a"), Value::Undefined, s("c"), s("d")]));
}

#[test]
fn splice_moves_the_tail_as_read() {
    let mut m = vec![Some(s("a")), Some(s("b")), None, Some(s("d"))];
    let removed = array_splice(&mut m, n(0.0), n(1.0), &vec![s("x"), s("y")]);
    assert_eq!(show(&removed), show(&[s("a")]));
    assert_eq!(show_elems(&m), show_elems(&[Some(s("x")), Some(s("y")), Some(s("b")), Some(Value::Undefined), Some(s("d"))]));
    // Nothing moves when as many go in as come out: the hole stays.
    let mut k = vec![Some(s("a")), Some(s("b")), None];
    array_splice(&mut k, n(0.0), n(1.0), &vec![s("x")]);
    assert_eq!(show_elems(&k), show_elems(&[Some(s("x")), Some(s("b")), None]));
}

#[test]
fn fill_and_copy_within_use_relative_positions() {
    let mut m = abc();
    array_fill(&mut m, &s("z"), n(-3.0), n(-1.0));
    assert_eq!(show_elems(&m), show_elems(&[Some(s("a")), Some(s("z")), Some(s("z")), Some(s("d"))]));
    let mut c = vec![Some(s("a")), Some(s("b")), None, Some(s("d")), Some(s("e"))];
    array_copy_within(&mut c, n(0.0), n(2.0), None);
    assert_eq!(show_elems(&c), show_elems(&[Some(Value::Undefined), Some(s("d")), Some(s("e")), Some(s("d")), Some(s("e"))]));
    let mut o = vec![Some(s("a")), Some(s("b")), Some(s("c"))];
    array_copy_within(&mut o, n(1.0), n(0.0), None);
    assert_eq!(show_elems(&o), show_elems(&[Some(s("a")), Some(s("a")), Some(s("b"))]));
}

#[test]
fn push_pop_shift_unshift() {
    let mut m = abc();
    assert_eq!(array_push(&mut m, &vec![s("e")]), 5);
    assert_eq!(show(&[array_pop(&mut m)]), show(&[s("e")]));
    assert_eq!(show_elems(&m), show_elems(&abc()));
    assert_eq!(array_unshift(&mut m, &vec![s("z")]), 5);
    assert_eq!(show_elems(&m), show_elems(&[Some(s("z")), Some(s("a")), Some(Value::Undefined), Some(s("c")), Some(s("d"))]));
    assert_eq!(show(&[array_shift(&mut m)]), show(&[s("z")]));
    assert_eq!(show_elems(&m), show_elems(&[Some(s("a")), Some(Value::Undefined), Some(s("c")), Some(s("d"))]));
    let mut empty: Vec<Option<Value>> = vec![];
    assert_eq!(show(&[array_pop(&mut empty)]), show(&[Value::Undefined]));
    assert_eq!(show(&[array_shift(&mut empty)]), show(&[Value::Undefined]));
    assert!(empty.is_empty());
}

#[test]
fn default_sort_orders_by_text_stably() {
    let texts: Vec<String> = ["10", "9", "b", "1", "undefined", "9", "B", ""].iter().map(|t| t.to_string()).collect();
    // By code points: "", "1", "10", "9" (first), "9" (second), "B", "b", "undefined".
    assert_eq!(array_sort_order(&texts), vec![7, 3, 0, 1, 5, 6, 2, 4]);
    assert_eq!(array_sort_order(&Vec::new()), Vec::<usize>::new());
}
