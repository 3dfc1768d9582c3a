use rusty_js_runtime::promise_combinators::Aggregate;
use rusty_js_runtime::value::Value;

fn s(x: &str) -> Value {
    Value::String(x.into())
}

fn texts(a: &Aggregate) -> Vec<String> {
    a.slots
        .iter()
        .map(|v| match v {
            Value::String(t) => t.clone(),
            Value::Undefined => "undefined".to_string(),
            other => format!("{:?}", other),
        })
        .collect()
}

#[test]
fn all_settles_after_the_last_report_in_input_order() {
    let mut a = Aggregate::new(3);
    assert_eq!(a.remaining, 1);
    assert_eq!(a.register(), Some(0));
    assert_eq!(a.register(), Some(1));
    assert_eq!(a.register(), Some(2));
    assert_eq!(a.register(), None);
    assert_eq!(a.remaining, 4);
    assert!(!a.end_registration());
    assert!(!a.report(2, s("c")));
    assert!(!a.report(0, s("a")));
    // A second call of an element function is ignored.
    assert!(!a.report(0, s("z")));
    assert!(a.report(1, s("b")));
    assert_eq!(texts(&a), vec!["a", "b", "c"]);
    assert_eq!(a.remaining, 0);
    // Settled: nothing more happens.
    assert!(!a.report(1, s("y")));
    assert!(!a.end_registration());
    assert_eq!(texts(&a), vec!["a", "b", "c"]);
}

#[test]
fn reports_during_registration_settle_at_its_end() {
    let mut a = Aggregate::new(2);
    assert_eq!(a.register(), Some(0));
    assert!(!a.report(0, s("a")));
    assert!(!a.report(1, s("early")));
    assert_eq!(a.register(), Some(1));
    assert!(!a.report(1, s("b")));
    assert!(a.end_registration());
    assert_eq!(texts(&a), vec!["a", "b"]);
}

#[test]
fn no_inputs_settles_when_registration_ends() {
    let mut a = Aggregate::new(0);
    assert_eq!(a.register(), None);
    assert!(a.end_registration());
    assert!(a.slots.is_empty());
}
