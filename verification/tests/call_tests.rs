use rusty_js_runtime::call::{
    bind_this, bound_call_args, initial_slots, jit_dispatch_eligible, not_callable_error, proxy_construct_result,
    SlotInit, ThisBinding,
};
use rusty_js_runtime::interp::RuntimeError;
use rusty_js_runtime::value::{ObjectId, Value};

fn num(x: f64) -> Value {
    Value::Number(x.to_bits())
}

#[test]
fn calling_a_primitive_is_a_type_error() {
    match not_callable_error(&Value::Undefined, 2) {
        RuntimeError::TypeError(m) => assert_eq!(m, "callee is not callable: undefined [argc=2]"),
        other => panic!("expected a TypeError, got {:?}", other),
    }
    match not_callable_error(&Value::String("f".into()), 0) {
        RuntimeError::TypeError(m) => assert_eq!(m, "callee is not callable: string [argc=0]"),
        other => panic!("expected a TypeError, got {:?}", other),
    }
}

#[test]
fn jit_dispatch_needs_a_hot_closure_with_integer_arguments() {
    let ints = vec![num(1.0), num(2.0)];
    assert!(jit_dispatch_eligible(false, 100, 100, 2, &ints));
    assert!(!jit_dispatch_eligible(false, 99, 100, 2, &ints));
    assert!(!jit_dispatch_eligible(true, 100, 100, 2, &ints));
    assert!(!jit_dispatch_eligible(false, 100, 100, 1, &ints));
    assert!(!jit_dispatch_eligible(false, 100, 100, 3, &vec![num(1.0), num(2.0), num(3.0)]));
    assert!(!jit_dispatch_eligible(false, 100, 100, 2, &vec![num(1.5), num(2.0)]));
    assert!(jit_dispatch_eligible(false, 100, 100, 1, &vec![Value::Object(ObjectId(3))]));
}

#[test]
fn this_binding() {
    assert_eq!(bind_this(true, false, &Value::Undefined), ThisBinding::AsPassed);
    assert_eq!(bind_this(false, true, &Value::Null), ThisBinding::AsPassed);
    assert_eq!(bind_this(false, false, &Value::Null), ThisBinding::Global);
    assert_eq!(bind_this(false, false, &num(1.0)), ThisBinding::Boxed);
    assert_eq!(bind_this(false, false, &Value::Object(ObjectId(1))), ThisBinding::AsPassed);
}

#[test]
fn bound_arguments_come_first() {
    let r = bound_call_args(&vec![Value::Null], vec![Value::Boolean(true)]);
    assert_eq!(r.len(), 2);
    assert!(matches!(r[0], Value::Null) && matches!(r[1], Value::Boolean(true)));
    assert!(matches!(proxy_construct_result(Value::Object(ObjectId(4))), Ok(Value::Object(ObjectId(4)))));
    match proxy_construct_result(Value::Boolean(true)) {
        Err(RuntimeError::TypeError(m)) => assert_eq!(m, "Proxy construct trap returned a non-Object"),
        other => panic!("expected a TypeError, got {:?}", other),
    }
}

#[test]
fn local_slots_start_from_the_arguments() {
    let args = vec![num(1.0), num(2.0), num(3.0)];
    let slots = initial_slots(5, &args, Some(4), Some(3), Some(1));
    assert_eq!(slots.len(), 5);
    assert!(matches!(&slots[0], SlotInit::Value(Value::Number(b)) if *b == 1.0f64.to_bits()));
    assert!(matches!(&slots[1], SlotInit::Rest(v) if v.len() == 2));
    assert!(matches!(&slots[2], SlotInit::Value(Value::Number(b)) if *b == 3.0f64.to_bits()));
    assert!(matches!(&slots[3], SlotInit::SelfRef));
    assert!(matches!(&slots[4], SlotInit::Arguments));
    let few = initial_slots(3, &vec![], None, None, Some(2));
    assert!(matches!(&few[0], SlotInit::Value(Value::Undefined)));
    assert!(matches!(&few[2], SlotInit::Rest(v) if v.is_empty()));
}
