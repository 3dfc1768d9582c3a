use rusty_js_runtime::interp::RuntimeError;
use rusty_js_runtime::promise::{
    reaction_result, reaction_step, rejection_reason, resolve_after_then, resolve_step, unhandled_rejection, PromiseState,
    PromiseStatus, ReactionStep, ResolveStep,
};
use rusty_js_runtime::value::{ObjectId, Value};

#[test]
fn settles_once_and_runs_reactions_of_its_outcome() {
    let mut p = PromiseState::new();
    assert_eq!(p.status, PromiseStatus::Pending);
    assert!(p.subscribe(Some(Value::Object(ObjectId(10))), None, ObjectId(1)).is_none());
    assert!(p.subscribe(None, Some(Value::Object(ObjectId(11))), ObjectId(2)).is_none());
    assert_eq!(p.fulfill_reactions.len(), 2);
    let rs = p.settle(false, Value::Boolean(true)).expect("first settlement");
    assert_eq!(rs.len(), 2);
    assert_eq!(rs[0].chain, ObjectId(1));
    assert!(matches!(rs[0].handler, Some(Value::Object(ObjectId(10)))));
    assert!(rs[1].handler.is_none());
    assert_eq!(p.status, PromiseStatus::Fulfilled);
    assert!(p.fulfill_reactions.is_empty() && p.reject_reactions.is_empty());
    // A second settlement changes nothing.
    assert!(p.settle(true, Value::Null).is_none());
    assert_eq!(p.status, PromiseStatus::Fulfilled);
    assert!(matches!(p.value, Value::Boolean(true)));
}

#[test]
fn subscribing_to_a_settled_promise_runs_at_once() {
    let mut p = PromiseState::new();
    let rs = p.settle(true, Value::String("boom".into())).unwrap();
    assert!(unhandled_rejection(&rs));
    let now = p.subscribe(Some(Value::Object(ObjectId(1))), Some(Value::Object(ObjectId(2))), ObjectId(3));
    assert!(matches!(now, Some((Some(Value::Object(ObjectId(2))), true))));
    assert!(p.reject_reactions.is_empty());
    let mut q = PromiseState::new();
    q.subscribe(None, None, ObjectId(4));
    let rs = q.settle(true, Value::Undefined).unwrap();
    assert!(!unhandled_rejection(&rs));
    assert_eq!(rs[0].chain, ObjectId(4));
}

#[test]
fn resolution_steps() {
    use_resolution_steps();
}

fn use_resolution_steps() {
    let p = ObjectId(1);
    match resolve_step(p, &Value::Object(p), None) {
        ResolveStep::Reject(Value::String(m)) => assert_eq!(m, "Promise cannot resolve to itself"),
        other => panic!("expected a rejection, got {:?}", other),
    }
    assert!(matches!(
        resolve_step(p, &Value::Object(ObjectId(2)), Some((PromiseStatus::Pending, Value::Undefined))),
        ResolveStep::Adopt(ObjectId(2))
    ));
    assert!(matches!(
        resolve_step(p, &Value::Object(ObjectId(2)), Some((PromiseStatus::Fulfilled, Value::Boolean(true)))),
        ResolveStep::Resolve(Value::Boolean(true))
    ));
    assert!(matches!(
        resolve_step(p, &Value::Object(ObjectId(2)), Some((PromiseStatus::Rejected, Value::Null))),
        ResolveStep::Reject(Value::Null)
    ));
    assert!(matches!(resolve_step(p, &Value::Object(ObjectId(2)), None), ResolveStep::ReadThen));
    assert!(matches!(resolve_step(p, &Value::Boolean(false), None), ResolveStep::Fulfill));
    assert!(matches!(resolve_after_then(Ok(Value::Object(ObjectId(3))), true), Ok(Some(Value::Object(ObjectId(3))))));
    assert!(matches!(resolve_after_then(Ok(Value::Null), false), Ok(None)));
    assert!(matches!(resolve_after_then(Err(RuntimeError::Thrown(Value::Null)), true), Err(Value::Null)));
    match rejection_reason(RuntimeError::TypeError("bad \"x\"".into())) {
        Value::String(t) => assert_eq!(t, "TypeError(\"bad \\\"x\\\"\")"),
        other => panic!("expected a string, got {:?}", other),
    }
    assert!(matches!(reaction_step(None, Value::Null, true), ReactionStep::Reject(Value::Null)));
    assert!(matches!(reaction_step(None, Value::Null, false), ReactionStep::Resolve(Value::Null)));
    assert!(matches!(
        reaction_step(Some(Value::Object(ObjectId(5))), Value::Null, false),
        ReactionStep::Call(Value::Object(ObjectId(5)))
    ));
    assert!(matches!(reaction_result(Ok(Value::Boolean(true))), ReactionStep::Resolve(Value::Boolean(true))));
    assert!(matches!(reaction_result(Err(RuntimeError::Thrown(Value::Undefined))), ReactionStep::Reject(Value::Undefined)));
}
