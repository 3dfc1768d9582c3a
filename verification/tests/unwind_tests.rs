use rusty_js_runtime::interp::{FrameState, RuntimeError};
use rusty_js_runtime::unwind::{catch_kind, enrich_message, fault_span_index, CatchKind};
use rusty_js_runtime::value::Value;

fn num(x: f64) -> Value {
    Value::Number(x.to_bits())
}

#[test]
fn a_throw_resumes_at_the_innermost_handler() {
    let mut f = FrameState::new_module(0, false);
    f.push(num(1.0));
    f.try_enter(40);
    f.push(num(2.0));
    f.try_enter(80);
    f.push(num(3.0));
    f.push(num(4.0));
    f.pc = 50;
    assert!(f.unwind_to_handler(Value::Boolean(true)));
    assert_eq!(f.pc, 80);
    assert_eq!(f.operand_stack.len(), 3);
    assert!(matches!(f.operand_stack[2], Value::Boolean(true)));
    assert!(f.unwind_to_handler(Value::Null));
    assert_eq!(f.pc, 40);
    assert_eq!(f.operand_stack.len(), 2);
    assert!(matches!(f.operand_stack[1], Value::Null));
    assert!(!f.unwind_to_handler(Value::Undefined));
    assert_eq!(f.pc, 40);
    assert_eq!(f.operand_stack.len(), 2);
}

#[test]
fn leaving_a_try_block_drops_its_handler() {
    let mut f = FrameState::new_module(0, false);
    f.try_enter(12);
    f.try_exit();
    assert!(f.try_stack.is_empty());
    f.try_exit();
    assert!(!f.unwind_to_handler(Value::Undefined));
}

#[test]
fn which_errors_a_catch_takes() {
    assert!(matches!(catch_kind(RuntimeError::Thrown(Value::Null)), CatchKind::Thrown(Value::Null)));
    match catch_kind(RuntimeError::RangeError("too big".into())) {
        CatchKind::Engine(name, message) => {
            assert_eq!(name, "RangeError");
            assert_eq!(message, "too big");
        }
        other => panic!("expected an engine error, got {:?}", other),
    }
    assert!(matches!(catch_kind(RuntimeError::SyntaxError("x".into())), CatchKind::Engine(_, _)));
    assert!(matches!(catch_kind(RuntimeError::CompileError("x".into())), CatchKind::Uncatchable));
    assert!(matches!(catch_kind(RuntimeError::Unimplemented("x".into())), CatchKind::Uncatchable));
}

#[test]
fn fault_positions() {
    let offsets = vec![0usize, 5, 9];
    assert_eq!(fault_span_index("boom", &offsets, true, 7), Some(1));
    assert_eq!(fault_span_index("boom", &offsets, true, 10), Some(2));
    assert_eq!(fault_span_index("boom", &offsets, true, 0), Some(0));
    assert_eq!(fault_span_index("boom @a.js:1:1", &offsets, true, 7), None);
    assert_eq!(fault_span_index("boom", &offsets, false, 7), None);
    assert_eq!(fault_span_index("boom", &vec![], true, 7), None);
    assert_eq!(fault_span_index("boom", &vec![3usize], true, 2), None);
    let tags = vec![0usize, 4];
    let names = vec!["optional-chain".to_string(), "loop".to_string()];
    assert_eq!(enrich_message("boom", &tags, &names, 6, "file.js", 3, 7), "boom [in loop] @file.js:3:7");
    assert_eq!(enrich_message("boom", &vec![], &vec![], 6, "", 12, 0), "boom @12:0");
}
