use rusty_js_runtime::interp::{FrameState, RuntimeError};
use rusty_js_runtime::ops::{bit_not_number, bitwise_numbers, BitwiseOp, Flow, StackOp};
use rusty_js_runtime::value::Value;

fn num(x: f64) -> Value {
    Value::Number(x.to_bits())
}

fn type_error<T: std::fmt::Debug>(r: Result<T, RuntimeError>) -> String {
    match r {
        Err(RuntimeError::TypeError(m)) => m,
        other => panic!("expected a TypeError, got {:?}", other),
    }
}

#[test]
fn stack_operations() {
    let mut f = FrameState::new_module(1, false);
    assert!(matches!(f.step(StackOp::PushTrue, 1), Ok(Flow::Continue)));
    assert!(matches!(f.step(StackOp::PushNull, 2), Ok(Flow::Continue)));
    assert!(matches!(f.step(StackOp::Swap, 3), Ok(Flow::Continue)));
    assert!(matches!(f.operand_stack[0], Value::Null));
    assert!(matches!(f.operand_stack[1], Value::Boolean(true)));
    assert!(matches!(f.step(StackOp::Dup, 4), Ok(Flow::Continue)));
    assert_eq!(f.operand_stack.len(), 3);
    assert!(matches!(f.step(StackOp::StrictEq, 5), Ok(Flow::Continue)));
    assert!(matches!(f.operand_stack[1], Value::Boolean(true)));
    assert!(matches!(f.step(StackOp::Not, 6), Ok(Flow::Continue)));
    assert!(matches!(f.operand_stack[1], Value::Boolean(false)));
    assert!(matches!(f.step(StackOp::StoreLocal(0), 7), Ok(Flow::Continue)));
    assert!(matches!(f.step(StackOp::LoadLocal(0), 8), Ok(Flow::Continue)));
    assert!(matches!(f.operand_stack[1], Value::Boolean(false)));
    assert!(matches!(f.step(StackOp::Void, 9), Ok(Flow::Continue)));
    assert!(matches!(f.operand_stack[1], Value::Undefined));
    assert_eq!(f.pc, 9);
    let mut e = FrameState::new_module(0, false);
    e.push(num(1.0));
    assert_eq!(type_error(e.step(StackOp::Swap, 1)), "stack underflow on Swap");
    assert_eq!(type_error(e.step(StackOp::StrictNe, 1)), "operand stack underflow");
    e.pop().unwrap();
    assert_eq!(type_error(e.step(StackOp::Dup, 1)), "operand stack peek underflow");
    assert_eq!(type_error(e.step(StackOp::Pop, 1)), "operand stack underflow");
}

#[test]
fn strict_equality_of_nan_is_false() {
    let mut f = FrameState::new_module(0, false);
    f.push(num(f64::NAN));
    f.push(num(f64::NAN));
    f.step(StackOp::StrictNe, 1).unwrap();
    assert!(matches!(f.operand_stack[0], Value::Boolean(true)));
}

#[test]
fn jumps() {
    let mut f = FrameState::new_module(0, false);
    f.step(StackOp::Jump(-4), 10).unwrap();
    assert_eq!(f.pc, 6);
    f.push(num(0.0));
    f.step(StackOp::JumpIfFalse(5), 20).unwrap();
    assert_eq!(f.pc, 25);
    assert!(f.operand_stack.is_empty());
    f.push(Value::String("x".into()));
    f.step(StackOp::JumpIfFalseKeep(5), 30).unwrap();
    assert_eq!(f.pc, 30);
    assert_eq!(f.operand_stack.len(), 1);
    f.step(StackOp::JumpIfTrueKeep(5), 30).unwrap();
    assert_eq!(f.pc, 35);
    f.step(StackOp::JumpIfNullish(3), 40).unwrap();
    assert_eq!(f.pc, 40);
    f.push(Value::Null);
    f.step(StackOp::JumpIfNullish(3), 40).unwrap();
    assert_eq!(f.pc, 43);
    f.push(Value::Boolean(true));
    f.step(StackOp::JumpIfTrue(-40), 50).unwrap();
    assert_eq!(f.pc, 10);
}

#[test]
fn throw_try_and_return() {
    let mut f = FrameState::new_module(0, false);
    f.push(num(1.0));
    f.step(StackOp::TryEnter(99), 5).unwrap();
    assert_eq!(f.try_stack.len(), 1);
    assert_eq!(f.try_stack[0].catch_offset, 99);
    assert_eq!(f.try_stack[0].sp_at_entry, 1);
    f.push(num(2.0));
    match f.step(StackOp::Throw, 6) {
        Err(RuntimeError::Thrown(v)) => assert!(f.unwind_to_handler(v)),
        other => panic!("expected a thrown value, got {:?}", other),
    }
    assert_eq!(f.pc, 99);
    assert_eq!(f.operand_stack.len(), 2);
    f.step(StackOp::TryEnter(7), 100).unwrap();
    f.step(StackOp::TryExit, 101).unwrap();
    assert!(f.try_stack.is_empty());
    match f.step(StackOp::Return, 102) {
        Ok(Flow::Return(v)) => assert!(matches!(v, Value::Number(b) if b == 2.0f64.to_bits())),
        other => panic!("expected a return, got {:?}", other),
    }
    assert!(matches!(f.step(StackOp::ReturnUndef, 103), Ok(Flow::Return(Value::Undefined))));
}

fn bits(x: f64) -> u64 {
    x.to_bits()
}

#[test]
fn bitwise_instructions_on_numbers() {
    use_bitwise();
}

fn use_bitwise() {
    assert_eq!(bitwise_numbers(BitwiseOp::And, bits(5.0), bits(3.0)), bits(1.0));
    assert_eq!(bitwise_numbers(BitwiseOp::Or, bits(-1.0), bits(0.0)), bits(-1.0));
    assert_eq!(bitwise_numbers(BitwiseOp::Xor, bits(6.0), bits(3.0)), bits(5.0));
    assert_eq!(bitwise_numbers(BitwiseOp::Shl, bits(1.0), bits(31.0)), bits(-2147483648.0));
    assert_eq!(bitwise_numbers(BitwiseOp::Shl, bits(1.0), bits(33.0)), bits(2.0));
    assert_eq!(bitwise_numbers(BitwiseOp::Shr, bits(-8.0), bits(1.0)), bits(-4.0));
    assert_eq!(bitwise_numbers(BitwiseOp::UShr, bits(-8.0), bits(28.0)), bits(15.0));
    assert_eq!(bitwise_numbers(BitwiseOp::And, bits(4294967301.0), bits(7.0)), bits(5.0));
    assert_eq!(bitwise_numbers(BitwiseOp::Or, bits(2.9), bits(f64::NAN)), bits(2.0));
    // The conversion saturates at i64::MAX before the cut to 32 bits.
    assert_eq!(bitwise_numbers(BitwiseOp::Or, bits(1e19), bits(0.0)), bits(-1.0));
    assert_eq!(bit_not_number(bits(5.0)), bits(-6.0));
    assert_eq!(bit_not_number(bits(-1.0)), bits(0.0));
}
