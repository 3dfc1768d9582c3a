//! The stack, local-slot, comparison, jump, exception and return
//! instructions of the bytecode interpreter, as steps on a frame's state.
//! Each step takes the instruction decoded, with its operand, and the
//! offset of the next instruction.
use vstd::prelude::*;
use crate::abstract_ops::{RelOrder, is_strictly_equal, rel_of, spec_is_strictly_equal, spec_to_boolean, to_boolean};
use crate::builtins::{low32, low32_exec, wrap_i32};
use crate::interp::{FrameState, RuntimeError};
use crate::number::{denotes_int, is_nan, num_order, number_from_i64, number_to_i64, sign_bit, to_i64_saturating};
use crate::unwind::cut_to;
use crate::value::{Value, copy_value};

verus! {

/// A decoded instruction.
#[derive(Debug, Clone, Copy, PartialEq, Eq, Structural)]
pub enum StackOp {
    PushNull,
    PushUndef,
    PushTrue,
    PushFalse,
    Pop,
    Dup,
    Swap,
    LoadLocal(u16),
    StoreLocal(u16),
    StrictEq,
    StrictNe,
    Not,
    Void,
    Jump(i32),
    JumpIfTrue(i32),
    JumpIfFalse(i32),
    JumpIfTrueKeep(i32),
    JumpIfFalseKeep(i32),
    JumpIfNullish(i32),
    Throw,
    TryEnter(u32),
    TryExit,
    Return,
    ReturnUndef,
}

/// How a step ends.
#[derive(Debug)]
pub enum Flow {
    /// Go on at the frame's `pc`.
    Continue,
    /// The frame returns this value.
    Return(Value),
}

/// The stack a step leaves, or the error it raises, for the operations
/// that only use the operand stack and the local slots.
pub open spec fn stack_effect(op: StackOp, s: Seq<Value>, locals: Seq<Value>) -> Result<Seq<Value>, Seq<char>> {
    let n = s.len() as int;
    match op {
        StackOp::PushNull => Ok(s.push(Value::Null)),
        StackOp::PushUndef => Ok(s.push(Value::Undefined)),
        StackOp::PushTrue => Ok(s.push(Value::Boolean(true))),
        StackOp::PushFalse => Ok(s.push(Value::Boolean(false))),
        StackOp::Pop => if n == 0 { Err("operand stack underflow"@) } else { Ok(s.drop_last()) },
        StackOp::Dup => if n == 0 { Err("operand stack peek underflow"@) } else { Ok(s.push(s.last())) },
        StackOp::Swap => if n < 2 {
            Err("stack underflow on Swap"@)
        } else {
            Ok(s.update(n - 1, s[n - 2]).update(n - 2, s[n - 1]))
        },
        StackOp::LoadLocal(slot) => Ok(s.push(if slot < locals.len() { locals[slot as int] } else { Value::Undefined })),
        StackOp::StrictEq => if n < 2 {
            Err("operand stack underflow"@)
        } else {
            Ok(s.subrange(0, n - 2).push(Value::Boolean(spec_is_strictly_equal(s[n - 2], s[n - 1]))))
        },
        StackOp::StrictNe => if n < 2 {
            Err("operand stack underflow"@)
        } else {
            Ok(s.subrange(0, n - 2).push(Value::Boolean(!spec_is_strictly_equal(s[n - 2], s[n - 1]))))
        },
        StackOp::Not => if n == 0 { Err("operand stack underflow"@) } else { Ok(s.drop_last().push(Value::Boolean(!spec_to_boolean(s.last())))) },
        StackOp::Void => if n == 0 { Err("operand stack underflow"@) } else { Ok(s.drop_last().push(Value::Undefined)) },
        _ => Ok(s),
    }
}

/// The offset a jump by `disp` from `next` lands at.
pub open spec fn jump_target(next: usize, disp: i32) -> usize {
    (next + disp) as usize
}

/// A jump's displacement keeps the target in `i32` range (as the
/// interpreter computes it).
pub open spec fn jump_in_range(next: usize, disp: i32) -> bool {
    next <= i32::MAX && i32::MIN <= next + disp <= i32::MAX
}

fn underflow() -> (e: RuntimeError)
    ensures
        e matches RuntimeError::TypeError(m) && m@ == "operand stack underflow"@,
{
    RuntimeError::TypeError(String::from_str("operand stack underflow"))
}

fn jump(next: usize, disp: i32) -> (pc: usize)
    requires
        jump_in_range(next, disp),
    ensures
        pc == jump_target(next, disp),
{
    (next as i32 + disp) as usize
}

/// The locals after a store into `slot`: `v` there, the other slots as
/// they were, and `undefined` in any slots added up to it.
pub open spec fn stored_locals(locals: Seq<Value>, slot: int, v: Value) -> Seq<Value> {
    Seq::new(if slot < locals.len() { locals.len() } else { (slot + 1) as nat }, |i: int|
        if i == slot { v } else if i < locals.len() { locals[i] } else { Value::Undefined })
}

impl FrameState {
    /// One instruction: `op`, whose next instruction is at `next`. The
    /// stack and local operations change the stack as `stack_effect` says
    /// (or fail with its TypeError) and go on at `next`; `StoreLocal` pops
    /// into a local slot; the conditional jumps test the top with
    /// ToBoolean (`JumpIfNullish`: `undefined` or `null`), popping it but
    /// for the `Keep` forms, and go on at the target when the test holds;
    /// `Throw` raises the popped value; `TryEnter` records a handler at the
    /// given offset, `TryExit` drops one; `Return` returns the popped
    /// value and `ReturnUndef` returns `undefined`.
    pub fn step(&mut self, op: StackOp, next: usize) -> (r: Result<Flow, RuntimeError>)
        requires
            match op {
                StackOp::Jump(d) | StackOp::JumpIfTrue(d) | StackOp::JumpIfFalse(d) | StackOp::JumpIfTrueKeep(d)
                | StackOp::JumpIfFalseKeep(d) | StackOp::JumpIfNullish(d) => jump_in_range(next, d),
                _ => true,
            },
        ensures
            ({
                let s = old(self).operand_stack@;
                let n = s.len() as int;
                match op {
                    StackOp::PushNull | StackOp::PushUndef | StackOp::PushTrue | StackOp::PushFalse | StackOp::Pop
                    | StackOp::Dup | StackOp::Swap | StackOp::LoadLocal(_) | StackOp::StrictEq | StackOp::StrictNe
                    | StackOp::Not | StackOp::Void => match stack_effect(op, s, old(self).locals@) {
                        Ok(t) => r matches Ok(Flow::Continue) && final(self).operand_stack@ == t && final(self).pc == next,
                        Err(m) => r matches Err(RuntimeError::TypeError(x)) && x@ == m,
                    },
                    StackOp::StoreLocal(slot) => if n == 0 {
                        r matches Err(RuntimeError::TypeError(x)) && x@ == "operand stack underflow"@
                    } else {
                        &&& r matches Ok(Flow::Continue)
                        &&& final(self).operand_stack@ == s.drop_last()
                        &&& final(self).locals@ == stored_locals(old(self).locals@, slot as int, s.last())
                        &&& final(self).pc == next
                    },
                    StackOp::Jump(d) => r matches Ok(Flow::Continue) && final(self).operand_stack@ == s
                        && final(self).pc == jump_target(next, d),
                    StackOp::JumpIfTrue(d) | StackOp::JumpIfFalse(d) => if n == 0 {
                        r matches Err(RuntimeError::TypeError(x)) && x@ == "operand stack underflow"@
                    } else {
                        &&& r matches Ok(Flow::Continue)
                        &&& final(self).operand_stack@ == s.drop_last()
                        &&& final(self).pc == if spec_to_boolean(s.last()) == (op is JumpIfTrue) { jump_target(next, d) } else { next }
                    },
                    StackOp::JumpIfTrueKeep(d) | StackOp::JumpIfFalseKeep(d) => if n == 0 {
                        r matches Err(RuntimeError::TypeError(x)) && x@ == "operand stack peek underflow"@
                    } else {
                        &&& r matches Ok(Flow::Continue)
                        &&& final(self).operand_stack@ == s
                        &&& final(self).pc == if spec_to_boolean(s.last()) == (op is JumpIfTrueKeep) { jump_target(next, d) } else { next }
                    },
                    StackOp::JumpIfNullish(d) => if n == 0 {
                        r matches Err(RuntimeError::TypeError(x)) && x@ == "operand stack underflow"@
                    } else {
                        &&& r matches Ok(Flow::Continue)
                        &&& final(self).operand_stack@ == s.drop_last()
                        &&& final(self).pc == if s.last() is Undefined || s.last() is Null { jump_target(next, d) } else { next }
                    },
                    StackOp::Throw => if n == 0 {
                        r matches Err(RuntimeError::TypeError(x)) && x@ == "operand stack underflow"@
                    } else {
                        r matches Err(RuntimeError::Thrown(v)) && v == s.last() && final(self).operand_stack@ == s.drop_last()
                    },
                    StackOp::TryEnter(c) => {
                        &&& r matches Ok(Flow::Continue)
                        &&& final(self).try_stack@ == old(self).try_stack@.push(crate::interp::TryFrame { catch_offset: c as usize, sp_at_entry: n as usize })
                        &&& final(self).operand_stack@ == s
                        &&& final(self).pc == next
                    },
                    StackOp::TryExit => {
                        &&& r matches Ok(Flow::Continue)
                        &&& final(self).try_stack@ == if old(self).try_stack@.len() > 0 { old(self).try_stack@.drop_last() } else { old(self).try_stack@ }
                        &&& final(self).operand_stack@ == s
                        &&& final(self).pc == next
                    },
                    StackOp::Return => if n == 0 {
                        r matches Err(RuntimeError::TypeError(x)) && x@ == "operand stack underflow"@
                    } else {
                        r matches Ok(Flow::Return(v)) && v == s.last() && final(self).operand_stack@ == s.drop_last()
                    },
                    StackOp::ReturnUndef => r matches Ok(Flow::Return(v)) && v == Value::Undefined && final(self).operand_stack@ == s,
                }
            }),
            !(op is StoreLocal) || old(self).operand_stack@.len() == 0 ==> final(self).locals@ == old(self).locals@,
            final(self).this_value == old(self).this_value,
            final(self).strict == old(self).strict,
            !(op is TryEnter) && !(op is TryExit) ==> final(self).try_stack@ == old(self).try_stack@,
    {
        let ghost s = self.operand_stack@;
        match op {
            StackOp::PushNull => { self.push(Value::Null); },
            StackOp::PushUndef => { self.push(Value::Undefined); },
            StackOp::PushTrue => { self.push(Value::Boolean(true)); },
            StackOp::PushFalse => { self.push(Value::Boolean(false)); },
            StackOp::Pop => { self.pop()?; },
            StackOp::Dup => {
                let top = copy_value(self.peek(0)?);
                self.push(top);
            },
            StackOp::Swap => {
                let len = self.operand_stack.len();
                if len < 2 {
                    return Err(RuntimeError::TypeError(String::from_str("stack underflow on Swap")));
                }
                let a = self.operand_stack.pop().unwrap();
                let b = self.operand_stack.pop().unwrap();
                self.operand_stack.push(a);
                self.operand_stack.push(b);
                assert(self.operand_stack@ =~= s.update(len - 1, s[len - 2]).update(len - 2, s[len - 1]));
            },
            StackOp::LoadLocal(slot) => {
                let v = self.read_local(slot as usize);
                self.push(v);
            },
            StackOp::StoreLocal(slot) => {
                let v = self.pop()?;
                let ghost before = self.locals@;
                self.write_local(slot as usize, v);
                assert(self.locals@ =~= stored_locals(before, slot as int, v));
            },
            StackOp::StrictEq | StackOp::StrictNe => {
                if self.operand_stack.len() < 2 {
                    return Err(underflow());
                }
                let r = self.pop()?;
                let l = self.pop()?;
                let eq = is_strictly_equal(&l, &r);
                let want_equal = match op {
                    StackOp::StrictEq => true,
                    _ => false,
                };
                self.push(Value::Boolean(if want_equal { eq } else { !eq }));
                assert(s.drop_last().drop_last() =~= s.subrange(0, s.len() - 2));
            },
            StackOp::Not => {
                let v = self.pop()?;
                let b = to_boolean(&v);
                self.push(Value::Boolean(!b));
            },
            StackOp::Void => {
                self.pop()?;
                self.push(Value::Undefined);
            },
            StackOp::Jump(d) => {
                self.pc = jump(next, d);
                return Ok(Flow::Continue);
            },
            StackOp::JumpIfTrue(d) | StackOp::JumpIfFalse(d) => {
                let v = self.pop()?;
                let want = match op {
                    StackOp::JumpIfTrue(_) => true,
                    _ => false,
                };
                self.pc = if to_boolean(&v) == want { jump(next, d) } else { next };
                return Ok(Flow::Continue);
            },
            StackOp::JumpIfTrueKeep(d) | StackOp::JumpIfFalseKeep(d) => {
                let b = to_boolean(self.peek(0)?);
                let want = match op {
                    StackOp::JumpIfTrueKeep(_) => true,
                    _ => false,
                };
                self.pc = if b == want { jump(next, d) } else { next };
                return Ok(Flow::Continue);
            },
            StackOp::JumpIfNullish(d) => {
                let v = self.pop()?;
                let nullish = match v {
                    Value::Undefined | Value::Null => true,
                    _ => false,
                };
                self.pc = if nullish { jump(next, d) } else { next };
                return Ok(Flow::Continue);
            },
            StackOp::Throw => {
                let v = self.pop()?;
                return Err(RuntimeError::Thrown(v));
            },
            StackOp::TryEnter(c) => {
                let sp = self.operand_stack.len();
                self.try_stack.push(crate::interp::TryFrame { catch_offset: c as usize, sp_at_entry: sp });
            },
            StackOp::TryExit => {
                self.try_stack.pop();
            },
            StackOp::Return => {
                let v = self.pop()?;
                return Ok(Flow::Return(v));
            },
            StackOp::ReturnUndef => {
                return Ok(Flow::Return(Value::Undefined));
            },
        }
        self.pc = next;
        Ok(Flow::Continue)
    }
}

// ------------------------------------------------------------------ laws

/// `Dup` then `Pop` leaves a non-empty stack as it was; `Swap` twice
/// likewise for two or more values.
pub proof fn law_dup_pop_and_double_swap_restore(s: Seq<Value>, locals: Seq<Value>)
    ensures
        s.len() > 0 ==> (stack_effect(StackOp::Dup, s, locals) matches Ok(t)
            && stack_effect(StackOp::Pop, t, locals) == Ok::<Seq<Value>, Seq<char>>(s)),
        s.len() >= 2 ==> (stack_effect(StackOp::Swap, s, locals) matches Ok(t)
            && stack_effect(StackOp::Swap, t, locals) == Ok::<Seq<Value>, Seq<char>>(s)),
{
    if s.len() > 0 {
        assert(s.push(s.last()).drop_last() =~= s);
    }
    if s.len() >= 2 {
        let n = s.len() as int;
        let t = s.update(n - 1, s[n - 2]).update(n - 2, s[n - 1]);
        assert(t.update(n - 1, t[n - 2]).update(n - 2, t[n - 1]) =~= s);
    }
}

/// `StrictEq` and `StrictNe` replace the two top values by one boolean,
/// each the negation of the other.
pub proof fn law_strict_ne_negates_strict_eq(s: Seq<Value>, locals: Seq<Value>)
    requires
        s.len() >= 2,
    ensures
        ({
            let n = s.len() as int;
            let e = spec_is_strictly_equal(s[n - 2], s[n - 1]);
            &&& stack_effect(StackOp::StrictEq, s, locals) == Ok::<Seq<Value>, Seq<char>>(s.subrange(0, n - 2).push(Value::Boolean(e)))
            &&& stack_effect(StackOp::StrictNe, s, locals) == Ok::<Seq<Value>, Seq<char>>(s.subrange(0, n - 2).push(Value::Boolean(!e)))
        }),
{
}

/// A handler resumes with the stack as it was when its `try` block was
/// entered, plus the thrown value, whatever was pushed since.
pub proof fn law_handler_sees_the_stack_of_its_try(s: Seq<Value>, pushed: Seq<Value>, v: Value)
    ensures
        cut_to(s + pushed, s.len() as int).push(v) == s.push(v),
{
    assert((s + pushed).subrange(0, s.len() as int) =~= s);
}

// ------------------------------------------------------ bitwise numbers

/// A binary bitwise or shift instruction.
#[derive(Debug, Clone, Copy, PartialEq, Eq, Structural)]
pub enum BitwiseOp {
    And,
    Or,
    Xor,
    Shl,
    Shr,
    UShr,
}

/// A number as the bitwise instructions read it (`n as i64 as i32`):
/// converted to an integer as `i64` (NaN to 0, saturating), then cut to
/// 32 bits, signed.
pub open spec fn int32_of(b: u64) -> i32 {
    wrap_i32(to_i64_saturating(b)) as i32
}

/// The same cut to 32 bits, unsigned (`n as i64 as i32 as u32`).
pub open spec fn uint32_of(b: u64) -> u32 {
    low32(to_i64_saturating(b)) as u32
}

/// The integer result of a bitwise instruction on two numbers: the 32-bit
/// operation, the shift count being the low five bits of the right
/// operand.
pub open spec fn bitwise_result(op: BitwiseOp, l: u64, r: u64) -> int {
    let count = (uint32_of(r) & 0x1f) as u32;
    match op {
        BitwiseOp::And => (int32_of(l) & int32_of(r)) as int,
        BitwiseOp::Or => (int32_of(l) | int32_of(r)) as int,
        BitwiseOp::Xor => (int32_of(l) ^ int32_of(r)) as int,
        BitwiseOp::Shl => (int32_of(l) << count) as int,
        BitwiseOp::Shr => (int32_of(l) >> count) as int,
        BitwiseOp::UShr => (uint32_of(l) >> count) as int,
    }
}

fn int32_exec(b: u64) -> (r: i32)
    ensures
        r == int32_of(b),
{
    let m = low32_exec(number_to_i64(b) as i128);
    if m >= 0x8000_0000 {
        (m as i64 - 0x1_0000_0000) as i32
    } else {
        m as i32
    }
}

/// The number a bitwise instruction (`&`, `|`, `^`, `<<`, `>>`, `>>>`)
/// pushes for two Number operands: the 32-bit integer result, as a number.
pub fn bitwise_numbers(op: BitwiseOp, l: u64, r: u64) -> (b: u64)
    ensures
        denotes_int(b, bitwise_result(op, l, r)),
        bitwise_result(op, l, r) >= 0 ==> !sign_bit(b),
{
    let li = int32_exec(l);
    let ri = int32_exec(r);
    let ru = low32_exec(number_to_i64(r) as i128);
    let count: u32 = ru & 0x1f;
    assert(count < 32) by (bit_vector)
        requires
            count == ru & 0x1f,
    ;
    let v: i64 = match op {
        BitwiseOp::And => (li & ri) as i64,
        BitwiseOp::Or => (li | ri) as i64,
        BitwiseOp::Xor => (li ^ ri) as i64,
        BitwiseOp::Shl => li.wrapping_shl(count) as i64,
        BitwiseOp::Shr => (li >> count) as i64,
        BitwiseOp::UShr => {
            let lu = low32_exec(number_to_i64(l) as i128);
            (lu >> count) as i64
        },
    };
    proof {
        assert(count % 32 == count);
    }
    number_from_i64(v)
}

/// The number `~` pushes for a Number operand: the complement of its 32-bit
/// integer (`!n`, which is `-n - 1`), as a number.
pub fn bit_not_number(b: u64) -> (r: u64)
    ensures
        denotes_int(r, -(int32_of(b) as int) - 1),
{
    let i = int32_exec(b);
    let n: i64 = -(i as i64) - 1;
    assert((!i) as i64 == -(i as i64) - 1) by (bit_vector);
    number_from_i64(n)
}

// ------------------------------------------------------------ comparison

/// A relational instruction.
#[derive(Debug, Clone, Copy, PartialEq, Eq, Structural)]
pub enum CompareOp {
    Lt,
    Gt,
    Le,
    Ge,
}

/// What a relational instruction pushes for the outcome of the abstract
/// relational comparison of its operands: `Undefined` (a NaN took part)
/// makes every one false.
pub open spec fn compare_holds(op: CompareOp, o: RelOrder) -> bool {
    match op {
        CompareOp::Lt => o == RelOrder::Less,
        CompareOp::Gt => o == RelOrder::Greater,
        CompareOp::Le => o == RelOrder::Less || o == RelOrder::Equal,
        CompareOp::Ge => o == RelOrder::Greater || o == RelOrder::Equal,
    }
}

/// The boolean a relational instruction pushes.
pub fn compare_result(op: CompareOp, o: RelOrder) -> (r: bool)
    ensures
        r == compare_holds(op, o),
{
    match op {
        CompareOp::Lt => o == RelOrder::Less,
        CompareOp::Gt => o == RelOrder::Greater,
        CompareOp::Le => o == RelOrder::Less || o == RelOrder::Equal,
        CompareOp::Ge => o == RelOrder::Greater || o == RelOrder::Equal,
    }
}

/// On two Numbers, `a < b` exactly when `b > a`, `a <= b` exactly when
/// `b >= a`, `<=` is `<` or equal but for NaN, and a NaN makes all four
/// false; the order is transitive.
pub proof fn law_number_comparisons(a: u64, b: u64, c: u64)
    ensures
        compare_holds(CompareOp::Lt, rel_num(a, b)) == compare_holds(CompareOp::Gt, rel_num(b, a)),
        compare_holds(CompareOp::Le, rel_num(a, b)) == compare_holds(CompareOp::Ge, rel_num(b, a)),
        !is_nan(a) && !is_nan(b) ==> (compare_holds(CompareOp::Le, rel_num(a, b))
            <==> compare_holds(CompareOp::Lt, rel_num(a, b)) || rel_num(a, b) == RelOrder::Equal),
        is_nan(a) || is_nan(b) ==> !compare_holds(CompareOp::Lt, rel_num(a, b)) && !compare_holds(CompareOp::Gt, rel_num(a, b))
            && !compare_holds(CompareOp::Le, rel_num(a, b)) && !compare_holds(CompareOp::Ge, rel_num(a, b)),
        compare_holds(CompareOp::Lt, rel_num(a, b)) && compare_holds(CompareOp::Lt, rel_num(b, c))
            ==> compare_holds(CompareOp::Lt, rel_num(a, c)),
{
}

/// The outcome of comparing two Numbers.
pub open spec fn rel_num(a: u64, b: u64) -> RelOrder {
    match num_order(a, b) {
        Some(o) => rel_of(o),
        None => RelOrder::Undefined,
    }
}

} // verus!
