//! The interpreter's run-time errors and its argument guards for compiled
//! code: which values the typed-i64 calling convention accepts, and the
//! integer each accepted value is passed as.
use vstd::prelude::*;
use crate::number::{is_i64_range_integer, to_i64_saturating, trunc, two63, number_is_i64_range_integer, number_to_i64, is_integral, nearest_double_signed, number_from_i64_rounded};
use crate::property_keys::{parse_u64, u64_value};
use crate::value::{Value, copy_value};
use crate::set_ops::{Entry, has_key};
use crate::map_ops::{stored, stored_value, map_get, map_has, map_set};

verus! {

/// An error raised while running a script.
#[derive(Debug, Clone)]
pub enum RuntimeError {
    CompileError(String),
    TypeError(String),
    ReferenceError(String),
    RangeError(String),
    /// Raised by `JSON.parse`, the `RegExp` and `Function` constructors and
    /// the like on malformed source.
    SyntaxError(String),
    Unimplemented(String),
    /// A thrown JavaScript value unwinding the call stack.
    Thrown(Value),
}

/// A TypeError whose message is `head`, then `key`, then `tail`.
pub(crate) fn keyed_type_error(head: &str, key: &str, tail: &str) -> (e: RuntimeError)
    ensures
        e matches RuntimeError::TypeError(m) && m@ == head@ + key@ + tail@,
{
    let mut m = String::from_str(head);
    m.append(key);
    m.append(tail);
    RuntimeError::TypeError(m)
}

/// An active `try` block of a frame: where its handler starts and how deep
/// the operand stack was on entry.
#[derive(Debug)]
pub struct TryFrame {
    pub catch_offset: usize,
    pub sp_at_entry: usize,
}

/// The values a running frame holds: its local slots, its operand stack,
/// its program counter, its active `try` blocks, its `this` and whether it
/// runs strict code. (The code it runs and the cells that closures share
/// live with the interpreter.)
#[derive(Debug)]
pub struct FrameState {
    pub locals: Vec<Value>,
    pub operand_stack: Vec<Value>,
    pub pc: usize,
    pub try_stack: Vec<TryFrame>,
    pub this_value: Value,
    pub strict: bool,
}

impl FrameState {
    /// The state a module's frame starts in: one `undefined` slot per
    /// local, an empty stack, at the first instruction, `this` undefined.
    pub fn new_module(n_locals: usize, strict: bool) -> (f: Self)
        ensures
            f.locals@ == Seq::new(n_locals as nat, |i: int| Value::Undefined),
            f.operand_stack@.len() == 0,
            f.pc == 0,
            f.try_stack@.len() == 0,
            f.this_value == Value::Undefined,
            f.strict == strict,
    {
        let mut locals: Vec<Value> = Vec::new();
        let mut i: usize = 0;
        while i < n_locals
            invariant
                0 <= i <= n_locals,
                locals@ =~= Seq::new(i as nat, |k: int| Value::Undefined),
            decreases n_locals - i,
        {
            locals.push(Value::Undefined);
            i = i + 1;
        }
        FrameState {
            locals,
            operand_stack: Vec::new(),
            pc: 0,
            try_stack: Vec::new(),
            this_value: Value::Undefined,
            strict,
        }
    }

    /// The value of local `slot`; `undefined` past the slots.
    pub fn read_local(&self, slot: usize) -> (v: Value)
        ensures
            v == if slot < self.locals@.len() { self.locals@[slot as int] } else { Value::Undefined },
    {
        if slot < self.locals.len() {
            copy_value(&self.locals[slot])
        } else {
            Value::Undefined
        }
    }

    /// Writes local `slot`, first adding `undefined` slots up to it.
    pub fn write_local(&mut self, slot: usize, v: Value)
        requires
            slot < usize::MAX,
        ensures
            final(self).locals@.len() == if slot < old(self).locals@.len() { old(self).locals@.len() as int } else { slot + 1 },
            forall|i: int| 0 <= i < final(self).locals@.len() ==> #[trigger] final(self).locals@[i] == if i == slot {
                v
            } else if i < old(self).locals@.len() {
                old(self).locals@[i]
            } else {
                Value::Undefined
            },
            final(self).operand_stack@ == old(self).operand_stack@,
            final(self).pc == old(self).pc,
            final(self).try_stack@ == old(self).try_stack@,
            final(self).this_value == old(self).this_value,
            final(self).strict == old(self).strict,
    {
        let ghost before = self.locals@;
        while self.locals.len() <= slot
            invariant
                slot < usize::MAX,
                before.len() <= self.locals@.len() <= if slot < before.len() { before.len() as int } else { slot + 1 },
                forall|i: int| 0 <= i < self.locals@.len() ==> #[trigger] self.locals@[i] == if i < before.len() { before[i] } else { Value::Undefined },
                self.operand_stack@ == old(self).operand_stack@,
                self.pc == old(self).pc,
                self.try_stack@ == old(self).try_stack@,
                self.this_value == old(self).this_value,
                self.strict == old(self).strict,
            decreases slot + 1 - self.locals@.len(),
        {
            self.locals.push(Value::Undefined);
        }
        self.locals.set(slot, v);
    }

    /// Pushes a value on the operand stack.
    pub fn push(&mut self, v: Value)
        ensures
            final(self).operand_stack@ == old(self).operand_stack@.push(v),
            final(self).locals@ == old(self).locals@,
            final(self).pc == old(self).pc,
            final(self).try_stack@ == old(self).try_stack@,
            final(self).this_value == old(self).this_value,
            final(self).strict == old(self).strict,
    {
        self.operand_stack.push(v);
    }

    /// Pops the top of the operand stack; a TypeError ("operand stack
    /// underflow") when it is empty.
    pub fn pop(&mut self) -> (r: Result<Value, RuntimeError>)
        ensures
            old(self).operand_stack@.len() == 0 ==> {
                &&& r matches Err(RuntimeError::TypeError(m)) && m@ == "operand stack underflow"@
                &&& final(self).operand_stack@ == old(self).operand_stack@
            },
            old(self).operand_stack@.len() > 0 ==> {
                &&& r matches Ok(v) && v == old(self).operand_stack@.last()
                &&& final(self).operand_stack@ == old(self).operand_stack@.drop_last()
            },
            final(self).locals@ == old(self).locals@,
            final(self).pc == old(self).pc,
            final(self).try_stack@ == old(self).try_stack@,
            final(self).this_value == old(self).this_value,
            final(self).strict == old(self).strict,
    {
        match self.operand_stack.pop() {
            Some(v) => Ok(v),
            None => Err(RuntimeError::TypeError(String::from_str("operand stack underflow"))),
        }
    }

    /// The value `depth` places below the top of the operand stack; a
    /// TypeError ("operand stack peek underflow") when there is none.
    pub fn peek(&self, depth: usize) -> (r: Result<&Value, RuntimeError>)
        ensures
            depth < self.operand_stack@.len() ==> (r matches Ok(v) && *v == self.operand_stack@[self.operand_stack@.len() - 1 - depth]),
            depth >= self.operand_stack@.len() ==> (r matches Err(RuntimeError::TypeError(m)) && m@ == "operand stack peek underflow"@),
    {
        let len = self.operand_stack.len();
        if depth >= len {
            return Err(RuntimeError::TypeError(String::from_str("operand stack peek underflow")));
        }
        Ok(&self.operand_stack[len - 1 - depth])
    }
}

/// The operand stack is last in, first out: by the contracts of `push` and
/// `pop`, a pop after a push gives the pushed value back and leaves the
/// stack as it was.
pub proof fn law_pop_returns_what_push_pushed(stack: Seq<Value>, v: Value)
    ensures
        stack.push(v).len() > 0,
        stack.push(v).last() == v,
        stack.push(v).drop_last() == stack,
{
    assert(stack.push(v).drop_last() =~= stack);
}

/// The typed-i64 convention accepts the value as an integer: a finite
/// integer Number between `i64::MIN as f64` and `i64::MAX as f64`.
pub open spec fn accepts_int(v: Value) -> bool {
    v matches Value::Number(n) && is_i64_range_integer(n)
}

/// The typed-i64 convention accepts the value: an integer Number as above,
/// or an Object (passed by its id).
pub open spec fn accepts(v: Value) -> bool {
    accepts_int(v) || v is Object
}

/// The integer a Number is passed as (`n as i64`); 0 for any other value.
pub open spec fn int_arg(v: Value) -> int {
    match v {
        Value::Number(n) => to_i64_saturating(n),
        _ => 0,
    }
}

/// The integer a value is passed as: a Number as `n as i64`, an Object as
/// its id; 0 for any other value.
pub open spec fn arg(v: Value) -> int {
    match v {
        Value::Number(n) => to_i64_saturating(n),
        Value::Object(id) => id.0 as int,
        _ => 0,
    }
}

/// The argument guard of compiled code: accepts a Number that is a finite
/// integer within the range of `i64` (as `f64` compares it), and nothing
/// else.
pub fn jit_compatible_int_arg(v: &Value) -> (r: bool)
    ensures
        r == accepts_int(*v),
{
    match v {
        Value::Number(n) => number_is_i64_range_integer(*n),
        _ => false,
    }
}

/// The integer passed for an argument that `jit_compatible_int_arg`
/// accepted: the Number truncated (saturating) to an `i64`; 0 for any other
/// value.
pub fn unbox_int_arg(v: &Value) -> (r: i64)
    ensures
        r == int_arg(*v),
{
    match v {
        Value::Number(n) => number_to_i64(*n),
        _ => 0,
    }
}

/// The extended argument guard: an integer Number as for
/// `jit_compatible_int_arg`, or any Object.
pub fn jit_compatible_arg(v: &Value) -> (r: bool)
    ensures
        r == accepts(*v),
{
    match v {
        Value::Number(n) => number_is_i64_range_integer(*n),
        Value::Object(_) => true,
        _ => false,
    }
}

/// The integer passed for an argument that `jit_compatible_arg` accepted:
/// a Number truncated (saturating) to an `i64`, an Object as its id; 0 for
/// any other value.
pub fn unbox_arg(v: &Value) -> (r: i64)
    ensures
        r == arg(*v),
{
    match v {
        Value::Number(n) => number_to_i64(*n),
        Value::Object(id) => id.0 as i64,
        _ => 0,
    }
}

/// The value the last of the recovered `(slot, value)` pairs for slot `i`
/// holds, if any names it.
pub open spec fn last_recovered(values: Seq<(usize, i64)>, i: int) -> Option<i64>
    decreases values.len(),
{
    if values.len() == 0 {
        None
    } else if values.last().0 == i {
        Some(values.last().1)
    } else {
        last_recovered(values.drop_last(), i)
    }
}

/// `v` is the Number an `i64` widens to (`n as f64`).
pub open spec fn widened(v: Value, n: i64) -> bool {
    v matches Value::Number(b) && is_integral(b) && trunc(b) == nearest_double_signed(n as int)
}

impl FrameState {
    /// The frame that compiled code resumes in after it gave up: each of
    /// the `n_locals` slots starts as a call would start it (an argument
    /// for the first `params` slots the arguments reach, else `undefined`),
    /// then takes the last recovered value that names it, widened to a
    /// Number; the operand stack holds the recovered stack values, widened;
    /// execution resumes at `resume_pc` with no `try` block open.
    pub fn resumed(
        n_locals: usize,
        params: usize,
        args: &Vec<Value>,
        this_value: Value,
        strict: bool,
        local_values: &Vec<(usize, i64)>,
        stack_values: &Vec<(usize, i64)>,
        resume_pc: usize,
    ) -> (f: Self)
        ensures
            f.locals@.len() == n_locals,
            forall|i: int| 0 <= i < n_locals ==> match last_recovered(local_values@, i) {
                Some(n) => widened(#[trigger] f.locals@[i], n),
                None => f.locals@[i] == if i < params && i < args@.len() { args@[i] } else { Value::Undefined },
            },
            f.operand_stack@.len() == stack_values@.len(),
            forall|j: int| 0 <= j < stack_values@.len() ==> widened(#[trigger] f.operand_stack@[j], stack_values@[j].1),
            f.pc == resume_pc,
            f.try_stack@.len() == 0,
            f.this_value == this_value,
            f.strict == strict,
    {
        let mut locals: Vec<Value> = Vec::new();
        let mut i: usize = 0;
        while i < n_locals
            invariant
                i <= n_locals,
                locals@.len() == i,
                forall|k: int| 0 <= k < i ==> #[trigger] locals@[k] == if k < params && k < args@.len() { args@[k] } else { Value::Undefined },
            decreases n_locals - i,
        {
            if i < params && i < args.len() {
                locals.push(copy_value(&args[i]));
            } else {
                locals.push(Value::Undefined);
            }
            i = i + 1;
        }
        let ghost base = locals@;
        let mut k: usize = 0;
        while k < local_values.len()
            invariant
                k <= local_values@.len(),
                locals@.len() == n_locals,
                base.len() == n_locals,
                forall|s: int| 0 <= s < n_locals ==> match last_recovered(local_values@.take(k as int), s) {
                    Some(n) => widened(#[trigger] locals@[s], n),
                    None => locals@[s] == base[s],
                },
            decreases local_values@.len() - k,
        {
            let (slot, raw) = local_values[k];
            proof {
                assert(local_values@.take(k + 1).drop_last() =~= local_values@.take(k as int));
                assert(local_values@.take(k + 1).last() == (slot, raw));
            }
            if slot < locals.len() {
                let b = number_from_i64_rounded(raw);
                locals.set(slot, Value::Number(b));
            }
            k = k + 1;
        }
        proof {
            assert(local_values@.take(local_values@.len() as int) =~= local_values@);
        }
        let mut operand_stack: Vec<Value> = Vec::new();
        let mut j: usize = 0;
        while j < stack_values.len()
            invariant
                j <= stack_values@.len(),
                operand_stack@.len() == j,
                forall|x: int| 0 <= x < j ==> widened(#[trigger] operand_stack@[x], stack_values@[x].1),
            decreases stack_values@.len() - j,
        {
            let (_, raw) = stack_values[j];
            operand_stack.push(Value::Number(number_from_i64_rounded(raw)));
            j = j + 1;
        }
        FrameState {
            locals,
            operand_stack,
            pc: resume_pc,
            try_stack: Vec::new(),
            this_value,
            strict,
        }
    }
}

/// `LoadGlobal`: the value of the global `name` when there is one, else
/// that of the engine helper `name` (an internal fallback that globals
/// shadow), else `undefined`.
pub fn load_global(globals: &Vec<Entry>, helpers: &Vec<Entry>, name: &String) -> (r: Value)
    ensures
        r == if has_key(globals@, name@) { stored_value(globals@, name@) } else { stored_value(helpers@, name@) },
{
    if map_has(globals, name) {
        map_get(globals, name)
    } else {
        map_get(helpers, name)
    }
}

/// `StoreGlobal`: in strict code an assignment to a name that is no global
/// is a ReferenceError "`name` is not defined" and changes nothing;
/// otherwise the global is set (created when new).
pub fn store_global(globals: &mut Vec<Entry>, name: String, v: Value, strict: bool) -> (r: Result<(), RuntimeError>)
    ensures
        if strict && !has_key(old(globals)@, name@) {
            &&& r matches Err(RuntimeError::ReferenceError(m)) && m@ == name@ + " is not defined"@
            &&& final(globals)@ == old(globals)@
        } else {
            r is Ok && final(globals)@ == stored(old(globals)@, name, v)
        },
{
    if strict && !map_has(globals, &name) {
        let mut m = name;
        m.append(" is not defined");
        return Err(RuntimeError::ReferenceError(m));
    }
    map_set(globals, name, v);
    Ok(())
}

/// A global read after a store that went through gives the value stored,
/// whatever the engine helpers hold: the global now exists and shadows them.
pub proof fn law_load_global_after_store(globals: Seq<Entry>, helpers: Seq<Entry>, name: String, v: Value)
    ensures
        has_key(stored(globals, name, v), name@),
        (if has_key(stored(globals, name, v), name@) { stored_value(stored(globals, name, v), name@) } else { stored_value(helpers, name@) }) == v,
{
    crate::map_ops::law_get_after_set(globals, name, v);
}

/// Why the typed-i64 unboxing refused an operand: a Number that is not an
/// integer in the range of `i64` (by its bits), or a value that is not a
/// Number. The error the runtime raises writes the Number
/// as a float, or the value with `{:?}`.
#[derive(Debug, Clone, Copy, PartialEq, Eq, Structural)]
pub enum Int64Refusal {
    NotIntegral(u64),
    NotNumber,
}

/// The typed-i64 unboxing: an integer Number in the range of `i64` as its
/// value (`n as i64`); any other Number, and every value that is not a
/// Number, is refused.
pub open spec fn unboxed_int64(v: Value) -> Result<i64, Int64Refusal> {
    match v {
        Value::Number(n) => if is_i64_range_integer(n) {
            Ok(to_i64_saturating(n) as i64)
        } else {
            Err(Int64Refusal::NotIntegral(n))
        },
        _ => Err(Int64Refusal::NotNumber),
    }
}

/// The typed-i64 unboxing of an operand, as `unboxed_int64` says.
pub fn unbox_int64(v: &Value) -> (r: Result<i64, Int64Refusal>)
    ensures
        r == unboxed_int64(*v),
{
    match v {
        Value::Number(n) => if number_is_i64_range_integer(*n) {
            Ok(number_to_i64(*n))
        } else {
            Err(Int64Refusal::NotIntegral(*n))
        },
        _ => Err(Int64Refusal::NotNumber),
    }
}

/// An accepted integer Number is passed as its exact value, but for `2^63`
/// itself, which saturates to `i64::MAX`; the two guards agree on Numbers,
/// the unboxings agree on what they accept, and the typed-i64 unboxing
/// accepts a Number exactly when the guard does.
pub proof fn law_accepted_integers_pass_exactly(v: Value)
    ensures
        accepts_int(v) && trunc(v->Number_0) < two63() ==> int_arg(v) == trunc(v->Number_0),
        accepts_int(v) && trunc(v->Number_0) == two63() ==> int_arg(v) == i64::MAX,
        v is Number ==> accepts(v) == accepts_int(v),
        accepts_int(v) ==> arg(v) == int_arg(v),
        v is Number ==> (unboxed_int64(v) is Ok <==> accepts_int(v)),
        accepts_int(v) ==> unboxed_int64(v) == Ok::<i64, Int64Refusal>(int_arg(v) as i64),
{
}

/// The JIT threshold a runtime starts with, from two settings (the
/// primary, then the fallback): the first one present, read as a `u32`
/// (`u32::from_str`); 100 when neither is present or the one present does
/// not read as one.
pub open spec fn jit_threshold_of(primary: Option<Seq<char>>, fallback: Option<Seq<char>>) -> u32 {
    let chosen = match primary {
        Some(p) => Some(p),
        None => fallback,
    };
    match chosen {
        Some(t) => match u64_value(t) {
            Some(v) => if v <= u32::MAX { v as u32 } else { 100u32 },
            None => 100u32,
        },
        None => 100u32,
    }
}

/// Computes the JIT threshold from the two settings' texts (`None` when a
/// setting is absent).
pub fn jit_threshold(primary: Option<&str>, fallback: Option<&str>) -> (r: u32)
    ensures
        r == jit_threshold_of(
            match primary { Some(p) => Some(p@), None => None::<Seq<char>> },
            match fallback { Some(f) => Some(f@), None => None::<Seq<char>> },
        ),
{
    let chosen = match primary {
        Some(p) => Some(p),
        None => fallback,
    };
    match chosen {
        Some(t) => match parse_u64(t) {
            Some(v) => if v <= 0xffff_ffff { v as u32 } else { 100 },
            None => 100,
        },
        None => 100,
    }
}

} // verus!
