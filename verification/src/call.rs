//! The decisions of a function call: the error for a callee that cannot be
//! called, when a closure call goes to compiled code, the `this` a
//! non-arrow function receives (OrdinaryCallBindThis, ECMA-262 §10.2.1.2),
//! the arguments of a bound function, a proxy's `construct` result, and
//! what each local slot of the new frame starts with.
use vstd::prelude::*;
use crate::interp::{RuntimeError, accepts, jit_compatible_arg};
use crate::text::{append_decimal, decimal};
use crate::value::{Value, copy_value};

verus! {

/// The type tag a non-callable primitive callee is named by.
pub open spec fn callee_tag(v: Value) -> Seq<char> {
    match v {
        Value::Undefined => "undefined"@,
        Value::Null => "null"@,
        Value::Boolean(_) => "boolean"@,
        Value::Number(_) => "number"@,
        Value::String(_) => "string"@,
        Value::BigInt(_) => "bigint"@,
        Value::Symbol(_) => "symbol"@,
        Value::Object(_) => "object"@,
    }
}

fn callee_tag_exec(v: &Value) -> (r: &'static str)
    ensures
        r@ == callee_tag(*v),
{
    match v {
        Value::Undefined => "undefined",
        Value::Null => "null",
        Value::Boolean(_) => "boolean",
        Value::Number(_) => "number",
        Value::String(_) => "string",
        Value::BigInt(_) => "bigint",
        Value::Symbol(_) => "symbol",
        Value::Object(_) => "object",
    }
}

/// The TypeError for calling a value that is no object:
/// `callee is not callable: <type> [argc=<n>]`.
pub fn not_callable_error(callee: &Value, argc: usize) -> (e: RuntimeError)
    ensures
        e matches RuntimeError::TypeError(m)
            && m@ == "callee is not callable: "@ + callee_tag(*callee) + " [argc="@ + decimal(argc as nat) + "]"@,
{
    let mut m = String::from_str("callee is not callable: ");
    m.append(callee_tag_exec(callee));
    m.append(" [argc=");
    append_decimal(&mut m, argc as u128);
    m.append("]");
    RuntimeError::TypeError(m)
}

/// A closure call goes to compiled code: compiling it has not been ruled
/// out, it has been called at least `threshold` times (this call
/// included), it takes one or two parameters, it gets exactly that many
/// arguments, and each is one the compiled calling convention accepts.
pub open spec fn jit_eligible(disabled: bool, count: u64, threshold: u32, params: u16, args: Seq<Value>) -> bool {
    &&& !disabled
    &&& count >= threshold
    &&& (params == 1 || params == 2)
    &&& args.len() == params
    &&& forall|i: int| 0 <= i < args.len() ==> accepts(#[trigger] args[i])
}

/// Decides `jit_eligible`.
pub fn jit_dispatch_eligible(disabled: bool, count: u64, threshold: u32, params: u16, args: &Vec<Value>) -> (r: bool)
    ensures
        r == jit_eligible(disabled, count, threshold, params, args@),
{
    if disabled || count < threshold as u64 || !(params == 1 || params == 2) || args.len() != params as usize {
        return false;
    }
    let mut i: usize = 0;
    while i < args.len()
        invariant
            0 <= i <= args@.len(),
            forall|k: int| 0 <= k < i ==> accepts(#[trigger] args@[k]),
        decreases args@.len() - i,
    {
        if !jit_compatible_arg(&args[i]) {
            return false;
        }
        i = i + 1;
    }
    true
}

/// The `this` a non-arrow function receives.
#[derive(Debug, Clone, Copy, PartialEq, Eq, Structural)]
pub enum ThisBinding {
    /// The value passed, unchanged.
    AsPassed,
    /// The global object.
    Global,
    /// The value passed, converted to an object.
    Boxed,
}

/// OrdinaryCallBindThis: strict code and constructor calls take `this` as
/// passed; sloppy code gets the global object for `null` and `undefined`
/// and a wrapper object for another primitive.
pub fn bind_this(strict: bool, constructing: bool, this: &Value) -> (r: ThisBinding)
    ensures
        r == if strict || constructing {
            ThisBinding::AsPassed
        } else {
            match *this {
                Value::Null | Value::Undefined => ThisBinding::Global,
                Value::Object(_) => ThisBinding::AsPassed,
                _ => ThisBinding::Boxed,
            }
        },
{
    if strict || constructing {
        return ThisBinding::AsPassed;
    }
    match this {
        Value::Null | Value::Undefined => ThisBinding::Global,
        Value::Object(_) => ThisBinding::AsPassed,
        _ => ThisBinding::Boxed,
    }
}

/// The arguments a bound function passes its target: its bound arguments,
/// then those of the call.
pub fn bound_call_args(bound: &Vec<Value>, args: Vec<Value>) -> (r: Vec<Value>)
    ensures
        r@ == bound@ + args@,
{
    let mut out: Vec<Value> = Vec::new();
    let mut i: usize = 0;
    while i < bound.len()
        invariant
            0 <= i <= bound@.len(),
            out@ =~= bound@.subrange(0, i as int),
        decreases bound@.len() - i,
    {
        out.push(copy_value(&bound[i]));
        i = i + 1;
    }
    let mut rest = args;
    out.append(&mut rest);
    assert(bound@.subrange(0, bound@.len() as int) =~= bound@);
    out
}

/// A proxy's `construct` trap must return an object.
pub fn proxy_construct_result(ret: Value) -> (r: Result<Value, RuntimeError>)
    ensures
        ret is Object ==> r == Ok::<Value, RuntimeError>(ret),
        !(ret is Object) ==> (r matches Err(RuntimeError::TypeError(m)) && m@ == "Proxy construct trap returned a non-Object"@),
{
    match ret {
        Value::Object(_) => Ok(ret),
        _ => Err(RuntimeError::TypeError(String::from_str("Proxy construct trap returned a non-Object"))),
    }
}

/// What a local slot of a new frame starts with.
#[derive(Debug)]
pub enum SlotInit {
    /// The `arguments` object.
    Arguments,
    /// The function itself (a named function's own name).
    SelfRef,
    /// An array of the arguments from this slot's index on.
    Rest(Vec<Value>),
    /// This value.
    Value(Value),
}

/// `r` is what slot `i` starts with: the `arguments` slot, then the
/// self-name slot, then the rest slot take precedence; other slots take
/// the argument of their index, `undefined` past the arguments.
pub open spec fn slot_init_ok(
    i: int,
    args: Seq<Value>,
    arguments_slot: Option<u16>,
    self_slot: Option<u16>,
    rest_slot: Option<u16>,
    r: SlotInit,
) -> bool {
    if arguments_slot == Some(i as u16) {
        r is Arguments
    } else if self_slot == Some(i as u16) {
        r is SelfRef
    } else if rest_slot == Some(i as u16) {
        r matches SlotInit::Rest(v) && v@ == if i < args.len() { args.subrange(i, args.len() as int) } else { Seq::<Value>::empty() }
    } else if i < args.len() {
        r matches SlotInit::Value(v) && v == args[i]
    } else {
        r matches SlotInit::Value(v) && v == Value::Undefined
    }
}

/// What each of the `n_locals` slots of a new frame starts with.
pub fn initial_slots(
    n_locals: u16,
    args: &Vec<Value>,
    arguments_slot: Option<u16>,
    self_slot: Option<u16>,
    rest_slot: Option<u16>,
) -> (r: Vec<SlotInit>)
    ensures
        r@.len() == n_locals,
        forall|i: int| 0 <= i < n_locals ==> slot_init_ok(i, args@, arguments_slot, self_slot, rest_slot, #[trigger] r@[i]),
{
    let mut out: Vec<SlotInit> = Vec::new();
    let mut i: u16 = 0;
    while i < n_locals
        invariant
            0 <= i <= n_locals,
            out@.len() == i,
            forall|k: int| 0 <= k < i ==> slot_init_ok(k, args@, arguments_slot, self_slot, rest_slot, #[trigger] out@[k]),
        decreases n_locals - i,
    {
        let init = if arguments_slot == Some(i) {
            SlotInit::Arguments
        } else if self_slot == Some(i) {
            SlotInit::SelfRef
        } else if rest_slot == Some(i) {
            let mut tail: Vec<Value> = Vec::new();
            let mut j: usize = i as usize;
            while j < args.len()
                invariant
                    i <= j <= args@.len() || (j == i && i > args@.len()),
                    j >= i,
                    tail@ =~= if (i as int) < args@.len() { args@.subrange(i as int, j as int) } else { Seq::<Value>::empty() },
                decreases args@.len() - j,
            {
                tail.push(copy_value(&args[j]));
                j = j + 1;
            }
            SlotInit::Rest(tail)
        } else if (i as usize) < args.len() {
            SlotInit::Value(copy_value(&args[i as usize]))
        } else {
            SlotInit::Value(Value::Undefined)
        };
        out.push(init);
        i = i + 1;
    }
    out
}

} // verus!
