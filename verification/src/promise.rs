//! The state of a promise and the decisions that settle and subscribe to
//! it: a promise settles once, and each reaction registered while it is
//! pending runs once, with the outcome it settled to. Resolving a promise
//! with a value (§27.2.1.3) and running a reaction job (§27.2.2.1) are
//! decided step by step here; the interpreter performs each step.
use vstd::prelude::*;
use crate::interp::RuntimeError;
use crate::value::{ObjectId, Value, copy_value};

verus! {

#[derive(Debug, Clone, Copy, PartialEq, Eq, Structural)]
pub enum PromiseStatus {
    Pending,
    Fulfilled,
    Rejected,
}

/// A reaction: the handler to call with the settled value (`None` passes
/// the outcome through), and the promise that its result settles.
#[derive(Debug)]
pub struct PromiseReaction {
    pub handler: Option<Value>,
    pub chain: ObjectId,
}

/// The internal state of a promise.
#[derive(Debug)]
pub struct PromiseState {
    pub status: PromiseStatus,
    pub value: Value,
    pub fulfill_reactions: Vec<PromiseReaction>,
    pub reject_reactions: Vec<PromiseReaction>,
}

/// The status a settlement gives.
pub open spec fn outcome(rejected: bool) -> PromiseStatus {
    if rejected { PromiseStatus::Rejected } else { PromiseStatus::Fulfilled }
}

impl PromiseState {
    /// A new promise: pending, with no reactions.
    pub fn new() -> (p: Self)
        ensures
            p.status == PromiseStatus::Pending,
            p.value == Value::Undefined,
            p.fulfill_reactions@.len() == 0,
            p.reject_reactions@.len() == 0,
    {
        PromiseState {
            status: PromiseStatus::Pending,
            value: Value::Undefined,
            fulfill_reactions: Vec::new(),
            reject_reactions: Vec::new(),
        }
    }

    /// Settles a pending promise (fulfils it, or rejects it when
    /// `rejected`) with `value`, and hands back the reactions of that outcome
    /// to run, in the order they were registered; the other reactions are
    /// dropped. A promise already settled is left as it is (`None`).
    pub fn settle(&mut self, rejected: bool, value: Value) -> (r: Option<Vec<PromiseReaction>>)
        ensures
            old(self).status == PromiseStatus::Pending ==> {
                &&& final(self).status == outcome(rejected)
                &&& final(self).value == value
                &&& final(self).fulfill_reactions@.len() == 0
                &&& final(self).reject_reactions@.len() == 0
                &&& r matches Some(rs) && rs@ == (if rejected { old(self).reject_reactions@ } else { old(self).fulfill_reactions@ })
            },
            old(self).status != PromiseStatus::Pending ==> r is None && *final(self) == *old(self),
    {
        if self.status != PromiseStatus::Pending {
            return None;
        }
        self.status = if rejected { PromiseStatus::Rejected } else { PromiseStatus::Fulfilled };
        self.value = value;
        let mut fulfill = Vec::new();
        let mut reject = Vec::new();
        std::mem::swap(&mut fulfill, &mut self.fulfill_reactions);
        std::mem::swap(&mut reject, &mut self.reject_reactions);
        if rejected { Some(reject) } else { Some(fulfill) }
    }

    /// Registers the reactions of `then` on the promise. While it is
    /// pending both are recorded (`None`); once settled, the handler of its
    /// outcome and whether it was a rejection are handed back, to run now
    /// with the settled value.
    pub fn subscribe(&mut self, on_fulfilled: Option<Value>, on_rejected: Option<Value>, chain: ObjectId)
        -> (r: Option<(Option<Value>, bool)>)
        ensures
            old(self).status == PromiseStatus::Pending ==> {
                &&& r is None
                &&& final(self).status == old(self).status
                &&& final(self).value == old(self).value
                &&& final(self).fulfill_reactions@ == old(self).fulfill_reactions@.push(
                    PromiseReaction { handler: on_fulfilled, chain })
                &&& final(self).reject_reactions@ == old(self).reject_reactions@.push(
                    PromiseReaction { handler: on_rejected, chain })
            },
            old(self).status == PromiseStatus::Fulfilled ==> r == Some((on_fulfilled, false)) && *final(self) == *old(self),
            old(self).status == PromiseStatus::Rejected ==> r == Some((on_rejected, true)) && *final(self) == *old(self),
    {
        match self.status {
            PromiseStatus::Pending => {
                self.fulfill_reactions.push(PromiseReaction { handler: on_fulfilled, chain });
                self.reject_reactions.push(PromiseReaction { handler: on_rejected, chain });
                None
            },
            PromiseStatus::Fulfilled => Some((on_fulfilled, false)),
            PromiseStatus::Rejected => Some((on_rejected, true)),
        }
    }
}

/// A rejection with no reaction registered is a candidate unhandled
/// rejection.
pub fn unhandled_rejection(reactions: &Vec<PromiseReaction>) -> (r: bool)
    ensures
        r == (reactions@.len() == 0),
{
    reactions.len() == 0
}

// ----------------------------------------------------------- resolution

/// What resolving a promise with a value does next.
#[derive(Debug)]
pub enum ResolveStep {
    /// Reject the promise with this reason.
    Reject(Value),
    /// Subscribe the promise to this pending promise: a pass-through
    /// reaction (no handler, chained to the promise) for each outcome.
    Adopt(ObjectId),
    /// Resolve the promise again, with this value.
    Resolve(Value),
    /// Read the value's `then`, and go on with `resolve_after_then`.
    ReadThen,
    /// Fulfil the promise with the value.
    Fulfill,
}

/// `r` is the first step of resolving `promise` with `value`, given the
/// state of `value` when it is a promise: resolving a promise with itself
/// rejects it ("Promise cannot resolve to itself"); a pending promise is
/// adopted; a settled one passes on its outcome; another object's `then`
/// is read; any other value fulfils.
pub open spec fn is_resolve_step(promise: ObjectId, value: Value, value_promise: Option<(PromiseStatus, Value)>, r: ResolveStep) -> bool {
    match value {
        Value::Object(id) => if id == promise {
            r matches ResolveStep::Reject(Value::String(s)) && s@ == "Promise cannot resolve to itself"@
        } else {
            match value_promise {
                Some((PromiseStatus::Pending, _)) => r matches ResolveStep::Adopt(x) && x == id,
                Some((PromiseStatus::Fulfilled, v)) => r matches ResolveStep::Resolve(x) && x == v,
                Some((PromiseStatus::Rejected, v)) => r matches ResolveStep::Reject(x) && x == v,
                None => r is ReadThen,
            }
        },
        _ => r is Fulfill,
    }
}

/// The first step of resolving `promise` with `value` (`value_promise`:
/// the status and value of `value` when it is a promise object).
pub fn resolve_step(promise: ObjectId, value: &Value, value_promise: Option<(PromiseStatus, Value)>) -> (r: ResolveStep)
    ensures
        is_resolve_step(promise, *value, value_promise, r),
{
    match value {
        Value::Object(id) => {
            if id.0 == promise.0 {
                return ResolveStep::Reject(Value::String(String::from_str("Promise cannot resolve to itself")));
            }
            match value_promise {
                Some((PromiseStatus::Pending, _)) => ResolveStep::Adopt(*id),
                Some((PromiseStatus::Fulfilled, v)) => ResolveStep::Resolve(v),
                Some((PromiseStatus::Rejected, v)) => ResolveStep::Reject(v),
                None => ResolveStep::ReadThen,
            }
        },
        _ => ResolveStep::Fulfill,
    }
}

/// `r` is the reason a failed call rejects with: a thrown value as it is,
/// any other error as its debug text (`Kind("message")`).
pub open spec fn is_rejection_reason(e: RuntimeError, r: Value) -> bool {
    match e {
        RuntimeError::Thrown(v) => r == v,
        RuntimeError::CompileError(m) => r matches Value::String(t) && t@ == "CompileError("@ + debug_quoted(m@) + ")"@,
        RuntimeError::TypeError(m) => r matches Value::String(t) && t@ == "TypeError("@ + debug_quoted(m@) + ")"@,
        RuntimeError::ReferenceError(m) => r matches Value::String(t) && t@ == "ReferenceError("@ + debug_quoted(m@) + ")"@,
        RuntimeError::RangeError(m) => r matches Value::String(t) && t@ == "RangeError("@ + debug_quoted(m@) + ")"@,
        RuntimeError::SyntaxError(m) => r matches Value::String(t) && t@ == "SyntaxError("@ + debug_quoted(m@) + ")"@,
        RuntimeError::Unimplemented(m) => r matches Value::String(t) && t@ == "Unimplemented("@ + debug_quoted(m@) + ")"@,
    }
}

/// The reason a failed call rejects with.
pub fn rejection_reason(e: RuntimeError) -> (r: Value)
    ensures
        is_rejection_reason(e, r),
{
    let (name, m) = match e {
        RuntimeError::Thrown(v) => return v,
        RuntimeError::CompileError(m) => ("CompileError(", m),
        RuntimeError::TypeError(m) => ("TypeError(", m),
        RuntimeError::ReferenceError(m) => ("ReferenceError(", m),
        RuntimeError::RangeError(m) => ("RangeError(", m),
        RuntimeError::SyntaxError(m) => ("SyntaxError(", m),
        RuntimeError::Unimplemented(m) => ("Unimplemented(", m),
    };
    let mut out = String::from_str(name);
    let q = debug_quote(m.as_str());
    out.append(q.as_str());
    out.append(")");
    Value::String(out)
}

/// How `{:?}` renders a string: in double quotes, with quotes, backslashes
/// and control and other non-printable characters escaped.
pub uninterp spec fn debug_quoted(s: Seq<char>) -> Seq<char>;

/// The `Debug` rendering of a string (`format!("{:?}", s)`), which the
/// contract names: the result is `debug_quoted` of the text, a function of
/// the text alone. What that rendering is, character by character, is left
/// unstated.
#[verifier::external_body]
fn debug_quote(s: &str) -> (r: String)
    ensures
        r@ == debug_quoted(s@),
{
    format!("{:?}", s)
}

/// What resolving does once `then` has been read from an object value:
/// a failed read rejects with the failure's reason; a callable `then` is
/// called with the promise's resolving functions (`Some`); otherwise the
/// promise is fulfilled with the object (`None`, with no rejection).
pub fn resolve_after_then(then: Result<Value, RuntimeError>, callable: bool) -> (r: Result<Option<Value>, Value>)
    ensures
        match then {
            Err(e) => r matches Err(x) && is_rejection_reason(e, x),
            Ok(t) => if callable { r == Ok::<Option<Value>, Value>(Some(t)) } else { r == Ok::<Option<Value>, Value>(None) },
        },
{
    match then {
        Err(e) => Err(rejection_reason(e)),
        Ok(t) => if callable { Ok(Some(t)) } else { Ok(None) },
    }
}

/// What a reaction job does: with a handler, call it with the value (and
/// resolve the chained promise with what it returns, or reject it with
/// what it throws); without one, pass the outcome through to the chained
/// promise.
#[derive(Debug)]
pub enum ReactionStep {
    Call(Value),
    Resolve(Value),
    Reject(Value),
}

/// The step of a reaction job for a reaction's handler and the settled
/// value, rejected or not.
pub fn reaction_step(handler: Option<Value>, value: Value, rejected: bool) -> (r: ReactionStep)
    ensures
        match handler {
            Some(h) => r matches ReactionStep::Call(x) && x == h,
            None => if rejected { r matches ReactionStep::Reject(x) && x == value } else { r matches ReactionStep::Resolve(x) && x == value },
        },
{
    match handler {
        Some(h) => ReactionStep::Call(h),
        None => if rejected { ReactionStep::Reject(value) } else { ReactionStep::Resolve(value) },
    }
}

/// What the chained promise of a reaction becomes once its handler has
/// run: resolved with what the handler returned, or rejected with the
/// reason of its failure.
pub fn reaction_result(result: Result<Value, RuntimeError>) -> (r: ReactionStep)
    ensures
        match result {
            Ok(v) => r matches ReactionStep::Resolve(x) && x == v,
            Err(e) => r matches ReactionStep::Reject(x) && is_rejection_reason(e, x),
        },
{
    match result {
        Ok(v) => ReactionStep::Resolve(v),
        Err(e) => ReactionStep::Reject(rejection_reason(e)),
    }
}

/// A promise resolved with itself is rejected, one resolved with a settled
/// promise takes on that promise's outcome, and a primitive fulfils.
pub proof fn law_resolution_adopts_or_fulfils(p: ObjectId, q: ObjectId, v: Value, w: Value, r: ResolveStep)
    requires
        p != q,
        !(w is Object),
    ensures
        is_resolve_step(p, Value::Object(p), Some((PromiseStatus::Fulfilled, v)), r) ==> r is Reject,
        is_resolve_step(p, Value::Object(q), Some((PromiseStatus::Fulfilled, v)), r) ==> r == ResolveStep::Resolve(v),
        is_resolve_step(p, Value::Object(q), Some((PromiseStatus::Rejected, v)), r) ==> r == ResolveStep::Reject(v),
        is_resolve_step(p, Value::Object(q), Some((PromiseStatus::Pending, v)), r) ==> r == ResolveStep::Adopt(q),
        is_resolve_step(p, w, None, r) ==> r is Fulfill,
{
}

} // verus!
