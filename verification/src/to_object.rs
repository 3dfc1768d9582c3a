//! ToObject (ECMA-262 §7.1.18): what becomes of each kind of value, and
//! the own properties of a String wrapper (one per character, then its
//! length).
use vstd::prelude::*;
use crate::interp::RuntimeError;
use crate::number::{denotes_int, sign_bit, two52, number_from_u64};
use crate::text::{append_decimal, chars_of, decimal, push_char};
use crate::value::Value;

verus! {

/// The primitive a wrapper object holds.
#[derive(Debug, Clone, Copy, PartialEq, Eq, Structural)]
pub enum WrapperKind {
    Boolean,
    Number,
    String,
    BigInt,
}

/// What ToObject makes of a value.
#[derive(Debug, Clone, Copy, PartialEq, Eq, Structural)]
pub enum ObjectConversion {
    /// The value itself (an object, and also a symbol, which this runtime
    /// hands back unwrapped).
    Itself,
    /// A fresh ordinary object (`undefined` or `null` when that deviation
    /// is tolerated).
    Fresh,
    /// A new wrapper object of this kind holding the value.
    Wrap(WrapperKind),
}

/// ToObject's decision: objects and symbols stay as they are, the other
/// primitives get a wrapper, and `undefined` and `null` are a TypeError
/// unless the runtime tolerates them (then a fresh object).
pub fn to_object_conversion(v: &Value, tolerate_nullish: bool) -> (r: Result<ObjectConversion, RuntimeError>)
    ensures
        match *v {
            Value::Undefined | Value::Null => if tolerate_nullish {
                r == Ok::<ObjectConversion, RuntimeError>(ObjectConversion::Fresh)
            } else {
                r matches Err(RuntimeError::TypeError(m)) && m@ == "Cannot convert undefined or null to object"@
            },
            Value::Object(_) | Value::Symbol(_) => r == Ok::<ObjectConversion, RuntimeError>(ObjectConversion::Itself),
            Value::Boolean(_) => r == Ok::<ObjectConversion, RuntimeError>(ObjectConversion::Wrap(WrapperKind::Boolean)),
            Value::Number(_) => r == Ok::<ObjectConversion, RuntimeError>(ObjectConversion::Wrap(WrapperKind::Number)),
            Value::String(_) => r == Ok::<ObjectConversion, RuntimeError>(ObjectConversion::Wrap(WrapperKind::String)),
            Value::BigInt(_) => r == Ok::<ObjectConversion, RuntimeError>(ObjectConversion::Wrap(WrapperKind::BigInt)),
        },
{
    match v {
        Value::Undefined | Value::Null => if tolerate_nullish {
            Ok(ObjectConversion::Fresh)
        } else {
            Err(RuntimeError::TypeError(String::from_str("Cannot convert undefined or null to object")))
        },
        Value::Object(_) | Value::Symbol(_) => Ok(ObjectConversion::Itself),
        Value::Boolean(_) => Ok(ObjectConversion::Wrap(WrapperKind::Boolean)),
        Value::Number(_) => Ok(ObjectConversion::Wrap(WrapperKind::Number)),
        Value::String(_) => Ok(ObjectConversion::Wrap(WrapperKind::String)),
        Value::BigInt(_) => Ok(ObjectConversion::Wrap(WrapperKind::BigInt)),
    }
}

/// The own property `k` of the String wrapper of `s`: for `k < len`, the
/// key is the index in decimal and the value the one-character string, an
/// enumerable property; for `k == len`, the non-enumerable `length`.
pub open spec fn wrapper_property_ok(s: Seq<char>, k: int, p: (String, Value, bool)) -> bool {
    if k < s.len() {
        &&& p.0@ == decimal(k as nat)
        &&& p.1 matches Value::String(t) && t@ == seq![s[k]]
        &&& p.2
    } else {
        &&& p.0@ == "length"@
        &&& p.1 matches Value::Number(b) && denotes_int(b, s.len() as int) && !sign_bit(b)
        &&& !p.2
    }
}

/// The own properties of the String wrapper of `s`, in order: key, value
/// and whether enumerable.
pub fn string_wrapper_properties(s: &str) -> (props: Vec<(String, Value, bool)>)
    requires
        s@.len() < 2 * two52(),
    ensures
        props@.len() == s@.len() + 1,
        forall|k: int| 0 <= k <= s@.len() ==> wrapper_property_ok(s@, k, #[trigger] props@[k]),
{
    let cs = chars_of(s);
    let mut props: Vec<(String, Value, bool)> = Vec::new();
    let mut i: usize = 0;
    while i < cs.len()
        invariant
            cs@ == s@,
            0 <= i <= cs@.len(),
            props@.len() == i,
            forall|k: int| 0 <= k < i ==> wrapper_property_ok(s@, k, #[trigger] props@[k]),
        decreases cs@.len() - i,
    {
        let mut key = String::new();
        append_decimal(&mut key, i as u128);
        let mut one = String::new();
        push_char(&mut one, cs[i]);
        assert(key@ =~= decimal(i as nat));
        assert(one@ =~= seq![s@[i as int]]);
        props.push((key, Value::String(one), true));
        i = i + 1;
    }
    let n = number_from_u64(cs.len() as u64);
    let ghost before = props@;
    props.push((String::from_str("length"), Value::Number(n), false));
    assert forall|k: int| 0 <= k <= s@.len() implies wrapper_property_ok(s@, k, #[trigger] props@[k]) by {
        if k < s@.len() {
            assert(props@[k] == before[k]);
        }
    }
    props
}

} // verus!
