//! JavaScript values as the runtime's helpers read them.
use vstd::prelude::*;

verus! {

/// The identity of a heap object.
#[derive(Debug, Clone, Copy, PartialEq, Eq, Structural)]
pub struct ObjectId(pub u32);

/// A JavaScript value.
#[derive(Debug, Clone)]
pub enum Value {
    Undefined,
    Null,
    Boolean(bool),
    /// The bit pattern of the IEEE 754 double (see `crate::number`).
    Number(u64),
    String(String),
    /// The canonical decimal text of the integer: an optional `-`, then the
    /// digits without leading zeros (`0` for zero).
    BigInt(String),
    /// The canonical `@@sym:` key of the symbol; two symbols are the same
    /// symbol exactly when their keys are equal.
    Symbol(String),
    Object(ObjectId),
}

/// A copy of the value: the same value.
pub fn copy_value(v: &Value) -> (r: Value)
    ensures
        r == *v,
{
    match v {
        Value::Undefined => Value::Undefined,
        Value::Null => Value::Null,
        Value::Boolean(b) => Value::Boolean(*b),
        Value::Number(n) => Value::Number(*n),
        Value::String(s) => Value::String(s.clone()),
        Value::BigInt(d) => Value::BigInt(d.clone()),
        Value::Symbol(k) => Value::Symbol(k.clone()),
        Value::Object(id) => Value::Object(*id),
    }
}

/// The canonical text of the BigInt zero.
pub open spec fn is_bigint_zero(d: Seq<char>) -> bool {
    d == seq!['0']
}

/// Whether the canonical decimal text `d` is that of zero.
pub fn bigint_is_zero(d: &String) -> (r: bool)
    ensures
        r == is_bigint_zero(d@),
{
    let s = d.as_str();
    if s.unicode_len() != 1 {
        return false;
    }
    let c = s.get_char(0);
    proof {
        if c == '0' {
            assert(d@ =~= seq!['0']);
        }
    }
    c == '0'
}

} // verus!
