//! The decisions of SpeciesConstructor (ECMA-262 §7.3.22) and
//! ArraySpeciesCreate (§10.4.2.3), each step from the value the previous
//! property read gave to what to do next: read a property, use the
//! default, construct, or fail with a TypeError.
use vstd::prelude::*;
use crate::interp::RuntimeError;
use crate::value::{ObjectId, Value, copy_value};

verus! {

/// The next step of a species lookup.
#[derive(Debug)]
pub enum SpeciesStep {
    /// Read `constructor` from this object.
    ReadConstructor(ObjectId),
    /// Read `@@species` from this constructor.
    ReadSpecies(ObjectId),
    /// Use the default constructor (for ArraySpeciesCreate: allocate a
    /// plain array of the length).
    Default,
    /// Use (construct with) this value.
    Use(Value),
}

/// `r` is a TypeError with message `m`.
pub open spec fn fails_with(r: Result<SpeciesStep, RuntimeError>, m: Seq<char>) -> bool {
    r matches Err(RuntimeError::TypeError(x)) && x@ == m
}

fn type_error(m: &str) -> (r: Result<SpeciesStep, RuntimeError>)
    ensures
        fails_with(r, m@),
{
    Err(RuntimeError::TypeError(String::from_str(m)))
}

/// SpeciesConstructor, first step: the receiver must be an object, whose
/// `constructor` is read next.
pub fn species_constructor_start(o: &Value) -> (r: Result<SpeciesStep, RuntimeError>)
    ensures
        match *o {
            Value::Object(id) => r matches Ok(SpeciesStep::ReadConstructor(x)) && x == id,
            _ => fails_with(r, "SpeciesConstructor: this is not an Object"@),
        },
{
    match o {
        Value::Object(id) => Ok(SpeciesStep::ReadConstructor(*id)),
        _ => type_error("SpeciesConstructor: this is not an Object"),
    }
}

/// SpeciesConstructor, given the `constructor` read: `undefined` means the
/// default; an object's `@@species` is read next; anything else fails.
pub fn species_constructor_after_constructor(c: &Value) -> (r: Result<SpeciesStep, RuntimeError>)
    ensures
        match *c {
            Value::Undefined => r matches Ok(SpeciesStep::Default),
            Value::Object(id) => r matches Ok(SpeciesStep::ReadSpecies(x)) && x == id,
            _ => fails_with(r, "SpeciesConstructor: constructor is not an Object"@),
        },
{
    match c {
        Value::Undefined => Ok(SpeciesStep::Default),
        Value::Object(id) => Ok(SpeciesStep::ReadSpecies(*id)),
        _ => type_error("SpeciesConstructor: constructor is not an Object"),
    }
}

/// SpeciesConstructor, given the `@@species` read and whether it is
/// callable: `undefined` or `null` means the default; a callable value is
/// the constructor; anything else fails.
pub fn species_constructor_after_species(s: &Value, callable: bool) -> (r: Result<SpeciesStep, RuntimeError>)
    ensures
        if *s is Undefined || *s is Null {
            r matches Ok(SpeciesStep::Default)
        } else if callable {
            r matches Ok(SpeciesStep::Use(v)) && v == *s
        } else {
            fails_with(r, "SpeciesConstructor: @@species is not a constructor"@)
        },
{
    match s {
        Value::Undefined | Value::Null => Ok(SpeciesStep::Default),
        _ => if callable {
            Ok(SpeciesStep::Use(copy_value(s)))
        } else {
            type_error("SpeciesConstructor: @@species is not a constructor")
        },
    }
}

/// ArraySpeciesCreate, first step: only an array's `constructor` is
/// consulted; any other receiver gets a plain array.
pub fn array_species_start(o: &Value, is_array: bool) -> (r: SpeciesStep)
    ensures
        match *o {
            Value::Object(id) => if is_array { r matches SpeciesStep::ReadConstructor(x) && x == id } else { r is Default },
            _ => r is Default,
        },
{
    match o {
        Value::Object(id) => if is_array { SpeciesStep::ReadConstructor(*id) } else { SpeciesStep::Default },
        _ => SpeciesStep::Default,
    }
}

/// ArraySpeciesCreate, given the `constructor` read and the intrinsic
/// `Array` constructor (when there is one): `undefined` or the intrinsic
/// gives a plain array; another object's `@@species` is read next; a
/// primitive fails.
pub fn array_species_after_constructor(c: &Value, array_ctor: Option<ObjectId>) -> (r: Result<SpeciesStep, RuntimeError>)
    ensures
        match *c {
            Value::Undefined => r matches Ok(SpeciesStep::Default),
            Value::Object(id) => if array_ctor == Some(id) {
                r matches Ok(SpeciesStep::Default)
            } else {
                r matches Ok(SpeciesStep::ReadSpecies(x)) && x == id
            },
            _ => fails_with(r, "Array constructor is not a valid constructor"@),
        },
{
    match c {
        Value::Undefined => Ok(SpeciesStep::Default),
        Value::Object(id) => {
            let plain = match array_ctor {
                Some(a) => a.0 == id.0,
                None => false,
            };
            if plain { Ok(SpeciesStep::Default) } else { Ok(SpeciesStep::ReadSpecies(*id)) }
        },
        _ => type_error("Array constructor is not a valid constructor"),
    }
}

/// ArraySpeciesCreate, given the `@@species` read and whether it is a
/// function: `undefined` or `null` gives a plain array; a function object
/// is constructed with the length; anything else fails.
pub fn array_species_after_species(s: &Value, is_function: bool) -> (r: Result<SpeciesStep, RuntimeError>)
    ensures
        if *s is Undefined || *s is Null {
            r matches Ok(SpeciesStep::Default)
        } else if *s is Object && is_function {
            r matches Ok(SpeciesStep::Use(v)) && v == *s
        } else {
            fails_with(r, "Array @@species is not a constructor"@)
        },
{
    match s {
        Value::Undefined | Value::Null => Ok(SpeciesStep::Default),
        Value::Object(_) => if is_function {
            Ok(SpeciesStep::Use(copy_value(s)))
        } else {
            type_error("Array @@species is not a constructor")
        },
        _ => type_error("Array @@species is not a constructor"),
    }
}

/// ArraySpeciesCreate, last step: what the construction returned when it
/// is an object, else the array allocated as its receiver.
pub fn array_species_result(returned: &Value, receiver: ObjectId) -> (r: Value)
    ensures
        r == if *returned is Object { *returned } else { Value::Object(receiver) },
{
    match returned {
        Value::Object(_) => copy_value(returned),
        _ => Value::Object(receiver),
    }
}

} // verus!
