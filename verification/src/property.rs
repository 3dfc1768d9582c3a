//! Property descriptors and `Object.defineProperty`'s validation of a new
//! descriptor against the property it replaces (ECMA-262 §10.1.6.3
//! ValidateAndApplyPropertyDescriptor).
use vstd::prelude::*;
use crate::abstract_ops::{same_value, spec_same_value};
use crate::interp::{RuntimeError, keyed_type_error};
use crate::text::str_equal;
use crate::value::{ObjectId, Value, copy_value};

verus! {

/// An own property: a data property (`getter` and `setter` both `None`) or
/// an accessor property.
#[derive(Debug)]
pub struct PropertyDescriptor {
    pub value: Value,
    pub writable: bool,
    pub enumerable: bool,
    pub configurable: bool,
    pub getter: Option<Value>,
    pub setter: Option<Value>,
}

/// The fields a descriptor object supplies (ToPropertyDescriptor, §6.2.5.5):
/// each present field with its value, attributes already converted with
/// ToBoolean, and whether the `get` and `set` values are callable.
#[derive(Debug)]
pub struct DescriptorFields {
    pub get: Option<Value>,
    pub get_callable: bool,
    pub set: Option<Value>,
    pub set_callable: bool,
    pub value: Option<Value>,
    pub writable: Option<bool>,
    pub enumerable: Option<bool>,
    pub configurable: Option<bool>,
}

/// Why a definition is refused.
#[derive(Debug, Clone, Copy, PartialEq, Eq, Structural)]
pub enum DefineFailure {
    NotExtensible,
    GetterNotCallable,
    SetterNotCallable,
    AccessorAndValue,
    ConfigurableWouldChange,
    EnumerableWouldChange,
    DataAsAccessor,
    GetWouldChange,
    SetWouldChange,
    AccessorAsData,
    WritableWouldChange,
    ValueWouldChange,
}

pub open spec fn or_else(b: Option<bool>, d: bool) -> bool {
    match b {
        Some(x) => x,
        None => d,
    }
}

pub open spec fn is_accessor(d: PropertyDescriptor) -> bool {
    d.getter is Some || d.setter is Some
}

/// A new `get` or `set` value keeps the existing one: both absent, or the
/// same function object.
pub open spec fn same_accessor(existing: Option<Value>, new: Value) -> bool {
    match (existing, new) {
        (None, Value::Undefined) => true,
        (Some(Value::Object(a)), Value::Object(b)) => a == b,
        _ => false,
    }
}

/// The descriptor names an accessor (`get` or `set`).
pub open spec fn names_accessor(d: DescriptorFields) -> bool {
    d.get is Some || d.set is Some
}

/// The descriptor is generic: none of `value`, `writable`, `get`, `set`.
pub open spec fn is_generic(d: DescriptorFields) -> bool {
    !names_accessor(d) && d.value is None && d.writable is None
}

/// The first rule the definition breaks, in the order they are checked;
/// `None` when it is allowed.
pub open spec fn define_failure(existing: Option<PropertyDescriptor>, extensible: bool, d: DescriptorFields) -> Option<DefineFailure> {
    if existing is None && !extensible {
        Some(DefineFailure::NotExtensible)
    } else if d.get matches Some(g) && !(g is Undefined) && !d.get_callable {
        Some(DefineFailure::GetterNotCallable)
    } else if d.set matches Some(s) && !(s is Undefined) && !d.set_callable {
        Some(DefineFailure::SetterNotCallable)
    } else if (d.value is Some || d.writable is Some) && names_accessor(d) {
        Some(DefineFailure::AccessorAndValue)
    } else {
        match existing {
            Some(e) if !e.configurable => {
                if d.configurable == Some(true) {
                    Some(DefineFailure::ConfigurableWouldChange)
                } else if d.enumerable matches Some(en) && en != e.enumerable {
                    Some(DefineFailure::EnumerableWouldChange)
                } else if names_accessor(d) {
                    if !is_accessor(e) {
                        Some(DefineFailure::DataAsAccessor)
                    } else if d.get matches Some(g) && !same_accessor(e.getter, g) {
                        Some(DefineFailure::GetWouldChange)
                    } else if d.set matches Some(s) && !same_accessor(e.setter, s) {
                        Some(DefineFailure::SetWouldChange)
                    } else {
                        None
                    }
                } else if is_generic(d) {
                    None
                } else if is_accessor(e) {
                    Some(DefineFailure::AccessorAsData)
                } else if !e.writable && d.writable == Some(true) {
                    Some(DefineFailure::WritableWouldChange)
                } else if d.value matches Some(v) && !spec_same_value(v, e.value) && !e.writable {
                    Some(DefineFailure::ValueWouldChange)
                } else {
                    None
                }
            },
            _ => None,
        }
    }
}

/// The message of a refusal for property `key`.
pub open spec fn failure_message(f: DefineFailure, key: Seq<char>) -> Seq<char> {
    match f {
        DefineFailure::NotExtensible => "Cannot add property '"@ + key + "': object is not extensible"@,
        DefineFailure::GetterNotCallable => "Invalid property descriptor: getter must be callable"@,
        DefineFailure::SetterNotCallable => "Invalid property descriptor: setter must be callable"@,
        DefineFailure::AccessorAndValue =>
            "Invalid property descriptor: cannot both specify accessors and a value or writable attribute"@,
        DefineFailure::ConfigurableWouldChange =>
            "Cannot redefine non-configurable property '"@ + key + "': configurable would change"@,
        DefineFailure::EnumerableWouldChange =>
            "Cannot redefine non-configurable property '"@ + key + "': enumerable would change"@,
        DefineFailure::DataAsAccessor =>
            "Cannot redefine non-configurable data property '"@ + key + "' as accessor"@,
        DefineFailure::GetWouldChange =>
            "Cannot redefine non-configurable accessor '"@ + key + "': [[Get]] would change"@,
        DefineFailure::SetWouldChange =>
            "Cannot redefine non-configurable accessor '"@ + key + "': [[Set]] would change"@,
        DefineFailure::AccessorAsData =>
            "Cannot redefine non-configurable accessor '"@ + key + "' as data property"@,
        DefineFailure::WritableWouldChange =>
            "Cannot redefine non-configurable non-writable property '"@ + key + "': writable would change"@,
        DefineFailure::ValueWouldChange =>
            "Cannot redefine non-configurable non-writable property '"@ + key + "'"@,
    }
}

/// A present `get` or `set` value installed: a function object, or none
/// for `undefined`.
pub open spec fn installed_accessor(new: Option<Value>, existing: Option<Value>) -> Option<Value> {
    match new {
        Some(g) => if g is Object { Some(g) } else { None },
        None => existing,
    }
}

/// The property installed by an allowed definition. An accessor
/// descriptor keeps an absent `get` or `set` of the existing property; a
/// generic one changes only `enumerable` and `configurable`; a data one keeps
/// the existing value when it gives none. Absent attributes keep their
/// existing values, or are false for a new property.
pub open spec fn installed(existing: Option<PropertyDescriptor>, d: DescriptorFields) -> PropertyDescriptor {
    if names_accessor(d) {
        PropertyDescriptor {
            value: Value::Undefined,
            writable: false,
            enumerable: or_else(d.enumerable, existing matches Some(e) && e.enumerable),
            configurable: or_else(d.configurable, existing matches Some(e) && e.configurable),
            getter: installed_accessor(d.get, match existing { Some(e) => e.getter, None => None }),
            setter: installed_accessor(d.set, match existing { Some(e) => e.setter, None => None }),
        }
    } else if is_generic(d) {
        match existing {
            Some(e) => PropertyDescriptor {
                value: e.value,
                writable: e.writable,
                enumerable: or_else(d.enumerable, e.enumerable),
                configurable: or_else(d.configurable, e.configurable),
                getter: e.getter,
                setter: e.setter,
            },
            None => PropertyDescriptor {
                value: Value::Undefined,
                writable: false,
                enumerable: or_else(d.enumerable, false),
                configurable: or_else(d.configurable, false),
                getter: None,
                setter: None,
            },
        }
    } else {
        PropertyDescriptor {
            value: match d.value {
                Some(v) => v,
                None => match existing { Some(e) => e.value, None => Value::Undefined },
            },
            writable: or_else(d.writable, existing matches Some(e) && e.writable),
            enumerable: or_else(d.enumerable, existing matches Some(e) && e.enumerable),
            configurable: or_else(d.configurable, existing matches Some(e) && e.configurable),
            getter: None,
            setter: None,
        }
    }
}

fn or_else_exec(b: Option<bool>, d: bool) -> (r: bool)
    ensures
        r == or_else(b, d),
{
    match b {
        Some(x) => x,
        None => d,
    }
}

fn same_accessor_exec(existing: &Option<Value>, new: &Value) -> (r: bool)
    ensures
        r == same_accessor(*existing, *new),
{
    match (existing, new) {
        (None, Value::Undefined) => true,
        (Some(Value::Object(a)), Value::Object(b)) => a.0 == b.0,
        _ => false,
    }
}

fn failure(f: DefineFailure, key: &str) -> (e: RuntimeError)
    ensures
        e matches RuntimeError::TypeError(m) && m@ == failure_message(f, key@),
{
    match f {
        DefineFailure::NotExtensible => keyed_type_error("Cannot add property '", key, "': object is not extensible"),
        DefineFailure::GetterNotCallable =>
            RuntimeError::TypeError(String::from_str("Invalid property descriptor: getter must be callable")),
        DefineFailure::SetterNotCallable =>
            RuntimeError::TypeError(String::from_str("Invalid property descriptor: setter must be callable")),
        DefineFailure::AccessorAndValue => RuntimeError::TypeError(String::from_str(
            "Invalid property descriptor: cannot both specify accessors and a value or writable attribute")),
        DefineFailure::ConfigurableWouldChange =>
            keyed_type_error("Cannot redefine non-configurable property '", key, "': configurable would change"),
        DefineFailure::EnumerableWouldChange =>
            keyed_type_error("Cannot redefine non-configurable property '", key, "': enumerable would change"),
        DefineFailure::DataAsAccessor =>
            keyed_type_error("Cannot redefine non-configurable data property '", key, "' as accessor"),
        DefineFailure::GetWouldChange =>
            keyed_type_error("Cannot redefine non-configurable accessor '", key, "': [[Get]] would change"),
        DefineFailure::SetWouldChange =>
            keyed_type_error("Cannot redefine non-configurable accessor '", key, "': [[Set]] would change"),
        DefineFailure::AccessorAsData =>
            keyed_type_error("Cannot redefine non-configurable accessor '", key, "' as data property"),
        DefineFailure::WritableWouldChange =>
            keyed_type_error("Cannot redefine non-configurable non-writable property '", key, "': writable would change"),
        DefineFailure::ValueWouldChange =>
            keyed_type_error("Cannot redefine non-configurable non-writable property '", key, "'"),
    }
}

/// The first rule a definition breaks.
fn check_definition(existing: &Option<PropertyDescriptor>, extensible: bool, d: &DescriptorFields) -> (r: Option<DefineFailure>)
    ensures
        r == define_failure(*existing, extensible, *d),
{
    if existing.is_none() && !extensible {
        return Some(DefineFailure::NotExtensible);
    }
    if let Some(g) = &d.get {
        if !matches!(g, Value::Undefined) && !d.get_callable {
            return Some(DefineFailure::GetterNotCallable);
        }
    }
    if let Some(s) = &d.set {
        if !matches!(s, Value::Undefined) && !d.set_callable {
            return Some(DefineFailure::SetterNotCallable);
        }
    }
    let accessor = d.get.is_some() || d.set.is_some();
    if (d.value.is_some() || d.writable.is_some()) && accessor {
        return Some(DefineFailure::AccessorAndValue);
    }
    match existing {
        Some(e) => {
            if e.configurable {
                return None;
            }
            if d.configurable == Some(true) {
                return Some(DefineFailure::ConfigurableWouldChange);
            }
            if let Some(en) = d.enumerable {
                if en != e.enumerable {
                    return Some(DefineFailure::EnumerableWouldChange);
                }
            }
            let existing_accessor = e.getter.is_some() || e.setter.is_some();
            if accessor {
                if !existing_accessor {
                    return Some(DefineFailure::DataAsAccessor);
                }
                if let Some(g) = &d.get {
                    if !same_accessor_exec(&e.getter, g) {
                        return Some(DefineFailure::GetWouldChange);
                    }
                }
                if let Some(s) = &d.set {
                    if !same_accessor_exec(&e.setter, s) {
                        return Some(DefineFailure::SetWouldChange);
                    }
                }
                None
            } else if d.value.is_none() && d.writable.is_none() {
                None
            } else if existing_accessor {
                Some(DefineFailure::AccessorAsData)
            } else if !e.writable && d.writable == Some(true) {
                Some(DefineFailure::WritableWouldChange)
            } else {
                match &d.value {
                    Some(v) => if !same_value(v, &e.value) && !e.writable {
                        Some(DefineFailure::ValueWouldChange)
                    } else {
                        None
                    },
                    None => None,
                }
            }
        },
        None => None,
    }
}

/// ValidateAndApplyPropertyDescriptor for `Object.defineProperty(o, key,
/// desc)`: given the property `key` of `o` has now (if any), whether `o` is
/// extensible and the fields of `desc`, the property to install, or the
/// TypeError of the first rule the definition breaks.
pub fn validate_and_apply_property_descriptor(
    key: &str,
    existing: Option<PropertyDescriptor>,
    extensible: bool,
    desc: DescriptorFields,
) -> (r: Result<PropertyDescriptor, RuntimeError>)
    ensures
        match define_failure(existing, extensible, desc) {
            Some(f) => r matches Err(RuntimeError::TypeError(m)) && m@ == failure_message(f, key@),
            None => r == Ok::<PropertyDescriptor, RuntimeError>(installed(existing, desc)),
        },
{
    match check_definition(&existing, extensible, &desc) {
        Some(f) => {
            return Err(failure(f, key));
        },
        None => {},
    }
    let DescriptorFields { get, get_callable: _, set, set_callable: _, value, writable, enumerable, configurable } = desc;
    if get.is_some() || set.is_some() {
        let (de, dc, eg, es) = match existing {
            Some(e) => (e.enumerable, e.configurable, e.getter, e.setter),
            None => (false, false, None, None),
        };
        let getter = match get {
            Some(g) => if matches!(g, Value::Object(_)) { Some(g) } else { None },
            None => eg,
        };
        let setter = match set {
            Some(s) => if matches!(s, Value::Object(_)) { Some(s) } else { None },
            None => es,
        };
        Ok(PropertyDescriptor {
            value: Value::Undefined,
            writable: false,
            enumerable: or_else_exec(enumerable, de),
            configurable: or_else_exec(configurable, dc),
            getter,
            setter,
        })
    } else if value.is_none() && writable.is_none() {
        match existing {
            Some(e) => Ok(PropertyDescriptor {
                value: e.value,
                writable: e.writable,
                enumerable: or_else_exec(enumerable, e.enumerable),
                configurable: or_else_exec(configurable, e.configurable),
                getter: e.getter,
                setter: e.setter,
            }),
            None => Ok(PropertyDescriptor {
                value: Value::Undefined,
                writable: false,
                enumerable: or_else_exec(enumerable, false),
                configurable: or_else_exec(configurable, false),
                getter: None,
                setter: None,
            }),
        }
    } else {
        let (dw, de, dc, ev) = match existing {
            Some(e) => (e.writable, e.enumerable, e.configurable, e.value),
            None => (false, false, false, Value::Undefined),
        };
        let v = match value {
            Some(v) => v,
            None => ev,
        };
        Ok(PropertyDescriptor {
            value: v,
            writable: or_else_exec(writable, dw),
            enumerable: or_else_exec(enumerable, de),
            configurable: or_else_exec(configurable, dc),
            getter: None,
            setter: None,
        })
    }
}

// ------------------------------------------------------------------ laws

/// The descriptor is well formed: its `get` and `set` are callable or
/// undefined, and it does not mix accessor and data fields.
pub open spec fn well_formed(d: DescriptorFields) -> bool {
    &&& (d.get matches Some(g) ==> g is Undefined || d.get_callable)
    &&& (d.set matches Some(s) ==> s is Undefined || d.set_callable)
    &&& !((d.value is Some || d.writable is Some) && names_accessor(d))
}

/// A well-formed definition of a new property on an extensible object, or
/// of a configurable property, is always allowed.
pub proof fn law_configurable_properties_accept_any_definition(
    existing: Option<PropertyDescriptor>,
    extensible: bool,
    d: DescriptorFields,
)
    requires
        well_formed(d),
        match existing {
            Some(e) => e.configurable,
            None => extensible,
        },
    ensures
        define_failure(existing, extensible, d) is None,
{
}

/// An allowed definition keeps a non-configurable property as it was in
/// every way the object's invariants fix: still non-configurable, equally
/// enumerable, of the same kind, and, for a non-writable data property,
/// still non-writable with the same value (SameValue).
pub proof fn law_non_configurable_properties_keep_their_shape(
    e: PropertyDescriptor,
    extensible: bool,
    d: DescriptorFields,
)
    requires
        !e.configurable,
        define_failure(Some(e), extensible, d) is None,
    ensures
        !installed(Some(e), d).configurable,
        installed(Some(e), d).enumerable == e.enumerable,
        is_accessor(e) ==> installed(Some(e), d).getter == e.getter && installed(Some(e), d).setter == e.setter,
        !is_accessor(e) ==> !is_accessor(installed(Some(e), d)),
        !is_accessor(e) && !e.writable ==> !installed(Some(e), d).writable
            && (installed(Some(e), d).value == e.value || spec_same_value(installed(Some(e), d).value, e.value)),
{
}

/// Defining a data property again with its own attributes and value is
/// allowed and changes nothing (NaN too: SameValue equates it with itself).
pub proof fn law_redefining_a_data_property_as_itself(e: PropertyDescriptor, extensible: bool)
    requires
        !is_accessor(e),
    ensures
        ({
            let d = DescriptorFields {
                get: None,
                get_callable: false,
                set: None,
                set_callable: false,
                value: Some(e.value),
                writable: Some(e.writable),
                enumerable: Some(e.enumerable),
                configurable: Some(e.configurable),
            };
            define_failure(Some(e), extensible, d) is None && installed(Some(e), d) == e
        }),
{
    crate::abstract_ops::law_same_value_is_an_equivalence(e.value, e.value, e.value);
}

// ----------------------------------------------------------- Object.create

/// The prototype `Object.create(proto)` gives the new object: an object,
/// or none for `null`; anything else is a TypeError.
pub fn object_create_prototype(proto: &Value) -> (r: Result<Option<ObjectId>, RuntimeError>)
    ensures
        match *proto {
            Value::Object(id) => r == Ok::<Option<ObjectId>, RuntimeError>(Some(id)),
            Value::Null => r == Ok::<Option<ObjectId>, RuntimeError>(None),
            _ => r matches Err(RuntimeError::TypeError(m)) && m@ == "Object.create: prototype must be object or null"@,
        },
{
    match proto {
        Value::Object(id) => Ok(Some(*id)),
        Value::Null => Ok(None),
        _ => Err(RuntimeError::TypeError(String::from_str("Object.create: prototype must be object or null"))),
    }
}

/// The property `Object.create` defines from a description's fields:
/// absent attributes `false`, an absent value `undefined`, a getter or
/// setter kept only when it is an object.
pub open spec fn created_property(d: DescriptorFields) -> PropertyDescriptor {
    PropertyDescriptor {
        value: match d.value {
            Some(v) => v,
            None => Value::Undefined,
        },
        writable: or_else(d.writable, false),
        enumerable: or_else(d.enumerable, false),
        configurable: or_else(d.configurable, false),
        getter: match d.get {
            Some(g) => if g is Object { Some(g) } else { None },
            None => None,
        },
        setter: match d.set {
            Some(x) => if x is Object { Some(x) } else { None },
            None => None,
        },
    }
}

/// Why `Object.create` refuses a description, checked in this order.
pub open spec fn create_refusal(d: DescriptorFields) -> Option<Seq<char>> {
    if d.get matches Some(g) && !(g is Undefined) && !d.get_callable {
        Some("Object.create: getter must be callable"@)
    } else if d.set matches Some(x) && !(x is Undefined) && !d.set_callable {
        Some("Object.create: setter must be callable"@)
    } else if (d.value is Some || d.writable is Some) && names_accessor(d) {
        Some("Object.create: cannot both specify accessors and a value or writable"@)
    } else {
        None
    }
}

fn object_accessor(v: Option<Value>) -> (r: Option<Value>)
    ensures
        r == match v {
            Some(g) => if g is Object { Some(g) } else { None },
            None => None::<Value>,
        },
{
    match v {
        Some(g) => match g {
            Value::Object(_) => Some(g),
            _ => None,
        },
        None => None,
    }
}

/// `Object.create(proto, props)`, for one property: its description's
/// fields (`None` when the description is not an object) turned into the
/// property to define, or the TypeError that refuses it.
pub fn object_create_property(desc: Option<DescriptorFields>) -> (r: Result<PropertyDescriptor, RuntimeError>)
    ensures
        match desc {
            None => r matches Err(RuntimeError::TypeError(m)) && m@ == "Property description must be an object"@,
            Some(d) => match create_refusal(d) {
                Some(msg) => r matches Err(RuntimeError::TypeError(m)) && m@ == msg,
                None => r matches Ok(p) && p == created_property(d),
            },
        },
{
    let d = match desc {
        Some(d) => d,
        None => return Err(RuntimeError::TypeError(String::from_str("Property description must be an object"))),
    };
    let get_bad = match &d.get {
        Some(g) => !matches!(g, Value::Undefined) && !d.get_callable,
        None => false,
    };
    if get_bad {
        return Err(RuntimeError::TypeError(String::from_str("Object.create: getter must be callable")));
    }
    let set_bad = match &d.set {
        Some(x) => !matches!(x, Value::Undefined) && !d.set_callable,
        None => false,
    };
    if set_bad {
        return Err(RuntimeError::TypeError(String::from_str("Object.create: setter must be callable")));
    }
    if (d.value.is_some() || d.writable.is_some()) && (d.get.is_some() || d.set.is_some()) {
        return Err(RuntimeError::TypeError(String::from_str(
            "Object.create: cannot both specify accessors and a value or writable")));
    }
    let writable = or_else_exec(d.writable, false);
    let enumerable = or_else_exec(d.enumerable, false);
    let configurable = or_else_exec(d.configurable, false);
    let value = match d.value {
        Some(v) => v,
        None => Value::Undefined,
    };
    Ok(PropertyDescriptor {
        value,
        writable,
        enumerable,
        configurable,
        getter: object_accessor(d.get),
        setter: object_accessor(d.set),
    })
}

// ---------------------------------------------------- own property tables

/// An object's own string-keyed properties, in insertion order.
pub type OwnProps = Vec<(String, PropertyDescriptor)>;

/// Where the key `k` stands in the table, the first place if several.
pub open spec fn prop_index(props: Seq<(String, PropertyDescriptor)>, k: Seq<char>) -> Option<int>
    decreases props.len(),
{
    if props.len() == 0 {
        None
    } else {
        match prop_index(props.drop_last(), k) {
            Some(i) => Some(i),
            None => if props.last().0@ == k { Some(props.len() - 1) } else { None },
        }
    }
}

pub(crate) proof fn lemma_prop_index(props: Seq<(String, PropertyDescriptor)>, k: Seq<char>)
    ensures
        match prop_index(props, k) {
            Some(i) => 0 <= i < props.len() && props[i].0@ == k
                && forall|j: int| 0 <= j < i ==> (#[trigger] props[j]).0@ != k,
            None => forall|j: int| 0 <= j < props.len() ==> (#[trigger] props[j]).0@ != k,
        },
    decreases props.len(),
{
    if props.len() > 0 {
        let init = props.drop_last();
        lemma_prop_index(init, k);
        match prop_index(init, k) {
            Some(i) => {
                assert forall|j: int| 0 <= j < i implies (#[trigger] props[j]).0@ != k by {
                    assert(props[j] == init[j]);
                }
                assert(props[i] == init[i]);
            },
            None => {
                assert forall|j: int| 0 <= j < props.len() - 1 implies (#[trigger] props[j]).0@ != k by {
                    assert(props[j] == init[j]);
                }
            },
        }
    }
}

pub(crate) fn find_prop(props: &OwnProps, key: &str) -> (r: Option<usize>)
    ensures
        match r {
            Some(x) => x < props@.len() && prop_index(props@, key@) == Some(x as int),
            None => prop_index(props@, key@) is None,
        },
{
    let mut i: usize = 0;
    while i < props.len()
        invariant
            0 <= i <= props@.len(),
            forall|j: int| 0 <= j < i ==> (#[trigger] props@[j]).0@ != key@,
        decreases props@.len() - i,
    {
        if str_equal(props[i].0.as_str(), key) {
            proof {
                lemma_prop_index(props@, key@);
                match prop_index(props@, key@) {
                    Some(x) => {
                        assert(x == i as int) by {
                            if x < i as int {
                                assert(props@[x].0@ != key@);
                            }
                        }
                    },
                    None => {
                        assert(props@[i as int].0@ != key@);
                    },
                }
            }
            return Some(i);
        }
        i = i + 1;
    }
    proof {
        lemma_prop_index(props@, key@);
        if let Some(x) = prop_index(props@, key@) {
            assert(props@[x].0@ != key@);
        }
    }
    None
}

/// The table without the entry at `i`, the others in their order.
pub open spec fn without(props: Seq<(String, PropertyDescriptor)>, i: int) -> Seq<(String, PropertyDescriptor)> {
    props.subrange(0, i) + props.subrange(i + 1, props.len() as int)
}

/// Deletes the own property `key`: refused (`false`, nothing changes) when
/// it is non-configurable; otherwise it is removed, the others keeping
/// their order, and the answer is `true` (also when there was none).
pub fn delete_own(props: &mut OwnProps, key: &str) -> (deleted: bool)
    ensures
        match prop_index(old(props)@, key@) {
            Some(i) => if old(props)@[i].1.configurable {
                deleted && final(props)@ == without(old(props)@, i)
            } else {
                !deleted && final(props)@ == old(props)@
            },
            None => deleted && final(props)@ == old(props)@,
        },
{
    match find_prop(props, key) {
        None => true,
        Some(i) => {
            if !props[i].1.configurable {
                return false;
            }
            let ghost before = props@;
            let mut rest: OwnProps = Vec::new();
            while props.len() > i + 1
                invariant
                    i < props@.len() <= before.len(),
                    props@ == before.subrange(0, props@.len() as int),
                    rest@ =~= before.subrange(props@.len() as int, before.len() as int).reverse(),
                decreases props@.len(),
            {
                let e = props.pop().unwrap();
                rest.push(e);
            }
            props.pop();
            while rest.len() > 0
                invariant
                    props@ =~= before.subrange(0, i as int) + before.subrange(i + 1, before.len() - rest@.len()),
                    i + 1 + rest@.len() <= before.len(),
                    rest@ =~= before.subrange(before.len() - rest@.len(), before.len() as int).reverse(),
                decreases rest@.len(),
            {
                let e = rest.pop().unwrap();
                props.push(e);
            }
            true
        },
    }
}

/// Whether an array's `length` may be written: the `writable` of its own
/// `length` property, `true` when it has none.
pub fn array_length_writable(props: &OwnProps) -> (r: bool)
    ensures
        r == match prop_index(props@, "length"@) {
            Some(i) => props@[i].1.writable,
            None => true,
        },
{
    match find_prop(props, "length") {
        Some(i) => props[i].1.writable,
        None => true,
    }
}

/// The `length` property of an array as set directly: the given number
/// and writability, neither enumerable nor configurable.
pub open spec fn length_property(len: u64, writable: bool) -> PropertyDescriptor {
    PropertyDescriptor {
        value: Value::Number(len),
        writable,
        enumerable: false,
        configurable: false,
        getter: None,
        setter: None,
    }
}

/// Sets an array's `length` property in one step: an existing one is
/// replaced in its place, else it is added last. A `new_len` that is no
/// Number counts as `+0`, a `writable` other than `true` as `false`.
pub fn array_length_set(props: &mut OwnProps, new_len: &Value, writable: &Value)
    ensures
        ({
            let len: u64 = match *new_len { Value::Number(n) => n, _ => 0u64 };
            let w = *writable == Value::Boolean(true);
            match prop_index(old(props)@, "length"@) {
                Some(i) => final(props)@.len() == old(props)@.len()
                    && final(props)@[i].0 == old(props)@[i].0
                    && final(props)@[i].1 == length_property(len, w)
                    && forall|j: int| 0 <= j < old(props)@.len() && j != i ==> #[trigger] final(props)@[j] == old(props)@[j],
                None => final(props)@.len() == old(props)@.len() + 1
                    && final(props)@.last().0@ == "length"@
                    && final(props)@.last().1 == length_property(len, w)
                    && forall|j: int| 0 <= j < old(props)@.len() ==> #[trigger] final(props)@[j] == old(props)@[j],
            }
        }),
{
    let len: u64 = match new_len {
        Value::Number(n) => *n,
        _ => 0,
    };
    let w = match writable {
        Value::Boolean(b) => *b,
        _ => false,
    };
    let d = PropertyDescriptor {
        value: Value::Number(len),
        writable: w,
        enumerable: false,
        configurable: false,
        getter: None,
        setter: None,
    };
    match find_prop(props, "length") {
        Some(i) => {
            let k = props[i].0.clone();
            props.set(i, (k, d));
        },
        None => {
            props.push((String::from_str("length"), d));
        },
    }
}

// -------------------------------------------------------- integrity levels

/// The descriptor with its attributes changed: `writable` cleared when
/// `clear_writable`, `configurable` cleared always.
pub open spec fn fixed(d: PropertyDescriptor, clear_writable: bool) -> PropertyDescriptor {
    PropertyDescriptor {
        value: d.value,
        writable: if clear_writable { false } else { d.writable },
        enumerable: d.enumerable,
        configurable: false,
        getter: d.getter,
        setter: d.setter,
    }
}

/// Every property non-configurable and, when `clear_writable`, non-writable.
pub open spec fn all_fixed(props: Seq<PropertyDescriptor>, clear_writable: bool) -> Seq<PropertyDescriptor> {
    props.map_values(|d: PropertyDescriptor| fixed(d, clear_writable))
}

/// `Object.isFrozen`: not extensible, and no property writable or
/// configurable.
pub open spec fn is_frozen(props: Seq<PropertyDescriptor>, extensible: bool) -> bool {
    !extensible && forall|i: int| 0 <= i < props.len() ==> !(#[trigger] props[i]).writable && !props[i].configurable
}

/// `Object.isSealed`: not extensible, and no property configurable.
pub open spec fn is_sealed(props: Seq<PropertyDescriptor>, extensible: bool) -> bool {
    !extensible && forall|i: int| 0 <= i < props.len() ==> !(#[trigger] props[i]).configurable
}

fn copy_option(v: &Option<Value>) -> (r: Option<Value>)
    ensures
        r == *v,
{
    match v {
        Some(x) => Some(copy_value(x)),
        None => None,
    }
}

fn fix_all(props: &mut Vec<PropertyDescriptor>, clear_writable: bool)
    ensures
        final(props)@ == all_fixed(old(props)@, clear_writable),
{
    let ghost old_props = props@;
    let mut i: usize = 0;
    while i < props.len()
        invariant
            props@.len() == old_props.len(),
            0 <= i <= props@.len(),
            forall|k: int| 0 <= k < props@.len() ==> #[trigger] props@[k] == if k < i { fixed(old_props[k], clear_writable) } else { old_props[k] },
        decreases props@.len() - i,
    {
        let d = &props[i];
        let nd = PropertyDescriptor {
            value: copy_value(&d.value),
            writable: if clear_writable { false } else { d.writable },
            enumerable: d.enumerable,
            configurable: false,
            getter: copy_option(&d.getter),
            setter: copy_option(&d.setter),
        };
        props.set(i, nd);
        i = i + 1;
    }
    assert(props@ =~= all_fixed(old_props, clear_writable));
}

/// `Object.freeze` on an object's own properties and extensibility: the
/// object no longer extensible, every property non-writable and
/// non-configurable (the flag is cleared on accessors too), nothing else
/// changed.
pub fn object_freeze(props: &mut Vec<PropertyDescriptor>, extensible: &mut bool)
    ensures
        final(props)@ == all_fixed(old(props)@, true),
        *final(extensible) == false,
{
    *extensible = false;
    fix_all(props, true);
}

/// `Object.seal`: the object no longer extensible and every property
/// non-configurable, nothing else changed.
pub fn object_seal(props: &mut Vec<PropertyDescriptor>, extensible: &mut bool)
    ensures
        final(props)@ == all_fixed(old(props)@, false),
        *final(extensible) == false,
{
    *extensible = false;
    fix_all(props, false);
}

/// `Object.isFrozen` on an object's own properties and extensibility.
pub fn object_is_frozen(props: &Vec<PropertyDescriptor>, extensible: bool) -> (r: bool)
    ensures
        r == is_frozen(props@, extensible),
{
    if extensible {
        return false;
    }
    let mut i: usize = 0;
    while i < props.len()
        invariant
            0 <= i <= props@.len(),
            forall|k: int| 0 <= k < i ==> !(#[trigger] props@[k]).writable && !props@[k].configurable,
        decreases props@.len() - i,
    {
        if props[i].writable || props[i].configurable {
            return false;
        }
        i = i + 1;
    }
    true
}

/// `Object.isSealed` on an object's own properties and extensibility.
pub fn object_is_sealed(props: &Vec<PropertyDescriptor>, extensible: bool) -> (r: bool)
    ensures
        r == is_sealed(props@, extensible),
{
    if extensible {
        return false;
    }
    let mut i: usize = 0;
    while i < props.len()
        invariant
            0 <= i <= props@.len(),
            forall|k: int| 0 <= k < i ==> !(#[trigger] props@[k]).configurable,
        decreases props@.len() - i,
    {
        if props[i].configurable {
            return false;
        }
        i = i + 1;
    }
    true
}

/// A frozen object is frozen, and a sealed one sealed; freezing seals; and
/// a frozen object is sealed.
pub proof fn law_freeze_and_seal_reach_their_levels(props: Seq<PropertyDescriptor>)
    ensures
        is_frozen(all_fixed(props, true), false),
        is_sealed(all_fixed(props, false), false),
        is_sealed(all_fixed(props, true), false),
        forall|e: bool| is_frozen(props, e) ==> is_sealed(props, e),
{
}

/// Freezing and sealing change no value, getter, setter or enumerability,
/// and doing either twice is doing it once.
pub proof fn law_freeze_and_seal_keep_contents(props: Seq<PropertyDescriptor>, clear_writable: bool)
    ensures
        all_fixed(props, clear_writable).len() == props.len(),
        forall|i: int| 0 <= i < props.len() ==> {
            let d = #[trigger] all_fixed(props, clear_writable)[i];
            &&& d.value == props[i].value
            &&& d.getter == props[i].getter
            &&& d.setter == props[i].setter
            &&& d.enumerable == props[i].enumerable
        },
        all_fixed(all_fixed(props, clear_writable), clear_writable) == all_fixed(props, clear_writable),
{
    assert(all_fixed(all_fixed(props, clear_writable), clear_writable) =~= all_fixed(props, clear_writable));
}

} // verus!
