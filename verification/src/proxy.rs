//! The invariants that the results of a proxy's traps must keep against
//! its target (ECMA-262 §10.5). For `ownKeys`: a list of property keys
//! without repeats that holds every non-configurable key of the target,
//! and, for a non-extensible target, exactly the target's keys. For `has`,
//! `get`, `set`, `deleteProperty`, `getOwnPropertyDescriptor` and
//! `defineProperty`: an answer that a non-configurable property of the
//! target, or a non-extensible target, rules out is a TypeError.
use vstd::prelude::*;
use crate::abstract_ops::{is_strictly_equal, spec_is_strictly_equal, is_nan_value};
use crate::interp::{RuntimeError, keyed_type_error};
use crate::property::{PropertyDescriptor, DescriptorFields, is_accessor};
use crate::text::str_equal;
use crate::value::Value;

verus! {

/// The kind (symbol or not) and text of a property key; `None` for a value
/// that is no property key.
pub open spec fn key_of(v: Value) -> Option<(bool, Seq<char>)> {
    match v {
        Value::String(s) => Some((false, s@)),
        Value::Symbol(s) => Some((true, s@)),
        _ => None,
    }
}

/// The key at `i` repeats an earlier key of the same kind and text.
pub open spec fn is_repeat(keys: Seq<Value>, i: int) -> bool {
    exists|j: int| 0 <= j < i && key_of(keys[j]) == key_of(keys[i])
}

/// The first position at or after `i` that holds no property key or a
/// repeated one.
pub open spec fn first_bad(keys: Seq<Value>, i: int) -> Option<int>
    decreases keys.len() - i,
{
    if i < 0 || i >= keys.len() {
        None
    } else if key_of(keys[i]) is None || is_repeat(keys, i) {
        Some(i)
    } else {
        first_bad(keys, i + 1)
    }
}

/// The text of a property key (empty for any other value).
pub open spec fn text_of(v: Value) -> Seq<char> {
    match v {
        Value::String(s) => s@,
        Value::Symbol(s) => s@,
        _ => Seq::empty(),
    }
}

/// The value is a property key with the text `t`.
pub open spec fn has_text(v: Value, t: Seq<char>) -> bool {
    key_of(v) matches Some(kt) && kt.1 == t
}

/// Some key of the list has the text `t` (symbols and strings alike).
pub open spec fn lists_text(keys: Seq<Value>, t: Seq<char>) -> bool {
    exists|i: int| 0 <= i < keys.len() && #[trigger] has_text(keys[i], t)
}

/// Some key of the target has the text `t`.
pub open spec fn target_has(target: Seq<(String, bool)>, t: Seq<char>) -> bool {
    exists|j: int| 0 <= j < target.len() && (#[trigger] target[j]).0@ == t
}

/// `t` is a non-configurable key of the target that the trap left out.
pub open spec fn missing_nonconfigurable(keys: Seq<Value>, target: Seq<(String, bool)>, t: Seq<char>) -> bool {
    (exists|j: int| 0 <= j < target.len() && !(#[trigger] target[j]).1 && target[j].0@ == t) && !lists_text(keys, t)
}

/// `t` is a key of the target that the trap left out.
pub open spec fn missing_key(keys: Seq<Value>, target: Seq<(String, bool)>, t: Seq<char>) -> bool {
    target_has(target, t) && !lists_text(keys, t)
}

/// `t` is a key the trap listed that the target does not have.
pub open spec fn added_key(keys: Seq<Value>, target: Seq<(String, bool)>, t: Seq<char>) -> bool {
    lists_text(keys, t) && !target_has(target, t)
}

/// `r` is a TypeError with message `m`.
pub open spec fn type_error(r: Result<Vec<Value>, RuntimeError>, m: Seq<char>) -> bool {
    r matches Err(RuntimeError::TypeError(x)) && x@ == m
}

/// The outcome of the check. A bad list entry is reported at its first
/// position. Of several missing or added keys, which one the message names
/// is left open (the checks walk sets).
pub open spec fn own_keys_outcome(
    keys: Seq<Value>,
    target: Seq<(String, bool)>,
    extensible: bool,
    r: Result<Vec<Value>, RuntimeError>,
) -> bool {
    match first_bad(keys, 0) {
        Some(i) => if key_of(keys[i]) is None {
            type_error(r, "Proxy 'ownKeys' trap result must contain only property keys"@)
        } else {
            type_error(r, "Proxy 'ownKeys' trap returned duplicate keys"@)
        },
        None => if exists|t: Seq<char>| missing_nonconfigurable(keys, target, t) {
            exists|t: Seq<char>| missing_nonconfigurable(keys, target, t) && type_error(r,
                "Proxy 'ownKeys' trap result must include non-configurable target key '"@ + t + "'"@)
        } else if !extensible && exists|t: Seq<char>| missing_key(keys, target, t) {
            exists|t: Seq<char>| missing_key(keys, target, t) && type_error(r,
                "Proxy 'ownKeys' trap result missing target key '"@ + t + "' (non-extensible target)"@)
        } else if !extensible && exists|t: Seq<char>| added_key(keys, target, t) {
            exists|t: Seq<char>| added_key(keys, target, t) && type_error(r,
                "Proxy 'ownKeys' trap result added key '"@ + t + "' to non-extensible target"@)
        } else {
            r matches Ok(v) && v@ == keys
        },
    }
}

/// The text of a property key.
fn key_text(v: &Value) -> (r: Option<&String>)
    ensures
        match key_of(*v) {
            Some(kt) => r matches Some(s) && s@ == kt.1,
            None => r is None,
        },
{
    match v {
        Value::String(s) => Some(s),
        Value::Symbol(s) => Some(s),
        _ => None,
    }
}

/// Two list entries are the same property key.
fn same_key(a: &Value, b: &Value) -> (r: bool)
    ensures
        r == (key_of(*a) is Some && key_of(*a) == key_of(*b)),
{
    match (a, b) {
        (Value::String(x), Value::String(y)) => str_equal(x.as_str(), y.as_str()),
        (Value::Symbol(x), Value::Symbol(y)) => str_equal(x.as_str(), y.as_str()),
        _ => false,
    }
}

/// Some key of the list has the text `t`.
fn lists_text_exec(keys: &Vec<Value>, t: &str) -> (r: bool)
    ensures
        r == lists_text(keys@, t@),
{
    let mut i: usize = 0;
    while i < keys.len()
        invariant
            0 <= i <= keys@.len(),
            forall|k: int| 0 <= k < i ==> !#[trigger] has_text(keys@[k], t@),
        decreases keys@.len() - i,
    {
        match key_text(&keys[i]) {
            Some(s) => {
                if str_equal(s.as_str(), t) {
                    assert(has_text(keys@[i as int], t@));
                    return true;
                }
            },
            None => {},
        }
        i = i + 1;
    }
    false
}

/// Some key of the target has the text `t`.
fn target_has_exec(target: &Vec<(String, bool)>, t: &str) -> (r: bool)
    ensures
        r == target_has(target@, t@),
{
    let mut j: usize = 0;
    while j < target.len()
        invariant
            0 <= j <= target@.len(),
            forall|k: int| 0 <= k < j ==> (#[trigger] target@[k]).0@ != t@,
        decreases target@.len() - j,
    {
        if str_equal(target[j].0.as_str(), t) {
            return true;
        }
        j = j + 1;
    }
    false
}

/// Checks the result of a proxy's `ownKeys` trap, once read as a list,
/// against the target's own keys (their texts, in order, with whether each
/// is configurable) and the target's extensibility; gives the list back when
/// it keeps every invariant.
pub fn apply_proxy_own_keys_invariants(
    trap_keys: Vec<Value>,
    target_keys: &Vec<(String, bool)>,
    extensible: bool,
) -> (r: Result<Vec<Value>, RuntimeError>)
    ensures
        own_keys_outcome(trap_keys@, target_keys@, extensible, r),
{
    let ghost keys = trap_keys@;
    // 1. Every entry is a property key, none repeated.
    let mut i: usize = 0;
    while i < trap_keys.len()
        invariant
            0 <= i <= trap_keys@.len(),
            keys == trap_keys@,
            first_bad(keys, 0) == first_bad(keys, i as int),
        decreases trap_keys@.len() - i,
    {
        if key_text(&trap_keys[i]).is_none() {
            assert(first_bad(keys, i as int) == Some(i as int));
            return Err(RuntimeError::TypeError(String::from_str("Proxy 'ownKeys' trap result must contain only property keys")));
        }
        let mut j: usize = 0;
        while j < i
            invariant
                0 <= j <= i < trap_keys@.len(),
                keys == trap_keys@,
                first_bad(keys, 0) == first_bad(keys, i as int),
                key_of(keys[i as int]) is Some,
                forall|k: int| 0 <= k < j ==> key_of(#[trigger] keys[k]) != key_of(keys[i as int]),
            decreases i - j,
        {
            if same_key(&trap_keys[j], &trap_keys[i]) {
                assert(is_repeat(keys, i as int));
                assert(first_bad(keys, i as int) == Some(i as int));
                return Err(RuntimeError::TypeError(String::from_str("Proxy 'ownKeys' trap returned duplicate keys")));
            }
            j = j + 1;
        }
        assert(!is_repeat(keys, i as int));
        i = i + 1;
    }
    assert(first_bad(keys, 0) is None);
    // 2. Every non-configurable target key is listed.
    let mut j: usize = 0;
    while j < target_keys.len()
        invariant
            0 <= j <= target_keys@.len(),
            keys == trap_keys@,
            first_bad(keys, 0) is None,
            forall|k: int| 0 <= k < j && !(#[trigger] target_keys@[k]).1 ==> lists_text(keys, target_keys@[k].0@),
        decreases target_keys@.len() - j,
    {
        let (ref t, configurable) = target_keys[j];
        if !configurable && !lists_text_exec(&trap_keys, t.as_str()) {
            let e = keyed_type_error("Proxy 'ownKeys' trap result must include non-configurable target key '", t.as_str(), "'");
            let r = Err(e);
            proof {
                let tt = target_keys@[j as int].0@;
                assert(tt == t@);
                assert(missing_nonconfigurable(keys, target_keys@, tt));
                assert(type_error(r, "Proxy 'ownKeys' trap result must include non-configurable target key '"@ + tt + "'"@));
            }
            return r;
        }
        j = j + 1;
    }
    assert(!exists|t: Seq<char>| missing_nonconfigurable(keys, target_keys@, t));
    if !extensible {
        // 3. A non-extensible target: the list holds exactly its keys.
        let mut j: usize = 0;
        while j < target_keys.len()
            invariant
                0 <= j <= target_keys@.len(),
                keys == trap_keys@,
                !extensible,
                first_bad(keys, 0) is None,
                !exists|t: Seq<char>| missing_nonconfigurable(keys, target_keys@, t),
                forall|k: int| 0 <= k < j ==> lists_text(keys, (#[trigger] target_keys@[k]).0@),
            decreases target_keys@.len() - j,
        {
            let t = &target_keys[j].0;
            if !lists_text_exec(&trap_keys, t.as_str()) {
                let e = keyed_type_error("Proxy 'ownKeys' trap result missing target key '", t.as_str(), "' (non-extensible target)");
                let r = Err(e);
                proof {
                    assert(target_has(target_keys@, t@));
                    assert(missing_key(keys, target_keys@, t@));
                    assert(type_error(r, "Proxy 'ownKeys' trap result missing target key '"@ + t@ + "' (non-extensible target)"@));
                }
                return r;
            }
            j = j + 1;
        }
        assert(!exists|t: Seq<char>| missing_key(keys, target_keys@, t));
        let mut i: usize = 0;
        while i < trap_keys.len()
            invariant
                0 <= i <= trap_keys@.len(),
                keys == trap_keys@,
                !extensible,
                first_bad(keys, 0) is None,
                !exists|t: Seq<char>| missing_nonconfigurable(keys, target_keys@, t),
                !exists|t: Seq<char>| missing_key(keys, target_keys@, t),
                forall|k: int| 0 <= k < i ==> (#[trigger] key_of(keys[k]) is Some ==> target_has(target_keys@, text_of(keys[k]))),
            decreases trap_keys@.len() - i,
        {
            match key_text(&trap_keys[i]) {
                Some(t) => {
                    if !target_has_exec(target_keys, t.as_str()) {
                        let e = keyed_type_error("Proxy 'ownKeys' trap result added key '", t.as_str(), "' to non-extensible target");
                        let r = Err(e);
                        proof {
                            assert(has_text(keys[i as int], t@));
                            assert(added_key(keys, target_keys@, t@));
                            assert(type_error(r, "Proxy 'ownKeys' trap result added key '"@ + t@ + "' to non-extensible target"@));
                        }
                        return r;
                    }
                },
                None => {},
            }
            i = i + 1;
        }
        assert(!exists|t: Seq<char>| added_key(keys, target_keys@, t));
    }
    Ok(trap_keys)
}

// ------------------------------------------------------ the other traps

/// `r` is `Ok` when there is no refusal, else a TypeError with its message.
pub open spec fn refused_with(r: Result<(), RuntimeError>, refusal: Option<Seq<char>>) -> bool {
    match refusal {
        None => r is Ok,
        Some(m) => r matches Err(RuntimeError::TypeError(x)) && x@ == m,
    }
}

fn refuse(m: &str) -> (r: Result<(), RuntimeError>)
    ensures
        r matches Err(RuntimeError::TypeError(x)) && x@ == m@,
{
    Err(RuntimeError::TypeError(String::from_str(m)))
}

fn refuse_keyed(head: &str, key: &str, tail: &str) -> (r: Result<(), RuntimeError>)
    ensures
        r matches Err(RuntimeError::TypeError(x)) && x@ == head@ + key@ + tail@,
{
    Err(keyed_type_error(head, key, tail))
}

/// The refusal of a `has` answer (§10.5.7): `false` hides a
/// non-configurable property of the target, or any property of a
/// non-extensible one.
pub open spec fn has_trap_refusal(target: Option<&PropertyDescriptor>, extensible: bool, trap_has: bool) -> Option<Seq<char>> {
    if trap_has {
        None
    } else {
        match target {
            Some(d) => if !d.configurable {
                Some("Proxy 'has' trap returned false for a non-configurable own property of target"@)
            } else if !extensible {
                Some("Proxy 'has' trap returned false for an own property of a non-extensible target"@)
            } else {
                None
            },
            None => None,
        }
    }
}

/// Checks a `has` trap's answer against the target's own property at the
/// key (`None` when it has none) and the target's extensibility.
pub fn apply_proxy_has_invariant(target: Option<&PropertyDescriptor>, extensible: bool, trap_has: bool) -> (r: Result<(), RuntimeError>)
    ensures
        refused_with(r, has_trap_refusal(target, extensible, trap_has)),
{
    if trap_has {
        return Ok(());
    }
    if let Some(d) = target {
        if !d.configurable {
            return refuse("Proxy 'has' trap returned false for a non-configurable own property of target");
        }
        if !extensible {
            return refuse("Proxy 'has' trap returned false for an own property of a non-extensible target");
        }
    }
    Ok(())
}

/// The refusal of a `get` answer (§10.5.8): a non-configurable,
/// non-writable data property must be read as its value (by strict
/// equality), and one of a non-configurable accessor without a getter as
/// `undefined`.
pub open spec fn get_trap_refusal(target: Option<&PropertyDescriptor>, trap_result: Value) -> Option<Seq<char>> {
    match target {
        Some(d) => if d.configurable {
            None
        } else if !is_accessor(*d) && !d.writable && !spec_is_strictly_equal(trap_result, d.value) {
            Some("Proxy 'get' trap returned a value inconsistent with the non-configurable non-writable own data property of target"@)
        } else if is_accessor(*d) && d.getter is None && !(trap_result is Undefined) {
            Some("Proxy 'get' trap returned a non-undefined value for a non-configurable accessor property with undefined getter on target"@)
        } else {
            None
        },
        None => None,
    }
}

/// Checks a `get` trap's result against the target's own property at the
/// key (`None` when it has none).
pub fn apply_proxy_get_invariant(target: Option<&PropertyDescriptor>, trap_result: &Value) -> (r: Result<(), RuntimeError>)
    ensures
        refused_with(r, get_trap_refusal(target, *trap_result)),
{
    if let Some(d) = target {
        if !d.configurable {
            let accessor = d.getter.is_some() || d.setter.is_some();
            if !accessor && !d.writable && !is_strictly_equal(trap_result, &d.value) {
                return refuse("Proxy 'get' trap returned a value inconsistent with the non-configurable non-writable own data property of target");
            }
            if accessor && d.getter.is_none() && !matches!(trap_result, Value::Undefined) {
                return refuse("Proxy 'get' trap returned a non-undefined value for a non-configurable accessor property with undefined getter on target");
            }
        }
    }
    Ok(())
}

/// The refusal of a `set` that reported success (§10.5.9): the value must
/// be that of a non-configurable, non-writable data property (by strict
/// equality), and a non-configurable accessor must have a setter.
pub open spec fn set_trap_refusal(target: Option<&PropertyDescriptor>, value: Value, trap_ok: bool) -> Option<Seq<char>> {
    if !trap_ok {
        None
    } else {
        match target {
            Some(d) => if d.configurable {
                None
            } else if !is_accessor(*d) && !d.writable && !spec_is_strictly_equal(value, d.value) {
                Some("Proxy 'set' trap returned true for a non-configurable non-writable own data property whose value differs"@)
            } else if is_accessor(*d) && d.setter is None {
                Some("Proxy 'set' trap returned true for a non-configurable accessor own property with undefined setter"@)
            } else {
                None
            },
            None => None,
        }
    }
}

/// Checks a `set` trap's answer for the value it was asked to write
/// against the target's own property at the key (`None` when it has none).
pub fn apply_proxy_set_invariant(target: Option<&PropertyDescriptor>, value: &Value, trap_ok: bool) -> (r: Result<(), RuntimeError>)
    ensures
        refused_with(r, set_trap_refusal(target, *value, trap_ok)),
{
    if !trap_ok {
        return Ok(());
    }
    if let Some(d) = target {
        if !d.configurable {
            let accessor = d.getter.is_some() || d.setter.is_some();
            if !accessor && !d.writable && !is_strictly_equal(value, &d.value) {
                return refuse("Proxy 'set' trap returned true for a non-configurable non-writable own data property whose value differs");
            }
            if accessor && d.setter.is_none() {
                return refuse("Proxy 'set' trap returned true for a non-configurable accessor own property with undefined setter");
            }
        }
    }
    Ok(())
}

/// The refusal of a `deleteProperty` that reported success (§10.5.10): a
/// non-configurable property cannot go, nor any property of a
/// non-extensible target.
pub open spec fn delete_trap_refusal(target: Option<&PropertyDescriptor>, extensible: bool, trap_deleted: bool) -> Option<Seq<char>> {
    if !trap_deleted {
        None
    } else {
        match target {
            Some(d) => if !d.configurable {
                Some("Proxy 'deleteProperty' trap returned true for a non-configurable own property of target"@)
            } else if !extensible {
                Some("Proxy 'deleteProperty' trap returned true for an own property of a non-extensible target"@)
            } else {
                None
            },
            None => None,
        }
    }
}

/// Checks a `deleteProperty` trap's answer against the target's own
/// property at the key (`None` when it has none) and its extensibility.
pub fn apply_proxy_delete_invariant(target: Option<&PropertyDescriptor>, extensible: bool, trap_deleted: bool) -> (r: Result<(), RuntimeError>)
    ensures
        refused_with(r, delete_trap_refusal(target, extensible, trap_deleted)),
{
    if !trap_deleted {
        return Ok(());
    }
    if let Some(d) = target {
        if !d.configurable {
            return refuse("Proxy 'deleteProperty' trap returned true for a non-configurable own property of target");
        }
        if !extensible {
            return refuse("Proxy 'deleteProperty' trap returned true for an own property of a non-extensible target");
        }
    }
    Ok(())
}

/// The refusal of a `getOwnPropertyDescriptor` result (§10.5.5): it must
/// be an object or `undefined`, and `undefined` cannot hide a
/// non-configurable property of the target, nor any property of a
/// non-extensible one. (An object result is not checked further.)
pub open spec fn gopd_trap_refusal(target: Option<&PropertyDescriptor>, extensible: bool, key: Seq<char>, trap_result: Value) -> Option<Seq<char>> {
    if !(trap_result is Object || trap_result is Undefined) {
        Some("Proxy 'getOwnPropertyDescriptor' trap returned non-Object non-Undefined"@)
    } else if trap_result is Undefined {
        match target {
            Some(d) => if !d.configurable {
                Some("Proxy 'getOwnPropertyDescriptor' trap returned undefined for non-configurable own property '"@
                    + key + "' of target"@)
            } else if !extensible {
                Some("Proxy 'getOwnPropertyDescriptor' trap returned undefined for own property '"@
                    + key + "' of non-extensible target"@)
            } else {
                None
            },
            None => None,
        }
    } else {
        None
    }
}

/// Checks a `getOwnPropertyDescriptor` trap's result against the target's
/// own property at `key` (`None` when it has none) and its extensibility.
pub fn apply_proxy_get_own_property_descriptor_invariant(
    target: Option<&PropertyDescriptor>,
    extensible: bool,
    key: &str,
    trap_result: &Value,
) -> (r: Result<(), RuntimeError>)
    ensures
        refused_with(r, gopd_trap_refusal(target, extensible, key@, *trap_result)),
{
    match trap_result {
        Value::Object(_) => return Ok(()),
        Value::Undefined => {},
        _ => return refuse("Proxy 'getOwnPropertyDescriptor' trap returned non-Object non-Undefined"),
    }
    if let Some(d) = target {
        if !d.configurable {
            return refuse_keyed(
                "Proxy 'getOwnPropertyDescriptor' trap returned undefined for non-configurable own property '",
                key,
                "' of target",
            );
        }
        if !extensible {
            return refuse_keyed(
                "Proxy 'getOwnPropertyDescriptor' trap returned undefined for own property '",
                key,
                "' of non-extensible target",
            );
        }
    }
    Ok(())
}

/// The refusal of a `defineProperty` that reported success (§10.5.6), for
/// a descriptor object's fields (`None` when the descriptor is no object,
/// which is refused elsewhere): a new property needs an extensible target
/// and cannot be non-configurable; an existing one cannot be made
/// non-configurable while configurable on the target, nor non-writable
/// while a non-configurable writable data property there.
pub open spec fn define_trap_refusal(
    target: Option<&PropertyDescriptor>,
    extensible: bool,
    key: Seq<char>,
    desc: Option<&DescriptorFields>,
) -> Option<Seq<char>> {
    match desc {
        None => None,
        Some(f) => {
            let config_false = f.configurable == Some(false);
            match target {
                None => if !extensible {
                    Some("Proxy 'defineProperty' trap returned true for adding property '"@ + key + "' to non-extensible target"@)
                } else if config_false {
                    Some("Proxy 'defineProperty' trap returned true for defining non-configurable property '"@ + key
                        + "' on target without one"@)
                } else {
                    None
                },
                Some(d) => if config_false && d.configurable {
                    Some("Proxy 'defineProperty' trap returned true for defining non-configurable property '"@ + key
                        + "' which is configurable in target"@)
                } else if !is_accessor(*d) && !d.configurable && d.writable && f.writable == Some(false) {
                    Some("Proxy 'defineProperty' trap returned true for defining property '"@ + key
                        + "' as non-writable while target's is non-configurable data + writable"@)
                } else {
                    None
                },
            }
        },
    }
}

/// Checks a successful `defineProperty` trap against the target's own
/// property at `key` (`None` when it has none) and its extensibility.
pub fn apply_proxy_define_property_invariant(
    target: Option<&PropertyDescriptor>,
    extensible: bool,
    key: &str,
    desc: Option<&DescriptorFields>,
) -> (r: Result<(), RuntimeError>)
    ensures
        refused_with(r, define_trap_refusal(target, extensible, key@, desc)),
{
    let f = match desc {
        Some(f) => f,
        None => return Ok(()),
    };
    let config_false = match f.configurable {
        Some(c) => !c,
        None => false,
    };
    match target {
        None => {
            if !extensible {
                return refuse_keyed("Proxy 'defineProperty' trap returned true for adding property '", key, "' to non-extensible target");
            }
            if config_false {
                return refuse_keyed("Proxy 'defineProperty' trap returned true for defining non-configurable property '", key,
                    "' on target without one");
            }
        },
        Some(d) => {
            if config_false && d.configurable {
                return refuse_keyed("Proxy 'defineProperty' trap returned true for defining non-configurable property '", key,
                    "' which is configurable in target");
            }
            let is_data = d.getter.is_none() && d.setter.is_none();
            let writable_false = match f.writable {
                Some(w) => !w,
                None => false,
            };
            if is_data && !d.configurable && d.writable && writable_false {
                return refuse_keyed("Proxy 'defineProperty' trap returned true for defining property '", key,
                    "' as non-writable while target's is non-configurable data + writable");
            }
        },
    }
    Ok(())
}

/// Answers that agree with the target are never refused: `has` reporting
/// the property, `set` and `deleteProperty` reporting failure, and `get`
/// returning the target's own data value unless that value is NaN (the
/// check compares by strict equality, under which NaN differs from itself).
pub proof fn law_agreeing_answers_are_accepted(d: PropertyDescriptor, extensible: bool, v: Value)
    requires
        !is_accessor(d),
        !is_nan_value(d.value),
    ensures
        has_trap_refusal(Some(&d), extensible, true) is None,
        set_trap_refusal(Some(&d), v, false) is None,
        delete_trap_refusal(Some(&d), extensible, false) is None,
        get_trap_refusal(Some(&d), d.value) is None,
{
    crate::abstract_ops::law_strict_equality_symmetric_and_reflexive_but_nan(d.value, d.value);
}

/// A configurable property of an extensible target constrains no trap
/// answer for reads, writes, deletion and descriptor lookup.
pub proof fn law_configurable_properties_constrain_nothing(d: PropertyDescriptor, key: Seq<char>, has: bool, v: Value, ok: bool, res: Value)
    requires
        d.configurable,
        res is Object || res is Undefined,
    ensures
        has_trap_refusal(Some(&d), true, has) is None,
        get_trap_refusal(Some(&d), v) is None,
        set_trap_refusal(Some(&d), v, ok) is None,
        delete_trap_refusal(Some(&d), true, ok) is None,
        gopd_trap_refusal(Some(&d), true, key, res) is None,
{
}

} // verus!
