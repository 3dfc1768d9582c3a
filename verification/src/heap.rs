//! Objects in a heap, each with its own properties, its prototype and its
//! extensibility, and the lookups that walk a prototype chain: HasProperty,
//! the getter or setter a property access finds, `isPrototypeOf`, and the
//! prototype getters and setters.
use vstd::prelude::*;
use crate::interp::RuntimeError;
use crate::property::{OwnProps, PropertyDescriptor, prop_index, lemma_prop_index, delete_own, without};
use crate::value::{ObjectId, Value, copy_value};
use crate::number::{is_integral, sign_bit, trunc, nearest_double, number_from_u64_rounded};
use crate::property_keys::{i64_value, parse_i64};
use crate::text::{str_equal, decimal, append_decimal};
use crate::number::{to_usize_saturating, number_to_usize};
use crate::abstract_ops::{exact_to_number, to_number_exact};
use crate::proxy::{own_keys_outcome, apply_proxy_own_keys_invariants};
use crate::property_keys::is_ascii_digit;

verus! {

/// An object: its own properties, its prototype, whether it is extensible.
#[derive(Debug)]
pub struct ObjectRecord {
    pub props: OwnProps,
    pub proto: Option<ObjectId>,
    pub extensible: bool,
    pub is_array: bool,
}

/// The heap: the object with id `i` is `objects[i]`.
#[derive(Debug)]
pub struct Heap {
    pub objects: Vec<ObjectRecord>,
}

/// The chain from `cur` reaches its end within `n` objects, each in the
/// heap.
pub open spec fn chain_within(objs: Seq<ObjectRecord>, cur: Option<ObjectId>, n: nat) -> bool
    decreases n,
{
    match cur {
        None => true,
        Some(id) => n > 0 && id.0 < objs.len() && chain_within(objs, objs[id.0 as int].proto, (n - 1) as nat),
    }
}

/// The chain from `cur` ends (it has no cycle and leaves no id dangling).
pub open spec fn chain_ends(objs: Seq<ObjectRecord>, cur: Option<ObjectId>) -> bool {
    exists|n: nat| chain_within(objs, cur, n)
}

/// A number of steps within which the chain from `cur` ends.
pub open spec fn chain_bound(objs: Seq<ObjectRecord>, cur: Option<ObjectId>) -> nat {
    choose|n: nat| chain_within(objs, cur, n)
}

/// The first object on the chain from `cur`, within `n` steps, that has
/// the own property `k`, and the property's place in its table.
pub open spec fn holder(objs: Seq<ObjectRecord>, cur: Option<ObjectId>, k: Seq<char>, n: nat) -> Option<(ObjectId, int)>
    decreases n,
{
    match cur {
        None => None,
        Some(id) => if n == 0 {
            None
        } else {
            match prop_index(objs[id.0 as int].props@, k) {
                Some(i) => Some((id, i)),
                None => holder(objs, objs[id.0 as int].proto, k, (n - 1) as nat),
            }
        },
    }
}

/// The object holding `k` on the chain from `id`.
pub open spec fn chain_holder(objs: Seq<ObjectRecord>, id: ObjectId, k: Seq<char>) -> Option<(ObjectId, int)> {
    holder(objs, Some(id), k, chain_bound(objs, Some(id)))
}

/// The descriptor a holder holds.
pub open spec fn held(objs: Seq<ObjectRecord>, h: (ObjectId, int)) -> PropertyDescriptor {
    objs[h.0.0 as int].props@[h.1].1
}

/// Any fuel within which the chain ends finds the same holder.
proof fn lemma_holder_fuel(objs: Seq<ObjectRecord>, cur: Option<ObjectId>, k: Seq<char>, n: nat, m: nat)
    requires
        chain_within(objs, cur, n),
        chain_within(objs, cur, m),
    ensures
        holder(objs, cur, k, n) == holder(objs, cur, k, m),
    decreases n,
{
    match cur {
        None => {},
        Some(id) => {
            lemma_holder_fuel(objs, objs[id.0 as int].proto, k, (n - 1) as nat, (m - 1) as nat);
        },
    }
}

/// A holder is on the heap and holds `k`.
proof fn lemma_holder_valid(objs: Seq<ObjectRecord>, cur: Option<ObjectId>, k: Seq<char>, n: nat)
    requires
        chain_within(objs, cur, n),
    ensures
        holder(objs, cur, k, n) matches Some(h) ==> h.0.0 < objs.len()
            && 0 <= h.1 < objs[h.0.0 as int].props@.len()
            && objs[h.0.0 as int].props@[h.1].0@ == k,
    decreases n,
{
    match cur {
        None => {},
        Some(id) => {
            crate::property::lemma_prop_index(objs[id.0 as int].props@, k);
            lemma_holder_valid(objs, objs[id.0 as int].proto, k, (n - 1) as nat);
        },
    }
}

/// Walks the chain from `id` to the first object with the own property
/// `key`: that object and the property's place, `None` when no object on
/// the chain has it.
fn find_holder(heap: &Heap, id: ObjectId, key: &str) -> (r: Option<(ObjectId, usize)>)
    requires
        chain_ends(heap.objects@, Some(id)),
    ensures
        match r {
            Some((o, i)) => chain_holder(heap.objects@, id, key@) == Some((o, i as int))
                && o.0 < heap.objects@.len() && i < heap.objects@[o.0 as int].props@.len(),
            None => chain_holder(heap.objects@, id, key@) is None,
        },
{
    let ghost objs = heap.objects@;
    let ghost bound = chain_bound(objs, Some(id));
    let ghost mut fuel: nat = bound;
    let mut cur: Option<ObjectId> = Some(id);
    proof {
        lemma_holder_valid(objs, Some(id), key@, bound);
    }
    while cur.is_some()
        invariant
            objs == heap.objects@,
            chain_within(objs, cur, fuel),
            holder(objs, cur, key@, fuel) == chain_holder(objs, id, key@),
        decreases fuel,
    {
        let c = cur.unwrap();
        let o = &heap.objects[c.0 as usize];
        match find_own(&o.props, key) {
            Some(i) => {
                proof {
                    lemma_holder_valid(objs, cur, key@, fuel);
                }
                return Some((c, i));
            },
            None => {},
        }
        cur = o.proto;
        proof {
            fuel = (fuel - 1) as nat;
        }
    }
    None
}

/// The place of the own property `key` in a table.
fn find_own(props: &OwnProps, key: &str) -> (r: Option<usize>)
    ensures
        match r {
            Some(x) => x < props@.len() && prop_index(props@, key@) == Some(x as int),
            None => prop_index(props@, key@) is None,
        },
{
    crate::property::find_prop(props, key)
}

/// HasProperty: some object on the chain from `id` has the own property
/// `key`.
pub fn has_property(heap: &Heap, id: ObjectId, key: &str) -> (r: bool)
    requires
        chain_ends(heap.objects@, Some(id)),
    ensures
        r == chain_holder(heap.objects@, id, key@) is Some,
{
    find_holder(heap, id, key).is_some()
}

/// The getter a read of `key` on `id` meets: that of the first property
/// with the key on the chain (`None` when that property has none, or when
/// there is no such property).
pub fn find_getter(heap: &Heap, id: ObjectId, key: &str) -> (r: Option<Value>)
    requires
        chain_ends(heap.objects@, Some(id)),
    ensures
        r == match chain_holder(heap.objects@, id, key@) {
            Some(h) => held(heap.objects@, h).getter,
            None => None::<Value>,
        },
{
    match find_holder(heap, id, key) {
        Some((o, i)) => match &heap.objects[o.0 as usize].props[i].1.getter {
            Some(g) => Some(copy_value(g)),
            None => None,
        },
        None => None,
    }
}

/// The setter a write of `key` on `id` meets, likewise.
pub fn find_setter(heap: &Heap, id: ObjectId, key: &str) -> (r: Option<Value>)
    requires
        chain_ends(heap.objects@, Some(id)),
    ensures
        r == match chain_holder(heap.objects@, id, key@) {
            Some(h) => held(heap.objects@, h).setter,
            None => None::<Value>,
        },
{
    match find_holder(heap, id, key) {
        Some((o, i)) => match &heap.objects[o.0 as usize].props[i].1.setter {
            Some(s) => Some(copy_value(s)),
            None => None,
        },
        None => None,
    }
}

/// `this` is on the chain of `target`'s prototypes (after `target`).
pub open spec fn on_proto_chain(objs: Seq<ObjectRecord>, cur: Option<ObjectId>, this: ObjectId, n: nat) -> bool
    decreases n,
{
    match cur {
        None => false,
        Some(c) => n > 0 && (c == this || on_proto_chain(objs, objs[c.0 as int].proto, this, (n - 1) as nat)),
    }
}

proof fn lemma_on_chain_fuel(objs: Seq<ObjectRecord>, cur: Option<ObjectId>, this: ObjectId, n: nat, m: nat)
    requires
        chain_within(objs, cur, n),
        chain_within(objs, cur, m),
    ensures
        on_proto_chain(objs, cur, this, n) == on_proto_chain(objs, cur, this, m),
    decreases n,
{
    match cur {
        None => {},
        Some(c) => {
            lemma_on_chain_fuel(objs, objs[c.0 as int].proto, this, (n - 1) as nat, (m - 1) as nat);
        },
    }
}

/// `Object.prototype.isPrototypeOf(target)` with `this`: both objects, and
/// `this` on the chain of `target`'s prototypes.
pub fn is_prototype_of(heap: &Heap, this: &Value, target: &Value) -> (r: bool)
    requires
        target matches Value::Object(t) ==> t.0 < heap.objects@.len()
            && chain_ends(heap.objects@, heap.objects@[t.0 as int].proto),
    ensures
        r == match *target {
            Value::Object(t) => match *this {
                Value::Object(th) => on_proto_chain(heap.objects@, heap.objects@[t.0 as int].proto, th,
                    chain_bound(heap.objects@, heap.objects@[t.0 as int].proto)),
                _ => false,
            },
            _ => false,
        },
{
    let t = match target {
        Value::Object(t) => *t,
        _ => return false,
    };
    let th = match this {
        Value::Object(x) => *x,
        _ => return false,
    };
    let ghost objs = heap.objects@;
    let mut cur = heap.objects[t.0 as usize].proto;
    let ghost start = cur;
    assert(start == objs[t.0 as int].proto);
    let ghost mut fuel: nat = chain_bound(objs, start);
    while cur.is_some()
        invariant
            objs == heap.objects@,
            *this == Value::Object(th),
            *target == Value::Object(t),
            start == objs[t.0 as int].proto,
            chain_within(objs, cur, fuel),
            on_proto_chain(objs, cur, th, fuel) == on_proto_chain(objs, start, th, chain_bound(objs, start)),
        decreases fuel,
    {
        let c = cur.unwrap();
        if c.0 == th.0 {
            assert(c == th);
            return true;
        }
        cur = heap.objects[c.0 as usize].proto;
        proof {
            fuel = (fuel - 1) as nat;
        }
    }
    false
}

/// `Object.getPrototypeOf(v)`: an object's prototype, `null` when it has
/// none or `v` is no object.
pub fn get_prototype_of(heap: &Heap, v: &Value) -> (r: Value)
    requires
        v matches Value::Object(id) ==> id.0 < heap.objects@.len(),
    ensures
        r == match *v {
            Value::Object(id) => match heap.objects@[id.0 as int].proto {
                Some(p) => Value::Object(p),
                None => Value::Null,
            },
            _ => Value::Null,
        },
{
    match v {
        Value::Object(id) => match heap.objects[id.0 as usize].proto {
            Some(p) => Value::Object(p),
            None => Value::Null,
        },
        _ => Value::Null,
    }
}

/// `Reflect.setPrototypeOf(target, proto)`: the target must be an object
/// and the prototype an object or `null`; the prototype is set (no check
/// for a cycle) and the answer is `true`.
pub fn reflect_set_prototype_of(heap: &mut Heap, target: &Value, proto: &Value) -> (r: Result<bool, RuntimeError>)
    requires
        target matches Value::Object(id) ==> id.0 < old(heap).objects@.len(),
    ensures
        match (*target, *proto) {
            (Value::Object(id), Value::Object(p)) => r == Ok::<bool, RuntimeError>(true)
                && final(heap).objects@ == old(heap).objects@.update(id.0 as int, ObjectRecord {
                    props: old(heap).objects@[id.0 as int].props,
                    proto: Some(p),
                    extensible: old(heap).objects@[id.0 as int].extensible,
                    is_array: old(heap).objects@[id.0 as int].is_array,
                }),
            (Value::Object(id), Value::Null) => r == Ok::<bool, RuntimeError>(true)
                && final(heap).objects@ == old(heap).objects@.update(id.0 as int, ObjectRecord {
                    props: old(heap).objects@[id.0 as int].props,
                    proto: None,
                    extensible: old(heap).objects@[id.0 as int].extensible,
                    is_array: old(heap).objects@[id.0 as int].is_array,
                }),
            (Value::Object(_), _) => (r matches Err(RuntimeError::TypeError(m))
                && m@ == "Reflect.setPrototypeOf: prototype must be Object or null"@)
                && final(heap).objects@ == old(heap).objects@,
            _ => (r matches Err(RuntimeError::TypeError(m)) && m@ == "Reflect.setPrototypeOf: target must be Object"@)
                && final(heap).objects@ == old(heap).objects@,
        },
{
    let id = match target {
        Value::Object(id) => *id,
        _ => return Err(RuntimeError::TypeError(String::from_str("Reflect.setPrototypeOf: target must be Object"))),
    };
    let new_proto = match proto {
        Value::Object(p) => Some(*p),
        Value::Null => None,
        _ => return Err(RuntimeError::TypeError(String::from_str("Reflect.setPrototypeOf: prototype must be Object or null"))),
    };
    let i = id.0 as usize;
    let mut o = heap.objects.remove(i);
    o.proto = new_proto;
    heap.objects.insert(i, o);
    proof {
        assert(heap.objects@ =~= old(heap).objects@.update(id.0 as int, heap.objects@[id.0 as int]));
    }
    Ok(true)
}

/// The object with its prototype replaced.
pub open spec fn with_proto(objs: Seq<ObjectRecord>, id: ObjectId, p: Option<ObjectId>) -> Seq<ObjectRecord> {
    objs.update(id.0 as int, ObjectRecord {
        props: objs[id.0 as int].props,
        proto: p,
        extensible: objs[id.0 as int].extensible,
        is_array: objs[id.0 as int].is_array,
    })
}

/// `Object.setPrototypeOf(v, proto)`: a value that is no object is handed
/// back unchanged; otherwise the prototype must be an object or `null`,
/// is set (no check for a cycle), and the object is handed back.
pub fn object_set_prototype_of(heap: &mut Heap, v: Value, proto: &Value) -> (r: Result<Value, RuntimeError>)
    requires
        v matches Value::Object(id) ==> id.0 < old(heap).objects@.len(),
    ensures
        match v {
            Value::Object(id) => match *proto {
                Value::Object(p) => r == Ok::<Value, RuntimeError>(v)
                    && final(heap).objects@ == with_proto(old(heap).objects@, id, Some(p)),
                Value::Null => r == Ok::<Value, RuntimeError>(v)
                    && final(heap).objects@ == with_proto(old(heap).objects@, id, None),
                _ => (r matches Err(RuntimeError::TypeError(m))
                    && m@ == "Object.setPrototypeOf: prototype must be Object or null"@)
                    && final(heap).objects@ == old(heap).objects@,
            },
            _ => r == Ok::<Value, RuntimeError>(v) && final(heap).objects@ == old(heap).objects@,
        },
{
    let id = match v {
        Value::Object(id) => id,
        _ => return Ok(v),
    };
    let new_proto = match proto {
        Value::Object(p) => Some(*p),
        Value::Null => None,
        _ => return Err(RuntimeError::TypeError(String::from_str("Object.setPrototypeOf: prototype must be Object or null"))),
    };
    let i = id.0 as usize;
    let mut o = heap.objects.remove(i);
    o.proto = new_proto;
    heap.objects.insert(i, o);
    proof {
        assert(heap.objects@ =~= with_proto(old(heap).objects@, id, new_proto));
    }
    Ok(Value::Object(id))
}

/// `Object.hasOwn(v, key)` with the key already a string: an object with
/// the own property `key`; `false` for anything else.
pub fn object_has_own(heap: &Heap, v: &Value, key: &str) -> (r: bool)
    requires
        v matches Value::Object(id) ==> id.0 < heap.objects@.len(),
    ensures
        r == match *v {
            Value::Object(id) => prop_index(heap.objects@[id.0 as int].props@, key@) is Some,
            _ => false,
        },
{
    match v {
        Value::Object(id) => find_own(&heap.objects[id.0 as usize].props, key).is_some(),
        _ => false,
    }
}

/// HasProperty agrees with the own properties of each object on the chain:
/// `key` is found from `id` exactly when `id` has it or it is found from
/// `id`'s prototype.
pub proof fn law_has_property_walks_the_chain(objs: Seq<ObjectRecord>, id: ObjectId, k: Seq<char>)
    requires
        chain_ends(objs, Some(id)),
    ensures
        chain_ends(objs, objs[id.0 as int].proto),
        (chain_holder(objs, id, k) is Some) == (prop_index(objs[id.0 as int].props@, k) is Some
            || holder(objs, objs[id.0 as int].proto, k, chain_bound(objs, objs[id.0 as int].proto)) is Some),
{
    let n = chain_bound(objs, Some(id));
    assert(chain_within(objs, objs[id.0 as int].proto, (n - 1) as nat));
    let m = chain_bound(objs, objs[id.0 as int].proto);
    lemma_holder_fuel(objs, objs[id.0 as int].proto, k, (n - 1) as nat, m);
}

// ------------------------------------------------------------ get and set

/// The largest integer among the own keys that read as an `i64`
/// (`i64::from_str`), and -1 when none does.
pub open spec fn max_int_key(props: Seq<(String, PropertyDescriptor)>) -> int
    decreases props.len(),
{
    if props.len() == 0 {
        -1
    } else {
        let m = max_int_key(props.drop_last());
        match i64_value(props.last().0@) {
            Some(v) => if v > m { v } else { m },
            None => m,
        }
    }
}

/// The value a read of `k` on the chain from `id` finds: the `value` of
/// the first property with the key (an accessor's too), `undefined` when
/// there is none.
pub open spec fn chain_value(objs: Seq<ObjectRecord>, id: ObjectId, k: Seq<char>) -> Value {
    match chain_holder(objs, id, k) {
        Some(h) => held(objs, h).value,
        None => Value::Undefined,
    }
}

/// The read of `length` on an array without an own `length` property,
/// which the array's largest integer key gives.
pub open spec fn derives_length(objs: Seq<ObjectRecord>, id: ObjectId, k: Seq<char>) -> bool {
    k == "length"@ && objs[id.0 as int].is_array && prop_index(objs[id.0 as int].props@, k) is None
}

/// The largest integer key, as the loop over the own keys finds it.
fn max_int_key_exec(props: &OwnProps) -> (r: i64)
    ensures
        r == max_int_key(props@),
{
    let mut m: i64 = -1;
    let mut i: usize = 0;
    while i < props.len()
        invariant
            i <= props@.len(),
            m == max_int_key(props@.take(i as int)),
        decreases props@.len() - i,
    {
        proof {
            assert(props@.take(i + 1).drop_last() =~= props@.take(i as int));
            assert(props@.take(i + 1).last() == props@[i as int]);
        }
        match parse_i64(props[i].0.as_str()) {
            Some(v) => {
                if v > m {
                    m = v;
                }
            },
            None => {},
        }
        i = i + 1;
    }
    assert(props@.take(props@.len() as int) =~= props@);
    m
}

/// The internal property read (`object_get`): on an array, `length` is its
/// own `length` property, or when it has none one more than its largest
/// integer key, as a Number; any other read walks the prototype chain for
/// the first property with the key and gives its value, `undefined` when
/// none has it. (The array's largest key must not be `i64::MAX`, where one
/// more overflows.)
pub fn object_get(heap: &Heap, id: ObjectId, key: &str) -> (r: Value)
    requires
        chain_ends(heap.objects@, Some(id)),
        derives_length(heap.objects@, id, key@) ==> max_int_key(heap.objects@[id.0 as int].props@) < i64::MAX,
    ensures
        if derives_length(heap.objects@, id, key@) {
            r matches Value::Number(b) && is_integral(b) && !sign_bit(b)
                && trunc(b) == nearest_double((max_int_key(heap.objects@[id.0 as int].props@) + 1) as nat)
        } else {
            r == chain_value(heap.objects@, id, key@)
        },
{
    proof {
        assert(chain_within(heap.objects@, Some(id), chain_bound(heap.objects@, Some(id))));
    }
    let o = &heap.objects[id.0 as usize];
    if o.is_array && str_equal(key, "length") && find_own(&o.props, key).is_none() {
        proof {
            reveal_strlit("length");
        }
        let m = max_int_key_exec(&o.props);
        proof {
            assert(max_int_key(o.props@) >= -1) by {
                lemma_max_int_key_at_least(o.props@);
            }
        }
        return Value::Number(number_from_u64_rounded((m + 1) as u64));
    }
    match find_holder(heap, id, key) {
        Some((h, i)) => copy_value(&heap.objects[h.0 as usize].props[i].1.value),
        None => Value::Undefined,
    }
}

proof fn lemma_max_int_key_at_least(props: Seq<(String, PropertyDescriptor)>)
    ensures
        max_int_key(props) >= -1,
    decreases props.len(),
{
    if props.len() > 0 {
        lemma_max_int_key_at_least(props.drop_last());
    }
}

/// A data property that cannot be written.
pub open spec fn read_only(d: PropertyDescriptor) -> bool {
    !d.writable && d.getter is None && d.setter is None
}

/// The descriptor a set gives a property that did not exist: a writable,
/// enumerable, configurable data property.
pub open spec fn fresh_data(v: Value) -> PropertyDescriptor {
    PropertyDescriptor { value: v, writable: true, enumerable: true, configurable: true, getter: None, setter: None }
}

/// The own properties after setting `k` to `v`: a read-only data property
/// is left as it is; an existing property (an accessor too) takes the
/// value; a new key is added at the end as a fresh data property.
pub open spec fn set_props(props: Seq<(String, PropertyDescriptor)>, k: String, v: Value) -> Seq<(String, PropertyDescriptor)> {
    match prop_index(props, k@) {
        Some(i) => if read_only(props[i].1) {
            props
        } else {
            props.update(i, (props[i].0, PropertyDescriptor { value: v, ..props[i].1 }))
        },
        None => props.push((k, fresh_data(v))),
    }
}

/// `after` is `before` with the own properties of `id` replaced by `props`.
pub open spec fn props_replaced(before: Seq<ObjectRecord>, after: Seq<ObjectRecord>, id: ObjectId, props: Seq<(String, PropertyDescriptor)>) -> bool {
    &&& after.len() == before.len()
    &&& forall|j: int| 0 <= j < before.len() && j != id.0 ==> #[trigger] after[j] == before[j]
    &&& after[id.0 as int].props@ == props
    &&& after[id.0 as int].proto == before[id.0 as int].proto
    &&& after[id.0 as int].extensible == before[id.0 as int].extensible
    &&& after[id.0 as int].is_array == before[id.0 as int].is_array
}

/// The internal own-property set (`object_set`): as `set_props` says. (It
/// neither consults the prototype chain nor the object's extensibility.)
pub fn object_set(heap: &mut Heap, id: ObjectId, key: String, value: Value)
    requires
        id.0 < old(heap).objects@.len(),
    ensures
        props_replaced(old(heap).objects@, final(heap).objects@, id, set_props(old(heap).objects@[id.0 as int].props@, key, value)),
{
    let i = id.0 as usize;
    let mut o = heap.objects.remove(i);
    let ghost old_props = o.props@;
    match find_own(&o.props, key.as_str()) {
        Some(j) => {
            let ro = !o.props[j].1.writable && o.props[j].1.getter.is_none() && o.props[j].1.setter.is_none();
            if !ro {
                let (k, d) = o.props.remove(j);
                let nd = PropertyDescriptor { value: value, ..d };
                o.props.insert(j, (k, nd));
                proof {
                    assert(o.props@ =~= old_props.update(j as int, (old_props[j as int].0, PropertyDescriptor { value: value, ..old_props[j as int].1 })));
                }
            }
        },
        None => {
            o.props.push((key, PropertyDescriptor {
                value: value,
                writable: true,
                enumerable: true,
                configurable: true,
                getter: None,
                setter: None,
            }));
        },
    }
    heap.objects.insert(i, o);
    proof {
        assert forall|j: int| 0 <= j < old(heap).objects@.len() && j != id.0 implies #[trigger] heap.objects@[j] == old(heap).objects@[j] by {
        }
    }
}

/// Heaps whose objects have the same prototypes have the same chains.
proof fn lemma_same_protos(a: Seq<ObjectRecord>, b: Seq<ObjectRecord>, cur: Option<ObjectId>, n: nat)
    requires
        a.len() == b.len(),
        forall|j: int| 0 <= j < a.len() ==> (#[trigger] a[j]).proto == b[j].proto,
    ensures
        chain_within(a, cur, n) == chain_within(b, cur, n),
    decreases n,
{
    match cur {
        None => {},
        Some(c) => {
            if n > 0 && c.0 < a.len() {
                lemma_same_protos(a, b, a[c.0 as int].proto, (n - 1) as nat);
            }
        },
    }
}

/// Where the key stands after a set: where it stood, or at the end.
proof fn lemma_set_props_index(props: Seq<(String, PropertyDescriptor)>, k: String, v: Value)
    ensures
        prop_index(set_props(props, k, v), k@) == match prop_index(props, k@) {
            Some(i) => Some(i),
            None => Some(props.len() as int),
        },
{
    lemma_prop_index(props, k@);
    match prop_index(props, k@) {
        Some(i) => {
            let np = set_props(props, k, v);
            lemma_prop_index(np, k@);
            assert(np[i].0@ == k@);
            match prop_index(np, k@) {
                Some(i2) => {
                    if i2 < i {
                        assert(np[i2] == props[i2]);
                    }
                    if i < i2 {
                        assert(np[i].0@ == k@);
                    }
                },
                None => {
                    assert(np[i].0@ == k@);
                },
            }
        },
        None => {
            assert(props.push((k, fresh_data(v))).drop_last() =~= props);
        },
    }
}

/// A read after a set gives the value set: the object now holds the key
/// itself, so the read stops there (a read-only data property keeps the
/// value it had); the prototype chain is as it was.
pub proof fn law_get_after_set(objs: Seq<ObjectRecord>, after: Seq<ObjectRecord>, id: ObjectId, k: String, v: Value)
    requires
        chain_ends(objs, Some(id)),
        props_replaced(objs, after, id, set_props(objs[id.0 as int].props@, k, v)),
    ensures
        chain_ends(after, Some(id)),
        !derives_length(after, id, k@),
        chain_value(after, id, k@) == match prop_index(objs[id.0 as int].props@, k@) {
            Some(i) => if read_only(objs[id.0 as int].props@[i].1) { objs[id.0 as int].props@[i].1.value } else { v },
            None => v,
        },
{
    assert forall|j: int| 0 <= j < objs.len() implies (#[trigger] objs[j]).proto == after[j].proto by {
        if j != id.0 {
            assert(after[j] == objs[j]);
        }
    }
    let n = chain_bound(objs, Some(id));
    assert(chain_within(objs, Some(id), n));
    lemma_same_protos(objs, after, Some(id), n);
    assert(chain_within(after, Some(id), n));
    let m = chain_bound(after, Some(id));
    assert(chain_within(after, Some(id), m));
    assert(m > 0);
    let props = objs[id.0 as int].props@;
    let np = set_props(props, k, v);
    lemma_set_props_index(props, k, v);
    assert(after[id.0 as int].props@ == np);
    lemma_prop_index(props, k@);
    match prop_index(props, k@) {
        Some(i) => {
            assert(prop_index(np, k@) == Some(i));
            assert(holder(after, Some(id), k@, m) == Some((id, i)));
            if !read_only(props[i].1) {
                assert(np[i].1.value == v);
            }
        },
        None => {
            assert(prop_index(np, k@) == Some(props.len() as int));
            assert(holder(after, Some(id), k@, m) == Some((id, props.len() as int)));
            assert(np[props.len() as int].1 == fresh_data(v));
        },
    }
}

/// A set leaves where every other key stands, and what it holds.
proof fn lemma_set_props_other(props: Seq<(String, PropertyDescriptor)>, k: String, v: Value, k2: Seq<char>)
    requires
        k2 != k@,
    ensures
        prop_index(set_props(props, k, v), k2) == prop_index(props, k2),
        prop_index(props, k2) matches Some(j) ==> set_props(props, k, v)[j] == props[j],
{
    let np = set_props(props, k, v);
    lemma_prop_index(props, k@);
    lemma_prop_index(props, k2);
    lemma_prop_index(np, k2);
    assert(forall|j: int| 0 <= j < props.len() ==> (#[trigger] np[j]).0@ == props[j].0@);
    assert(forall|j: int| 0 <= j < props.len() && np[j] != props[j] ==> (#[trigger] props[j]).0@ == k@);
    match prop_index(props, k2) {
        Some(j) => {
            match prop_index(np, k2) {
                Some(j2) => {
                    if j2 < j {
                        assert(np[j2].0@ == props[j2].0@);
                    }
                    if j < j2 {
                        assert(np[j].0@ == props[j].0@);
                    }
                },
                None => {
                    assert(np[j].0@ == props[j].0@);
                },
            }
        },
        None => {
            match prop_index(np, k2) {
                Some(j2) => {
                    if j2 < props.len() {
                        assert(np[j2].0@ == props[j2].0@);
                    } else {
                        assert(np[j2].0@ == k@);
                    }
                },
                None => {},
            }
        },
    }
}

proof fn lemma_holder_other(objs: Seq<ObjectRecord>, after: Seq<ObjectRecord>, id: ObjectId, k: String, v: Value,
    k2: Seq<char>, cur: Option<ObjectId>, n: nat)
    requires
        k2 != k@,
        props_replaced(objs, after, id, set_props(objs[id.0 as int].props@, k, v)),
        chain_within(objs, cur, n),
    ensures
        holder(after, cur, k2, n) == holder(objs, cur, k2, n),
        holder(objs, cur, k2, n) matches Some(h) ==> held(after, h) == held(objs, h),
    decreases n,
{
    match cur {
        None => {},
        Some(c) => {
            if c == id {
                lemma_set_props_other(objs[id.0 as int].props@, k, v, k2);
            } else {
                assert(after[c.0 as int] == objs[c.0 as int]);
            }
            assert(after[c.0 as int].proto == objs[c.0 as int].proto);
            lemma_holder_other(objs, after, id, k, v, k2, objs[c.0 as int].proto, (n - 1) as nat);
        },
    }
}

/// A set of one key changes no read of another key, from any object.
pub proof fn law_set_leaves_other_keys(objs: Seq<ObjectRecord>, after: Seq<ObjectRecord>, id: ObjectId, k: String, v: Value,
    x: ObjectId, k2: Seq<char>)
    requires
        chain_ends(objs, Some(x)),
        props_replaced(objs, after, id, set_props(objs[id.0 as int].props@, k, v)),
        k2 != k@,
    ensures
        chain_ends(after, Some(x)),
        chain_value(after, x, k2) == chain_value(objs, x, k2),
{
    assert forall|j: int| 0 <= j < objs.len() implies (#[trigger] objs[j]).proto == after[j].proto by {
        if j != id.0 {
            assert(after[j] == objs[j]);
        }
    }
    let n = chain_bound(objs, Some(x));
    assert(chain_within(objs, Some(x), n));
    lemma_same_protos(objs, after, Some(x), n);
    let m = chain_bound(after, Some(x));
    assert(chain_within(after, Some(x), m));
    lemma_same_protos(objs, after, Some(x), m);
    lemma_holder_fuel(objs, Some(x), k2, n, m);
    lemma_holder_other(objs, after, id, k, v, k2, Some(x), m);
}

// ------------------------------------------------------------ proxy ownKeys

/// The own keys of an object, in order, with whether each is configurable.
pub open spec fn keys_with_configurable(props: Seq<(String, PropertyDescriptor)>) -> Seq<(String, bool)> {
    props.map_values(|p: (String, PropertyDescriptor)| (p.0, p.1.configurable))
}

/// The list a read of `len` elements of object `a` gives: element `i` is
/// what reading the key `i` (its decimal text) finds.
pub open spec fn listed_elements(objs: Seq<ObjectRecord>, a: ObjectId, len: nat) -> Seq<Value> {
    Seq::new(len, |i: int| chain_value(objs, a, decimal(i as nat)))
}

/// An index key is never `length`.
proof fn lemma_index_key_is_not_length(i: nat)
    ensures
        decimal(i) != "length"@,
{
    crate::bigint_arith::lemma_decimal_value(i);
    reveal_strlit("length");
    assert(is_ascii_digit(decimal(i)[0]));
    assert(!is_ascii_digit("length"@[0]));
}

/// `[[OwnPropertyKeys]]` of a proxy, from the result of its `ownKeys` trap
/// and a length already taken: a result that is not an object is a
/// TypeError; otherwise its elements `0` to `len - 1` are read (as
/// `object_get` reads them) and checked against the target's own keys and
/// extensibility (`own_keys_outcome`).
pub fn proxy_own_keys_with_length(heap: &Heap, trap: &Value, target: ObjectId, len: usize) -> (r: Result<Vec<Value>, RuntimeError>)
    requires
        target.0 < heap.objects@.len(),
        *trap matches Value::Object(a) ==> chain_ends(heap.objects@, Some(a)),
    ensures
        match *trap {
            Value::Object(a) => own_keys_outcome(listed_elements(heap.objects@, a, len as nat),
                keys_with_configurable(heap.objects@[target.0 as int].props@), heap.objects@[target.0 as int].extensible, r),
            _ => r matches Err(RuntimeError::TypeError(m)) && m@ == "Proxy 'ownKeys' trap returned non-Object"@,
        },
{
    let a = match trap {
        Value::Object(a) => *a,
        _ => return Err(RuntimeError::TypeError(String::from_str("Proxy 'ownKeys' trap returned non-Object"))),
    };
    let ghost objs = heap.objects@;
    let mut list: Vec<Value> = Vec::new();
    let mut i: usize = 0;
    while i < len
        invariant
            i <= len,
            objs == heap.objects@,
            chain_ends(objs, Some(a)),
            list@ =~= listed_elements(objs, a, i as nat),
        decreases len - i,
    {
        let mut k = String::new();
        append_decimal(&mut k, i as u128);
        proof {
            lemma_index_key_is_not_length(i as nat);
            assert(k@ =~= decimal(i as nat));
        }
        let v = object_get(heap, a, k.as_str());
        list.push(v);
        i = i + 1;
    }
    let o = &heap.objects[target.0 as usize];
    let mut tk: Vec<(String, bool)> = Vec::new();
    let mut j: usize = 0;
    while j < o.props.len()
        invariant
            j <= o.props@.len(),
            tk@ =~= keys_with_configurable(o.props@).take(j as int),
        decreases o.props@.len() - j,
    {
        tk.push((o.props[j].0.clone(), o.props[j].1.configurable));
        j = j + 1;
    }
    proof {
        assert(keys_with_configurable(o.props@).take(o.props@.len() as int) =~= keys_with_configurable(o.props@));
    }
    apply_proxy_own_keys_invariants(list, &tk, o.extensible)
}

/// The length a read of `length` on `a` takes, converted as `as usize`
/// converts the Number: on an array without an own `length`, one more than
/// its largest integer key (rounded to the nearest double, saturated);
/// otherwise the value found, when its ToNumber needs no parsing.
pub open spec fn read_length(objs: Seq<ObjectRecord>, a: ObjectId, len: usize) -> bool {
    if derives_length(objs, a, "length"@) {
        let n = nearest_double((max_int_key(objs[a.0 as int].props@) + 1) as nat);
        len == if n > usize::MAX { usize::MAX as int } else { n as int }
    } else {
        exact_to_number(chain_value(objs, a, "length"@)) matches Some(b) && len == to_usize_saturating(b)
    }
}

/// `[[OwnPropertyKeys]]` of a proxy from the result of its `ownKeys` trap:
/// a result that is not an object is a TypeError; otherwise its `length`
/// is read and converted, then the elements are read and checked as
/// `proxy_own_keys_with_length` says. `None` when the `length` is a String
/// or a BigInt, whose ToNumber reads text as a float: the caller converts
/// it and calls `proxy_own_keys_with_length`.
pub fn proxy_own_keys(heap: &Heap, trap: &Value, target: ObjectId) -> (r: Option<Result<Vec<Value>, RuntimeError>>)
    requires
        target.0 < heap.objects@.len(),
        *trap matches Value::Object(a) ==> chain_ends(heap.objects@, Some(a))
            && (derives_length(heap.objects@, a, "length"@) ==> max_int_key(heap.objects@[a.0 as int].props@) < i64::MAX),
    ensures
        match *trap {
            Value::Object(a) => match r {
                Some(res) => exists|len: usize| #[trigger] read_length(heap.objects@, a, len)
                    && own_keys_outcome(listed_elements(heap.objects@, a, len as nat),
                        keys_with_configurable(heap.objects@[target.0 as int].props@), heap.objects@[target.0 as int].extensible, res),
                None => !derives_length(heap.objects@, a, "length"@)
                    && exact_to_number(chain_value(heap.objects@, a, "length"@)) is None,
            },
            _ => r matches Some(Err(RuntimeError::TypeError(m))) && m@ == "Proxy 'ownKeys' trap returned non-Object"@,
        },
{
    let a = match trap {
        Value::Object(a) => *a,
        _ => return Some(Err(RuntimeError::TypeError(String::from_str("Proxy 'ownKeys' trap returned non-Object")))),
    };
    let lv = object_get(heap, a, "length");
    match to_number_exact(&lv) {
        None => {
            proof {
                if derives_length(heap.objects@, a, "length"@) {
                    assert(lv is Number);
                }
            }
            None
        },
        Some(bits) => {
            let len = number_to_usize(bits);
            assert(read_length(heap.objects@, a, len));
            Some(proxy_own_keys_with_length(heap, trap, target, len))
        },
    }
}

// ------------------------------------------------------------ allocation and delete

/// Allocates an object: the record as given, but that a record without a
/// prototype takes `default_proto` (the intrinsic prototype of its kind);
/// its id is the next place in the heap.
pub fn alloc_object(heap: &mut Heap, record: ObjectRecord, default_proto: Option<ObjectId>) -> (id: ObjectId)
    requires
        old(heap).objects@.len() < u32::MAX,
    ensures
        id.0 == old(heap).objects@.len(),
        final(heap).objects@.len() == old(heap).objects@.len() + 1,
        final(heap).objects@.drop_last() == old(heap).objects@,
        final(heap).objects@.last().props@ == record.props@,
        final(heap).objects@.last().proto == if record.proto is Some { record.proto } else { default_proto },
        final(heap).objects@.last().extensible == record.extensible,
        final(heap).objects@.last().is_array == record.is_array,
{
    let mut record = record;
    if record.proto.is_none() {
        record.proto = default_proto;
    }
    let id = ObjectId(heap.objects.len() as u32);
    heap.objects.push(record);
    id
}

/// `NewObject` and `NewArray`: a new empty, extensible object (an array
/// for `NewArray`) whose prototype is the intrinsic one given, pushed as a
/// value on the operand stack by the caller.
pub fn new_empty_object(heap: &mut Heap, is_array: bool, intrinsic_proto: Option<ObjectId>) -> (v: Value)
    requires
        old(heap).objects@.len() < u32::MAX,
    ensures
        v == Value::Object(ObjectId(old(heap).objects@.len() as u32)),
        final(heap).objects@.len() == old(heap).objects@.len() + 1,
        final(heap).objects@.drop_last() == old(heap).objects@,
        final(heap).objects@.last().props@.len() == 0,
        final(heap).objects@.last().proto == intrinsic_proto,
        final(heap).objects@.last().extensible,
        final(heap).objects@.last().is_array == is_array,
{
    let id = alloc_object(heap, ObjectRecord { props: Vec::new(), proto: None, extensible: true, is_array }, intrinsic_proto);
    Value::Object(id)
}

/// `delete obj[key]` on an ordinary object: anything but an object answers
/// `false`; on an object, a non-configurable own property is kept and the
/// answer is `false`; otherwise the own property (if any) is removed, the
/// others keeping their order, and the answer is `true`. No other object,
/// and nothing else of this one, changes.
pub fn delete_property(heap: &mut Heap, obj: &Value, key: &str) -> (r: bool)
    requires
        *obj matches Value::Object(id) ==> id.0 < old(heap).objects@.len(),
    ensures
        match *obj {
            Value::Object(id) => match prop_index(old(heap).objects@[id.0 as int].props@, key@) {
                Some(i) => if old(heap).objects@[id.0 as int].props@[i].1.configurable {
                    r && props_replaced(old(heap).objects@, final(heap).objects@, id, without(old(heap).objects@[id.0 as int].props@, i))
                } else {
                    !r && props_replaced(old(heap).objects@, final(heap).objects@, id, old(heap).objects@[id.0 as int].props@)
                },
                None => r && props_replaced(old(heap).objects@, final(heap).objects@, id, old(heap).objects@[id.0 as int].props@),
            },
            _ => !r && final(heap).objects@ == old(heap).objects@,
        },
{
    let id = match obj {
        Value::Object(id) => *id,
        _ => return false,
    };
    let i = id.0 as usize;
    let ghost before = heap.objects@;
    let ghost old_props = before[i as int].props@;
    let mut o = heap.objects.remove(i);
    let r = delete_own(&mut o.props, key);
    heap.objects.insert(i, o);
    proof {
        assert forall|j: int| 0 <= j < before.len() && j != i implies #[trigger] heap.objects@[j] == before[j] by {}
    }
    r
}

} // verus!
