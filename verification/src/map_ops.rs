//! `Map.prototype.set`, `get`, `has` and `delete`, and `Set.prototype.add`,
//! on a collection's storage: its entries in insertion order, each under
//! the text its key is stored by (the key's identity for an object, its
//! `@@` key for a symbol, `ToString` otherwise), no text twice.
use vstd::prelude::*;
use crate::set_ops::{Entry, copy_entry, distinct_keys, find_key, has_key, key_position};
use crate::value::{Value, copy_value};
use crate::conversions::{to_string, to_string_text};
use crate::text::{chars_of, decimal, append_decimal};

verus! {

/// The text starts with `@@`.
pub open spec fn has_at_prefix(t: Seq<char>) -> bool {
    t.len() >= 2 && t[0] == '@' && t[1] == '@'
}

/// The text a key is stored under: `__objkey@` and the heap id for an
/// object; a symbol's canonical key when it begins with `@@`, else that key
/// after `@@sym:`; ToString of anything else (`None` where that is the text
/// of a Number written as a float).
pub open spec fn storage_key_text(key: Value) -> Option<Seq<char>> {
    match key {
        Value::Object(id) => Some("__objkey@"@ + decimal(id.0 as nat)),
        Value::Symbol(s) => if has_at_prefix(s@) { Some(s@) } else { Some("@@sym:"@ + s@) },
        _ => to_string_text(key),
    }
}

/// The text a key of a `Map` or `Set` is stored under, as
/// `storage_key_text` says.
pub fn map_storage_key(key: &Value) -> (r: Option<String>)
    ensures
        match r {
            Some(t) => storage_key_text(*key) == Some(t@),
            None => storage_key_text(*key) is None,
        },
{
    match key {
        Value::Object(id) => {
            let mut out = String::from_str("__objkey@");
            append_decimal(&mut out, id.0 as u128);
            Some(out)
        },
        Value::Symbol(s) => {
            let cs = chars_of(s.as_str());
            if cs.len() >= 2 && cs[0] == '@' && cs[1] == '@' {
                Some(s.clone())
            } else {
                let mut out = String::from_str("@@sym:");
                out.append(s.as_str());
                Some(out)
            }
        },
        _ => to_string(key),
    }
}

/// The value stored under `k`, `undefined` when there is none.
pub open spec fn stored_value(entries: Seq<Entry>, k: Seq<char>) -> Value {
    if has_key(entries, k) { entries[key_position(entries, k)].1 } else { Value::Undefined }
}

/// The entries after storing `value` under `key`: an existing entry keeps
/// its place and takes the value, a new one goes last.
pub open spec fn stored(entries: Seq<Entry>, key: String, value: Value) -> Seq<Entry> {
    if has_key(entries, key@) {
        let p = key_position(entries, key@);
        entries.update(p, (entries[p].0, value))
    } else {
        entries.push((key, value))
    }
}

/// The entries without the one under `k`, the others in their order.
pub open spec fn removed(entries: Seq<Entry>, k: Seq<char>) -> Seq<Entry> {
    if has_key(entries, k) {
        let p = key_position(entries, k);
        entries.subrange(0, p) + entries.subrange(p + 1, entries.len() as int)
    } else {
        entries
    }
}

/// `Map.prototype.set(key, value)` (and `Set.prototype.add`, which stores
/// the value under its own text): stores the value; `true` when the key was
/// new, and the size grows by one.
pub fn map_set(entries: &mut Vec<Entry>, key: String, value: Value) -> (added: bool)
    ensures
        final(entries)@ == stored(old(entries)@, key, value),
        added == !has_key(old(entries)@, key@),
{
    match find_key(entries, &key) {
        Some(p) => {
            let k = entries[p].0.clone();
            entries.set(p, (k, value));
            false
        },
        None => {
            entries.push((key, value));
            true
        },
    }
}

/// `Map.prototype.get(key)`: the value stored under the key's text,
/// `undefined` when there is none.
pub fn map_get(entries: &Vec<Entry>, key: &String) -> (r: Value)
    ensures
        r == stored_value(entries@, key@),
{
    match find_key(entries, key) {
        Some(p) => copy_value(&entries[p].1),
        None => Value::Undefined,
    }
}

/// `Map.prototype.has(key)` (and `Set.prototype.has`): an entry is stored
/// under the key's text.
pub fn map_has(entries: &Vec<Entry>, key: &String) -> (r: bool)
    ensures
        r == has_key(entries@, key@),
{
    find_key(entries, key).is_some()
}

/// `Map.prototype.delete(key)` (and `Set.prototype.delete`): removes the
/// entry stored under the key's text, the others keeping their order;
/// `true` when there was one, and the size shrinks by one.
pub fn map_delete(entries: &mut Vec<Entry>, key: &String) -> (deleted: bool)
    ensures
        final(entries)@ == removed(old(entries)@, key@),
        deleted == has_key(old(entries)@, key@),
{
    match find_key(entries, key) {
        Some(p) => {
            let ghost before = entries@;
            let mut rest: Vec<Entry> = Vec::new();
            let mut i: usize = 0;
            while i < entries.len()
                invariant
                    entries@ == before,
                    p < before.len(),
                    0 <= i <= before.len(),
                    rest@ =~= if i <= p { before.subrange(0, i as int) } else {
                        before.subrange(0, p as int) + before.subrange(p + 1, i as int)
                    },
                decreases before.len() - i,
            {
                if i != p {
                    rest.push(copy_entry(&entries[i]));
                }
                i = i + 1;
            }
            *entries = rest;
            true
        },
        None => false,
    }
}

// ------------------------------------------------------------------ laws

/// What `get` reads back after `set`: the value just stored; and the key
/// is then present.
pub proof fn law_get_after_set(entries: Seq<Entry>, key: String, value: Value)
    ensures
        stored_value(stored(entries, key, value), key@) == value,
        has_key(stored(entries, key, value), key@),
{
    let s = stored(entries, key, value);
    if has_key(entries, key@) {
        let p = key_position(entries, key@);
        lemma_key_position(entries, key@);
        assert(s[p].0@ == key@);
        lemma_key_position_update(entries, key@, p, (entries[p].0, value));
    } else {
        assert(s[entries.len() as int].0@ == key@);
        lemma_key_position_push(entries, (key, value));
    }
}

/// Storing under a present key keeps the size and the order of the keys;
/// storing under a new one adds one entry at the end.
pub proof fn law_set_keeps_order(entries: Seq<Entry>, key: String, value: Value)
    ensures
        has_key(entries, key@) ==> stored(entries, key, value).len() == entries.len()
            && forall|i: int| 0 <= i < entries.len() ==> (#[trigger] stored(entries, key, value)[i]).0 == entries[i].0,
        !has_key(entries, key@) ==> stored(entries, key, value) == entries.push((key, value)),
{
    if has_key(entries, key@) {
        lemma_key_position(entries, key@);
    }
}

/// After `delete`, in storage whose texts are distinct, the key is gone.
pub proof fn law_delete_removes(entries: Seq<Entry>, k: Seq<char>)
    requires
        distinct_keys(entries),
    ensures
        !has_key(removed(entries, k), k),
        has_key(entries, k) ==> removed(entries, k).len() + 1 == entries.len(),
{
    if has_key(entries, k) {
        lemma_key_position(entries, k);
        let p = key_position(entries, k);
        let r = removed(entries, k);
        if has_key(r, k) {
            let j = choose|j: int| 0 <= j < r.len() && (#[trigger] r[j]).0@ == k;
            if j < p {
                assert(r[j] == entries[j]);
            } else {
                assert(r[j] == entries[j + 1]);
            }
        }
    }
}

/// The first position of a present text holds it.
proof fn lemma_key_position(entries: Seq<Entry>, k: Seq<char>)
    requires
        has_key(entries, k),
    ensures
        0 <= key_position(entries, k) < entries.len(),
        entries[key_position(entries, k)].0@ == k,
        forall|j: int| 0 <= j < key_position(entries, k) ==> (#[trigger] entries[j]).0@ != k,
    decreases entries.len(),
{
    let init = entries.drop_last();
    if has_key(init, k) {
        lemma_key_position(init, k);
        assert forall|j: int| 0 <= j < key_position(entries, k) implies (#[trigger] entries[j]).0@ != k by {
            assert(init[j] == entries[j]);
        }
    } else {
        let j = choose|j: int| 0 <= j < entries.len() && (#[trigger] entries[j]).0@ == k;
        if j < init.len() {
            assert(init[j] == entries[j]);
        }
        assert forall|i: int| 0 <= i < key_position(entries, k) implies (#[trigger] entries[i]).0@ != k by {
            assert(init[i] == entries[i]);
        }
    }
}

/// Replacing the entry at the first position of a text by one with the
/// same text keeps that position.
proof fn lemma_key_position_update(entries: Seq<Entry>, k: Seq<char>, p: int, e: Entry)
    requires
        has_key(entries, k),
        p == key_position(entries, k),
        e.0@ == k,
    ensures
        has_key(entries.update(p, e), k),
        key_position(entries.update(p, e), k) == p,
    decreases entries.len(),
{
    lemma_key_position(entries, k);
    let u = entries.update(p, e);
    assert(u[p].0@ == k);
    let init = entries.drop_last();
    if p < entries.len() - 1 {
        assert(has_key(init, k)) by {
            assert(init[p] == entries[p]);
        }
        lemma_key_position_update(init, k, p, e);
        assert(u.drop_last() =~= init.update(p, e));
    } else {
        assert(u.drop_last() =~= init);
        assert(!has_key(init, k)) by {
            if has_key(init, k) {
                let j = choose|j: int| 0 <= j < init.len() && (#[trigger] init[j]).0@ == k;
                assert(init[j] == entries[j]);
            }
        }
    }
}

/// A pushed entry with a new text is found at the end.
proof fn lemma_key_position_push(entries: Seq<Entry>, e: Entry)
    requires
        !has_key(entries, e.0@),
    ensures
        key_position(entries.push(e), e.0@) == entries.len(),
{
    assert(entries.push(e).drop_last() =~= entries);
}

} // verus!
