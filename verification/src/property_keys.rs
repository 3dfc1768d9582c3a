//! The own property names of an array, as `Object.getOwnPropertyNames`
//! lists them: the keys that read as integers, in ascending numeric order
//! (keys of equal value in the order they were added), then `length`.
use vstd::prelude::*;
use vstd::relations::{sorted_by, total_ordering};
use vstd::seq_lib::{lemma_sorted_unique, to_multiset_insert, to_multiset_build};
use crate::proxy::text_of;
use crate::text::{chars_of, decimal, signed_decimal};
use crate::bigint_arith::lemma_decimal_value;
use crate::value::{Value, copy_value};

verus! {

pub open spec fn is_ascii_digit(c: char) -> bool {
    '0' <= c <= '9'
}

/// The value of a string of ASCII digits.
pub open spec fn digits_value(s: Seq<char>) -> nat
    decreases s.len(),
{
    if s.len() == 0 {
        0
    } else {
        digits_value(s.drop_last()) * 10 + (s.last() as nat - '0' as nat) as nat
    }
}

/// The text without a leading `+`.
pub open spec fn unsigned_digits(s: Seq<char>) -> Seq<char> {
    if s.len() > 0 && s[0] == '+' { s.skip(1) } else { s }
}

/// What `u64::from_str` makes of a text: an optional `+`, then one or more
/// ASCII digits whose value fits in a `u64`.
pub open spec fn u64_value(s: Seq<char>) -> Option<nat> {
    let d = unsigned_digits(s);
    if d.len() > 0 && (forall|i: int| 0 <= i < d.len() ==> is_ascii_digit(#[trigger] d[i])) && digits_value(d) <= u64::MAX {
        Some(digits_value(d))
    } else {
        None
    }
}

/// Parses a text as `u64::from_str` does.
pub fn parse_u64(s: &str) -> (r: Option<u64>)
    ensures
        match u64_value(s@) {
            Some(v) => r == Some(v as u64),
            None => r is None,
        },
{
    let cs = chars_of(s);
    let start: usize = if cs.len() > 0 && cs[0] == '+' { 1 } else { 0 };
    let ghost d = unsigned_digits(s@);
    assert(d =~= s@.subrange(start as int, s@.len() as int));
    if start == cs.len() {
        return None;
    }
    let mut acc: u64 = 0;
    let mut i: usize = start;
    while i < cs.len()
        invariant
            start <= i <= cs@.len(),
            cs@ == s@,
            d == unsigned_digits(s@),
            d == s@.subrange(start as int, s@.len() as int),
            forall|k: int| start <= k < i ==> is_ascii_digit(#[trigger] s@[k]),
            acc == digits_value(s@.subrange(start as int, i as int)),
        decreases cs@.len() - i,
    {
        let c = cs[i];
        if !('0' <= c && c <= '9') {
            assert(d[i - start] == c);
            assert(!is_ascii_digit(d[i - start]));
            assert(!(forall|k: int| 0 <= k < d.len() ==> is_ascii_digit(#[trigger] d[k])));
            return None;
        }
        let digit: u64 = (c as u32 - '0' as u32) as u64;
        assert(s@.subrange(start as int, i + 1).drop_last() =~= s@.subrange(start as int, i as int));
        if acc > (u64::MAX - digit) / 10 {
            proof {
                // The whole is at least this prefix, which does not fit.
                assert(digits_value(s@.subrange(start as int, i + 1)) > u64::MAX) by (nonlinear_arith)
                    requires
                        digits_value(s@.subrange(start as int, i + 1)) == acc * 10 + digit,
                        acc > (u64::MAX - digit) / 10,
                        digit <= 9,
                ;
                if forall|k: int| 0 <= k < d.len() ==> is_ascii_digit(#[trigger] d[k]) {
                    lemma_digits_value_grows(d, i + 1 - start);
                    assert(d.subrange(0, i + 1 - start) =~= s@.subrange(start as int, i + 1));
                    assert(digits_value(d) > u64::MAX);
                }
                assert(u64_value(s@) is None);
            }
            return None;
        }
        acc = acc * 10 + digit;
        i = i + 1;
    }
    assert(s@.subrange(start as int, i as int) =~= d);
    Some(acc)
}

/// What `i64::from_str` makes of a text: an optional `+` or `-`, then one
/// or more ASCII digits whose signed value fits in an `i64`.
pub open spec fn i64_value(s: Seq<char>) -> Option<int> {
    if s.len() > 0 && s[0] == '-' {
        let d = s.skip(1);
        if d.len() > 0 && (forall|i: int| 0 <= i < d.len() ==> is_ascii_digit(#[trigger] d[i]))
            && digits_value(d) <= 0x8000_0000_0000_0000 {
            Some(-(digits_value(d) as int))
        } else {
            None
        }
    } else {
        match u64_value(s) {
            Some(v) => if v <= i64::MAX { Some(v as int) } else { None },
            None => None,
        }
    }
}

/// Parses a text as `i64::from_str` does.
pub fn parse_i64(s: &str) -> (r: Option<i64>)
    ensures
        match i64_value(s@) {
            Some(v) => r == Some(v as i64),
            None => r is None,
        },
{
    let mut cs = chars_of(s);
    if cs.len() > 0 && cs[0] == '-' {
        cs.remove(0);
        assert(cs@ =~= s@.skip(1));
        if cs.len() == 0 {
            return None;
        }
        let mut i: usize = 0;
        while i < cs.len()
            invariant
                i <= cs@.len(),
                cs@ == s@.skip(1),
                forall|k: int| 0 <= k < i ==> is_ascii_digit(#[trigger] cs@[k]),
            decreases cs@.len() - i,
        {
            let c = cs[i];
            if !('0' <= c && c <= '9') {
                proof {
                    let d = s@.skip(1);
                    assert(d[i as int] == c);
                    assert(!is_ascii_digit(d[i as int]));
                }
                return None;
            }
            i = i + 1;
        }
        match crate::bigint_number::digits_to_u64(&cs) {
            None => None,
            Some(v) => {
                if v > 0x8000_0000_0000_0000 {
                    None
                } else if v == 0x8000_0000_0000_0000 {
                    Some(i64::MIN)
                } else {
                    Some(-(v as i64))
                }
            },
        }
    } else {
        match parse_u64(s) {
            None => None,
            Some(v) => if v <= 0x7fff_ffff_ffff_ffff { Some(v as i64) } else { None },
        }
    }
}

/// The value of a prefix of digits bounds the value of the whole.
proof fn lemma_digits_value_grows(s: Seq<char>, k: int)
    requires
        0 <= k <= s.len(),
        forall|i: int| 0 <= i < s.len() ==> is_ascii_digit(#[trigger] s[i]),
    ensures
        digits_value(s.subrange(0, k)) <= digits_value(s),
    decreases s.len() - k,
{
    if k < s.len() {
        lemma_digits_value_grows(s.drop_last(), k);
        assert(s.drop_last().subrange(0, k) =~= s.subrange(0, k));
        assert(digits_value(s.drop_last()) <= digits_value(s)) by (nonlinear_arith)
            requires
                digits_value(s) == digits_value(s.drop_last()) * 10 + (s.last() as nat - '0' as nat) as nat,
        ;
    } else {
        assert(s.subrange(0, k) =~= s);
    }
}

// ------------------------------------------------------------ the order

/// The (value, position) of each key that is a string reading as an
/// integer, in key order.
pub open spec fn numeric_entries(keys: Seq<Value>) -> Seq<(nat, int)>
    decreases keys.len(),
{
    if keys.len() == 0 {
        Seq::empty()
    } else {
        let prev = numeric_entries(keys.drop_last());
        match keys.last() {
            Value::String(s) => match u64_value(s@) {
                Some(v) => prev.push((v, keys.len() - 1)),
                None => prev,
            },
            _ => prev,
        }
    }
}

/// Ascending by value, then by position.
pub open spec fn entry_leq(a: (nat, int), b: (nat, int)) -> bool {
    a.0 < b.0 || (a.0 == b.0 && a.1 <= b.1)
}

pub open spec fn entry_lt(a: (nat, int), b: (nat, int)) -> bool {
    a.0 < b.0 || (a.0 == b.0 && a.1 < b.1)
}

/// The own property names of an array with these keys (in the order they
/// were added): the integer keys by ascending value, keys of equal value in
/// the order they were added, then `length`.
pub open spec fn array_own_names(keys: Seq<Value>) -> Seq<Seq<char>> {
    numeric_entries(keys).sort_by(|a: (nat, int), b: (nat, int)| entry_leq(a, b))
        .map_values(|e: (nat, int)| text_of(keys[e.1])) + seq!["length"@]
}

proof fn lemma_entry_leq_total()
    ensures
        total_ordering(|a: (nat, int), b: (nat, int)| entry_leq(a, b)),
{
}

fn string_text(v: &Value) -> (r: Option<&String>)
    ensures
        match *v {
            Value::String(s) => r == Some(&s),
            _ => r is None,
        },
{
    match v {
        Value::String(s) => Some(s),
        _ => None,
    }
}

pub open spec fn entry_view(e: (u64, usize)) -> (nat, int) {
    (e.0 as nat, e.1 as int)
}

/// The entries ascend strictly by value, then position.
pub open spec fn strictly_sorted(s: Seq<(nat, int)>) -> bool {
    forall|i: int, j: int| 0 <= i < j < s.len() ==> entry_lt(#[trigger] s[i], #[trigger] s[j])
}

/// The own property names of an array whose own keys, in the order they
/// were added, are `keys` (strings and symbols): the keys that read as
/// integers (`u64::from_str`) in ascending numeric order, equal values in
/// the order they were added, then `length`.
pub fn array_own_property_names(keys: &Vec<Value>) -> (names: Vec<String>)
    ensures
        names@.map_values(|s: String| s@) == array_own_names(keys@),
{
    let ghost leq = |a: (nat, int), b: (nat, int)| entry_leq(a, b);
    let mut sorted: Vec<(u64, usize)> = Vec::new();
    let mut i: usize = 0;
    assert(sorted@.map_values(|e: (u64, usize)| entry_view(e)) =~= numeric_entries(keys@.take(0)));
    while i < keys.len()
        invariant
            0 <= i <= keys@.len(),
            strictly_sorted(sorted@.map_values(|e: (u64, usize)| entry_view(e))),
            sorted@.map_values(|e: (u64, usize)| entry_view(e)).to_multiset()
                == numeric_entries(keys@.take(i as int)).to_multiset(),
            forall|j: int| 0 <= j < sorted@.len() ==> (#[trigger] sorted@[j]).1 < i
                && keys@[sorted@[j].1 as int] is String,
        decreases keys@.len() - i,
    {
        assert(keys@.take(i + 1).drop_last() =~= keys@.take(i as int));
        assert(keys@.take(i + 1).last() == keys@[i as int]);
        match string_text(&keys[i]) {
            Some(t) => match parse_u64(t.as_str()) {
                Some(n) => {
                    // The first entry of a greater value.
                    let mut p: usize = 0;
                    while p < sorted.len() && sorted[p].0 <= n
                        invariant
                            0 <= p <= sorted@.len(),
                            forall|j: int| 0 <= j < p ==> (#[trigger] sorted@[j]).0 <= n,
                        decreases sorted@.len() - p,
                    {
                        p = p + 1;
                    }
                    let ghost old_view = sorted@.map_values(|e: (u64, usize)| entry_view(e));
                    let ghost old_sorted = sorted@;
                    sorted.insert(p, (n, i));
                    proof {
                        let new_view = sorted@.map_values(|e: (u64, usize)| entry_view(e));
                        assert(new_view =~= old_view.insert(p as int, (n as nat, i as int)));
                        to_multiset_insert(old_view, p as int, (n as nat, i as int));
                        to_multiset_build(numeric_entries(keys@.take(i as int)), (n as nat, i as int));
                        assert forall|j: int| p <= j < old_sorted.len() implies (#[trigger] old_sorted[j]).0 > n by {
                            assert(old_sorted[p as int].0 > n);
                            if j > p {
                                assert(entry_lt(old_view[p as int], old_view[j]));
                            }
                        }
                        assert forall|a: int, b: int| 0 <= a < b < new_view.len()
                            implies entry_lt(#[trigger] new_view[a], #[trigger] new_view[b]) by {
                            if b < p {
                                assert(entry_lt(old_view[a], old_view[b]));
                            } else if b == p {
                                assert(old_sorted[a].0 <= n && old_sorted[a].1 < i);
                            } else if a < p {
                                assert(old_sorted[a].0 <= n && old_sorted[b - 1].0 > n);
                            } else if a == p {
                                assert(old_sorted[b - 1].0 > n);
                            } else {
                                assert(entry_lt(old_view[a - 1], old_view[b - 1]));
                            }
                        }
                        assert forall|j: int| 0 <= j < sorted@.len() implies (#[trigger] sorted@[j]).1 < i + 1
                            && keys@[sorted@[j].1 as int] is String by {
                            if j < p {
                                assert(sorted@[j] == old_sorted[j]);
                            } else if j > p {
                                assert(sorted@[j] == old_sorted[j - 1]);
                            }
                        }
                    }
                },
                None => {},
            },
            None => {},
        }
        i = i + 1;
    }
    assert(keys@.take(keys@.len() as int) =~= keys@);
    let ghost view = sorted@.map_values(|e: (u64, usize)| entry_view(e));
    proof {
        lemma_entry_leq_total();
        numeric_entries(keys@).lemma_sort_by_ensures(leq);
        assert forall|a: int, b: int| 0 <= a < b < view.len() implies #[trigger] leq(view[a], view[b]) by {
            assert(entry_lt(view[a], view[b]));
        }
        assert(sorted_by(view, leq));
        lemma_sorted_unique(view, numeric_entries(keys@).sort_by(leq), leq);
    }
    let mut names: Vec<String> = Vec::new();
    let mut k: usize = 0;
    assert(names@.map_values(|s: String| s@) =~= view.take(0).map_values(|e: (nat, int)| text_of(keys@[e.1])));
    while k < sorted.len()
        invariant
            0 <= k <= sorted@.len(),
            view == sorted@.map_values(|e: (u64, usize)| entry_view(e)),
            forall|j: int| 0 <= j < sorted@.len() ==> (#[trigger] sorted@[j]).1 < keys@.len()
                && keys@[sorted@[j].1 as int] is String,
            names@.map_values(|s: String| s@) == view.take(k as int).map_values(|e: (nat, int)| text_of(keys@[e.1])),
        decreases sorted@.len() - k,
    {
        let idx = sorted[k].1;
        assert(sorted@[k as int].1 == idx);
        let t = string_text(&keys[idx]).unwrap();
        assert(t@ == text_of(keys@[idx as int]));
        assert(view[k as int].1 == idx as int);
        let ghost prev = names@;
        names.push(t.clone());
        assert(names@.map_values(|s: String| s@) =~= prev.map_values(|s: String| s@).push(t@));
        assert(view.take(k + 1).map_values(|e: (nat, int)| text_of(keys@[e.1]))
            =~= view.take(k as int).map_values(|e: (nat, int)| text_of(keys@[e.1])).push(text_of(keys@[idx as int])));
        k = k + 1;
    }
    let ghost prev = names@;
    names.push(String::from_str("length"));
    assert(view.take(sorted@.len() as int) =~= view);
    assert(names@.map_values(|s: String| s@) =~= prev.map_values(|s: String| s@).push("length"@));
    names
}

// ------------------------------------------------------------ own keys by kind

/// The texts of the string keys, in the order they were added.
pub open spec fn string_key_texts(keys: Seq<Value>) -> Seq<Seq<char>>
    decreases keys.len(),
{
    if keys.len() == 0 {
        Seq::empty()
    } else {
        let prev = string_key_texts(keys.drop_last());
        match keys.last() {
            Value::String(s) => prev.push(s@),
            _ => prev,
        }
    }
}

/// `Object.getOwnPropertyNames` on an object with these own keys (in the
/// order they were added): an array's as `array_own_property_names` gives
/// them; any other object's string keys in the order they were added.
pub fn own_property_names(keys: &Vec<Value>, is_array: bool) -> (names: Vec<String>)
    ensures
        is_array ==> names@.map_values(|t: String| t@) == array_own_names(keys@),
        !is_array ==> names@.map_values(|t: String| t@) == string_key_texts(keys@),
{
    if is_array {
        return array_own_property_names(keys);
    }
    let mut names: Vec<String> = Vec::new();
    let mut i: usize = 0;
    while i < keys.len()
        invariant
            i <= keys@.len(),
            names@.map_values(|t: String| t@) == string_key_texts(keys@.take(i as int)),
        decreases keys@.len() - i,
    {
        proof {
            assert(keys@.take(i + 1).drop_last() =~= keys@.take(i as int));
            assert(keys@.take(i + 1).last() == keys@[i as int]);
        }
        match &keys[i] {
            Value::String(s) => {
                let ghost before = names@;
                names.push(s.clone());
                proof {
                    assert(names@.map_values(|t: String| t@) =~= before.map_values(|t: String| t@).push(s@));
                }
            },
            _ => {},
        }
        i = i + 1;
    }
    proof {
        assert(keys@.take(keys@.len() as int) =~= keys@);
    }
    names
}

/// The symbol keys, in the order they were added.
pub open spec fn symbol_keys(keys: Seq<Value>) -> Seq<Value>
    decreases keys.len(),
{
    if keys.len() == 0 {
        Seq::empty()
    } else {
        let prev = symbol_keys(keys.drop_last());
        match keys.last() {
            Value::Symbol(s) => prev.push(keys.last()),
            _ => prev,
        }
    }
}

/// `Object.getOwnPropertySymbols`: the symbol keys, in the order they
/// were added.
pub fn own_property_symbols(keys: &Vec<Value>) -> (syms: Vec<Value>)
    ensures
        syms@ == symbol_keys(keys@),
{
    let mut syms: Vec<Value> = Vec::new();
    let mut i: usize = 0;
    while i < keys.len()
        invariant
            i <= keys@.len(),
            syms@ == symbol_keys(keys@.take(i as int)),
        decreases keys@.len() - i,
    {
        proof {
            assert(keys@.take(i + 1).drop_last() =~= keys@.take(i as int));
            assert(keys@.take(i + 1).last() == keys@[i as int]);
        }
        match &keys[i] {
            Value::Symbol(_) => {
                syms.push(copy_value(&keys[i]));
            },
            _ => {},
        }
        i = i + 1;
    }
    proof {
        assert(keys@.take(keys@.len() as int) =~= keys@);
    }
    syms
}

// ------------------------------------------------------------------ laws

/// Each entry of `numeric_entries` stands for a string key at its position
/// that reads as the entry's value.
proof fn lemma_numeric_entries_are_keys(keys: Seq<Value>)
    ensures
        forall|j: int| 0 <= j < numeric_entries(keys).len() ==> {
            let e = #[trigger] numeric_entries(keys)[j];
            &&& 0 <= e.1 < keys.len()
            &&& keys[e.1] is String
            &&& u64_value(text_of(keys[e.1])) == Some(e.0)
        },
    decreases keys.len(),
{
    if keys.len() > 0 {
        lemma_numeric_entries_are_keys(keys.drop_last());
        let prev = numeric_entries(keys.drop_last());
        assert forall|j: int| 0 <= j < numeric_entries(keys).len() implies {
            let e = #[trigger] numeric_entries(keys)[j];
            &&& 0 <= e.1 < keys.len()
            &&& keys[e.1] is String
            &&& u64_value(text_of(keys[e.1])) == Some(e.0)
        } by {
            if j < prev.len() {
                assert(numeric_entries(keys)[j] == prev[j]);
                assert(keys.drop_last()[prev[j].1] == keys[prev[j].1]);
            }
        }
    }
}

/// The own property names of an array end with `length`, and before it
/// come texts that read as integers, in ascending order of their values.
pub proof fn law_array_names_ascend_then_length(keys: Seq<Value>)
    ensures
        ({
            let names = array_own_names(keys);
            &&& names.len() >= 1
            &&& names.last() == "length"@
            &&& forall|i: int| 0 <= i < names.len() - 1 ==> (#[trigger] u64_value(names[i])) is Some
            &&& forall|i: int, j: int| 0 <= i < j < names.len() - 1
                ==> u64_value(#[trigger] names[i])->0 <= u64_value(#[trigger] names[j])->0
        }),
{
    let leq = |a: (nat, int), b: (nat, int)| entry_leq(a, b);
    let entries = numeric_entries(keys);
    let sorted = entries.sort_by(leq);
    lemma_entry_leq_total();
    entries.lemma_sort_by_ensures(leq);
    lemma_numeric_entries_are_keys(keys);
    let names = array_own_names(keys);
    let head = sorted.map_values(|e: (nat, int)| text_of(keys[e.1]));
    assert(names == head + seq!["length"@]);
    assert(sorted.len() == entries.len()) by {
        assert(sorted.to_multiset().len() == entries.to_multiset().len());
        sorted.to_multiset_ensures();
        entries.to_multiset_ensures();
    }
    assert forall|i: int| 0 <= i < sorted.len() implies u64_value(#[trigger] head[i]) == Some(sorted[i].0) by {
        let e = sorted[i];
        assert(sorted.contains(e));
        sorted.to_multiset_ensures();
        entries.to_multiset_ensures();
        assert(entries.contains(e));
        let j = choose|j: int| 0 <= j < entries.len() && entries[j] == e;
        assert(entries[j] == e);
    }
    assert forall|i: int| 0 <= i < names.len() - 1 implies (#[trigger] u64_value(names[i])) is Some by {
        assert(names[i] == head[i]);
    }
    assert forall|i: int, j: int| 0 <= i < j < names.len() - 1
        implies u64_value(#[trigger] names[i])->0 <= u64_value(#[trigger] names[j])->0 by {
        assert(names[i] == head[i]);
        assert(names[j] == head[j]);
        assert(leq(sorted[i], sorted[j]));
    }
}

/// The names of an object that is not an array are the texts of its
/// string keys, in the order they were added: its keys kept where they are
/// strings.
pub proof fn law_object_names_are_its_string_keys(keys: Seq<Value>)
    ensures
        string_key_texts(keys) == keys.filter(|v: Value| v is String).map_values(|v: Value| text_of(v)),
    decreases keys.len(),
{
    reveal(Seq::filter);
    if keys.len() > 0 {
        law_object_names_are_its_string_keys(keys.drop_last());
        let f = keys.drop_last().filter(|v: Value| v is String);
        if keys.last() is String {
            assert(f.push(keys.last()).map_values(|v: Value| text_of(v))
                =~= f.map_values(|v: Value| text_of(v)).push(text_of(keys.last())));
        }
    }
}

/// The symbol keys of an object are its keys kept where they are symbols,
/// in the order they were added.
pub proof fn law_symbols_are_the_symbol_keys(keys: Seq<Value>)
    ensures
        symbol_keys(keys) == keys.filter(|v: Value| v is Symbol),
    decreases keys.len(),
{
    reveal(Seq::filter);
    if keys.len() > 0 {
        law_symbols_are_the_symbol_keys(keys.drop_last());
    }
}

/// Reading the decimal text of an integer gives the integer back: the
/// unsigned reading for every `u64`, the signed reading for every `i64`.
pub proof fn law_decimal_texts_read_back(n: nat, m: int)
    ensures
        n <= u64::MAX ==> u64_value(decimal(n)) == Some(n),
        i64::MIN <= m <= i64::MAX ==> i64_value(signed_decimal(m)) == Some(m),
{
    lemma_decimal_value(n);
    assert(unsigned_digits(decimal(n)) == decimal(n));
    if m < 0 {
        let a = (-m) as nat;
        lemma_decimal_value(a);
        let t = signed_decimal(m);
        assert(t.skip(1) =~= decimal(a));
        assert(t[0] == '-');
    } else {
        lemma_decimal_value(m as nat);
        assert(unsigned_digits(decimal(m as nat)) == decimal(m as nat));
    }
}

} // verus!
