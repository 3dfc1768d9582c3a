//! The iterator protocol's results and the array and string iterators
//! (ECMA-262 §7.4, §23.1.5, §22.1.5): an array iterator walks the array's
//! indices from 0, reading each element as it goes (a hole reads
//! `undefined`) and re-reading the length at every step; a string iterator
//! walks the string's characters, each as a one-character string.
use vstd::prelude::*;
use crate::array_proto::{read_elem, reads};
use crate::text::{chars_of, push_char};
use crate::value::{Value, copy_value};

verus! {

/// An iterator result object, `{ value, done }`.
#[derive(Debug)]
pub struct IterResult {
    pub value: Value,
    pub done: bool,
}

/// `{ value: v, done: false }`.
pub fn iter_result_value(v: Value) -> (r: IterResult)
    ensures
        r.value == v,
        !r.done,
{
    IterResult { value: v, done: false }
}

/// `{ value: undefined, done: true }`.
pub fn iter_result_done() -> (r: IterResult)
    ensures
        r.value == Value::Undefined,
        r.done,
{
    IterResult { value: Value::Undefined, done: true }
}

/// An array iterator: the index of the next element to read.
#[derive(Debug)]
pub struct ArrayIterator {
    pub cursor: usize,
}

impl ArrayIterator {
    /// A fresh iterator, at index 0.
    pub fn new() -> (it: Self)
        ensures
            it.cursor == 0,
    {
        ArrayIterator { cursor: 0 }
    }

    /// `next()` on the array's current elements: done once the index has
    /// reached the length, else the element at the index, as read, and the
    /// index moves on.
    pub fn next(&mut self, elems: &Vec<Option<Value>>) -> (r: IterResult)
        ensures
            old(self).cursor >= elems@.len() ==> r.done && r.value == Value::Undefined
                && final(self).cursor == old(self).cursor,
            old(self).cursor < elems@.len() ==> !r.done && r.value == read_elem(elems@[old(self).cursor as int])
                && final(self).cursor == old(self).cursor + 1,
    {
        if self.cursor >= elems.len() {
            return iter_result_done();
        }
        let v = match &elems[self.cursor] {
            Some(x) => copy_value(x),
            None => Value::Undefined,
        };
        self.cursor = self.cursor + 1;
        iter_result_value(v)
    }
}

/// What `k` calls of `next()` from index `c` give on unchanging elements:
/// `Some(value)` for each result not done, `None` for each done one.
pub open spec fn run(elems: Seq<Option<Value>>, c: int, k: nat) -> Seq<Option<Value>>
    decreases k,
{
    if k == 0 {
        Seq::empty()
    } else if c >= elems.len() {
        run(elems, c, (k - 1) as nat).push(None)
    } else {
        seq![Some(read_elem(elems[c]))] + run(elems, c + 1, (k - 1) as nat)
    }
}

/// The elements a string iterator walks: each character as a one-character
/// string.
pub fn string_iterator_elements(s: &str) -> (elems: Vec<Option<Value>>)
    ensures
        elems@.len() == s@.len(),
        forall|i: int| 0 <= i < s@.len() ==> (#[trigger] elems@[i] matches Some(Value::String(t)) && t@ == seq![s@[i]]),
{
    let cs = chars_of(s);
    let mut out: Vec<Option<Value>> = Vec::new();
    let mut i: usize = 0;
    while i < cs.len()
        invariant
            cs@ == s@,
            0 <= i <= cs@.len(),
            out@.len() == i,
            forall|k: int| 0 <= k < i ==> (#[trigger] out@[k] matches Some(Value::String(t)) && t@ == seq![s@[k]]),
        decreases cs@.len() - i,
    {
        let mut one = String::new();
        push_char(&mut one, cs[i]);
        assert(one@ =~= seq![s@[i as int]]);
        out.push(Some(Value::String(one)));
        i = i + 1;
    }
    out
}

/// Iterating an array that does not change yields its elements, as read,
/// in index order, and after them only done results.
pub proof fn law_iteration_yields_the_elements(elems: Seq<Option<Value>>, extra: nat)
    ensures
        run(elems, 0, elems.len() + extra) == reads(elems).map_values(|v: Value| Some(v))
            + Seq::new(extra, |i: int| None::<Value>),
{
    lemma_run_from(elems, 0, extra);
    assert(elems.subrange(0, elems.len() as int) =~= elems);
}

proof fn lemma_run_done(elems: Seq<Option<Value>>, c: int, k: nat)
    requires
        c >= elems.len(),
    ensures
        run(elems, c, k) == Seq::new(k, |i: int| None::<Value>),
    decreases k,
{
    if k > 0 {
        lemma_run_done(elems, c, (k - 1) as nat);
        assert(Seq::new((k - 1) as nat, |i: int| None::<Value>).push(None) =~= Seq::new(k, |i: int| None::<Value>));
    }
}

proof fn lemma_run_from(elems: Seq<Option<Value>>, c: int, extra: nat)
    requires
        0 <= c <= elems.len(),
    ensures
        run(elems, c, (elems.len() - c + extra) as nat)
            == reads(elems.subrange(c, elems.len() as int)).map_values(|v: Value| Some(v))
            + Seq::new(extra, |i: int| None::<Value>),
    decreases elems.len() - c,
{
    if c == elems.len() {
        lemma_run_done(elems, c, extra);
        assert(reads(elems.subrange(c, elems.len() as int)).map_values(|v: Value| Some(v)) =~= Seq::<Option<Value>>::empty());
        assert(Seq::<Option<Value>>::empty() + Seq::new(extra, |i: int| None::<Value>) =~= Seq::new(extra, |i: int| None::<Value>));
    } else {
        lemma_run_from(elems, c + 1, extra);
        let rest = reads(elems.subrange(c + 1, elems.len() as int)).map_values(|v: Value| Some(v));
        let all = reads(elems.subrange(c, elems.len() as int)).map_values(|v: Value| Some(v));
        assert(all =~= seq![Some(read_elem(elems[c]))] + rest);
        assert(run(elems, c, (elems.len() - c + extra) as nat)
            == seq![Some(read_elem(elems[c]))] + run(elems, c + 1, (elems.len() - (c + 1) + extra) as nat));
        assert(seq![Some(read_elem(elems[c]))] + (rest + Seq::new(extra, |i: int| None::<Value>))
            =~= all + Seq::new(extra, |i: int| None::<Value>));
    }
}

} // verus!
