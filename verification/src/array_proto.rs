//! The searches of `Array.prototype` on the elements of an array as read
//! from it: `None` for a hole (an index the array does not have), and a
//! `fromIndex` argument as the bit pattern of its Number (`None` when
//! absent).
use vstd::prelude::*;
use crate::abstract_ops::{is_strictly_equal, same_value_zero, spec_is_strictly_equal, spec_same_value_zero};
use crate::interp::RuntimeError;
use crate::number::number_to_i64;
use crate::string_proto::{clamp_position, clamp_position_exec, int_arg_or, int_arg_or_exec, relative_position, relative_position_exec};
use crate::text::{append_signed_decimal, signed_decimal};
use crate::value::copy_value;
use crate::string_proto::{code_point_order, string_locale_compare, lemma_code_point_order_transitive, law_locale_compare_is_antisymmetric};
use crate::value::Value;

verus! {

/// Where `indexOf` starts: from the end when negative, clamped to
/// `[0, len]`.
pub open spec fn forward_start(from: Option<u64>, len: int) -> int {
    match from {
        None => 0,
        Some(_) => {
            let n = int_arg_or(from, 0);
            if n < 0 {
                if len + n < 0 { 0 } else { len + n }
            } else if n < len {
                n
            } else {
                len
            }
        },
    }
}

/// Where `lastIndexOf` starts: from the end when negative, clamped to
/// `[-1, len - 1]`.
pub open spec fn backward_start(from: Option<u64>, len: int) -> int {
    match from {
        None => if len - 1 < -1 { -1 } else { len - 1 },
        Some(_) => {
            let n = int_arg_or(from, 0);
            if n < 0 {
                if len + n < -1 { -1 } else { len + n }
            } else {
                let m = if n < len - 1 { n } else { len - 1 };
                if m < -1 { -1 } else { m }
            }
        },
    }
}

/// The element at `i` is present and strictly equal to `needle`.
pub open spec fn present_equal(elems: Seq<Option<Value>>, needle: Value, i: int) -> bool {
    elems[i] matches Some(v) && spec_is_strictly_equal(v, needle)
}

/// The first index at or after `i` whose element is present and strictly
/// equal to `needle`.
pub open spec fn index_from(elems: Seq<Option<Value>>, needle: Value, i: int) -> Option<int>
    decreases elems.len() - i,
{
    if i < 0 || i >= elems.len() {
        None
    } else if present_equal(elems, needle, i) {
        Some(i)
    } else {
        index_from(elems, needle, i + 1)
    }
}

/// The last index at or before `i` whose element is present and strictly
/// equal to `needle`.
pub open spec fn last_index_from(elems: Seq<Option<Value>>, needle: Value, i: int) -> Option<int>
    decreases i + 1,
{
    if i < 0 || i >= elems.len() {
        None
    } else if present_equal(elems, needle, i) {
        Some(i)
    } else {
        last_index_from(elems, needle, i - 1)
    }
}

/// The element at `i`, a hole read as `undefined`, is SameValueZero to
/// `needle`.
pub open spec fn includes_at(elems: Seq<Option<Value>>, needle: Value, i: int) -> bool {
    spec_same_value_zero(match elems[i] { Some(v) => v, None => Value::Undefined }, needle)
}

/// `Array.prototype.indexOf(needle, from)`: the first present element at
/// or after the start that is strictly equal to `needle`; `None` (-1) when
/// there is none.
pub fn array_index_of(elems: &Vec<Option<Value>>, needle: &Value, from: Option<u64>) -> (r: Option<usize>)
    ensures
        r == match index_from(elems@, *needle, forward_start(from, elems@.len() as int)) {
            Some(i) => Some(i as usize),
            None => None::<usize>,
        },
{
    let len = elems.len() as i128;
    let start: i128 = match from {
        None => 0,
        Some(_) => {
            let n = int_arg_or_exec(from, 0);
            if n < 0 {
                if len + n < 0 { 0 } else { len + n }
            } else if n < len {
                n
            } else {
                len
            }
        },
    };
    let mut i: usize = start as usize;
    while i < elems.len()
        invariant
            start <= i <= elems@.len(),
            start == forward_start(from, elems@.len() as int),
            index_from(elems@, *needle, start as int) == index_from(elems@, *needle, i as int),
        decreases elems@.len() - i,
    {
        match &elems[i] {
            Some(v) => {
                if is_strictly_equal(v, needle) {
                    return Some(i);
                }
            },
            None => {},
        }
        i = i + 1;
    }
    None
}

/// `Array.prototype.lastIndexOf(needle, from)`: the last present element
/// at or before the start that is strictly equal to `needle`; `None` (-1)
/// when there is none.
pub fn array_last_index_of(elems: &Vec<Option<Value>>, needle: &Value, from: Option<u64>) -> (r: Option<usize>)
    ensures
        r == match last_index_from(elems@, *needle, backward_start(from, elems@.len() as int)) {
            Some(i) => Some(i as usize),
            None => None::<usize>,
        },
{
    let n_elems = elems.len();
    let len = n_elems as i128;
    let start: i128 = match from {
        None => if len - 1 < -1 { -1 } else { len - 1 },
        Some(_) => {
            let n = int_arg_or_exec(from, 0);
            if n < 0 {
                if len + n < -1 { -1 } else { len + n }
            } else {
                let m = if n < len - 1 { n } else { len - 1 };
                if m < -1 { -1 } else { m }
            }
        },
    };
    let mut i: i128 = start;
    while i >= 0
        invariant
            -1 <= i <= start < elems@.len(),
            n_elems == elems@.len(),
            start == backward_start(from, elems@.len() as int),
            last_index_from(elems@, *needle, start as int) == last_index_from(elems@, *needle, i as int),
        decreases i + 1,
    {
        match &elems[i as usize] {
            Some(v) => {
                if is_strictly_equal(v, needle) {
                    return Some(i as usize);
                }
            },
            None => {},
        }
        i = i - 1;
    }
    None
}

/// `Array.prototype.includes(needle)`: some element, a hole read as
/// `undefined`, is SameValueZero to `needle` (NaN finds NaN). The
/// `fromIndex` argument has no effect.
pub fn array_includes(elems: &Vec<Option<Value>>, needle: &Value) -> (r: bool)
    ensures
        r == exists|i: int| 0 <= i < elems@.len() && #[trigger] includes_at(elems@, *needle, i),
{
    let mut i: usize = 0;
    while i < elems.len()
        invariant
            0 <= i <= elems@.len(),
            forall|k: int| 0 <= k < i ==> !#[trigger] includes_at(elems@, *needle, k),
        decreases elems@.len() - i,
    {
        let hit = match &elems[i] {
            Some(v) => same_value_zero(v, needle),
            None => same_value_zero(&Value::Undefined, needle),
        };
        if hit {
            assert(includes_at(elems@, *needle, i as int));
            return true;
        }
        i = i + 1;
    }
    false
}

// ------------------------------------------------------- copying methods

/// An element as a read gives it: a hole reads `undefined`.
pub open spec fn read_elem(e: Option<Value>) -> Value {
    match e {
        Some(v) => v,
        None => Value::Undefined,
    }
}

/// Every element as read.
pub open spec fn reads(elems: Seq<Option<Value>>) -> Seq<Value> {
    elems.map_values(|e: Option<Value>| read_elem(e))
}

/// Values stored as present elements.
pub open spec fn present(vals: Seq<Value>) -> Seq<Option<Value>> {
    vals.map_values(|v: Value| Some(v))
}

fn read_at(elems: &Vec<Option<Value>>, i: usize) -> (v: Value)
    requires
        i < elems@.len(),
    ensures
        v == read_elem(elems@[i as int]),
{
    match &elems[i] {
        Some(v) => copy_value(v),
        None => Value::Undefined,
    }
}

/// The elements `from..to` as read.
fn read_range(elems: &Vec<Option<Value>>, from: usize, to: usize) -> (out: Vec<Value>)
    requires
        from <= to <= elems@.len(),
    ensures
        out@ == reads(elems@).subrange(from as int, to as int),
{
    let mut out: Vec<Value> = Vec::new();
    let mut i: usize = from;
    while i < to
        invariant
            from <= i <= to <= elems@.len(),
            out@ == reads(elems@).subrange(from as int, i as int),
        decreases to - i,
    {
        let v = read_at(elems, i);
        out.push(v);
        assert(reads(elems@).subrange(from as int, i + 1) =~= reads(elems@).subrange(from as int, i as int).push(read_elem(elems@[i as int])));
        i = i + 1;
    }
    out
}

/// A position argument counted from the end when negative, clamped to
/// `[0, len]`; `default` when absent.
pub open spec fn position_arg(x: Option<u64>, default: int, len: int) -> int {
    relative_position(int_arg_or(x, default), len)
}

fn position_arg_exec(x: Option<u64>, default: usize, len: usize) -> (r: usize)
    requires
        default <= len,
    ensures
        r == position_arg(x, default as int, len as int),
        r <= len,
{
    let p = relative_position_exec(int_arg_or_exec(x, default as i128), len as i128);
    p as usize
}

/// The index `at` and `with` read: counted from the end when negative.
pub open spec fn end_relative_index(x: Option<u64>, len: int) -> int {
    let i = int_arg_or(x, 0);
    if i < 0 { len + i } else { i }
}

/// `Array.prototype.at(index)`: the element at the index, counted from the
/// end when negative; `undefined` outside the array.
pub fn array_at(elems: &Vec<Option<Value>>, index: Option<u64>) -> (r: Value)
    ensures
        ({
            let k = end_relative_index(index, elems@.len() as int);
            r == if 0 <= k < elems@.len() { read_elem(elems@[k]) } else { Value::Undefined }
        }),
{
    let len = elems.len() as i128;
    let i = int_arg_or_exec(index, 0);
    let k = if i < 0 { len + i } else { i };
    if k < 0 || k >= len {
        return Value::Undefined;
    }
    read_at(elems, k as usize)
}

/// `Array.prototype.slice(start, end)`: the elements between two relative
/// positions, as read; empty when the end does not come after the start.
/// An `undefined` argument counts as absent.
pub fn array_slice(elems: &Vec<Option<Value>>, start: Option<u64>, end: Option<u64>) -> (r: Vec<Value>)
    ensures
        ({
            let len = elems@.len() as int;
            let from = position_arg(start, 0, len);
            let to = position_arg(end, len, len);
            r@ == if from < to { reads(elems@).subrange(from, to) } else { Seq::<Value>::empty() }
        }),
{
    let len = elems.len();
    let from = position_arg_exec(start, 0, len);
    let to = position_arg_exec(end, len, len);
    if from < to {
        read_range(elems, from, to)
    } else {
        Vec::new()
    }
}

/// `Array.prototype.toReversed()`: the elements as read, last first.
pub fn array_to_reversed(elems: &Vec<Option<Value>>) -> (r: Vec<Value>)
    ensures
        r@ == reads(elems@).reverse(),
{
    let len = elems.len();
    let mut out: Vec<Value> = Vec::new();
    let mut i: usize = 0;
    while i < len
        invariant
            len == elems@.len(),
            0 <= i <= len,
            out@ =~= reads(elems@).reverse().subrange(0, i as int),
        decreases len - i,
    {
        let v = read_at(elems, len - 1 - i);
        out.push(v);
        i = i + 1;
    }
    out
}

/// The RangeError message of `with` for an index outside the array.
pub open spec fn with_range_message(index: int) -> Seq<char> {
    "with: index "@ + signed_decimal(index) + " out of bounds"@
}

/// `Array.prototype.with(index, value)`: the elements as read with the one
/// at the index (counted from the end when negative) replaced; a
/// RangeError naming the index when it lies outside the array.
pub fn array_with(elems: &Vec<Option<Value>>, index: Option<u64>, value: Value) -> (r: Result<Vec<Value>, RuntimeError>)
    ensures
        ({
            let k = end_relative_index(index, elems@.len() as int);
            if 0 <= k < elems@.len() {
                r matches Ok(out) && out@ == reads(elems@).update(k, value)
            } else {
                r matches Err(RuntimeError::RangeError(m)) && m@ == with_range_message(int_arg_or(index, 0))
            }
        }),
{
    let len = elems.len();
    let i: i64 = match index {
        Some(n) => number_to_i64(n),
        None => 0,
    };
    let k: i128 = if i < 0 { len as i128 + i as i128 } else { i as i128 };
    if k < 0 || k >= len as i128 {
        let mut m = String::from_str("with: index ");
        append_signed_decimal(&mut m, i);
        m.append(" out of bounds");
        proof {
            reveal_strlit("with: index ");
            reveal_strlit(" out of bounds");
        }
        return Err(RuntimeError::RangeError(m));
    }
    let mut out = read_range(elems, 0, len);
    assert(reads(elems@).subrange(0, len as int) =~= reads(elems@));
    out.set(k as usize, value);
    Ok(out)
}

/// The start position of `splice` and `toSpliced`.
pub open spec fn splice_start(start: Option<u64>, len: int) -> int {
    position_arg(start, 0, len)
}

/// How many elements `splice` and `toSpliced` delete: all from the start
/// when the count is absent, else the count clamped to `[0, len - from]`.
pub open spec fn splice_delete_count(count: Option<u64>, from: int, len: int) -> int {
    match count {
        None => len - from,
        Some(_) => clamp_position(int_arg_or(count, 0), len - from),
    }
}

/// `toSpliced`: the elements as read, with `count` of them from `from` on
/// replaced by `items`.
pub open spec fn to_spliced(elems: Seq<Option<Value>>, from: int, count: int, items: Seq<Value>) -> Seq<Value> {
    reads(elems).subrange(0, from) + items + reads(elems).subrange(from + count, elems.len() as int)
}

/// `Array.prototype.toSpliced(start, deleteCount, ...items)`: a copy with
/// `deleteCount` elements from the start replaced by `items`. An
/// `undefined` count is a count of zero, an absent one deletes the rest.
pub fn array_to_spliced(elems: &Vec<Option<Value>>, start: Option<u64>, count: Option<u64>, items: &Vec<Value>) -> (r: Vec<Value>)
    ensures
        ({
            let len = elems@.len() as int;
            let from = splice_start(start, len);
            r@ == to_spliced(elems@, from, splice_delete_count(count, from, len), items@)
        }),
{
    let len = elems.len();
    let from = position_arg_exec(start, 0, len);
    let del: usize = match count {
        None => len - from,
        Some(_) => clamp_position_exec(int_arg_or_exec(count, 0), (len - from) as i128) as usize,
    };
    let mut out = read_range(elems, 0, from);
    let mut j: usize = 0;
    while j < items.len()
        invariant
            0 <= j <= items@.len(),
            out@ == reads(elems@).subrange(0, from as int) + items@.subrange(0, j as int),
        decreases items@.len() - j,
    {
        out.push(copy_value(&items[j]));
        assert(items@.subrange(0, j + 1) =~= items@.subrange(0, j as int).push(items@[j as int]));
        assert(reads(elems@).subrange(0, from as int) + items@.subrange(0, j + 1)
            =~= (reads(elems@).subrange(0, from as int) + items@.subrange(0, j as int)).push(items@[j as int]));
        j = j + 1;
    }
    let tail = read_range(elems, from + del, len);
    let mut t: usize = 0;
    let ghost head = out@;
    while t < tail.len()
        invariant
            0 <= t <= tail@.len(),
            out@ == head + tail@.subrange(0, t as int),
        decreases tail@.len() - t,
    {
        out.push(copy_value(&tail[t]));
        assert(head + tail@.subrange(0, t + 1) =~= (head + tail@.subrange(0, t as int)).push(tail@[t as int]));
        t = t + 1;
    }
    assert(items@.subrange(0, items@.len() as int) =~= items@);
    assert(tail@.subrange(0, tail@.len() as int) =~= tail@);
    out
}

// ---------------------------------------------------- methods that mutate

/// The elements after `splice` deletes `count` from `from` on and inserts
/// `items` there. What lies before is untouched; what moves is written as
/// read (a hole becomes `undefined`); when nothing moves, the tail stays as
/// it was.
pub open spec fn spliced(elems: Seq<Option<Value>>, from: int, count: int, items: Seq<Value>) -> Seq<Option<Value>> {
    let n = items.len() as int;
    Seq::new((elems.len() - count + n) as nat, |k: int|
        if k < from {
            elems[k]
        } else if k < from + n {
            Some(items[k - from])
        } else if n == count {
            elems[k]
        } else {
            Some(read_elem(elems[k - n + count]))
        })
}

/// `Array.prototype.splice(start, deleteCount, ...items)`: deletes
/// `deleteCount` elements from the start, inserts `items` there and returns
/// the deleted elements as read. An absent or `undefined` count deletes
/// the rest.
pub fn array_splice(elems: &mut Vec<Option<Value>>, start: Option<u64>, count: Option<u64>, items: &Vec<Value>) -> (removed: Vec<Value>)
    ensures
        ({
            let len = old(elems)@.len() as int;
            let from = splice_start(start, len);
            let del = splice_delete_count(count, from, len);
            &&& removed@ == reads(old(elems)@).subrange(from, from + del)
            &&& final(elems)@ == spliced(old(elems)@, from, del, items@)
        }),
{
    let len = elems.len();
    let from = position_arg_exec(start, 0, len);
    let del: usize = match count {
        None => len - from,
        Some(_) => clamp_position_exec(int_arg_or_exec(count, 0), (len - from) as i128) as usize,
    };
    let removed = read_range(elems, from, from + del);
    let n = items.len();
    let ghost old_elems = elems@;
    let ghost target = spliced(old_elems, from as int, del as int, items@);
    let mut out: Vec<Option<Value>> = Vec::new();
    let mut k: usize = 0;
    while k < from
        invariant
            elems@ == old_elems,
            target == spliced(old_elems, from as int, del as int, items@),
            from + del <= len == old_elems.len(),
            0 <= k <= from,
            out@ =~= target.subrange(0, k as int),
        decreases from - k,
    {
        let e = match &elems[k] {
            Some(v) => Some(copy_value(v)),
            None => None,
        };
        out.push(e);
        k = k + 1;
    }
    let mut j: usize = 0;
    while j < n
        invariant
            elems@ == old_elems,
            target == spliced(old_elems, from as int, del as int, items@),
            from + del <= len == old_elems.len(),
            n == items@.len(),
            0 <= j <= n,
            out@ =~= target.subrange(0, from + j),
        decreases n - j,
    {
        out.push(Some(copy_value(&items[j])));
        j = j + 1;
    }
    let mut i: usize = from + del;
    while i < len
        invariant
            elems@ == old_elems,
            target == spliced(old_elems, from as int, del as int, items@),
            from + del <= len == old_elems.len(),
            n == items@.len(),
            from + del <= i <= len,
            out@ =~= target.subrange(0, from + n + (i - from - del)),
        decreases len - i,
    {
        let e = if n == del {
            match &elems[i] {
                Some(v) => Some(copy_value(v)),
                None => None,
            }
        } else {
            Some(read_at(elems, i))
        };
        out.push(e);
        i = i + 1;
    }
    *elems = out;
    removed
}

/// `Array.prototype.fill(value, start, end)`: the elements between two
/// relative positions set to `value`. An `undefined` position counts as
/// absent.
pub fn array_fill(elems: &mut Vec<Option<Value>>, value: &Value, start: Option<u64>, end: Option<u64>)
    ensures
        ({
            let len = old(elems)@.len() as int;
            let from = position_arg(start, 0, len);
            let to = position_arg(end, len, len);
            final(elems)@ == Seq::new(len as nat, |k: int|
                if from <= k < to { Some(*value) } else { old(elems)@[k] })
        }),
{
    let len = elems.len();
    let from = position_arg_exec(start, 0, len);
    let to = position_arg_exec(end, len, len);
    let ghost old_elems = elems@;
    let mut i: usize = from;
    while i < to
        invariant
            len == old_elems.len() == elems@.len(),
            (to < from && i == from) || (from <= i <= to),
            to <= len,
            forall|k: int| 0 <= k < len ==> #[trigger] elems@[k] == if from <= k < i { Some(*value) } else { old_elems[k] },
        decreases to - i,
    {
        elems.set(i, Some(copy_value(value)));
        i = i + 1;
    }
    assert(elems@ =~= Seq::new(len as nat, |k: int| if from <= k < to { Some(*value) } else { old_elems[k] }));
}

/// `Array.prototype.copyWithin(target, start, end)`: the elements between
/// two relative positions, as read, written from the target position on,
/// as many as fit. An `undefined` position counts as absent.
pub fn array_copy_within(elems: &mut Vec<Option<Value>>, target: Option<u64>, start: Option<u64>, end: Option<u64>)
    ensures
        ({
            let len = old(elems)@.len() as int;
            let to = position_arg(target, 0, len);
            let from = position_arg(start, 0, len);
            let stop = position_arg(end, len, len);
            let count = if stop - from < len - to { stop - from } else { len - to };
            final(elems)@ == Seq::new(len as nat, |k: int|
                if to <= k < to + count { Some(read_elem(old(elems)@[from + k - to])) } else { old(elems)@[k] })
        }),
{
    let len = elems.len();
    let to = position_arg_exec(target, 0, len);
    let from = position_arg_exec(start, 0, len);
    let stop = position_arg_exec(end, len, len);
    let ghost old_elems = elems@;
    let count: usize = if stop < from {
        0
    } else if stop - from < len - to {
        stop - from
    } else {
        len - to
    };
    let buf = read_range(elems, from, from + count);
    let mut i: usize = 0;
    while i < count
        invariant
            len == old_elems.len() == elems@.len(),
            to + count <= len,
            from + count <= len,
            buf@ == reads(old_elems).subrange(from as int, from + count),
            0 <= i <= count,
            forall|k: int| 0 <= k < len ==> #[trigger] elems@[k] == if to <= k < to + i { Some(read_elem(old_elems[from + k - to])) } else { old_elems[k] },
        decreases count - i,
    {
        elems.set(to + i, Some(copy_value(&buf[i])));
        i = i + 1;
    }
    assert(elems@ =~= Seq::new(len as nat, |k: int|
        if to <= k < to + count as int { Some(read_elem(old_elems[from + k - to])) } else { old_elems[k] }));
}

/// The elements after `reverse`: each pair swapped as read; the middle one
/// of an odd count stays as it was.
pub open spec fn reversed_in_place(elems: Seq<Option<Value>>) -> Seq<Option<Value>> {
    let len = elems.len() as int;
    Seq::new(elems.len(), |k: int|
        if len % 2 == 1 && k == len / 2 { elems[k] } else { Some(read_elem(elems[len - 1 - k])) })
}

/// `Array.prototype.reverse()`: the elements in reverse order.
pub fn array_reverse(elems: &mut Vec<Option<Value>>)
    ensures
        final(elems)@ == reversed_in_place(old(elems)@),
{
    let len = elems.len();
    let ghost old_elems = elems@;
    let mid = len / 2;
    let mut i: usize = 0;
    while i < mid
        invariant
            len == old_elems.len() == elems@.len(),
            mid == len / 2,
            0 <= i <= mid,
            forall|k: int| 0 <= k < len ==> #[trigger] elems@[k] == if k < i || k > len - 1 - i {
                Some(read_elem(old_elems[len - 1 - k]))
            } else {
                old_elems[k]
            },
        decreases mid - i,
    {
        let j = len - 1 - i;
        let a = read_at(elems, i);
        let b = read_at(elems, j);
        elems.set(i, Some(b));
        elems.set(j, Some(a));
        i = i + 1;
    }
    assert(elems@ =~= reversed_in_place(old_elems));
}

/// `Array.prototype.push(...items)`: `items` appended; the new length.
pub fn array_push(elems: &mut Vec<Option<Value>>, items: &Vec<Value>) -> (len: usize)
    ensures
        final(elems)@ == old(elems)@ + present(items@),
        len == final(elems)@.len(),
{
    let ghost old_elems = elems@;
    let mut j: usize = 0;
    while j < items.len()
        invariant
            0 <= j <= items@.len(),
            elems@ =~= old_elems + present(items@.subrange(0, j as int)),
        decreases items@.len() - j,
    {
        elems.push(Some(copy_value(&items[j])));
        j = j + 1;
    }
    assert(items@.subrange(0, items@.len() as int) =~= items@);
    elems.len()
}

/// `Array.prototype.pop()`: the last element as read, removed;
/// `undefined` when there is none.
pub fn array_pop(elems: &mut Vec<Option<Value>>) -> (r: Value)
    ensures
        old(elems)@.len() == 0 ==> r == Value::Undefined && final(elems)@ == old(elems)@,
        old(elems)@.len() > 0 ==> r == read_elem(old(elems)@.last()) && final(elems)@ == old(elems)@.drop_last(),
{
    match elems.pop() {
        Some(e) => match e {
            Some(v) => v,
            None => Value::Undefined,
        },
        None => Value::Undefined,
    }
}

/// `Array.prototype.shift()`: the first element as read, removed; the
/// others move down one place, written as read. `undefined` when there is
/// none.
pub fn array_shift(elems: &mut Vec<Option<Value>>) -> (r: Value)
    ensures
        old(elems)@.len() == 0 ==> r == Value::Undefined && final(elems)@ == old(elems)@,
        old(elems)@.len() > 0 ==> r == read_elem(old(elems)@[0])
            && final(elems)@ == present(reads(old(elems)@).drop_first()),
{
    let len = elems.len();
    if len == 0 {
        return Value::Undefined;
    }
    let first = read_at(elems, 0);
    let rest = read_range(elems, 1, len);
    assert(reads(elems@).subrange(1, len as int) =~= reads(elems@).drop_first());
    let mut out: Vec<Option<Value>> = Vec::new();
    let mut i: usize = 0;
    while i < rest.len()
        invariant
            0 <= i <= rest@.len(),
            out@ =~= present(rest@.subrange(0, i as int)),
        decreases rest@.len() - i,
    {
        out.push(Some(copy_value(&rest[i])));
        i = i + 1;
    }
    assert(rest@.subrange(0, rest@.len() as int) =~= rest@);
    *elems = out;
    first
}

/// `Array.prototype.unshift(...items)`: `items` put first, the elements
/// after them written as read; the new length.
pub fn array_unshift(elems: &mut Vec<Option<Value>>, items: &Vec<Value>) -> (len: usize)
    ensures
        final(elems)@ == present(items@ + reads(old(elems)@)),
        len == final(elems)@.len(),
{
    let all = read_range(elems, 0, elems.len());
    assert(reads(elems@).subrange(0, elems@.len() as int) =~= reads(elems@));
    let ghost whole = items@ + reads(elems@);
    let mut out: Vec<Option<Value>> = Vec::new();
    let mut j: usize = 0;
    while j < items.len()
        invariant
            0 <= j <= items@.len(),
            whole == items@ + all@,
            out@ =~= present(whole.subrange(0, j as int)),
        decreases items@.len() - j,
    {
        out.push(Some(copy_value(&items[j])));
        j = j + 1;
    }
    let mut i: usize = 0;
    while i < all.len()
        invariant
            0 <= i <= all@.len(),
            whole == items@ + all@,
            out@ =~= present(whole.subrange(0, items@.len() + i)),
        decreases all@.len() - i,
    {
        out.push(Some(copy_value(&all[i])));
        i = i + 1;
    }
    assert(whole.subrange(0, whole.len() as int) =~= whole);
    *elems = out;
    elems.len()
}

// ------------------------------------------------------------------ laws

/// `indexOf` finds the first present element strictly equal to the needle
/// at or after where it starts, and finds none only where no element from
/// there on is one.
pub proof fn law_index_of_finds_the_first_match(elems: Seq<Option<Value>>, needle: Value, i: int)
    requires
        0 <= i,
    ensures
        index_from(elems, needle, i) matches Some(k) ==> {
            &&& i <= k < elems.len()
            &&& present_equal(elems, needle, k)
            &&& forall|j: int| i <= j < k ==> !present_equal(elems, needle, j)
        },
        index_from(elems, needle, i) is None ==> forall|j: int| i <= j < elems.len() ==> !present_equal(elems, needle, j),
    decreases elems.len() - i,
{
    if i < elems.len() && !present_equal(elems, needle, i) {
        law_index_of_finds_the_first_match(elems, needle, i + 1);
    }
}

/// `lastIndexOf` finds the last present element strictly equal to the
/// needle at or before where it starts, and finds none only where no
/// element up to there is one.
pub proof fn law_last_index_of_finds_the_last_match(elems: Seq<Option<Value>>, needle: Value, i: int)
    requires
        i < elems.len(),
    ensures
        last_index_from(elems, needle, i) matches Some(k) ==> {
            &&& 0 <= k <= i
            &&& present_equal(elems, needle, k)
            &&& forall|j: int| k < j <= i ==> !present_equal(elems, needle, j)
        },
        last_index_from(elems, needle, i) is None ==> forall|j: int| 0 <= j <= i ==> !present_equal(elems, needle, j),
    decreases i + 1,
{
    if i >= 0 && !present_equal(elems, needle, i) {
        law_last_index_of_finds_the_last_match(elems, needle, i - 1);
    }
}

/// `indexOf` starts where `slice` starts for the same argument: the
/// position counted from the end when negative, clamped to the array.
/// `lastIndexOf`, given a position before the end, starts there too, or
/// nowhere (-1) when the position lies before the start of the array.
pub proof fn law_search_starts_are_relative_positions(from: Option<u64>, len: int)
    requires
        0 <= len,
    ensures
        forward_start(from, len) == position_arg(from, 0, len),
        0 <= forward_start(from, len) <= len,
        -1 <= backward_start(from, len) < len,
        from is Some && int_arg_or(from, 0) < len ==> backward_start(from, len)
            == if int_arg_or(from, 0) < -len { -1 } else { position_arg(from, 0, len) },
{
}

/// `toSpliced` is `splice` without the mutation: for the same start, count
/// and items, the copy it returns holds what `splice` leaves in the array,
/// as read.
pub proof fn law_to_spliced_is_splice_as_read(elems: Seq<Option<Value>>, from: int, count: int, items: Seq<Value>)
    requires
        0 <= from <= elems.len(),
        0 <= count <= elems.len() - from,
    ensures
        reads(spliced(elems, from, count, items)) == to_spliced(elems, from, count, items),
{
    let a = reads(spliced(elems, from, count, items));
    let b = to_spliced(elems, from, count, items);
    assert forall|k: int| 0 <= k < a.len() implies a[k] == b[k] by {
        if k >= from + items.len() {
            assert(b[k] == reads(elems)[k - items.len() + count]);
        }
    }
    assert(a =~= b);
}

/// `reverse` and `toReversed` agree: what `reverse` leaves in the array,
/// as read, is what `toReversed` returns.
pub proof fn law_reverse_agrees_with_to_reversed(elems: Seq<Option<Value>>)
    ensures
        reads(reversed_in_place(elems)) == reads(elems).reverse(),
{
    assert(reads(reversed_in_place(elems)) =~= reads(elems).reverse());
}

/// Reversing twice gives every element back, as read.
pub proof fn law_reverse_twice_restores(elems: Seq<Option<Value>>)
    ensures
        reads(reversed_in_place(reversed_in_place(elems))) == reads(elems),
{
    assert(reads(reversed_in_place(reversed_in_place(elems))) =~= reads(elems));
}

/// `pop` after `push(v)` returns `v` and leaves the array as it was.
pub proof fn law_pop_undoes_push(elems: Seq<Option<Value>>, v: Value)
    ensures
        ({
            let pushed = elems + present(seq![v]);
            &&& read_elem(pushed.last()) == v
            &&& pushed.drop_last() == elems
        }),
{
    assert((elems + present(seq![v])).drop_last() =~= elems);
}

/// `shift` after `unshift(v)` returns `v` and leaves the elements as they
/// read before.
pub proof fn law_shift_undoes_unshift(elems: Seq<Option<Value>>, v: Value)
    ensures
        ({
            let unshifted = present(seq![v] + reads(elems));
            &&& read_elem(unshifted[0]) == v
            &&& present(reads(unshifted).drop_first()) == present(reads(elems))
        }),
{
    let unshifted = present(seq![v] + reads(elems));
    assert(reads(unshifted).drop_first() =~= reads(elems));
}

// ------------------------------------------------------------ default sort

/// Element `a` goes before element `b` in the default sort: its ToString
/// text comes first by code points, or the texts are the same and it stood
/// first (the sort is stable).
pub open spec fn sorts_before(texts: Seq<Seq<char>>, a: int, b: int) -> bool {
    code_point_order(texts[a], texts[b]) < 0 || (code_point_order(texts[a], texts[b]) == 0 && a < b)
}

/// `Array.prototype.sort()` without a comparator orders the elements by
/// their ToString texts, stably: the positions of the elements in sorted
/// order. Each position appears once, and every earlier one sorts before
/// every later one.
pub fn array_sort_order(texts: &Vec<String>) -> (order: Vec<usize>)
    ensures
        order@.len() == texts@.len(),
        forall|i: int| 0 <= i < order@.len() ==> #[trigger] order@[i] < texts@.len(),
        forall|i: int, j: int| 0 <= i < j < order@.len()
            ==> sorts_before(texts@.map_values(|t: String| t@), #[trigger] order@[i] as int, #[trigger] order@[j] as int),
{
    let ghost tv = texts@.map_values(|t: String| t@);
    let mut order: Vec<usize> = Vec::new();
    let mut i: usize = 0;
    while i < texts.len()
        invariant
            i <= texts@.len(),
            tv == texts@.map_values(|t: String| t@),
            order@.len() == i,
            forall|x: int| 0 <= x < order@.len() ==> #[trigger] order@[x] < i,
            forall|x: int, y: int| 0 <= x < y < order@.len()
                ==> sorts_before(tv, #[trigger] order@[x] as int, #[trigger] order@[y] as int),
        decreases texts@.len() - i,
    {
        let mut p: usize = 0;
        while p < order.len() && string_locale_compare(texts[order[p]].as_str(), texts[i].as_str()) <= 0
            invariant
                p <= order@.len(),
                order@.len() == i,
                i < texts@.len(),
                tv == texts@.map_values(|t: String| t@),
                forall|x: int| 0 <= x < order@.len() ==> #[trigger] order@[x] < i,
                forall|x: int| 0 <= x < p ==> code_point_order(tv[#[trigger] order@[x] as int], tv[i as int]) <= 0,
            decreases order@.len() - p,
        {
            p = p + 1;
        }
        let ghost old = order@;
        proof {
            if p < old.len() {
                assert(code_point_order(tv[old[p as int] as int], tv[i as int]) > 0);
                law_locale_compare_is_antisymmetric(tv[old[p as int] as int], tv[i as int]);
            }
        }
        order.insert(p, i);
        proof {
            assert(order@ =~= old.insert(p as int, i));
            assert forall|x: int| 0 <= x < order@.len() implies #[trigger] order@[x] < i + 1 by {
                if x < p {
                    assert(order@[x] == old[x]);
                } else if x > p {
                    assert(order@[x] == old[x - 1]);
                }
            }
            assert forall|x: int, y: int| 0 <= x < y < order@.len()
                implies sorts_before(tv, #[trigger] order@[x] as int, #[trigger] order@[y] as int) by {
                if y < p {
                    assert(order@[x] == old[x] && order@[y] == old[y]);
                } else if y == p {
                    assert(order@[x] == old[x]);
                    assert(code_point_order(tv[old[x] as int], tv[i as int]) <= 0);
                } else if x < p {
                    assert(order@[x] == old[x] && order@[y] == old[y - 1]);
                    assert(sorts_before(tv, old[x] as int, old[y - 1] as int));
                } else if x == p {
                    assert(order@[y] == old[y - 1]);
                    let t = tv[i as int];
                    let tp = tv[old[p as int] as int];
                    let tb = tv[old[y - 1] as int];
                    assert(code_point_order(t, tp) < 0);
                    if y - 1 > p {
                        assert(sorts_before(tv, old[p as int] as int, old[y - 1] as int));
                        lemma_code_point_order_transitive(t, tp, tb);
                    }
                } else {
                    assert(order@[x] == old[x - 1] && order@[y] == old[y - 1]);
                    assert(sorts_before(tv, old[x - 1] as int, old[y - 1] as int));
                }
            }
        }
        i = i + 1;
    }
    order
}

} // verus!
