//! The set-algebra methods of `Set.prototype` (`union`, `intersection`,
//! `difference`, `symmetricDifference`, `isSubsetOf`, `isSupersetOf`,
//! `isDisjointFrom`) on a set's storage: its members in insertion order,
//! each under the text it is stored by, no text twice. The other operand
//! comes as the values its iteration produced, each with its text
//! (`ToString` of the value).
use vstd::prelude::*;
use crate::value::{Value, copy_value};

verus! {

/// A stored member: its text and its value.
pub type Entry = (String, Value);

/// Some entry is stored under the text `k`.
pub open spec fn has_key(entries: Seq<Entry>, k: Seq<char>) -> bool {
    exists|j: int| 0 <= j < entries.len() && (#[trigger] entries[j]).0@ == k
}

/// No text is stored twice.
pub open spec fn distinct_keys(entries: Seq<Entry>) -> bool {
    forall|i: int, j: int| 0 <= i < j < entries.len() ==> (#[trigger] entries[i]).0@ != (#[trigger] entries[j]).0@
}

/// The entries whose text the other operand has (`want`), or lacks.
pub open spec fn keep(entries: Seq<Entry>, other: Seq<Entry>, want: bool) -> Seq<Entry>
    decreases entries.len(),
{
    if entries.len() == 0 {
        Seq::empty()
    } else {
        let rest = keep(entries.drop_last(), other, want);
        if has_key(other, entries.last().0@) == want { rest.push(entries.last()) } else { rest }
    }
}

/// `acc` with each item added in turn when its text is not stored yet.
pub open spec fn add_absent(acc: Seq<Entry>, items: Seq<Entry>) -> Seq<Entry>
    decreases items.len(),
{
    if items.len() == 0 {
        acc
    } else {
        let a = add_absent(acc, items.drop_last());
        if has_key(a, items.last().0@) { a } else { a.push(items.last()) }
    }
}

/// The first position of the text `k`.
pub open spec fn key_position(entries: Seq<Entry>, k: Seq<char>) -> int
    decreases entries.len(),
{
    if entries.len() == 0 {
        -1
    } else if has_key(entries.drop_last(), k) {
        key_position(entries.drop_last(), k)
    } else if entries.last().0@ == k {
        entries.len() - 1
    } else {
        -1
    }
}

/// `acc` with each item stored in turn: a text already stored keeps its
/// place and takes the new value, a new one goes last.
pub open spec fn put_all(acc: Seq<Entry>, items: Seq<Entry>) -> Seq<Entry>
    decreases items.len(),
{
    if items.len() == 0 {
        acc
    } else {
        let a = put_all(acc, items.drop_last());
        let e = items.last();
        if has_key(a, e.0@) { a.update(key_position(a, e.0@), e) } else { a.push(e) }
    }
}

pub(crate) fn copy_entry(e: &Entry) -> (r: Entry)
    ensures
        r == *e,
{
    (e.0.clone(), copy_value(&e.1))
}

/// Where the text `k` is stored, if it is.
pub(crate) fn find_key(entries: &Vec<Entry>, k: &String) -> (r: Option<usize>)
    ensures
        match r {
            Some(i) => i < entries@.len() && entries@[i as int].0@ == k@ && i == key_position(entries@, k@),
            None => !has_key(entries@, k@),
        },
{
    let mut i: usize = 0;
    while i < entries.len()
        invariant
            0 <= i <= entries@.len(),
            !has_key(entries@.subrange(0, i as int), k@),
        decreases entries@.len() - i,
    {
        if entries[i].0 == *k {
            proof {
                lemma_key_position_first(entries@, k@, i as int);
            }
            return Some(i);
        }
        proof {
            let next = entries@.subrange(0, i + 1);
            assert forall|j: int| 0 <= j < next.len() implies (#[trigger] next[j]).0@ != k@ by {
                if j < i {
                    assert(next[j] == entries@.subrange(0, i as int)[j]);
                }
            }
        }
        i = i + 1;
    }
    assert(entries@.subrange(0, entries@.len() as int) =~= entries@);
    None
}

/// The first position of a text is where it first occurs.
proof fn lemma_key_position_first(entries: Seq<Entry>, k: Seq<char>, i: int)
    requires
        0 <= i < entries.len(),
        entries[i].0@ == k,
        !has_key(entries.subrange(0, i), k),
    ensures
        key_position(entries, k) == i,
    decreases entries.len(),
{
    let init = entries.drop_last();
    if i < entries.len() - 1 {
        assert(init.subrange(0, i) =~= entries.subrange(0, i));
        assert(init[i] == entries[i]);
        assert(has_key(init, k));
        lemma_key_position_first(init, k, i);
    } else {
        assert(init =~= entries.subrange(0, i));
    }
}

/// The entries whose text `other` has (`want`) or lacks, in order.
fn keep_exec(entries: &Vec<Entry>, other: &Vec<Entry>, want: bool) -> (out: Vec<Entry>)
    ensures
        out@ == keep(entries@, other@, want),
{
    let mut out: Vec<Entry> = Vec::new();
    let mut i: usize = 0;
    while i < entries.len()
        invariant
            0 <= i <= entries@.len(),
            out@ == keep(entries@.subrange(0, i as int), other@, want),
        decreases entries@.len() - i,
    {
        let prefix = Ghost(entries@.subrange(0, i + 1));
        assert(prefix@.drop_last() =~= entries@.subrange(0, i as int));
        let found = find_key(other, &entries[i].0).is_some();
        if found == want {
            out.push(copy_entry(&entries[i]));
        }
        i = i + 1;
    }
    assert(entries@.subrange(0, entries@.len() as int) =~= entries@);
    out
}

/// `Set.prototype.union`: the set's entries, then each other value whose
/// text is not stored yet, in order; and the size, the number of entries.
pub fn set_union(this: &Vec<Entry>, other: &Vec<Entry>) -> (r: (Vec<Entry>, usize))
    ensures
        r.0@ == add_absent(this@, other@),
        r.1 == r.0@.len(),
{
    let mut out: Vec<Entry> = Vec::new();
    let mut i: usize = 0;
    while i < this.len()
        invariant
            0 <= i <= this@.len(),
            out@ == this@.subrange(0, i as int),
        decreases this@.len() - i,
    {
        out.push(copy_entry(&this[i]));
        assert(this@.subrange(0, i + 1) =~= this@.subrange(0, i as int).push(this@[i as int]));
        i = i + 1;
    }
    assert(this@.subrange(0, this@.len() as int) =~= this@);
    let mut j: usize = 0;
    while j < other.len()
        invariant
            0 <= j <= other@.len(),
            out@ == add_absent(this@, other@.subrange(0, j as int)),
        decreases other@.len() - j,
    {
        let prefix = Ghost(other@.subrange(0, j + 1));
        assert(prefix@.drop_last() =~= other@.subrange(0, j as int));
        if find_key(&out, &other[j].0).is_none() {
            out.push(copy_entry(&other[j]));
        }
        j = j + 1;
    }
    assert(other@.subrange(0, other@.len() as int) =~= other@);
    let size = out.len();
    (out, size)
}

/// `Set.prototype.intersection`: the set's entries whose text the other
/// operand has, in order; and the size, their number.
pub fn set_intersection(this: &Vec<Entry>, other: &Vec<Entry>) -> (r: (Vec<Entry>, usize))
    ensures
        r.0@ == keep(this@, other@, true),
        r.1 == r.0@.len(),
{
    let out = keep_exec(this, other, true);
    let size = out.len();
    (out, size)
}

/// `Set.prototype.difference`: the set's entries whose text the other
/// operand lacks, in order; and the size, their number.
pub fn set_difference(this: &Vec<Entry>, other: &Vec<Entry>) -> (r: (Vec<Entry>, usize))
    ensures
        r.0@ == keep(this@, other@, false),
        r.1 == r.0@.len(),
{
    let out = keep_exec(this, other, false);
    let size = out.len();
    (out, size)
}

/// `Set.prototype.symmetricDifference`: the set's entries whose text the
/// other operand lacks, then each other value whose text the set lacks,
/// stored in turn (a repeated text keeps its first place and takes the
/// later value). The size counts the set's entries kept plus every such
/// other value, a repeated one each time, so it exceeds the number of
/// entries when the other operand repeats a text the set lacks.
pub fn set_symmetric_difference(this: &Vec<Entry>, other: &Vec<Entry>) -> (r: (Vec<Entry>, usize))
    requires
        this@.len() + other@.len() <= usize::MAX,
    ensures
        r.0@ == put_all(keep(this@, other@, false), keep(other@, this@, false)),
        r.1 == keep(this@, other@, false).len() + keep(other@, this@, false).len(),
{
    let mut out = keep_exec(this, other, false);
    let added = keep_exec(other, this, false);
    proof {
        lemma_keep_len(this@, other@, false);
        lemma_keep_len(other@, this@, false);
    }
    let mut size: usize = out.len();
    let ghost base = out@;
    let mut j: usize = 0;
    while j < added.len()
        invariant
            0 <= j <= added@.len(),
            added@.len() <= other@.len(),
            base.len() <= this@.len(),
            this@.len() + other@.len() <= usize::MAX,
            out@ == put_all(base, added@.subrange(0, j as int)),
            size == base.len() + j,
        decreases added@.len() - j,
    {
        let prefix = Ghost(added@.subrange(0, j + 1));
        assert(prefix@.drop_last() =~= added@.subrange(0, j as int));
        match find_key(&out, &added[j].0) {
            Some(p) => {
                out.set(p, copy_entry(&added[j]));
            },
            None => {
                out.push(copy_entry(&added[j]));
            },
        }
        size = size + 1;
        j = j + 1;
    }
    assert(added@.subrange(0, added@.len() as int) =~= added@);
    (out, size)
}

proof fn lemma_keep_len(entries: Seq<Entry>, other: Seq<Entry>, want: bool)
    ensures
        keep(entries, other, want).len() <= entries.len(),
    decreases entries.len(),
{
    if entries.len() > 0 {
        lemma_keep_len(entries.drop_last(), other, want);
    }
}

/// `Set.prototype.isSubsetOf`: every text of the set is one of the other
/// operand's.
pub fn set_is_subset_of(this: &Vec<Entry>, other: &Vec<Entry>) -> (r: bool)
    ensures
        r == forall|i: int| 0 <= i < this@.len() ==> has_key(other@, (#[trigger] this@[i]).0@),
{
    let mut i: usize = 0;
    while i < this.len()
        invariant
            0 <= i <= this@.len(),
            forall|k: int| 0 <= k < i ==> has_key(other@, (#[trigger] this@[k]).0@),
        decreases this@.len() - i,
    {
        if find_key(other, &this[i].0).is_none() {
            return false;
        }
        i = i + 1;
    }
    true
}

/// `Set.prototype.isSupersetOf`: every text of the other operand is
/// stored in the set.
pub fn set_is_superset_of(this: &Vec<Entry>, other: &Vec<Entry>) -> (r: bool)
    ensures
        r == forall|i: int| 0 <= i < other@.len() ==> has_key(this@, (#[trigger] other@[i]).0@),
{
    set_is_subset_of(other, this)
}

/// `Set.prototype.isDisjointFrom`: no text of the other operand is stored
/// in the set.
pub fn set_is_disjoint_from(this: &Vec<Entry>, other: &Vec<Entry>) -> (r: bool)
    ensures
        r == forall|i: int| 0 <= i < other@.len() ==> !has_key(this@, (#[trigger] other@[i]).0@),
{
    let mut i: usize = 0;
    while i < other.len()
        invariant
            0 <= i <= other@.len(),
            forall|k: int| 0 <= k < i ==> !has_key(this@, (#[trigger] other@[k]).0@),
        decreases other@.len() - i,
    {
        if find_key(this, &other[i].0).is_some() {
            return false;
        }
        i = i + 1;
    }
    true
}

// ------------------------------------------------------------------ laws

proof fn lemma_has_key_push(entries: Seq<Entry>, e: Entry, k: Seq<char>)
    ensures
        has_key(entries.push(e), k) <==> has_key(entries, k) || e.0@ == k,
{
    let p = entries.push(e);
    if has_key(entries, k) {
        let j = choose|j: int| 0 <= j < entries.len() && (#[trigger] entries[j]).0@ == k;
        assert(p[j] == entries[j]);
    }
    if e.0@ == k {
        assert(p[entries.len() as int] == e);
    }
    if has_key(p, k) {
        let j = choose|j: int| 0 <= j < p.len() && (#[trigger] p[j]).0@ == k;
        if j < entries.len() {
            assert(p[j] == entries[j]);
        }
    }
}

proof fn lemma_has_key_drop_last(entries: Seq<Entry>, k: Seq<char>)
    requires
        entries.len() > 0,
    ensures
        has_key(entries, k) <==> has_key(entries.drop_last(), k) || entries.last().0@ == k,
{
    assert(entries =~= entries.drop_last().push(entries.last()));
    lemma_has_key_push(entries.drop_last(), entries.last(), k);
}

proof fn lemma_keep_has_key(entries: Seq<Entry>, other: Seq<Entry>, want: bool, k: Seq<char>)
    ensures
        has_key(keep(entries, other, want), k) <==> has_key(entries, k) && has_key(other, k) == want,
    decreases entries.len(),
{
    if entries.len() > 0 {
        lemma_keep_has_key(entries.drop_last(), other, want, k);
        lemma_has_key_drop_last(entries, k);
        let rest = keep(entries.drop_last(), other, want);
        lemma_has_key_push(rest, entries.last(), k);
    }
}

proof fn lemma_add_absent_has_key(acc: Seq<Entry>, items: Seq<Entry>, k: Seq<char>)
    ensures
        has_key(add_absent(acc, items), k) <==> has_key(acc, k) || has_key(items, k),
    decreases items.len(),
{
    if items.len() > 0 {
        lemma_add_absent_has_key(acc, items.drop_last(), k);
        lemma_has_key_drop_last(items, k);
        let a = add_absent(acc, items.drop_last());
        lemma_has_key_push(a, items.last(), k);
        lemma_has_key_push(a, items.last(), items.last().0@);
    }
}

proof fn lemma_keep_lengths(entries: Seq<Entry>, other: Seq<Entry>)
    ensures
        keep(entries, other, true).len() + keep(entries, other, false).len() == entries.len(),
    decreases entries.len(),
{
    if entries.len() > 0 {
        lemma_keep_lengths(entries.drop_last(), other);
    }
}

proof fn lemma_keep_empty(entries: Seq<Entry>, other: Seq<Entry>, want: bool)
    ensures
        keep(entries, other, want).len() == 0 <==> forall|i: int| 0 <= i < entries.len() ==> has_key(other, (#[trigger] entries[i]).0@) != want,
    decreases entries.len(),
{
    if entries.len() > 0 {
        let init = entries.drop_last();
        lemma_keep_empty(init, other, want);
        if keep(entries, other, want).len() == 0 {
            assert forall|i: int| 0 <= i < entries.len() implies has_key(other, (#[trigger] entries[i]).0@) != want by {
                if i < init.len() {
                    assert(init[i] == entries[i]);
                }
            }
        }
        if forall|i: int| 0 <= i < entries.len() ==> has_key(other, (#[trigger] entries[i]).0@) != want {
            assert forall|i: int| 0 <= i < init.len() implies has_key(other, (#[trigger] init[i]).0@) != want by {
                assert(init[i] == entries[i]);
            }
            assert(has_key(other, entries[entries.len() - 1].0@) != want);
        }
    }
}

/// The union holds exactly the texts of both operands.
pub proof fn law_union_holds_both(this: Seq<Entry>, other: Seq<Entry>, k: Seq<char>)
    ensures
        has_key(add_absent(this, other), k) <==> has_key(this, k) || has_key(other, k),
{
    lemma_add_absent_has_key(this, other, k);
}

/// The intersection holds the set's texts that the other operand has, the
/// difference those it lacks, and together they split the set.
pub proof fn law_intersection_and_difference_split_the_set(this: Seq<Entry>, other: Seq<Entry>, k: Seq<char>)
    ensures
        has_key(keep(this, other, true), k) <==> has_key(this, k) && has_key(other, k),
        has_key(keep(this, other, false), k) <==> has_key(this, k) && !has_key(other, k),
        keep(this, other, true).len() + keep(this, other, false).len() == this.len(),
{
    lemma_keep_has_key(this, other, true, k);
    lemma_keep_has_key(this, other, false, k);
    lemma_keep_lengths(this, other);
}

/// A set is a subset of another exactly when their difference is empty,
/// and disjoint from another exactly when the other's entries that it
/// stores are none.
pub proof fn law_subset_and_disjoint_by_difference(this: Seq<Entry>, other: Seq<Entry>)
    ensures
        (forall|i: int| 0 <= i < this.len() ==> has_key(other, (#[trigger] this[i]).0@)) <==> keep(this, other, false).len() == 0,
        (forall|i: int| 0 <= i < other.len() ==> !has_key(this, (#[trigger] other[i]).0@)) <==> keep(other, this, true).len() == 0,
{
    lemma_keep_empty(this, other, false);
    lemma_keep_empty(other, this, true);
}

} // verus!
