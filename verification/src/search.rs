//! Searching a string for another: where a needle occurs, first and last.
use vstd::prelude::*;

verus! {

/// `n` occurs in `s` at position `p`.
pub open spec fn occurs_at(s: Seq<char>, n: Seq<char>, p: int) -> bool {
    0 <= p && p + n.len() <= s.len() && s.subrange(p, p + n.len()) == n
}

/// The first position at or after `p` where `n` occurs in `s`, or -1.
pub open spec fn first_occurrence_from(s: Seq<char>, n: Seq<char>, p: int) -> int
    decreases s.len() + 1 - p,
{
    if p < 0 || p + n.len() > s.len() {
        -1
    } else if s.subrange(p, p + n.len()) == n {
        p
    } else {
        first_occurrence_from(s, n, p + 1)
    }
}

/// The first position where `n` occurs in `s`, or -1 (`s.indexOf(n)`).
pub open spec fn first_occurrence(s: Seq<char>, n: Seq<char>) -> int {
    first_occurrence_from(s, n, 0)
}

/// `n` occurs somewhere in `s`.
pub open spec fn occurs_in(s: Seq<char>, n: Seq<char>) -> bool {
    exists|p: int| occurs_at(s, n, p)
}

/// `first_occurrence_from` is the least position at or after `p` where `n`
/// occurs, or -1 when it occurs at none.
pub proof fn lemma_first_occurrence_from(s: Seq<char>, n: Seq<char>, p: int)
    requires
        0 <= p,
    ensures
        first_occurrence_from(s, n, p) >= 0 ==> {
            &&& p <= first_occurrence_from(s, n, p)
            &&& occurs_at(s, n, first_occurrence_from(s, n, p))
            &&& forall|q: int| p <= q < first_occurrence_from(s, n, p) ==> !occurs_at(s, n, q)
        },
        first_occurrence_from(s, n, p) < 0 ==> first_occurrence_from(s, n, p) == -1
            && forall|q: int| p <= q ==> !occurs_at(s, n, q),
    decreases s.len() + 1 - p,
{
    if p + n.len() > s.len() {
    } else if s.subrange(p, p + n.len()) == n {
    } else {
        lemma_first_occurrence_from(s, n, p + 1);
    }
}

/// The characters of `s` at `p` are those of `n`.
pub(crate) fn window_eq(s: &Vec<char>, n: &Vec<char>, p: usize) -> (r: bool)
    requires
        p + n@.len() <= s@.len(),
    ensures
        r == (s@.subrange(p as int, p + n@.len()) == n@),
{
    let slen = s.len();
    let mut j: usize = 0;
    while j < n.len()
        invariant
            0 <= j <= n@.len(),
            slen == s@.len(),
            p + n@.len() <= s@.len(),
            forall|k: int| 0 <= k < j ==> s@[p + k] == n@[k],
        decreases n@.len() - j,
    {
        if s[p + j] != n[j] {
            assert(s@.subrange(p as int, p + n@.len())[j as int] != n@[j as int]);
            return false;
        }
        j = j + 1;
    }
    assert(s@.subrange(p as int, p + n@.len()) =~= n@);
    true
}

/// The first position at or after `start` where `n` occurs in `s`.
pub(crate) fn first_occurrence_from_exec(s: &Vec<char>, n: &Vec<char>, start: usize) -> (r: Option<usize>)
    ensures
        match r {
            Some(p) => first_occurrence_from(s@, n@, start as int) == p,
            None => first_occurrence_from(s@, n@, start as int) == -1,
        },
{
    if n.len() > s.len() || start > s.len() - n.len() {
        return None;
    }
    let last = s.len() - n.len();
    let mut p: usize = start;
    loop
        invariant
            start <= p <= last,
            last + n@.len() == s@.len(),
            first_occurrence_from(s@, n@, start as int) == first_occurrence_from(s@, n@, p as int),
        decreases last - p,
    {
        if window_eq(s, n, p) {
            return Some(p);
        }
        if p >= last {
            assert(first_occurrence_from(s@, n@, p + 1) == -1);
            return None;
        }
        p = p + 1;
    }
}

/// The first position where `n` occurs in `s`.
pub(crate) fn first_occurrence_exec(s: &Vec<char>, n: &Vec<char>) -> (r: Option<usize>)
    ensures
        match r {
            Some(p) => first_occurrence(s@, n@) == p,
            None => first_occurrence(s@, n@) == -1,
        },
{
    first_occurrence_from_exec(s, n, 0)
}

/// The last position at or before `p` where `n` occurs in `s`, or -1.
pub open spec fn last_occurrence_from(s: Seq<char>, n: Seq<char>, p: int) -> int
    decreases p + 1,
{
    if p < 0 {
        -1
    } else if occurs_at(s, n, p) {
        p
    } else {
        last_occurrence_from(s, n, p - 1)
    }
}

/// The last position where `n` occurs in `s`, or -1 (`s.rfind(n)`, counted
/// in characters).
pub open spec fn last_occurrence(s: Seq<char>, n: Seq<char>) -> int {
    last_occurrence_from(s, n, s.len() - n.len())
}

/// `last_occurrence_from` is the greatest position at or before `p` where
/// `n` occurs, or -1 when it occurs at none.
pub proof fn lemma_last_occurrence_from(s: Seq<char>, n: Seq<char>, p: int)
    ensures
        last_occurrence_from(s, n, p) >= 0 ==> {
            &&& last_occurrence_from(s, n, p) <= p
            &&& occurs_at(s, n, last_occurrence_from(s, n, p))
            &&& forall|q: int| last_occurrence_from(s, n, p) < q <= p ==> !occurs_at(s, n, q)
        },
        last_occurrence_from(s, n, p) < 0 ==> last_occurrence_from(s, n, p) == -1
            && forall|q: int| q <= p ==> !occurs_at(s, n, q),
    decreases p + 1,
{
    if p >= 0 && !occurs_at(s, n, p) {
        lemma_last_occurrence_from(s, n, p - 1);
    }
}

/// The last position where `n` occurs in `s`.
pub(crate) fn last_occurrence_exec(s: &Vec<char>, n: &Vec<char>) -> (r: Option<usize>)
    ensures
        match r {
            Some(p) => last_occurrence(s@, n@) == p,
            None => last_occurrence(s@, n@) == -1,
        },
{
    if n.len() > s.len() {
        proof {
            assert(last_occurrence_from(s@, n@, s@.len() - n@.len()) == -1);
        }
        return None;
    }
    let mut p: usize = s.len() - n.len();
    loop
        invariant
            p + n@.len() <= s@.len(),
            last_occurrence(s@, n@) == last_occurrence_from(s@, n@, p as int),
        decreases p,
    {
        if window_eq(s, n, p) {
            return Some(p);
        }
        if p == 0 {
            assert(last_occurrence_from(s@, n@, -1) == -1);
            return None;
        }
        p = p - 1;
    }
}

} // verus!
