//! The shared bookkeeping of `Promise.all`, `Promise.allSettled` and
//! `Promise.any` (ECMA-262 §27.2.4.1-3): one slot per input for what it
//! reports (a fulfilment value, a settlement record or a rejection reason),
//! an `[[AlreadyCalled]]` flag per input so that only its first report
//! counts, and the count of reports still awaited, plus one while inputs
//! are being registered. The combinator settles when that count reaches
//! zero, with the slots in input order.
use vstd::prelude::*;
use crate::value::Value;

verus! {

/// One combinator call's state.
#[derive(Debug)]
pub struct Aggregate {
    /// What each input reported, `undefined` until it does.
    pub slots: Vec<Value>,
    /// Whether each input's element function has been called.
    pub called: Vec<bool>,
    /// How many inputs have been registered (the first ones).
    pub registered: usize,
    /// Whether inputs are still being registered.
    pub registering: bool,
    /// Reports still awaited, plus one while registering.
    pub remaining: usize,
}

/// How many of the first `k` inputs have not reported.
pub open spec fn awaiting(called: Seq<bool>, k: int) -> nat
    decreases k,
{
    if k <= 0 {
        0
    } else {
        awaiting(called, k - 1) + if called[k - 1] { 0nat } else { 1nat }
    }
}

/// Every registered input has reported.
pub open spec fn all_reported(called: Seq<bool>, k: int) -> bool {
    forall|j: int| 0 <= j < k ==> #[trigger] called[j]
}

impl Aggregate {
    /// The count is what it stands for, and inputs not yet registered have
    /// neither reported nor filled their slot.
    pub open spec fn wf(&self) -> bool {
        &&& self.slots@.len() == self.called@.len()
        &&& self.slots@.len() < usize::MAX
        &&& self.registered <= self.slots@.len()
        &&& self.remaining == awaiting(self.called@, self.registered as int) + if self.registering { 1nat } else { 0nat }
        &&& forall|j: int| self.registered <= j < self.called@.len() ==> !#[trigger] self.called@[j]
    }

    /// The combinator is settled: registration is over and every input
    /// has reported.
    pub open spec fn complete(&self) -> bool {
        !self.registering && all_reported(self.called@, self.registered as int)
    }

    /// The state for `n` inputs: nothing registered or reported, every
    /// slot `undefined`, the count at one.
    pub fn new(n: usize) -> (a: Self)
        requires
            n < usize::MAX,
        ensures
            a.wf(),
            a.slots@ == Seq::new(n as nat, |j: int| Value::Undefined),
            a.called@ == Seq::new(n as nat, |j: int| false),
            a.registered == 0,
            a.registering,
            a.remaining == 1,
    {
        let mut slots: Vec<Value> = Vec::new();
        let mut called: Vec<bool> = Vec::new();
        let mut j: usize = 0;
        while j < n
            invariant
                0 <= j <= n,
                slots@ =~= Seq::new(j as nat, |k: int| Value::Undefined),
                called@ =~= Seq::new(j as nat, |k: int| false),
            decreases n - j,
        {
            slots.push(Value::Undefined);
            called.push(false);
            j = j + 1;
        }
        Aggregate { slots, called, registered: 0, registering: true, remaining: 1 }
    }

    /// Registers the next input while registering and inputs are left: its
    /// index, with one more report awaited. Otherwise nothing changes
    /// (`None`).
    pub fn register(&mut self) -> (i: Option<usize>)
        requires
            old(self).wf(),
        ensures
            final(self).wf(),
            final(self).slots@ == old(self).slots@,
            final(self).called@ == old(self).called@,
            final(self).registering == old(self).registering,
            if old(self).registering && old(self).registered < old(self).slots@.len() {
                &&& i == Some(old(self).registered)
                &&& final(self).registered == old(self).registered + 1
                &&& final(self).remaining == old(self).remaining + 1
            } else {
                &&& i is None
                &&& final(self).registered == old(self).registered
                &&& final(self).remaining == old(self).remaining
            },
    {
        if self.registering && self.registered < self.slots.len() {
            let i = self.registered;
            proof {
                lemma_awaiting_bounded(self.called@, self.registered as int);
            }
            assert(!self.called@[i as int]);
            self.registered = i + 1;
            self.remaining = self.remaining + 1;
            Some(i)
        } else {
            None
        }
    }

    /// The end of registration: the extra count is dropped; `true` when
    /// that settles the combinator (every input has reported). Calls after
    /// the first change nothing and answer `false`.
    pub fn end_registration(&mut self) -> (settles: bool)
        requires
            old(self).wf(),
        ensures
            final(self).wf(),
            final(self).slots@ == old(self).slots@,
            final(self).called@ == old(self).called@,
            final(self).registered == old(self).registered,
            !final(self).registering,
            old(self).registering ==> final(self).remaining == old(self).remaining - 1,
            !old(self).registering ==> *final(self) == *old(self),
            settles <==> old(self).registering && final(self).complete(),
    {
        if !self.registering {
            return false;
        }
        self.registering = false;
        self.remaining = self.remaining - 1;
        proof {
            lemma_awaiting_zero(self.called@, self.registered as int);
        }
        self.remaining == 0
    }

    /// The element function of input `i` called with `v`: on its first
    /// call the slot takes `v` and one report fewer is awaited; `true` when
    /// that settles the combinator. A later call, or one for an input not
    /// registered, changes nothing and answers `false`.
    pub fn report(&mut self, i: usize, v: Value) -> (settles: bool)
        requires
            old(self).wf(),
        ensures
            final(self).wf(),
            final(self).registered == old(self).registered,
            final(self).registering == old(self).registering,
            if i < old(self).registered && !old(self).called@[i as int] {
                &&& final(self).slots@ == old(self).slots@.update(i as int, v)
                &&& final(self).called@ == old(self).called@.update(i as int, true)
                &&& final(self).remaining == old(self).remaining - 1
                &&& (settles <==> final(self).complete())
            } else {
                &&& *final(self) == *old(self)
                &&& !settles
            },
    {
        if i >= self.registered || self.called[i] {
            return false;
        }
        let ghost before = self.called@;
        proof {
            lemma_awaiting_flip(before, self.registered as int, i as int);
        }
        self.called.set(i, true);
        self.slots.set(i, v);
        self.remaining = self.remaining - 1;
        proof {
            lemma_awaiting_zero(self.called@, self.registered as int);
        }
        self.remaining == 0
    }
}

proof fn lemma_awaiting_bounded(called: Seq<bool>, k: int)
    requires
        0 <= k <= called.len(),
    ensures
        awaiting(called, k) <= k,
    decreases k,
{
    if k > 0 {
        lemma_awaiting_bounded(called, k - 1);
    }
}

/// No report is awaited exactly when every input up to `k` has reported.
proof fn lemma_awaiting_zero(called: Seq<bool>, k: int)
    requires
        0 <= k <= called.len(),
    ensures
        awaiting(called, k) == 0 <==> all_reported(called, k),
    decreases k,
{
    if k > 0 {
        lemma_awaiting_zero(called, k - 1);
    }
}

/// A report from an input that had not reported lowers the count by one.
proof fn lemma_awaiting_flip(called: Seq<bool>, k: int, i: int)
    requires
        0 <= i < k <= called.len(),
        !called[i],
    ensures
        awaiting(called.update(i, true), k) + 1 == awaiting(called, k),
    decreases k,
{
    if k - 1 > i {
        lemma_awaiting_flip(called, k - 1, i);
    } else {
        lemma_awaiting_same_prefix(called, called.update(i, true), k - 1);
    }
}

proof fn lemma_awaiting_same_prefix(a: Seq<bool>, b: Seq<bool>, k: int)
    requires
        0 <= k <= a.len(),
        k <= b.len(),
        forall|j: int| 0 <= j < k ==> a[j] == b[j],
    ensures
        awaiting(a, k) == awaiting(b, k),
    decreases k,
{
    if k > 0 {
        lemma_awaiting_same_prefix(a, b, k - 1);
    }
}

/// A combinator settles once: in a settled state no input is left to
/// register and none can still report, so by the contracts of `register`,
/// `end_registration` and `report` every later call changes nothing and
/// settles nothing. And while registration goes on, nothing settles.
pub proof fn law_settles_at_most_once(a: Aggregate)
    requires
        a.wf(),
    ensures
        a.complete() ==> !a.registering && forall|i: int| 0 <= i < a.registered ==> #[trigger] a.called@[i],
        a.complete() <==> a.remaining == 0,
        a.registering ==> a.remaining > 0,
{
    lemma_awaiting_zero(a.called@, a.registered as int);
}

} // verus!
