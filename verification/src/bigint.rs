//! BigInt values as their canonical decimal text, and their numeric
//! order.
use vstd::prelude::*;
use crate::property_keys::{digits_value, is_ascii_digit};
use crate::text::chars_of;

verus! {

/// 10^n.
pub open spec fn pow10(n: nat) -> nat
    decreases n,
{
    if n == 0 { 1 } else { 10 * pow10((n - 1) as nat) }
}

/// One or more ASCII digits, without a leading zero unless it is `0`.
pub open spec fn is_digit_text(m: Seq<char>) -> bool {
    &&& m.len() > 0
    &&& forall|i: int| 0 <= i < m.len() ==> is_ascii_digit(#[trigger] m[i])
    &&& (m.len() == 1 || m[0] != '0')
}

/// The text starts with a minus sign.
pub open spec fn is_negative_text(d: Seq<char>) -> bool {
    d.len() > 0 && d[0] == '-'
}

/// The digits of the text, after any minus sign.
pub open spec fn magnitude_text(d: Seq<char>) -> Seq<char> {
    if is_negative_text(d) { d.skip(1) } else { d }
}

/// The canonical text of a BigInt: an optional `-`, then digits without a
/// leading zero (`0` for zero, never `-0`).
pub open spec fn is_canonical_bigint(d: Seq<char>) -> bool {
    is_digit_text(magnitude_text(d)) && !(is_negative_text(d) && magnitude_text(d) == seq!['0'])
}

/// The integer a canonical text denotes.
pub open spec fn bigint_value(d: Seq<char>) -> int {
    if is_negative_text(d) { -(digits_value(magnitude_text(d)) as int) } else { digits_value(magnitude_text(d)) as int }
}

/// The sign of `x`: -1, 0 or 1.
pub open spec fn sign_of(x: int) -> int {
    if x < 0 { -1 } else if x == 0 { 0 } else { 1 }
}

pub(crate) proof fn lemma_pow10_grows(m: nat, n: nat)
    requires
        m <= n,
    ensures
        1 <= pow10(m) <= pow10(n),
    decreases n,
{
    if n > m {
        lemma_pow10_grows(m, (n - 1) as nat);
    } else if n > 0 {
        lemma_pow10_grows(0, (n - 1) as nat);
    }
}

/// Digits are worth less than the next power of ten.
pub(crate) proof fn lemma_value_below(s: Seq<char>)
    requires
        forall|i: int| 0 <= i < s.len() ==> is_ascii_digit(#[trigger] s[i]),
    ensures
        digits_value(s) < pow10(s.len()),
    decreases s.len(),
{
    if s.len() > 0 {
        let init = s.drop_last();
        assert forall|i: int| 0 <= i < init.len() implies is_ascii_digit(#[trigger] init[i]) by {
            assert(init[i] == s[i]);
        }
        lemma_value_below(init);
        assert(is_ascii_digit(s[s.len() - 1]));
    }
}

/// Digits led by a non-zero digit are worth at least 10^(len - 1).
pub(crate) proof fn lemma_value_at_least(s: Seq<char>)
    requires
        s.len() > 0,
        forall|i: int| 0 <= i < s.len() ==> is_ascii_digit(#[trigger] s[i]),
        s[0] != '0',
    ensures
        digits_value(s) >= pow10((s.len() - 1) as nat),
    decreases s.len(),
{
    let init = s.drop_last();
    if s.len() == 1 {
        assert(init.len() == 0);
        assert(is_ascii_digit(s[0]));
    } else {
        assert forall|i: int| 0 <= i < init.len() implies is_ascii_digit(#[trigger] init[i]) by {
            assert(init[i] == s[i]);
        }
        assert(init[0] == s[0]);
        lemma_value_at_least(init);
        assert(is_ascii_digit(s[s.len() - 1]));
    }
}

/// The value of digits split in two.
pub(crate) proof fn lemma_value_concat(a: Seq<char>, b: Seq<char>)
    ensures
        digits_value(a + b) == digits_value(a) * pow10(b.len()) + digits_value(b),
    decreases b.len(),
{
    if b.len() == 0 {
        assert(a + b =~= a);
        assert(pow10(0) == 1);
        assert(digits_value(b) == 0);
        assert(digits_value(a) * 1 == digits_value(a));
    } else {
        let b0 = b.drop_last();
        assert((a + b).drop_last() =~= a + b0);
        assert((a + b).last() == b.last());
        lemma_value_concat(a, b0);
        let va = digits_value(a);
        let p = pow10(b0.len());
        let d = (b.last() as nat - '0' as nat) as nat;
        assert(digits_value(b) == digits_value(b0) * 10 + d);
        assert(digits_value(a + b) == digits_value(a + b0) * 10 + d);
        assert(digits_value(a + b) == (va * p + digits_value(b0)) * 10 + d);
        assert(pow10(b.len()) == 10 * p);
        assert((va * p + digits_value(b0)) * 10 + d == va * (10 * p) + (digits_value(b0) * 10 + d)) by (nonlinear_arith);
    }
}

/// Of two digit texts of one length that agree before `k` and differ at
/// `k`, the one with the smaller digit there is worth less.
proof fn lemma_value_lex(s: Seq<char>, t: Seq<char>, k: int)
    requires
        s.len() == t.len(),
        0 <= k < s.len(),
        forall|i: int| 0 <= i < s.len() ==> is_ascii_digit(#[trigger] s[i]),
        forall|i: int| 0 <= i < t.len() ==> is_ascii_digit(#[trigger] t[i]),
        forall|i: int| 0 <= i < k ==> #[trigger] s[i] == t[i],
        (s[k] as u32) < (t[k] as u32),
    ensures
        digits_value(s) < digits_value(t),
{
    let n = s.len() as int;
    let s1 = s.subrange(0, k + 1);
    let s2 = s.subrange(k + 1, n);
    let t1 = t.subrange(0, k + 1);
    let t2 = t.subrange(k + 1, n);
    assert(s =~= s1 + s2);
    assert(t =~= t1 + t2);
    lemma_value_concat(s1, s2);
    lemma_value_concat(t1, t2);
    assert(s1.drop_last() =~= t1.drop_last());
    assert(is_ascii_digit(s[k]) && is_ascii_digit(t[k]));
    assert(digits_value(s1) + 1 <= digits_value(t1));
    assert forall|i: int| 0 <= i < s2.len() implies is_ascii_digit(#[trigger] s2[i]) by {
        assert(s2[i] == s[k + 1 + i]);
    }
    lemma_value_below(s2);
    let p = pow10(s2.len());
    assert(t2.len() == s2.len());
    assert(digits_value(s1) * p + digits_value(s2) < digits_value(t1) * p + digits_value(t2)) by (nonlinear_arith)
        requires
            digits_value(s1) + 1 <= digits_value(t1),
            digits_value(s2) < p,
            digits_value(t2) >= 0,
    ;
}

/// Compares two digit texts without leading zeros by their values: -1, 0
/// or 1.
pub(crate) fn compare_magnitudes(a: &Vec<char>, a0: usize, b: &Vec<char>, b0: usize) -> (r: i8)
    requires
        a0 <= a@.len(),
        b0 <= b@.len(),
        is_digit_text(a@.skip(a0 as int)),
        is_digit_text(b@.skip(b0 as int)),
    ensures
        r == sign_of(digits_value(a@.skip(a0 as int)) - digits_value(b@.skip(b0 as int))),
{
    let ghost s = a@.skip(a0 as int);
    let ghost t = b@.skip(b0 as int);
    let la = a.len() - a0;
    let lb = b.len() - b0;
    if la != lb {
        proof {
            if la < lb {
                lemma_value_below(s);
                lemma_value_at_least(t);
                lemma_pow10_grows(la as nat, (lb - 1) as nat);
            } else {
                lemma_value_below(t);
                lemma_value_at_least(s);
                lemma_pow10_grows(lb as nat, (la - 1) as nat);
            }
        }
        return if la < lb { -1 } else { 1 };
    }
    let mut k: usize = 0;
    while k < la
        invariant
            la == lb,
            la == s.len(),
            lb == t.len(),
            s == a@.skip(a0 as int),
            t == b@.skip(b0 as int),
            a0 + la == a.len(),
            b0 + lb == b.len(),
            is_digit_text(s),
            is_digit_text(t),
            0 <= k <= la,
            forall|i: int| 0 <= i < k ==> #[trigger] s[i] == t[i],
        decreases la - k,
    {
        let x = a[a0 + k];
        let y = b[b0 + k];
        assert(s[k as int] == x);
        assert(t[k as int] == y);
        if (x as u32) < (y as u32) {
            proof {
                lemma_value_lex(s, t, k as int);
            }
            return -1;
        }
        if (x as u32) > (y as u32) {
            proof {
                lemma_value_lex(t, s, k as int);
            }
            return 1;
        }
        k = k + 1;
    }
    assert(s =~= t);
    0
}

/// Compares two BigInts, given by their canonical texts: -1, 0 or 1 as the
/// first is below, equal to or above the second.
pub fn compare_bigints(a: &str, b: &str) -> (r: i8)
    requires
        is_canonical_bigint(a@),
        is_canonical_bigint(b@),
    ensures
        r == sign_of(bigint_value(a@) - bigint_value(b@)),
{
    let ac = chars_of(a);
    let bc = chars_of(b);
    let an = ac.len() > 0 && ac[0] == '-';
    let bn = bc.len() > 0 && bc[0] == '-';
    let a0: usize = if an { 1 } else { 0 };
    let b0: usize = if bn { 1 } else { 0 };
    assert(ac@.skip(a0 as int) == magnitude_text(a@));
    assert(bc@.skip(b0 as int) == magnitude_text(b@));
    assert(a@.skip(0) =~= a@);
    assert(b@.skip(0) =~= b@);
    proof {
        lemma_nonzero_magnitude(a@);
        lemma_nonzero_magnitude(b@);
    }
    if an && !bn {
        return -1;
    }
    if !an && bn {
        return 1;
    }
    let m = compare_magnitudes(&ac, a0, &bc, b0);
    if an { -m } else { m }
}

/// A negative canonical text has a magnitude above zero.
pub(crate) proof fn lemma_nonzero_magnitude(d: Seq<char>)
    requires
        is_canonical_bigint(d),
    ensures
        is_negative_text(d) ==> digits_value(magnitude_text(d)) > 0,
{
    let m = magnitude_text(d);
    if is_negative_text(d) {
        if m.len() == 1 {
            assert(m[0] != '0') by {
                if m[0] == '0' {
                    assert(m =~= seq!['0']);
                }
            }
            assert(m.drop_last().len() == 0);
            assert(is_ascii_digit(m[0]));
        } else {
            lemma_value_at_least(m);
            lemma_pow10_grows(0, (m.len() - 1) as nat);
        }
    }
}

/// Whether a text is the canonical text of a BigInt.
pub fn is_canonical_bigint_text(d: &str) -> (r: bool)
    ensures
        r == is_canonical_bigint(d@),
{
    let mut cs = chars_of(d);
    let neg = cs.len() > 0 && cs[0] == '-';
    if neg {
        cs.remove(0);
    }
    assert(cs@ =~= magnitude_text(d@));
    if cs.len() == 0 {
        return false;
    }
    let mut i: usize = 0;
    while i < cs.len()
        invariant
            i <= cs@.len(),
            cs@ == magnitude_text(d@),
            forall|k: int| 0 <= k < i ==> is_ascii_digit(#[trigger] cs@[k]),
        decreases cs@.len() - i,
    {
        let c = cs[i];
        if !('0' <= c && c <= '9') {
            assert(!is_ascii_digit(magnitude_text(d@)[i as int]));
            return false;
        }
        i = i + 1;
    }
    if cs.len() > 1 && cs[0] == '0' {
        return false;
    }
    if neg && cs.len() == 1 && cs[0] == '0' {
        assert(magnitude_text(d@) =~= seq!['0']);
        return false;
    }
    proof {
        if is_negative_text(d@) && magnitude_text(d@) == seq!['0'] {
            assert(cs@[0] == '0');
        }
    }
    true
}

/// The order of BigInts is antisymmetric and transitive, and equality of
/// value is equality of canonical text.
pub proof fn law_bigint_order(a: Seq<char>, b: Seq<char>, c: Seq<char>)
    ensures
        sign_of(bigint_value(a) - bigint_value(b)) == -sign_of(bigint_value(b) - bigint_value(a)),
        bigint_value(a) < bigint_value(b) && bigint_value(b) < bigint_value(c) ==> bigint_value(a) < bigint_value(c),
{
}

/// Digit texts of one length with one value are the same text.
proof fn lemma_digits_injective(s: Seq<char>, t: Seq<char>)
    requires
        s.len() == t.len(),
        forall|i: int| 0 <= i < s.len() ==> is_ascii_digit(#[trigger] s[i]),
        forall|i: int| 0 <= i < t.len() ==> is_ascii_digit(#[trigger] t[i]),
        digits_value(s) == digits_value(t),
    ensures
        s == t,
    decreases s.len(),
{
    if s.len() > 0 {
        let s0 = s.drop_last();
        let t0 = t.drop_last();
        assert(is_ascii_digit(s[s.len() - 1]));
        assert(is_ascii_digit(t[t.len() - 1]));
        let ds = (s.last() as nat - '0' as nat) as int;
        let dt = (t.last() as nat - '0' as nat) as int;
        let vs = digits_value(s0) as int;
        let vt = digits_value(t0) as int;
        assert(vs * 10 + ds == vt * 10 + dt);
        assert(ds == dt && vs == vt) by (nonlinear_arith)
            requires
                vs * 10 + ds == vt * 10 + dt,
                0 <= ds < 10,
                0 <= dt < 10,
        ;
        assert forall|i: int| 0 <= i < s0.len() implies is_ascii_digit(#[trigger] s0[i]) by {
            assert(s0[i] == s[i]);
        }
        assert forall|i: int| 0 <= i < t0.len() implies is_ascii_digit(#[trigger] t0[i]) by {
            assert(t0[i] == t[i]);
        }
        lemma_digits_injective(s0, t0);
        assert(s.last() == t.last());
        assert(s =~= s0.push(s.last()));
        assert(t =~= t0.push(t.last()));
    }
}

/// A BigInt has one canonical text: two canonical texts with the same
/// value are the same text, so comparing BigInts by their text compares
/// them by value.
pub proof fn law_canonical_text_is_unique(x: Seq<char>, y: Seq<char>)
    requires
        is_canonical_bigint(x),
        is_canonical_bigint(y),
        bigint_value(x) == bigint_value(y),
    ensures
        x == y,
{
    let mx = magnitude_text(x);
    let my = magnitude_text(y);
    lemma_nonzero_magnitude(x);
    lemma_nonzero_magnitude(y);
    assert(is_negative_text(x) == is_negative_text(y)) by {
        if is_negative_text(x) && !is_negative_text(y) {
            assert(bigint_value(x) < 0);
        }
        if !is_negative_text(x) && is_negative_text(y) {
            assert(bigint_value(y) < 0);
        }
    }
    assert(digits_value(mx) == digits_value(my));
    assert(mx.len() == my.len()) by {
        if mx.len() < my.len() {
            lemma_value_below(mx);
            if my.len() > 1 {
                lemma_value_at_least(my);
                lemma_pow10_grows(mx.len(), (my.len() - 1) as nat);
            }
        }
        if my.len() < mx.len() {
            lemma_value_below(my);
            if mx.len() > 1 {
                lemma_value_at_least(mx);
                lemma_pow10_grows(my.len(), (mx.len() - 1) as nat);
            }
        }
    }
    lemma_digits_injective(mx, my);
    if is_negative_text(x) {
        assert(x =~= seq![x[0]] + mx);
        assert(y =~= seq![y[0]] + my);
    }
}

} // verus!
