//! Addition of BigInts on their canonical decimal texts: digit by digit
//! with a carry, or, for operands of opposite signs, a subtraction of the
//! smaller magnitude from the larger with a borrow.
use vstd::prelude::*;
use crate::bigint::{
    bigint_value, is_canonical_bigint, is_digit_text, is_negative_text, magnitude_text, sign_of, pow10,
    compare_magnitudes, lemma_pow10_grows, lemma_value_below, lemma_value_concat, lemma_value_at_least,
    lemma_nonzero_magnitude,
};
use crate::bigint_number::all_digits;
use vstd::arithmetic::div_mod::lemma_fundamental_div_mod;
use crate::property_keys::{digits_value, is_ascii_digit};
use crate::text::{chars_of, push_char, decimal, digit_char, append_decimal};
use vstd::arithmetic::power2::{pow2, lemma_pow2_adds, lemma2_to64};
use crate::interp::RuntimeError;

verus! {

/// The last `i` digits of `s` (all of them when `i` is larger).
pub open spec fn low_digits(s: Seq<char>, i: int) -> Seq<char> {
    if i >= s.len() { s } else { s.skip(s.len() - i) }
}

/// The character of a digit.
fn digit_char_of(d: u32) -> (c: char)
    requires
        d < 10,
    ensures
        is_ascii_digit(c),
        c as nat - '0' as nat == d,
{
    if d == 0 { '0' }
    else if d == 1 { '1' }
    else if d == 2 { '2' }
    else if d == 3 { '3' }
    else if d == 4 { '4' }
    else if d == 5 { '5' }
    else if d == 6 { '6' }
    else if d == 7 { '7' }
    else if d == 8 { '8' }
    else { '9' }
}

/// One digit is worth its value.
proof fn lemma_single_digit(c: char)
    requires
        is_ascii_digit(c),
    ensures
        digits_value(seq![c]) == c as nat - '0' as nat,
{
    assert(seq![c].drop_last() =~= Seq::<char>::empty());
    assert(digits_value(seq![c].drop_last()) == 0);
    assert(seq![c].last() == c);
}

/// Taking one more low digit adds that digit at its place.
proof fn lemma_low_digits_step(s: Seq<char>, i: int)
    requires
        0 <= i,
        all_digits(s),
    ensures
        all_digits(low_digits(s, i)),
        digits_value(low_digits(s, i)) < pow10(i as nat),
        i < s.len() ==> digits_value(low_digits(s, i + 1))
            == (s[s.len() - 1 - i] as nat - '0' as nat) * pow10(i as nat) + digits_value(low_digits(s, i)),
        i >= s.len() ==> low_digits(s, i + 1) == low_digits(s, i),
{
    let l = low_digits(s, i);
    assert forall|j: int| 0 <= j < l.len() implies is_ascii_digit(#[trigger] l[j]) by {
        if i < s.len() {
            assert(l[j] == s[s.len() - i + j]);
        }
    }
    lemma_value_below(l);
    lemma_pow10_grows(l.len(), i as nat);
    if i < s.len() {
        let c = s[s.len() - 1 - i];
        assert(low_digits(s, i + 1) =~= seq![c] + l);
        lemma_value_concat(seq![c], l);
        lemma_single_digit(c);
    }
}

/// Digits that are all zeros are worth nothing.
proof fn lemma_zeros(s: Seq<char>)
    requires
        forall|j: int| 0 <= j < s.len() ==> #[trigger] s[j] == '0',
    ensures
        digits_value(s) == 0,
    decreases s.len(),
{
    if s.len() > 0 {
        lemma_zeros(s.drop_last());
    }
}

/// Drops leading zeros, keeping at least one digit: the same value, in
/// canonical digits.
fn strip_zeros(ds: Vec<char>) -> (r: Vec<char>)
    requires
        all_digits(ds@),
        ds@.len() > 0,
    ensures
        is_digit_text(r@),
        digits_value(r@) == digits_value(ds@),
{
    let mut k: usize = 0;
    while k < ds.len() - 1 && ds[k] == '0'
        invariant
            k < ds@.len(),
            ds@.len() > 0,
            forall|j: int| 0 <= j < k ==> #[trigger] ds@[j] == '0',
        decreases ds@.len() - k,
    {
        k = k + 1;
    }
    let mut out: Vec<char> = Vec::new();
    let mut i: usize = k;
    while i < ds.len()
        invariant
            k <= i <= ds@.len(),
            out@ =~= ds@.subrange(k as int, i as int),
        decreases ds@.len() - i,
    {
        out.push(ds[i]);
        i = i + 1;
    }
    proof {
        assert(ds@ =~= ds@.take(k as int) + out@);
        lemma_zeros(ds@.take(k as int));
        lemma_value_concat(ds@.take(k as int), out@);
        assert(digits_value(ds@.take(k as int)) * pow10(out@.len()) == 0) by (nonlinear_arith)
            requires
                digits_value(ds@.take(k as int)) == 0,
        ;
        assert forall|j: int| 0 <= j < out@.len() implies is_ascii_digit(#[trigger] out@[j]) by {
            assert(out@[j] == ds@[k + j]);
        }
    }
    out
}

/// Adds two digit texts.
fn add_magnitudes(a: &Vec<char>, b: &Vec<char>) -> (r: Vec<char>)
    requires
        all_digits(a@),
        all_digits(b@),
        a@.len() > 0,
        b@.len() > 0,
    ensures
        is_digit_text(r@),
        digits_value(r@) == digits_value(a@) + digits_value(b@),
{
    let n: usize = if a.len() > b.len() { a.len() } else { b.len() };
    let mut out: Vec<char> = Vec::new();
    let mut carry: u32 = 0;
    let mut i: usize = 0;
    while i < n
        invariant
            n == if a@.len() > b@.len() { a@.len() } else { b@.len() },
            i <= n,
            all_digits(a@),
            all_digits(b@),
            all_digits(out@),
            out@.len() == i,
            carry < 2,
            digits_value(out@) + carry * pow10(i as nat)
                == digits_value(low_digits(a@, i as int)) + digits_value(low_digits(b@, i as int)),
        decreases n - i,
    {
        proof {
            lemma_low_digits_step(a@, i as int);
            lemma_low_digits_step(b@, i as int);
        }
        let da: u32 = if i < a.len() { (a[a.len() - 1 - i] as u32) - ('0' as u32) } else { 0 };
        let db: u32 = if i < b.len() { (b[b.len() - 1 - i] as u32) - ('0' as u32) } else { 0 };
        proof {
            if i < a@.len() {
                assert(is_ascii_digit(a@[a@.len() - 1 - i]));
            }
            if i < b@.len() {
                assert(is_ascii_digit(b@[b@.len() - 1 - i]));
            }
        }
        let s: u32 = da + db + carry;
        let c = digit_char_of(s % 10);
        let ghost old_out = out@;
        let ghost p = pow10(i as nat);
        out.insert(0, c);
        proof {
            assert(out@ =~= seq![c] + old_out);
            lemma_value_concat(seq![c], old_out);
            lemma_single_digit(c);
            assert(pow10((i + 1) as nat) == 10 * p);
            let la = digits_value(low_digits(a@, i as int));
            let lb = digits_value(low_digits(b@, i as int));
            let la1 = digits_value(low_digits(a@, i + 1));
            let lb1 = digits_value(low_digits(b@, i + 1));
            assert(la1 == da * p + la);
            assert(lb1 == db * p + lb);
            let o = digits_value(old_out);
            assert(s % 10 + 10 * (s / 10) == s);
            assert((s % 10) as int * p + o + (s / 10) as int * (10 * p) == la1 + lb1) by (nonlinear_arith)
                requires
                    o + carry * p == la + lb,
                    la1 == da * p + la,
                    lb1 == db * p + lb,
                    s == da + db + carry,
                    s % 10 + 10 * (s / 10) == s,
            ;
            assert forall|j: int| 0 <= j < out@.len() implies is_ascii_digit(#[trigger] out@[j]) by {
                if j > 0 {
                    assert(out@[j] == old_out[j - 1]);
                }
            }
        }
        carry = s / 10;
        i = i + 1;
    }
    proof {
        assert(low_digits(a@, n as int) == a@);
        assert(low_digits(b@, n as int) == b@);
    }
    if carry > 0 {
        let ghost old_out = out@;
        out.insert(0, '1');
        proof {
            assert(out@ =~= seq!['1'] + old_out);
            lemma_value_concat(seq!['1'], old_out);
            lemma_single_digit('1');
            assert forall|j: int| 0 <= j < out@.len() implies is_ascii_digit(#[trigger] out@[j]) by {
                if j > 0 {
                    assert(out@[j] == old_out[j - 1]);
                }
            }
        }
    }
    strip_zeros(out)
}

/// Subtracts a digit text from one worth at least as much.
fn sub_magnitudes(a: &Vec<char>, b: &Vec<char>) -> (r: Vec<char>)
    requires
        all_digits(a@),
        all_digits(b@),
        a@.len() > 0,
        b@.len() > 0,
        digits_value(a@) >= digits_value(b@),
    ensures
        is_digit_text(r@),
        digits_value(r@) == digits_value(a@) - digits_value(b@),
{
    let n: usize = if a.len() > b.len() { a.len() } else { b.len() };
    let mut out: Vec<char> = Vec::new();
    let mut borrow: u32 = 0;
    let mut i: usize = 0;
    while i < n
        invariant
            n == if a@.len() > b@.len() { a@.len() } else { b@.len() },
            i <= n,
            all_digits(a@),
            all_digits(b@),
            all_digits(out@),
            out@.len() == i,
            borrow < 2,
            digits_value(out@) - borrow * pow10(i as nat)
                == digits_value(low_digits(a@, i as int)) - digits_value(low_digits(b@, i as int)),
        decreases n - i,
    {
        proof {
            lemma_low_digits_step(a@, i as int);
            lemma_low_digits_step(b@, i as int);
        }
        let da: u32 = if i < a.len() { (a[a.len() - 1 - i] as u32) - ('0' as u32) } else { 0 };
        let db: u32 = if i < b.len() { (b[b.len() - 1 - i] as u32) - ('0' as u32) } else { 0 };
        proof {
            if i < a@.len() {
                assert(is_ascii_digit(a@[a@.len() - 1 - i]));
            }
            if i < b@.len() {
                assert(is_ascii_digit(b@[b@.len() - 1 - i]));
            }
        }
        let t: u32 = db + borrow;
        let (d, nb): (u32, u32) = if da >= t { (da - t, 0) } else { (da + 10 - t, 1) };
        let c = digit_char_of(d);
        let ghost old_out = out@;
        let ghost p = pow10(i as nat);
        out.insert(0, c);
        proof {
            assert(out@ =~= seq![c] + old_out);
            lemma_value_concat(seq![c], old_out);
            lemma_single_digit(c);
            assert(pow10((i + 1) as nat) == 10 * p);
            let la = digits_value(low_digits(a@, i as int));
            let lb = digits_value(low_digits(b@, i as int));
            let la1 = digits_value(low_digits(a@, i + 1));
            let lb1 = digits_value(low_digits(b@, i + 1));
            let o = digits_value(old_out);
            assert(d as int * p + o - nb as int * (10 * p) == la1 - lb1) by (nonlinear_arith)
                requires
                    o - borrow * p == la - lb,
                    la1 == da * p + la,
                    lb1 == db * p + lb,
                    d + t == da + 10 * nb,
                    t == db + borrow,
            ;
            assert forall|j: int| 0 <= j < out@.len() implies is_ascii_digit(#[trigger] out@[j]) by {
                if j > 0 {
                    assert(out@[j] == old_out[j - 1]);
                }
            }
        }
        borrow = nb;
        i = i + 1;
    }
    proof {
        assert(low_digits(a@, n as int) == a@);
        assert(low_digits(b@, n as int) == b@);
        lemma_value_below(out@);
        if borrow > 0 {
            assert(digits_value(out@) - pow10(n as nat) < 0);
        }
    }
    strip_zeros(out)
}

/// Multiplies a digit text by one digit.
fn mul_digit(a: &Vec<char>, d: u32) -> (r: Vec<char>)
    requires
        all_digits(a@),
        a@.len() > 0,
        d < 10,
    ensures
        is_digit_text(r@),
        digits_value(r@) == digits_value(a@) * d,
{
    let n = a.len();
    let mut out: Vec<char> = Vec::new();
    let mut carry: u32 = 0;
    let mut i: usize = 0;
    proof {
        assert(low_digits(a@, 0) =~= Seq::<char>::empty());
        assert(digits_value(Seq::<char>::empty()) == 0);
        assert(0 * d == 0);
    }
    while i < n
        invariant
            n == a@.len(),
            i <= n,
            d < 10,
            all_digits(a@),
            all_digits(out@),
            out@.len() == i,
            carry < 10,
            digits_value(out@) + carry * pow10(i as nat) == digits_value(low_digits(a@, i as int)) * d,
        decreases n - i,
    {
        proof {
            lemma_low_digits_step(a@, i as int);
            assert(is_ascii_digit(a@[a@.len() - 1 - i]));
        }
        let da: u32 = (a[n - 1 - i] as u32) - ('0' as u32);
        assert(da < 10);
        assert(da * d <= 81) by (nonlinear_arith)
            requires
                da < 10,
                d < 10,
        ;
        let s: u32 = da * d + carry;
        let c = digit_char_of(s % 10);
        let ghost old_out = out@;
        let ghost p = pow10(i as nat);
        out.insert(0, c);
        proof {
            assert(out@ =~= seq![c] + old_out);
            lemma_value_concat(seq![c], old_out);
            lemma_single_digit(c);
            assert(pow10((i + 1) as nat) == 10 * p);
            let la = digits_value(low_digits(a@, i as int));
            let la1 = digits_value(low_digits(a@, i + 1));
            let o = digits_value(old_out);
            assert(s % 10 + 10 * (s / 10) == s);
            assert((s % 10) as int * p + o + (s / 10) as int * (10 * p) == la1 * d) by (nonlinear_arith)
                requires
                    o + carry * p == la * d,
                    la1 == da * p + la,
                    s == da * d + carry,
                    s % 10 + 10 * (s / 10) == s,
            ;
            assert forall|j: int| 0 <= j < out@.len() implies is_ascii_digit(#[trigger] out@[j]) by {
                if j > 0 {
                    assert(out@[j] == old_out[j - 1]);
                }
            }
        }
        carry = s / 10;
        i = i + 1;
    }
    proof {
        assert(low_digits(a@, n as int) == a@);
    }
    let c = digit_char_of(carry);
    let ghost old_out = out@;
    out.insert(0, c);
    proof {
        assert(out@ =~= seq![c] + old_out);
        lemma_value_concat(seq![c], old_out);
        lemma_single_digit(c);
        assert forall|j: int| 0 <= j < out@.len() implies is_ascii_digit(#[trigger] out@[j]) by {
            if j > 0 {
                assert(out@[j] == old_out[j - 1]);
            }
        }
    }
    strip_zeros(out)
}

/// Multiplies two digit texts.
fn mul_magnitudes(a: &Vec<char>, b: &Vec<char>) -> (r: Vec<char>)
    requires
        all_digits(a@),
        all_digits(b@),
        a@.len() > 0,
        b@.len() > 0,
    ensures
        is_digit_text(r@),
        digits_value(r@) == digits_value(a@) * digits_value(b@),
{
    let n = b.len();
    let mut acc: Vec<char> = Vec::new();
    acc.push('0');
    proof {
        assert(acc@ =~= seq!['0']);
        lemma_single_digit('0');
        assert(low_digits(b@, 0) =~= Seq::<char>::empty());
        assert(digits_value(Seq::<char>::empty()) == 0);
        assert(digits_value(low_digits(b@, 0)) == 0);
        assert(digits_value(a@) * 0 == 0);
    }
    let mut j: usize = 0;
    while j < n
        invariant
            n == b@.len(),
            j <= n,
            all_digits(a@),
            all_digits(b@),
            a@.len() > 0,
            is_digit_text(acc@),
            all_digits(acc@),
            acc@.len() > 0,
            digits_value(acc@) == digits_value(a@) * digits_value(low_digits(b@, j as int)),
        decreases n - j,
    {
        proof {
            lemma_low_digits_step(b@, j as int);
            assert(is_ascii_digit(b@[b@.len() - 1 - j]));
        }
        let db: u32 = (b[n - 1 - j] as u32) - ('0' as u32);
        let mut part = mul_digit(a, db);
        let ghost pv = digits_value(part@);
        let ghost before = part@;
        proof {
            assert(before + Seq::new(0, |x: int| '0') =~= before);
            assert(pow10(0) == 1);
        }
        let mut k: usize = 0;
        while k < j
            invariant
                k <= j,
                all_digits(part@),
                part@.len() > 0,
                part@ =~= before + Seq::new(k as nat, |x: int| '0'),
                digits_value(part@) == pv * pow10(k as nat),
            decreases j - k,
        {
            let ghost prev = part@;
            part.push('0');
            proof {
                assert(part@ =~= before + Seq::new((k + 1) as nat, |x: int| '0'));
                assert(part@ =~= prev.push('0'));
                assert(part@.drop_last() =~= prev);
                assert(pow10((k + 1) as nat) == 10 * pow10(k as nat));
                assert(digits_value(part@) == digits_value(prev) * 10);
                assert(pv * pow10(k as nat) * 10 == pv * (10 * pow10(k as nat))) by (nonlinear_arith);
                assert forall|x: int| 0 <= x < part@.len() implies is_ascii_digit(#[trigger] part@[x]) by {
                    if x < prev.len() {
                        assert(part@[x] == prev[x]);
                    }
                }
            }
            k = k + 1;
        }
        let ghost av = digits_value(acc@);
        acc = add_magnitudes(&acc, &part);
        proof {
            let p = pow10(j as nat);
            let x = digits_value(a@) as int;
            let lb = digits_value(low_digits(b@, j as int)) as int;
            let lb1 = digits_value(low_digits(b@, j + 1)) as int;
            assert(lb1 == db * p + lb);
            assert(x * lb1 == x * lb + x * db * p) by (nonlinear_arith)
                requires
                    lb1 == db * p + lb,
            ;
        }
        j = j + 1;
    }
    proof {
        assert(low_digits(b@, n as int) == b@);
    }
    acc
}

/// Divides a digit text by a non-zero digit text: the quotient and the
/// remainder, by long division.
fn divmod_magnitudes(a: &Vec<char>, b: &Vec<char>) -> (r: (Vec<char>, Vec<char>))
    requires
        all_digits(a@),
        a@.len() > 0,
        is_digit_text(b@),
        digits_value(b@) > 0,
    ensures
        is_digit_text(r.0@),
        is_digit_text(r.1@),
        digits_value(r.0@) == digits_value(a@) / digits_value(b@),
        digits_value(r.1@) == digits_value(a@) % digits_value(b@),
{
    let ghost bv = digits_value(b@) as int;
    let mut q: Vec<char> = Vec::new();
    let mut rem: Vec<char> = Vec::new();
    rem.push('0');
    proof {
        assert(rem@ =~= seq!['0']);
        lemma_single_digit('0');
        assert(a@.take(0) =~= Seq::<char>::empty());
        assert(digits_value(Seq::<char>::empty()) == 0);
        assert(b@.skip(0) =~= b@);
    }
    let mut i: usize = 0;
    while i < a.len()
        invariant
            i <= a@.len(),
            all_digits(a@),
            is_digit_text(b@),
            bv == digits_value(b@),
            bv > 0,
            b@.skip(0) == b@,
            all_digits(q@),
            q@.len() == i,
            is_digit_text(rem@),
            digits_value(a@.take(i as int)) == digits_value(q@) * bv + digits_value(rem@),
            digits_value(rem@) < bv,
        decreases a@.len() - i,
    {
        proof {
            assert(is_ascii_digit(a@[i as int]));
            assert(a@.take(i + 1).drop_last() =~= a@.take(i as int));
            assert(a@.take(i + 1).last() == a@[i as int]);
        }
        let ghost rv = digits_value(rem@) as int;
        let ghost d = (a@[i as int] as nat - '0' as nat) as int;
        let mut t0 = rem;
        let ghost rs = t0@;
        t0.push(a[i]);
        proof {
            assert(t0@.drop_last() =~= rs);
            assert forall|j: int| 0 <= j < t0@.len() implies is_ascii_digit(#[trigger] t0@[j]) by {
                if j < rs.len() {
                    assert(t0@[j] == rs[j]);
                }
            }
        }
        let mut t = strip_zeros(t0);
        let ghost tv0 = rv * 10 + d;
        assert(digits_value(t@) == tv0);
        assert(tv0 < 10 * bv);
        let mut c: u32 = 0;
        proof {
            assert(t@.skip(0) =~= t@);
        }
        let mut more = compare_magnitudes(&t, 0, b, 0) >= 0;
        while more
            invariant
                is_digit_text(b@),
                bv == digits_value(b@),
                bv > 0,
                b@.skip(0) == b@,
                is_digit_text(t@),
                t@.skip(0) == t@,
                c < 10,
                tv0 < 10 * bv,
                digits_value(t@) == tv0 - c * bv,
                more == (digits_value(t@) >= bv),
            decreases 10 - c,
        {
            proof {
                assert((c + 1) * bv <= tv0) by (nonlinear_arith)
                    requires
                        tv0 - c * bv >= bv,
                ;
                assert(c + 1 < 10) by (nonlinear_arith)
                    requires
                        (c + 1) * bv <= tv0,
                        tv0 < 10 * bv,
                        bv > 0,
                ;
            }
            t = sub_magnitudes(&t, b);
            proof {
                assert(tv0 - c * bv - bv == tv0 - (c + 1) * bv) by (nonlinear_arith);
                assert(t@.skip(0) =~= t@);
            }
            c = c + 1;
            more = compare_magnitudes(&t, 0, b, 0) >= 0;
        }
        let ghost q0 = q@;
        let ghost qv = digits_value(q0) as int;
        q.push(digit_char_of(c));
        proof {
            assert(q@.drop_last() =~= q0);
            assert(digits_value(q@) == qv * 10 + c);
            assert(digits_value(a@.take(i + 1)) == digits_value(a@.take(i as int)) * 10 + d);
            assert((qv * bv + rv) * 10 + d == (qv * 10 + c) * bv + (tv0 - c * bv)) by (nonlinear_arith)
                requires
                    tv0 == rv * 10 + d,
            ;
        }
        rem = t;
        i = i + 1;
    }
    proof {
        assert(a@.take(a@.len() as int) =~= a@);
        vstd::arithmetic::div_mod::lemma_fundamental_div_mod_converse(
            digits_value(a@) as int, bv, digits_value(q@) as int, digits_value(rem@) as int);
    }
    (strip_zeros(q), rem)
}

/// The decimal rendering of `n` is a digit text worth `n`.
pub(crate) proof fn lemma_decimal_value(n: nat)
    ensures
        all_digits(decimal(n)),
        decimal(n).len() > 0,
        digits_value(decimal(n)) == n,
    decreases n,
{
    if n >= 10 {
        lemma_decimal_value(n / 10);
        let d = decimal(n);
        assert(d == decimal(n / 10).push(digit_char(n % 10)));
        assert(d.drop_last() =~= decimal(n / 10));
        assert forall|i: int| 0 <= i < d.len() implies is_ascii_digit(#[trigger] d[i]) by {
            if i < d.len() - 1 {
                assert(d[i] == decimal(n / 10)[i]);
            }
        }
    } else {
        assert(decimal(n).drop_last() =~= Seq::<char>::empty());
        assert(digits_value(Seq::<char>::empty()) == 0);
    }
}

/// What a decimal text reads as, as a BigInt: an optional `+` or `-`, then
/// one or more ASCII digits (leading zeros allowed); `None` for any other
/// text.
pub open spec fn decimal_bigint_value(s: Seq<char>) -> Option<int> {
    let signed = s.len() > 0 && (s[0] == '-' || s[0] == '+');
    let d = if signed { s.skip(1) } else { s };
    if d.len() > 0 && all_digits(d) {
        Some(if s.len() > 0 && s[0] == '-' { -(digits_value(d) as int) } else { digits_value(d) as int })
    } else {
        None
    }
}

/// Reads a decimal text as a BigInt, as `decimal_bigint_value` says: its
/// canonical text.
pub fn bigint_from_decimal(s: &str) -> (r: Option<String>)
    ensures
        match decimal_bigint_value(s@) {
            Some(v) => r matches Some(t) && is_canonical_bigint(t@) && bigint_value(t@) == v,
            None => r is None,
        },
{
    let mut cs = chars_of(s);
    let neg = cs.len() > 0 && cs[0] == '-';
    let signed = cs.len() > 0 && (cs[0] == '-' || cs[0] == '+');
    if signed {
        cs.remove(0);
    }
    let ghost d = if signed { s@.skip(1) } else { s@ };
    assert(cs@ =~= d);
    assert(signed == (s@.len() > 0 && (s@[0] == '-' || s@[0] == '+')));
    if cs.len() == 0 {
        return None;
    }
    let mut i: usize = 0;
    while i < cs.len()
        invariant
            i <= cs@.len(),
            cs@ == d,
            d == if signed { s@.skip(1) } else { s@ },
            signed == (s@.len() > 0 && (s@[0] == '-' || s@[0] == '+')),
            forall|k: int| 0 <= k < i ==> is_ascii_digit(#[trigger] cs@[k]),
        decreases cs@.len() - i,
    {
        let c = cs[i];
        if !('0' <= c && c <= '9') {
            assert(d[i as int] == c);
            assert(!is_ascii_digit(d[i as int]));
            assert(!all_digits(d));
            assert(signed == (s@.len() > 0 && (s@[0] == '-' || s@[0] == '+')));
            assert(decimal_bigint_value(s@) is None);
            return None;
        }
        i = i + 1;
    }
    let m = strip_zeros(cs);
    Some(signed_text(neg, &m))
}

/// The canonical text of the integer `±m · 2^s`.
pub(crate) fn integer_text(neg: bool, m: u64, s: u64) -> (r: String)
    ensures
        is_canonical_bigint(r@),
        bigint_value(r@) == if neg { -(m * pow2(s as nat)) } else { m * pow2(s as nat) },
{
    let mut t = String::new();
    append_decimal(&mut t, m as u128);
    let mut x = chars_of(t.as_str());
    proof {
        lemma_decimal_value(m as nat);
        assert(x@ =~= decimal(m as nat));
        lemma2_to64();
        assert(m * pow2(0) == m);
    }
    let mut j: u64 = 0;
    while j < s
        invariant
            j <= s,
            all_digits(x@),
            x@.len() > 0,
            digits_value(x@) == m * pow2(j as nat),
        decreases s - j,
    {
        let y = add_magnitudes(&x, &x);
        proof {
            lemma_pow2_adds(j as nat, 1);
            lemma2_to64();
            assert(m * pow2(j as nat) + m * pow2(j as nat) == m * pow2((j + 1) as nat)) by (nonlinear_arith)
                requires
                    pow2((j + 1) as nat) == pow2(j as nat) * 2,
            ;
        }
        x = y;
        j = j + 1;
    }
    let z = strip_zeros(x);
    signed_text(neg, &z)
}

/// The canonical text of a sign and a magnitude: a `-` before the digits
/// when negative and not zero.
fn signed_text(neg: bool, m: &Vec<char>) -> (r: String)
    requires
        is_digit_text(m@),
    ensures
        is_canonical_bigint(r@),
        bigint_value(r@) == if neg { -(digits_value(m@) as int) } else { digits_value(m@) as int },
{
    let zero = m.len() == 1 && m[0] == '0';
    proof {
        if zero {
            assert(m@ =~= seq!['0']);
            lemma_single_digit('0');
        } else {
            lemma_value_at_least(m@);
            lemma_pow10_grows(0, (m@.len() - 1) as nat);
        }
    }
    let mut out = String::new();
    let with_sign = neg && !zero;
    if with_sign {
        push_char(&mut out, '-');
    }
    let ghost start = out@;
    let mut i: usize = 0;
    while i < m.len()
        invariant
            i <= m@.len(),
            out@ =~= start + m@.take(i as int),
        decreases m@.len() - i,
    {
        push_char(&mut out, m[i]);
        i = i + 1;
    }
    proof {
        assert(m@.take(m@.len() as int) =~= m@);
        assert(is_ascii_digit(m@[0]));
        if with_sign {
            assert(out@ =~= seq!['-'] + m@);
            assert(magnitude_text(out@) =~= m@);
        } else {
            assert(out@ =~= m@);
            assert(!is_negative_text(out@));
        }
    }
    out
}

/// The digits of a canonical text, without its sign.
fn magnitude_of(a: &str) -> (r: (bool, Vec<char>))
    requires
        is_canonical_bigint(a@),
    ensures
        r.0 == is_negative_text(a@),
        r.1@ == magnitude_text(a@),
        is_digit_text(r.1@),
        all_digits(r.1@),
{
    let mut cs = chars_of(a);
    let neg = cs.len() > 0 && cs[0] == '-';
    if neg {
        cs.remove(0);
    }
    assert(cs@ =~= magnitude_text(a@));
    (neg, cs)
}

/// The sum of two BigInts, taken and given as canonical texts.
pub(crate) fn bigint_add(a: &str, b: &str) -> (r: String)
    requires
        is_canonical_bigint(a@),
        is_canonical_bigint(b@),
    ensures
        is_canonical_bigint(r@),
        bigint_value(r@) == bigint_value(a@) + bigint_value(b@),
{
    let (an, am) = magnitude_of(a);
    let (bn, bm) = magnitude_of(b);
    let ghost x = digits_value(am@) as int;
    let ghost y = digits_value(bm@) as int;
    proof {
        lemma_nonzero_magnitude(a@);
        lemma_nonzero_magnitude(b@);
    }
    if an == bn {
        let m = add_magnitudes(&am, &bm);
        signed_text(an, &m)
    } else {
        assert(am@.skip(0) =~= am@);
        assert(bm@.skip(0) =~= bm@);
        let o = compare_magnitudes(&am, 0, &bm, 0);
        if o >= 0 {
            let m = sub_magnitudes(&am, &bm);
            signed_text(an, &m)
        } else {
            let m = sub_magnitudes(&bm, &am);
            signed_text(bn, &m)
        }
    }
}

/// The negation of a BigInt, taken and given as canonical text.
pub(crate) fn bigint_negate(a: &str) -> (r: String)
    requires
        is_canonical_bigint(a@),
    ensures
        is_canonical_bigint(r@),
        bigint_value(r@) == -bigint_value(a@),
{
    let (an, am) = magnitude_of(a);
    signed_text(!an, &am)
}

/// The difference of two BigInts, taken and given as canonical texts.
pub(crate) fn bigint_sub(a: &str, b: &str) -> (r: String)
    requires
        is_canonical_bigint(a@),
        is_canonical_bigint(b@),
    ensures
        is_canonical_bigint(r@),
        bigint_value(r@) == bigint_value(a@) - bigint_value(b@),
{
    let nb = bigint_negate(b);
    bigint_add(a, nb.as_str())
}

/// `|x|`.
pub open spec fn abs(x: int) -> int {
    if x < 0 { -x } else { x }
}

/// The quotient of BigInt division, truncated toward zero.
pub open spec fn trunc_quotient(x: int, y: int) -> int {
    if (x < 0) != (y < 0) { -(abs(x) / abs(y)) } else { abs(x) / abs(y) }
}

/// The remainder of BigInt division: the dividend's sign, the magnitude
/// of `|x| mod |y|`.
pub open spec fn trunc_remainder(x: int, y: int) -> int {
    if x < 0 { -(abs(x) % abs(y)) } else { abs(x) % abs(y) }
}

/// The binary operators the interpreter applies to two BigInts.
#[derive(Debug, Clone, Copy, PartialEq, Eq, Structural)]
pub enum BigIntBinaryOp {
    Add,
    Sub,
    Mul,
    Div,
    Mod,
}

/// The value a binary operator gives two BigInts, `None` for a division
/// or remainder by zero.
pub open spec fn binary_value(op: BigIntBinaryOp, x: int, y: int) -> Option<int> {
    match op {
        BigIntBinaryOp::Add => Some(x + y),
        BigIntBinaryOp::Sub => Some(x - y),
        BigIntBinaryOp::Mul => Some(x * y),
        BigIntBinaryOp::Div => if y == 0 { None } else { Some(trunc_quotient(x, y)) },
        BigIntBinaryOp::Mod => if y == 0 { None } else { Some(trunc_remainder(x, y)) },
    }
}

/// A binary operator on two BigInts (canonical texts): the result's
/// canonical text, or a TypeError "Division by zero" for `/` and `%` by
/// zero.
pub fn bigint_binary(op: BigIntBinaryOp, a: &str, b: &str) -> (r: Result<String, RuntimeError>)
    requires
        is_canonical_bigint(a@),
        is_canonical_bigint(b@),
    ensures
        match binary_value(op, bigint_value(a@), bigint_value(b@)) {
            Some(v) => r matches Ok(t) && is_canonical_bigint(t@) && bigint_value(t@) == v,
            None => r matches Err(RuntimeError::TypeError(m)) && m@ == "Division by zero"@,
        },
{
    match op {
        BigIntBinaryOp::Add => Ok(bigint_add(a, b)),
        BigIntBinaryOp::Sub => Ok(bigint_sub(a, b)),
        BigIntBinaryOp::Mul => {
            let (an, am) = magnitude_of(a);
            let (bn, bm) = magnitude_of(b);
            let m = mul_magnitudes(&am, &bm);
            proof {
                let x = digits_value(am@) as int;
                let y = digits_value(bm@) as int;
                assert((if an { -x } else { x }) * (if bn { -y } else { y })
                    == (if an != bn { -(x * y) } else { x * y })) by (nonlinear_arith);
            }
            Ok(signed_text(an != bn, &m))
        },
        BigIntBinaryOp::Div | BigIntBinaryOp::Mod => {
            let (an, am) = magnitude_of(a);
            let (bn, bm) = magnitude_of(b);
            let zero = bm.len() == 1 && bm[0] == '0';
            proof {
                lemma_nonzero_magnitude(a@);
                lemma_nonzero_magnitude(b@);
                if zero {
                    assert(bm@ =~= seq!['0']);
                    lemma_single_digit('0');
                } else {
                    lemma_value_at_least(bm@);
                    lemma_pow10_grows(0, (bm@.len() - 1) as nat);
                }
            }
            if zero {
                return Err(RuntimeError::TypeError(String::from_str("Division by zero")));
            }
            let (q, rm) = divmod_magnitudes(&am, &bm);
            match op {
                BigIntBinaryOp::Div => Ok(signed_text(an != bn, &q)),
                _ => Ok(signed_text(an, &rm)),
            }
        },
    }
}

/// The unary operators the interpreter applies to a BigInt: negation,
/// increment and decrement.
#[derive(Debug, Clone, Copy, PartialEq, Eq, Structural)]
pub enum BigIntUnaryOp {
    Neg,
    Inc,
    Dec,
}

/// A unary operator on a BigInt (canonical text): the result's canonical
/// text.
pub fn bigint_unary(op: BigIntUnaryOp, a: &str) -> (r: String)
    requires
        is_canonical_bigint(a@),
    ensures
        is_canonical_bigint(r@),
        bigint_value(r@) == match op {
            BigIntUnaryOp::Neg => -bigint_value(a@),
            BigIntUnaryOp::Inc => bigint_value(a@) + 1,
            BigIntUnaryOp::Dec => bigint_value(a@) - 1,
        },
{
    let one = "1";
    proof {
        reveal_strlit("1");
        assert(one@ =~= seq!['1']);
        lemma_single_digit('1');
        assert(magnitude_text(one@) =~= one@);
    }
    match op {
        BigIntUnaryOp::Neg => bigint_negate(a),
        BigIntUnaryOp::Inc => bigint_add(a, one),
        BigIntUnaryOp::Dec => bigint_sub(a, one),
    }
}

/// Division and remainder recompose the dividend: `x == q·y + r`, with the
/// remainder smaller than the divisor in magnitude and never of the
/// opposite sign to the dividend.
pub proof fn law_quotient_and_remainder_recompose(x: int, y: int)
    requires
        y != 0,
    ensures
        x == trunc_quotient(x, y) * y + trunc_remainder(x, y),
        abs(trunc_remainder(x, y)) < abs(y),
        x >= 0 ==> trunc_remainder(x, y) >= 0,
        x <= 0 ==> trunc_remainder(x, y) <= 0,
{
    let ax = abs(x);
    let ay = abs(y);
    let q = ax / ay;
    let r = ax % ay;
    lemma_fundamental_div_mod(ax, ay);
    vstd::arithmetic::div_mod::lemma_mod_bound(ax, ay);
    assert(x == trunc_quotient(x, y) * y + trunc_remainder(x, y)) by (nonlinear_arith)
        requires
            ax == ay * q + r,
            ax == (if x < 0 { -x } else { x }),
            ay == (if y < 0 { -y } else { y }),
            trunc_quotient(x, y) == (if (x < 0) != (y < 0) { -q } else { q }),
            trunc_remainder(x, y) == (if x < 0 { -r } else { r }),
    ;
}

/// Subtracting what was added gives back the very text one started from,
/// and the sum does not depend on the order of the operands: canonical
/// texts are fixed by their values.
pub proof fn law_sub_undoes_add(a: Seq<char>, b: Seq<char>, sum: Seq<char>, sum2: Seq<char>, back: Seq<char>)
    requires
        is_canonical_bigint(a),
        is_canonical_bigint(b),
        is_canonical_bigint(sum),
        is_canonical_bigint(sum2),
        is_canonical_bigint(back),
        bigint_value(sum) == bigint_value(a) + bigint_value(b),
        bigint_value(sum2) == bigint_value(b) + bigint_value(a),
        bigint_value(back) == bigint_value(sum) - bigint_value(b),
    ensures
        back == a,
        sum == sum2,
{
    crate::bigint::law_canonical_text_is_unique(back, a);
    crate::bigint::law_canonical_text_is_unique(sum, sum2);
}

} // verus!
