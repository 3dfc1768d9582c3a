//! The `String.prototype` methods on a receiver already coerced to a string
//! and arguments already coerced: a numeric argument is the bit pattern of
//! its Number, or `None` when the argument was `undefined`. Positions and
//! lengths count characters (Unicode scalar values).
use vstd::prelude::*;
use crate::number::{is_finite, is_infinite, is_nan, is_zero, sign_bit, to_i64_saturating, trunc, trunc_magnitude, significand, scale, rounded_product_exceeds_2_29, lemma_bounded_product_bounds_trunc, number_rounded_product_exceeds_2_29, number_is_finite, number_is_nan, number_is_sign_negative, number_is_zero, number_to_i64, trunc_magnitude_u64};
use crate::text::{chars_of, push_char};
use vstd::arithmetic::power2::{pow2, lemma_pow2_pos};
use crate::interp::RuntimeError;
use crate::replace::{substitution, process_replacement_substitution};
use crate::search::{occurs_at, occurs_in, first_occurrence, first_occurrence_from, last_occurrence, lemma_first_occurrence_from, lemma_last_occurrence_from, window_eq, first_occurrence_from_exec, last_occurrence_exec};

verus! {

// ------------------------------------------------------------ arguments

/// `x as i64` of a numeric argument, `default` when it is absent.
pub open spec fn int_arg_or(x: Option<u64>, default: int) -> int {
    match x {
        Some(n) => to_i64_saturating(n),
        None => default,
    }
}

/// The index a non-negative position argument reads (`undefined` reads 0);
/// `None` for NaN, the infinities and negative numbers.
pub open spec fn nonneg_index(x: Option<u64>) -> Option<int> {
    match x {
        None => Some(0),
        Some(n) => if is_finite(n) && (!sign_bit(n) || is_zero(n)) {
            Some(trunc_magnitude(n))
        } else {
            None
        },
    }
}

pub(crate) fn int_arg_or_exec(x: Option<u64>, default: i128) -> (r: i128)
    ensures
        r == int_arg_or(x, default as int),
{
    match x {
        Some(n) => number_to_i64(n) as i128,
        None => default,
    }
}

/// The index of `nonneg_index`, or `None` also when it exceeds `u64::MAX`
/// (and so every length).
fn nonneg_index_exec(x: Option<u64>) -> (r: (bool, Option<u64>))
    ensures
        r.0 <==> nonneg_index(x) is Some,
        r.0 ==> match r.1 {
            Some(t) => nonneg_index(x) == Some(t as int),
            None => nonneg_index(x)->0 > u64::MAX,
        },
{
    match x {
        None => (true, Some(0)),
        Some(n) => {
            if number_is_finite(n) && (!number_is_sign_negative(n) || number_is_zero(n)) {
                (true, trunc_magnitude_u64(n))
            } else {
                (false, None)
            }
        },
    }
}

/// A relative position: from the end when negative, clamped to `[0, len]`.
pub open spec fn relative_position(i: int, len: int) -> int {
    if i < 0 {
        if len + i < 0 { 0 } else { len + i }
    } else {
        if i < len { i } else { len }
    }
}

/// `i` clamped to `[0, len]`.
pub open spec fn clamp_position(i: int, len: int) -> int {
    if i < 0 { 0 } else if i > len { len } else { i }
}

pub(crate) fn relative_position_exec(i: i128, len: i128) -> (r: i128)
    requires
        0 <= len <= u64::MAX,
        i64::MIN <= i <= u64::MAX,
    ensures
        r == relative_position(i as int, len as int),
{
    if i < 0 {
        if len + i < 0 { 0 } else { len + i }
    } else {
        if i < len { i } else { len }
    }
}

pub(crate) fn clamp_position_exec(i: i128, len: i128) -> (r: i128)
    ensures
        r == clamp_position(i as int, len as int),
{
    if i < 0 { 0 } else if i > len { len } else { i }
}

/// The characters `from..to` of `cs` as a string.
pub(crate) fn collect_range(cs: &Vec<char>, from: usize, to: usize) -> (out: String)
    requires
        from <= to <= cs@.len(),
    ensures
        out@ == cs@.subrange(from as int, to as int),
{
    let mut out = String::new();
    let mut i: usize = from;
    while i < to
        invariant
            from <= i <= to <= cs@.len(),
            out@ == cs@.subrange(from as int, i as int),
        decreases to - i,
    {
        push_char(&mut out, cs[i]);
        assert(cs@.subrange(from as int, i + 1) =~= cs@.subrange(from as int, i as int).push(cs@[i as int]));
        i = i + 1;
    }
    out
}

// -------------------------------------------------------- character access

/// `String.prototype.at(index)`: the character at `index`, counted from the
/// end when negative; `None` (undefined) outside the string.
pub fn string_at(s: &str, index: Option<u64>) -> (r: Option<char>)
    ensures
        ({
            let len = s@.len() as int;
            let i = int_arg_or(index, 0);
            let idx = if i < 0 { len + i } else { i };
            r == if 0 <= idx < len { Some(s@[idx]) } else { None::<char> }
        }),
{
    let cs = chars_of(s);
    let len = cs.len() as i128;
    let i = int_arg_or_exec(index, 0);
    let idx = if i < 0 { len + i } else { i };
    if idx < 0 || idx >= len {
        return None;
    }
    Some(cs[idx as usize])
}

/// `String.prototype.charAt(pos)`: the character at a non-negative
/// position; `None` (the empty string) past the end or for a NaN, infinite
/// or negative position.
pub fn string_char_at(s: &str, pos: Option<u64>) -> (r: Option<char>)
    ensures
        r == match nonneg_index(pos) {
            Some(i) => if i < s@.len() { Some(s@[i]) } else { None::<char> },
            None => None::<char>,
        },
{
    let cs = chars_of(s);
    let len = cs.len();
    let (ok, idx) = nonneg_index_exec(pos);
    if !ok {
        return None;
    }
    match idx {
        Some(t) => if t < len as u64 { Some(cs[t as usize]) } else { None },
        None => None,
    }
}

/// `String.prototype.charCodeAt(pos)`: the code of the character at a
/// non-negative position; `None` (NaN) past the end or for a NaN, infinite
/// or negative position.
pub fn string_char_code_at(s: &str, pos: Option<u64>) -> (r: Option<u32>)
    ensures
        r == match nonneg_index(pos) {
            Some(i) => if i < s@.len() { Some(s@[i] as u32) } else { None::<u32> },
            None => None::<u32>,
        },
{
    match string_char_at(s, pos) {
        Some(c) => Some(c as u32),
        None => None,
    }
}

/// The number of UTF-16 code units of a character.
pub open spec fn utf16_units(c: char) -> int {
    if c as u32 >= 0x10000 { 2 } else { 1 }
}

/// The code point at UTF-16 index `i` of `cs`, whose first character starts
/// at code unit `u`: a character starting at `i` gives its code point, an
/// index inside a surrogate pair gives the low surrogate.
pub open spec fn code_point_at_unit(cs: Seq<char>, i: int, u: int) -> Option<u32>
    decreases cs.len(),
{
    if cs.len() == 0 {
        None
    } else if u == i {
        Some(cs[0] as u32)
    } else if u < i < u + utf16_units(cs[0]) {
        Some((0xDC00 + ((cs[0] as u32 - 0x10000) % 1024)) as u32)
    } else {
        code_point_at_unit(cs.skip(1), i, u + utf16_units(cs[0]))
    }
}

/// `String.prototype.codePointAt(pos)`, positions counted in UTF-16 code
/// units: the code point starting there, the low surrogate inside a pair;
/// `None` (undefined) past the end or for a NaN, infinite or negative
/// position.
pub fn string_code_point_at(s: &str, pos: Option<u64>) -> (r: Option<u32>)
    ensures
        r == match pos {
            None => code_point_at_unit(s@, 0, 0),
            Some(n) => if is_finite(n) && (!sign_bit(n) || is_zero(n)) {
                code_point_at_unit(s@, to_i64_saturating(n), 0)
            } else {
                None::<u32>
            },
        },
{
    let i: i64 = match pos {
        None => 0,
        Some(n) => {
            if number_is_finite(n) && (!number_is_sign_negative(n) || number_is_zero(n)) {
                number_to_i64(n)
            } else {
                return None;
            }
        },
    };
    let cs = chars_of(s);
    let mut u: i128 = 0;
    let mut k: usize = 0;
    assert(s@.skip(0) =~= s@);
    while k < cs.len()
        invariant
            0 <= k <= cs@.len(),
            cs@ == s@,
            0 <= u <= 2 * k,
            pos is None ==> i == 0,
            pos matches Some(n) ==> is_finite(n) && (!sign_bit(n) || is_zero(n)) && i == to_i64_saturating(n),
            code_point_at_unit(s@, i as int, 0) == code_point_at_unit(s@.skip(k as int), i as int, u as int),
        decreases cs@.len() - k,
    {
        let c = cs[k];
        let cp = c as u32;
        let units: i128 = if cp >= 0x10000 { 2 } else { 1 };
        assert(s@.skip(k as int)[0] == c);
        assert(s@.skip(k as int).skip(1) =~= s@.skip(k + 1));
        if u == i as i128 {
            assert(code_point_at_unit(s@.skip(k as int), i as int, u as int) == Some(cp));
            return Some(cp);
        }
        if u < i as i128 && (i as i128) < u + units {
            assert(code_point_at_unit(s@.skip(k as int), i as int, u as int)
                == Some((0xDC00 + ((cp - 0x10000) % 1024)) as u32));
            return Some(0xDC00 + ((cp - 0x10000) % 1024));
        }
        u = u + units;
        k = k + 1;
    }
    None
}

// --------------------------------------------------------------- substrings

/// `String.prototype.slice(start, end)`: the characters between two
/// relative positions (counted from the end when negative); empty when the
/// end does not come after the start.
pub fn string_slice(s: &str, start: Option<u64>, end: Option<u64>) -> (r: String)
    ensures
        ({
            let len = s@.len() as int;
            let from = relative_position(int_arg_or(start, 0), len);
            let to = relative_position(int_arg_or(end, len), len);
            r@ == if to <= from { Seq::<char>::empty() } else { s@.subrange(from, to) }
        }),
{
    let cs = chars_of(s);
    let len = cs.len() as i128;
    let from = relative_position_exec(int_arg_or_exec(start, 0), len);
    let to = relative_position_exec(int_arg_or_exec(end, len), len);
    if to <= from {
        return String::new();
    }
    collect_range(&cs, from as usize, to as usize)
}

/// `String.prototype.substring(a, b)`: the characters between two positions
/// clamped to the string, in either order.
pub fn string_substring(s: &str, a: Option<u64>, b: Option<u64>) -> (r: String)
    ensures
        ({
            let len = s@.len() as int;
            let x = clamp_position(int_arg_or(a, 0), len);
            let y = clamp_position(int_arg_or(b, len), len);
            r@ == if x <= y { s@.subrange(x, y) } else { s@.subrange(y, x) }
        }),
{
    let cs = chars_of(s);
    let len = cs.len() as i128;
    let mut lo = clamp_position_exec(int_arg_or_exec(a, 0), len);
    let mut hi = clamp_position_exec(int_arg_or_exec(b, len), len);
    if lo > hi {
        let t = lo;
        lo = hi;
        hi = t;
    }
    collect_range(&cs, lo as usize, hi as usize)
}

/// `String.prototype.substr(start, count)`: `count` characters (all the
/// rest when absent, none when negative) from a relative start.
pub fn string_substr(s: &str, start: Option<u64>, count: Option<u64>) -> (r: String)
    ensures
        ({
            let len = s@.len() as int;
            let from = relative_position(int_arg_or(start, 0), len);
            let n = int_arg_or(count, len - from);
            let to = if n <= 0 { from } else if from + n > len { len } else { from + n };
            r@ == s@.subrange(from, to)
        }),
{
    let cs = chars_of(s);
    let len = cs.len() as i128;
    let from = relative_position_exec(int_arg_or_exec(start, 0), len);
    let n = int_arg_or_exec(count, len - from);
    let to = if n <= 0 { from } else if from + n > len { len } else { from + n };
    collect_range(&cs, from as usize, to as usize)
}

// ------------------------------------------------------------------ padding

/// The length a pad target argument asks for: 0 when absent, NaN or not
/// positive, else the number truncated and saturated to `usize`.
pub open spec fn pad_target(target: Option<u64>) -> int {
    match target {
        None => 0,
        Some(n) => if is_nan(n) || sign_bit(n) || is_zero(n) {
            0
        } else if is_infinite(n) || trunc_magnitude(n) > usize::MAX {
            usize::MAX as int
        } else {
            trunc_magnitude(n)
        },
    }
}

/// The padding of `need` characters: `pad` repeated and cut to length.
pub open spec fn padding(pad: Seq<char>, need: int) -> Seq<char> {
    Seq::new(need as nat, |i: int| pad[i % pad.len() as int])
}

/// The pad string argument: a space when absent.
pub open spec fn pad_text(pad: Option<&str>) -> Seq<char> {
    match pad {
        Some(p) => p@,
        None => seq![' '],
    }
}

/// The padding that `padStart` and `padEnd` add to `s`: none when `s` is
/// already long enough or the pad string is empty.
pub open spec fn pad_fill(s: Seq<char>, target: Option<u64>, pad: Option<&str>) -> Seq<char> {
    if s.len() >= pad_target(target) || pad_text(pad).len() == 0 {
        Seq::empty()
    } else {
        padding(pad_text(pad), pad_target(target) - s.len())
    }
}

fn pad_target_exec(target: Option<u64>) -> (r: usize)
    ensures
        r == pad_target(target),
{
    match target {
        None => 0,
        Some(n) => {
            if number_is_nan(n) || number_is_sign_negative(n) || number_is_zero(n) {
                0
            } else if !number_is_finite(n) {
                usize::MAX
            } else {
                match trunc_magnitude_u64(n) {
                    None => usize::MAX,
                    Some(t) => if t > usize::MAX as u64 { usize::MAX } else { t as usize },
                }
            }
        },
    }
}

/// Appends the padding of `s` for `padStart`/`padEnd` to `out`.
fn push_fill(out: &mut String, s: &Vec<char>, target: Option<u64>, pad: Option<&str>)
    ensures
        final(out)@ == old(out)@ + pad_fill(s@, target, pad),
{
    let target_len = pad_target_exec(target);
    let pc: Vec<char> = match pad {
        Some(p) => chars_of(p),
        None => vec![' '],
    };
    assert(pc@ == pad_text(pad));
    if s.len() >= target_len || pc.len() == 0 {
        assert(old(out)@ + pad_fill(s@, target, pad) =~= old(out)@);
        return;
    }
    let need = target_len - s.len();
    let plen = pc.len();
    let mut i: usize = 0;
    while i < need
        invariant
            0 <= i <= need,
            plen == pc@.len() > 0,
            out@ == old(out)@ + padding(pc@, i as int),
        decreases need - i,
    {
        push_char(out, pc[i % plen]);
        assert(padding(pc@, i + 1) =~= padding(pc@, i as int).push(pc@[(i as int) % (plen as int)]));
        i = i + 1;
    }
}

/// `String.prototype.padStart(target, pad)`: `s` preceded by the pad string
/// (a space when absent), repeated and cut, up to `target` characters.
pub fn string_pad_start(s: &str, target: Option<u64>, pad: Option<&str>) -> (r: String)
    ensures
        r@ == pad_fill(s@, target, pad) + s@,
{
    let cs = chars_of(s);
    let mut out = String::new();
    push_fill(&mut out, &cs, target, pad);
    out.append(s);
    out
}

/// `String.prototype.padEnd(target, pad)`: `s` followed by the pad string
/// (a space when absent), repeated and cut, up to `target` characters.
pub fn string_pad_end(s: &str, target: Option<u64>, pad: Option<&str>) -> (r: String)
    ensures
        r@ == s@ + pad_fill(s@, target, pad),
{
    let cs = chars_of(s);
    let mut out = String::from_str(s);
    push_fill(&mut out, &cs, target, pad);
    out
}

// ------------------------------------------------------------------ search

/// Where `indexOf` starts its search: 0 when the position is absent, NaN or
/// not positive, the length when it is at least the length, else the
/// position truncated.
pub open spec fn search_start(position: Option<u64>, len: int) -> int {
    match position {
        None => 0,
        Some(n) => if is_nan(n) || sign_bit(n) || is_zero(n) {
            0
        } else if is_infinite(n) || trunc_magnitude(n) >= len {
            len
        } else {
            trunc_magnitude(n)
        },
    }
}

/// `String.prototype.indexOf(search, position)`: the first position at or
/// after the start where `search` occurs; `None` (-1) when there is none.
pub fn string_index_of(s: &str, search: &str, position: Option<u64>) -> (r: Option<usize>)
    ensures
        ({
            let p = first_occurrence_from(s@, search@, search_start(position, s@.len() as int));
            r == if p >= 0 { Some(p as usize) } else { None::<usize> }
        }),
{
    let cs = chars_of(s);
    let ns = chars_of(search);
    let len = cs.len();
    let start: usize = match position {
        None => 0,
        Some(n) => {
            if number_is_nan(n) || number_is_sign_negative(n) || number_is_zero(n) {
                0
            } else if !number_is_finite(n) {
                len
            } else {
                match trunc_magnitude_u64(n) {
                    None => len,
                    Some(t) => if t >= len as u64 { len } else { t as usize },
                }
            }
        },
    };
    proof {
        lemma_first_occurrence_from(s@, search@, start as int);
    }
    first_occurrence_from_exec(&cs, &ns, start)
}

/// `String.prototype.lastIndexOf(search)`: the last position where
/// `search` occurs; `None` (-1) when there is none. (A position argument is
/// coerced by the caller and has no further effect.)
pub fn string_last_index_of(s: &str, search: &str) -> (r: Option<usize>)
    ensures
        ({
            let p = last_occurrence(s@, search@);
            r == if p >= 0 { Some(p as usize) } else { None::<usize> }
        }),
{
    let cs = chars_of(s);
    let ns = chars_of(search);
    last_occurrence_exec(&cs, &ns)
}

/// `String.prototype.includes(search)`: `search` occurs in `s`.
pub fn string_includes(s: &str, search: &str) -> (r: bool)
    ensures
        r == occurs_in(s@, search@),
{
    let cs = chars_of(s);
    let ns = chars_of(search);
    proof {
        lemma_first_occurrence_from(s@, search@, 0);
    }
    let p = first_occurrence_from_exec(&cs, &ns, 0);
    proof {
        if let Some(q) = p {
            assert(occurs_at(s@, search@, q as int));
        }
    }
    p.is_some()
}

/// `String.prototype.startsWith(search)`: `s` begins with `search`.
pub fn string_starts_with(s: &str, search: &str) -> (r: bool)
    ensures
        r == occurs_at(s@, search@, 0),
{
    let cs = chars_of(s);
    let ns = chars_of(search);
    if ns.len() > cs.len() {
        return false;
    }
    window_eq(&cs, &ns, 0)
}

/// `String.prototype.endsWith(search)`: `s` ends with `search`.
pub fn string_ends_with(s: &str, search: &str) -> (r: bool)
    ensures
        r == occurs_at(s@, search@, s@.len() - search@.len()),
{
    let cs = chars_of(s);
    let ns = chars_of(search);
    if ns.len() > cs.len() {
        return false;
    }
    window_eq(&cs, &ns, cs.len() - ns.len())
}

/// The lexicographic order of two strings by code point: -1, 0 or 1.
pub open spec fn code_point_order(a: Seq<char>, b: Seq<char>) -> int
    decreases a.len(),
{
    if a.len() == 0 {
        if b.len() == 0 { 0 } else { -1 }
    } else if b.len() == 0 {
        1
    } else if (a[0] as u32) < (b[0] as u32) {
        -1
    } else if (a[0] as u32) > (b[0] as u32) {
        1
    } else {
        code_point_order(a.skip(1), b.skip(1))
    }
}

/// `String.prototype.localeCompare(that)`, locale-insensitive: -1, 0 or 1
/// by the code points of the two strings.
pub fn string_locale_compare(a: &str, b: &str) -> (r: i8)
    ensures
        r == code_point_order(a@, b@),
{
    let ac = chars_of(a);
    let bc = chars_of(b);
    let mut k: usize = 0;
    assert(a@.skip(0) =~= a@);
    assert(b@.skip(0) =~= b@);
    loop
        invariant
            ac@ == a@,
            bc@ == b@,
            0 <= k <= ac@.len(),
            k <= bc@.len(),
            code_point_order(a@, b@) == code_point_order(a@.skip(k as int), b@.skip(k as int)),
        decreases ac@.len() - k,
    {
        if k == ac.len() {
            return if k == bc.len() { 0 } else { -1 };
        }
        if k == bc.len() {
            return 1;
        }
        let x = ac[k] as u32;
        let y = bc[k] as u32;
        assert(a@.skip(k as int)[0] == ac@[k as int]);
        assert(b@.skip(k as int)[0] == bc@[k as int]);
        if x < y {
            return -1;
        }
        if x > y {
            return 1;
        }
        assert(a@.skip(k as int).skip(1) =~= a@.skip(k + 1));
        assert(b@.skip(k as int).skip(1) =~= b@.skip(k + 1));
        k = k + 1;
    }
}

// -------------------------------------------------------------- replacement

/// `s` with its first occurrence of `n` replaced by the expansion of `repl`
/// (`$$`, `$&`, `` $` ``, `$'`); `s` itself when `n` does not occur.
pub open spec fn replace_first(s: Seq<char>, n: Seq<char>, repl: Seq<char>) -> Seq<char> {
    let p = first_occurrence(s, n);
    if p < 0 {
        s
    } else {
        let before = s.subrange(0, p);
        let after = s.subrange(p + n.len(), s.len() as int);
        before + substitution(repl, n, before, after) + after
    }
}

/// The characters of `s` from `cur` on, each occurrence of the non-empty
/// `n` (left to right, not overlapping) replaced by the expansion of `repl`.
pub open spec fn replace_all_from(s: Seq<char>, n: Seq<char>, repl: Seq<char>, cur: int) -> Seq<char>
    decreases s.len() + 1 - cur,
{
    let p = first_occurrence_from(s, n, cur);
    if n.len() == 0 || cur < 0 || p < 0 {
        s.subrange(cur, s.len() as int)
    } else {
        proof {
            lemma_first_occurrence_from(s, n, cur);
        }
        s.subrange(cur, p) + substitution(repl, n, s.subrange(0, p), s.subrange(p + n.len(), s.len() as int))
            + replace_all_from(s, n, repl, p + n.len())
    }
}

/// `s` with every occurrence of `n` replaced; `s` itself for an empty `n`.
pub open spec fn replace_every(s: Seq<char>, n: Seq<char>, repl: Seq<char>) -> Seq<char> {
    if n.len() == 0 { s } else { replace_all_from(s, n, repl, 0) }
}

/// `String.prototype.replace(search, replacement)` with a string search and
/// a string replacement: the first occurrence replaced by the expansion of
/// the replacement pattern.
pub fn string_replace(s: &str, search: &str, replacement: &str) -> (r: String)
    ensures
        r@ == replace_first(s@, search@, replacement@),
{
    let cs = chars_of(s);
    let ns = chars_of(search);
    let len = cs.len();
    match first_occurrence_from_exec(&cs, &ns, 0) {
        None => String::from_str(s),
        Some(p) => {
            proof {
                lemma_first_occurrence_from(s@, search@, 0);
                assert(first_occurrence_from(s@, search@, 0) == p);
                assert(occurs_at(s@, search@, p as int));
            }
            let before = collect_range(&cs, 0, p);
            let after = collect_range(&cs, p + ns.len(), len);
            let sub = process_replacement_substitution(replacement, search, before.as_str(), after.as_str());
            let mut out = before.clone();
            out.append(sub.as_str());
            out.append(after.as_str());
            out
        },
    }
}

/// `String.prototype.replaceAll(search, replacement)` with a string search
/// and a string replacement: every occurrence, left to right, replaced by
/// the expansion of the replacement pattern for it; nothing for an empty
/// search.
pub fn string_replace_all(s: &str, search: &str, replacement: &str) -> (r: String)
    ensures
        r@ == replace_every(s@, search@, replacement@),
{
    let cs = chars_of(s);
    let ns = chars_of(search);
    if ns.len() == 0 {
        return String::from_str(s);
    }
    let len = cs.len();
    let mut out = String::new();
    let mut cur: usize = 0;
    loop
        invariant
            cs@ == s@,
            ns@ == search@,
            ns@.len() > 0,
            len == s@.len(),
            0 <= cur <= len,
            replace_every(s@, search@, replacement@) == out@ + replace_all_from(s@, search@, replacement@, cur as int),
        decreases len - cur,
    {
        proof {
            lemma_first_occurrence_from(s@, search@, cur as int);
        }
        match first_occurrence_from_exec(&cs, &ns, cur) {
            None => {
                let rest = collect_range(&cs, cur, len);
                out.append(rest.as_str());
                return out;
            },
            Some(p) => {
                let between = collect_range(&cs, cur, p);
                let before = collect_range(&cs, 0, p);
                let after = collect_range(&cs, p + ns.len(), len);
                let sub = process_replacement_substitution(replacement, search, before.as_str(), after.as_str());
                let ghost prev = out@;
                out.append(between.as_str());
                out.append(sub.as_str());
                assert(out@ == prev + (s@.subrange(cur as int, p as int) + substitution(replacement@, search@, s@.subrange(0, p as int), s@.subrange(p + search@.len(), s@.len() as int))));
                cur = p + ns.len();
            },
        }
    }
}

// -------------------------------------------------------------------- split

/// The limit of `split`: `u32::MAX` when absent, 0 when NaN or not positive,
/// else the number truncated and saturated to `u32`.
pub open spec fn split_limit(limit: Option<u64>) -> int {
    match limit {
        None => u32::MAX as int,
        Some(n) => if is_nan(n) || sign_bit(n) || is_zero(n) {
            0
        } else if is_infinite(n) || trunc_magnitude(n) > u32::MAX {
            u32::MAX as int
        } else {
            trunc_magnitude(n)
        },
    }
}

/// The pieces of `s` from `cur` on, cut at each occurrence of the non-empty
/// separator (left to right, not overlapping).
pub open spec fn split_from(s: Seq<char>, sep: Seq<char>, cur: int) -> Seq<Seq<char>>
    decreases s.len() + 1 - cur,
{
    let p = first_occurrence_from(s, sep, cur);
    if sep.len() == 0 || cur < 0 || p < 0 {
        seq![s.subrange(cur, s.len() as int)]
    } else {
        proof {
            lemma_first_occurrence_from(s, sep, cur);
        }
        seq![s.subrange(cur, p)] + split_from(s, sep, p + sep.len())
    }
}

/// The pieces of `s` before the limit is applied: `s` itself without a
/// separator; each character for an empty separator (none for an empty
/// `s`); `s` itself when empty; else the pieces between separators.
pub open spec fn split_parts(s: Seq<char>, sep: Option<Seq<char>>) -> Seq<Seq<char>> {
    match sep {
        None => seq![s],
        Some(sp) => if sp.len() == 0 {
            s.map_values(|c: char| seq![c])
        } else if s.len() == 0 {
            seq![s]
        } else {
            split_from(s, sp, 0)
        },
    }
}

/// The pieces after the limit: none for a zero limit, else cut to the
/// limit when the count, wrapped to 32 bits, exceeds it.
pub open spec fn split_result(s: Seq<char>, sep: Option<Seq<char>>, limit: Option<u64>) -> Seq<Seq<char>> {
    let parts = split_parts(s, sep);
    let lim = split_limit(limit);
    if lim == 0 {
        Seq::empty()
    } else if parts.len() as int % 0x1_0000_0000 > lim {
        parts.take(lim)
    } else {
        parts
    }
}

/// The views of a vector of strings.
pub open spec fn views(v: Seq<String>) -> Seq<Seq<char>> {
    v.map_values(|x: String| x@)
}

fn split_limit_exec(limit: Option<u64>) -> (r: u32)
    ensures
        r == split_limit(limit),
{
    match limit {
        None => u32::MAX,
        Some(n) => {
            if number_is_nan(n) || number_is_sign_negative(n) || number_is_zero(n) {
                0
            } else if !number_is_finite(n) {
                u32::MAX
            } else {
                match trunc_magnitude_u64(n) {
                    None => u32::MAX,
                    Some(t) => if t > u32::MAX as u64 { u32::MAX } else { t as u32 },
                }
            }
        },
    }
}

fn split_on(cs: &Vec<char>, ns: &Vec<char>) -> (parts: Vec<String>)
    requires
        ns@.len() > 0,
    ensures
        views(parts@) == split_from(cs@, ns@, 0),
{
    let len = cs.len();
    let mut parts: Vec<String> = Vec::new();
    let mut cur: usize = 0;
    loop
        invariant
            ns@.len() > 0,
            len == cs@.len(),
            0 <= cur <= len,
            split_from(cs@, ns@, 0) == views(parts@) + split_from(cs@, ns@, cur as int),
        decreases len - cur,
    {
        proof {
            lemma_first_occurrence_from(cs@, ns@, cur as int);
        }
        match first_occurrence_from_exec(cs, ns, cur) {
            None => {
                let piece = collect_range(cs, cur, len);
                let ghost prev = parts@;
                parts.push(piece);
                assert(views(parts@) =~= views(prev).push(piece@));
                assert(views(parts@) =~= views(prev) + split_from(cs@, ns@, cur as int));
                return parts;
            },
            Some(p) => {
                let piece = collect_range(cs, cur, p);
                let ghost prev = parts@;
                parts.push(piece);
                assert(views(parts@) =~= views(prev).push(piece@));
                assert(split_from(cs@, ns@, cur as int) =~= seq![piece@] + split_from(cs@, ns@, p + ns@.len()));
                assert(views(prev) + split_from(cs@, ns@, cur as int) =~= views(parts@) + split_from(cs@, ns@, p + ns@.len()));
                cur = p + ns.len();
            },
        }
    }
}

/// `String.prototype.split(separator, limit)` with a string separator (or
/// none): the pieces of `s`, cut to the limit.
pub fn string_split(s: &str, separator: Option<&str>, limit: Option<u64>) -> (r: Vec<String>)
    ensures
        views(r@) == split_result(s@, match separator { Some(x) => Some(x@), None => None }, limit),
{
    let ghost sep = match separator { Some(x) => Some(x@), None => None::<Seq<char>> };
    let lim = split_limit_exec(limit);
    if lim == 0 {
        let r: Vec<String> = Vec::new();
        assert(views(r@) =~= Seq::<Seq<char>>::empty());
        return r;
    }
    let cs = chars_of(s);
    let mut parts: Vec<String> = match separator {
        None => {
            let v = vec![String::from_str(s)];
            assert(views(v@) =~= seq![s@]);
            v
        },
        Some(sp) => {
            let ns = chars_of(sp);
            if ns.len() == 0 {
                let mut v: Vec<String> = Vec::new();
                let mut i: usize = 0;
                while i < cs.len()
                    invariant
                        0 <= i <= cs@.len(),
                        views(v@) == cs@.subrange(0, i as int).map_values(|c: char| seq![c]),
                    decreases cs@.len() - i,
                {
                    let one = collect_range(&cs, i, i + 1);
                    let ghost prev = v@;
                    v.push(one);
                    assert(views(v@) =~= views(prev).push(one@));
                    assert(one@ =~= seq![cs@[i as int]]);
                    assert(cs@.subrange(0, i + 1).map_values(|c: char| seq![c])
                        =~= cs@.subrange(0, i as int).map_values(|c: char| seq![c]).push(seq![cs@[i as int]]));
                    i = i + 1;
                }
                assert(cs@.subrange(0, cs@.len() as int) =~= s@);
                v
            } else if cs.len() == 0 {
                let v = vec![String::from_str(s)];
                assert(views(v@) =~= seq![s@]);
                v
            } else {
                split_on(&cs, &ns)
            }
        },
    };
    assert(views(parts@) == split_parts(s@, sep));
    if (parts.len() as u64 % 0x1_0000_0000) > lim as u64 {
        parts.truncate(lim as usize);
        assert(views(parts@) =~= split_parts(s@, sep).take(lim as int));
    }
    parts
}

// ------------------------------------------------------------------ repeat

/// `s` repeated `t` times.
pub open spec fn repeat_seq(s: Seq<char>, t: nat) -> Seq<char>
    decreases t,
{
    if t == 0 {
        Seq::empty()
    } else {
        repeat_seq(s, (t - 1) as nat) + s
    }
}

proof fn lemma_repeat_empty(t: nat)
    ensures
        repeat_seq(Seq::<char>::empty(), t) == Seq::<char>::empty(),
    decreases t,
{
    if t > 0 {
        lemma_repeat_empty((t - 1) as nat);
        assert(Seq::<char>::empty() + Seq::<char>::empty() =~= Seq::<char>::empty());
    }
}

/// The count argument of `repeat` (`+0` when absent).
pub open spec fn count_or_zero(count: Option<u64>) -> u64 {
    match count {
        Some(c) => c,
        None => 0u64,
    }
}

/// `String.prototype.repeat(count)`: `s` repeated `count` times (truncated).
/// A NaN, negative or infinite count is a RangeError ("Invalid count
/// value"), and so is a result whose UTF-8 length, computed as
/// `(s.len() as f64) * count`, exceeds 512 MiB ("Invalid string length").
/// (The UTF-8 length of a string held in memory fits in `usize` and is
/// below 2^53.)
pub fn string_repeat(s: &str, count: Option<u64>) -> (r: Result<String, RuntimeError>)
    requires
        vstd::utf8::encode_utf8(s@).len() < 0x20_0000_0000_0000,
        vstd::utf8::encode_utf8(s@).len() <= usize::MAX,
    ensures
        ({
            let c = count_or_zero(count);
            if is_nan(c) || (sign_bit(c) && !is_zero(c)) || is_infinite(c) {
                r matches Err(RuntimeError::RangeError(m)) && m@ == "Invalid count value"@
            } else if rounded_product_exceeds_2_29(vstd::utf8::encode_utf8(s@).len(), c) {
                r matches Err(RuntimeError::RangeError(m)) && m@ == "Invalid string length"@
            } else {
                r matches Ok(x) && x@ == repeat_seq(s@, trunc_magnitude(c) as nat)
            }
        }),
{
    let c: u64 = match count {
        Some(b) => b,
        None => 0,
    };
    if number_is_nan(c) || (number_is_sign_negative(c) && !number_is_zero(c)) || !number_is_finite(c) {
        return Err(RuntimeError::RangeError(String::from_str("Invalid count value")));
    }
    let bytes = s.len();
    if number_rounded_product_exceeds_2_29(bytes as u64, c) {
        return Err(RuntimeError::RangeError(String::from_str("Invalid string length")));
    }
    if bytes == 0 {
        proof {
            assert(s@.len() == 0) by {
                if s@.len() > 0 {
                    vstd::utf8::char_is_scalar(s@[0]);
                    assert(vstd::utf8::encode_scalar(s@[0] as u32).len() >= 1);
                    assert(vstd::utf8::encode_utf8(s@).len() >= 1);
                }
            }
            assert(s@ =~= Seq::<char>::empty());
            lemma_repeat_empty(trunc_magnitude(c) as nat);
        }
        return Ok(String::new());
    }
    proof {
        lemma_bounded_product_bounds_trunc(bytes as nat, c);
    }
    let t = trunc_magnitude_u64(c).unwrap();
    let mut out = String::new();
    let mut i: u64 = 0;
    while i < t
        invariant
            0 <= i <= t,
            out@ == repeat_seq(s@, i as nat),
        decreases t - i,
    {
        out.append(s);
        i = i + 1;
    }
    Ok(out)
}


// ------------------------------------------------------------------ laws

/// The pieces joined with `sep` between them.
pub open spec fn join(parts: Seq<Seq<char>>, sep: Seq<char>) -> Seq<char>
    decreases parts.len(),
{
    if parts.len() == 0 {
        Seq::empty()
    } else if parts.len() == 1 {
        parts[0]
    } else {
        parts[0] + sep + join(parts.skip(1), sep)
    }
}

proof fn lemma_split_from_joins_back(s: Seq<char>, sep: Seq<char>, cur: int)
    requires
        sep.len() > 0,
        0 <= cur <= s.len(),
    ensures
        split_from(s, sep, cur).len() >= 1,
        join(split_from(s, sep, cur), sep) == s.subrange(cur, s.len() as int),
    decreases s.len() + 1 - cur,
{
    lemma_first_occurrence_from(s, sep, cur);
    let p = first_occurrence_from(s, sep, cur);
    if p >= 0 {
        let rest = split_from(s, sep, p + sep.len());
        lemma_split_from_joins_back(s, sep, p + sep.len());
        let parts = split_from(s, sep, cur);
        assert(parts == seq![s.subrange(cur, p)] + rest);
        assert(parts.skip(1) =~= rest);
        assert(parts[0] == s.subrange(cur, p));
        assert(s.subrange(p, p + sep.len()) == sep);
        assert(s.subrange(cur, s.len() as int) =~= s.subrange(cur, p) + sep + s.subrange(p + sep.len(), s.len() as int));
    }
}

/// Splitting at a non-empty separator without a limit and joining the
/// pieces with it gives the string back.
pub proof fn law_split_then_join_gives_back(s: Seq<char>, sep: Seq<char>)
    requires
        sep.len() > 0,
    ensures
        join(split_result(s, Some(sep), None), sep) == s,
{
    if s.len() == 0 {
        assert(join(seq![s], sep) == s);
    } else {
        lemma_split_from_joins_back(s, sep, 0);
        assert(s.subrange(0, s.len() as int) =~= s);
    }
}

/// A search string that does not occur leaves `replace` and `replaceAll`
/// with nothing to do.
pub proof fn law_replacing_what_is_absent_changes_nothing(s: Seq<char>, n: Seq<char>, repl: Seq<char>)
    requires
        !occurs_in(s, n),
    ensures
        replace_first(s, n, repl) == s,
        replace_every(s, n, repl) == s,
{
    lemma_first_occurrence_from(s, n, 0);
    if first_occurrence(s, n) >= 0 {
        assert(occurs_at(s, n, first_occurrence(s, n)));
    }
    if n.len() > 0 {
        assert(s.subrange(0, s.len() as int) =~= s);
    }
}

/// Replacing the first occurrence with `$&` (the match itself) gives the
/// string back.
pub proof fn law_replacing_with_the_match_is_identity(s: Seq<char>, n: Seq<char>)
    ensures
        replace_first(s, n, seq!['$', '&']) == s,
{
    lemma_first_occurrence_from(s, n, 0);
    let p = first_occurrence(s, n);
    if p >= 0 {
        let before = s.subrange(0, p);
        let after = s.subrange(p + n.len(), s.len() as int);
        let repl = seq!['$', '&'];
        assert(repl.skip(2) =~= Seq::<char>::empty());
        assert(substitution(repl.skip(2), n, before, after) =~= Seq::<char>::empty());
        assert(substitution(repl, n, before, after) =~= n);
        assert(s.subrange(p, p + n.len()) == n);
        assert(s =~= before + n + after);
    }
}

/// `padStart` and `padEnd` with a non-empty pad string give a string of the
/// target length, or `s` unchanged when it is at least that long.
pub proof fn law_padding_reaches_the_target(s: Seq<char>, target: Option<u64>, pad: Option<&str>)
    requires
        pad_text(pad).len() > 0,
    ensures
        (pad_fill(s, target, pad) + s).len() == if s.len() >= pad_target(target) { s.len() as int } else { pad_target(target) },
        (pad_fill(s, target, pad) + s).subrange(pad_fill(s, target, pad).len() as int, (pad_fill(s, target, pad) + s).len() as int) == s,
{
    assert((pad_fill(s, target, pad) + s).subrange(pad_fill(s, target, pad).len() as int, (pad_fill(s, target, pad) + s).len() as int) =~= s);
}

/// The truncated magnitude of a number is never negative, and is zero for
/// a zero.
pub(crate) proof fn lemma_trunc_magnitude_nonnegative(b: u64)
    ensures
        trunc_magnitude(b) >= 0,
        is_zero(b) ==> trunc_magnitude(b) == 0,
{
    let m = significand(b);
    assert(m >= 0);
    if scale(b) >= 0 {
        lemma_pow2_pos(scale(b) as nat);
        let q = pow2(scale(b) as nat) as int;
        assert(m * q >= 0) by (nonlinear_arith)
            requires m >= 0, q > 0;
    } else {
        lemma_pow2_pos((-scale(b)) as nat);
        let q = pow2((-scale(b)) as nat) as int;
        assert(m / q >= 0) by (nonlinear_arith)
            requires m >= 0, q > 0;
        if is_zero(b) {
            assert(m == 0);
            assert(m / q == 0) by (nonlinear_arith)
                requires m == 0, q > 0;
        }
    }
}

/// With a finite position `p` below the length of the string, `indexOf`
/// searches from `p` truncated toward zero (from 0 when that is negative):
/// a match at that very place is found there, and otherwise the result is
/// the first match after it, or none when no match starts at or after it.
pub proof fn law_index_of_searches_from_the_truncated_position(s: Seq<char>, n: Seq<char>, p: u64)
    requires
        is_finite(p),
        trunc(p) < s.len(),
    ensures
        ({
            let k = if trunc(p) < 0 { 0 } else { trunc(p) };
            let r = first_occurrence_from(s, n, search_start(Some(p), s.len() as int));
            &&& search_start(Some(p), s.len() as int) == k
            &&& occurs_at(s, n, k) ==> r == k
            &&& r >= 0 ==> k <= r && occurs_at(s, n, r) && forall|q: int| k <= q < r ==> !occurs_at(s, n, q)
            &&& r < 0 ==> r == -1 && forall|q: int| k <= q ==> !occurs_at(s, n, q)
        }),
{
    lemma_trunc_magnitude_nonnegative(p);
    let k = if trunc(p) < 0 { 0 } else { trunc(p) };
    assert(search_start(Some(p), s.len() as int) == k);
    lemma_first_occurrence_from(s, n, k);
    let r = first_occurrence_from(s, n, k);
    if occurs_at(s, n, k) {
        assert(r == k) by {
            assert(s.subrange(k, k + n.len()) == n);
        }
    }
}

/// Repeating a text `t` times gives a text `t` times as long whose
/// character at `i` is the text's character at `i` modulo its length.
pub proof fn law_repeat_cycles_through_the_text(s: Seq<char>, t: nat)
    ensures
        repeat_seq(s, t).len() == s.len() * t,
        forall|i: int| 0 <= i < repeat_seq(s, t).len() ==> #[trigger] repeat_seq(s, t)[i] == s[i % (s.len() as int)],
    decreases t,
{
    if t == 0 {
        assert(s.len() * t == 0) by (nonlinear_arith)
            requires t == 0;
    } else {
        law_repeat_cycles_through_the_text(s, (t - 1) as nat);
        let prev = repeat_seq(s, (t - 1) as nat);
        assert(s.len() * t == s.len() * (t - 1) + s.len()) by (nonlinear_arith);
        assert forall|i: int| 0 <= i < repeat_seq(s, t).len() implies #[trigger] repeat_seq(s, t)[i] == s[i % (s.len() as int)] by {
            if i >= prev.len() {
                let k = i - prev.len();
                assert(0 <= k < s.len());
                vstd::arithmetic::div_mod::lemma_mod_multiples_vanish((t - 1) as int, k, s.len() as int);
                assert(s.len() * (t - 1) == (t - 1) * s.len()) by (nonlinear_arith);
                vstd::arithmetic::div_mod::lemma_small_mod(k as nat, s.len() as nat);
            }
        }
    }
}

/// When the search string occurs, `indexOf` (from the start) and
/// `lastIndexOf` find occurrences, the first no later than the last;
/// otherwise both find none.
pub proof fn law_first_and_last_occurrences(s: Seq<char>, n: Seq<char>)
    ensures
        first_occurrence(s, n) >= 0 <==> last_occurrence(s, n) >= 0,
        first_occurrence(s, n) >= 0 ==> {
            &&& occurs_at(s, n, first_occurrence(s, n))
            &&& occurs_at(s, n, last_occurrence(s, n))
            &&& first_occurrence(s, n) <= last_occurrence(s, n)
        },
{
    lemma_first_occurrence_from(s, n, 0);
    lemma_last_occurrence_from(s, n, s.len() - n.len());
    let f = first_occurrence(s, n);
    let l = last_occurrence(s, n);
    if f >= 0 {
        assert(occurs_at(s, n, f));
        assert(f <= s.len() - n.len());
    }
    if l >= 0 {
        assert(occurs_at(s, n, l));
    }
}

/// The code point order is transitive: not above then not above is not
/// above, and strictly so when either step is strict.
pub proof fn lemma_code_point_order_transitive(a: Seq<char>, b: Seq<char>, c: Seq<char>)
    requires
        code_point_order(a, b) <= 0,
        code_point_order(b, c) <= 0,
    ensures
        code_point_order(a, c) <= 0,
        code_point_order(a, b) < 0 || code_point_order(b, c) < 0 ==> code_point_order(a, c) < 0,
    decreases a.len(),
{
    if a.len() > 0 && b.len() > 0 && c.len() > 0 && (a[0] as u32) == (b[0] as u32) && (b[0] as u32) == (c[0] as u32) {
        lemma_code_point_order_transitive(a.skip(1), b.skip(1), c.skip(1));
    }
}

/// `localeCompare` is antisymmetric, and 0 exactly for equal strings.
pub proof fn law_locale_compare_is_antisymmetric(a: Seq<char>, b: Seq<char>)
    ensures
        code_point_order(a, b) == -code_point_order(b, a),
        code_point_order(a, b) == 0 <==> a == b,
    decreases a.len(),
{
    if a.len() > 0 && b.len() > 0 && a[0] == b[0] {
        law_locale_compare_is_antisymmetric(a.skip(1), b.skip(1));
        if a.skip(1) == b.skip(1) {
            assert(a =~= seq![a[0]] + a.skip(1));
            assert(b =~= seq![b[0]] + b.skip(1));
        }
        if a == b {
            assert(a.skip(1) =~= b.skip(1));
        }
    } else if a.len() > 0 && b.len() > 0 {
        if (a[0] as u32) == (b[0] as u32) {
            vstd::utf8::char_u32_cast(a[0], a[0] as u32);
            vstd::utf8::char_u32_cast(b[0], b[0] as u32);
        }
        if a == b {
            assert(a[0] == b[0]);
        }
    } else if a.len() == 0 && b.len() == 0 {
        assert(a =~= b);
    }
}

} // verus!
