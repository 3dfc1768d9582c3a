//! The interpreter's inline cache of hot intrinsics: a table of string
//! methods whose calls the method-call dispatcher may answer on a fast path
//! before taking the general call path.
//!
//! Each entry names a method key, the receiver kind and call arity it
//! applies to, and the cache slot of the intrinsic it stands for. Its fast
//! path answers `Some(value)`, or `None` to send the call on to the general
//! path; every fast path here works on ASCII strings only.
use vstd::prelude::*;
use crate::number::{denotes_int, is_finite, is_nan, is_zero, sign_bit, trunc_magnitude, two52, minus_one, nan, number_from_u64, number_is_finite, number_is_sign_negative, number_is_zero, trunc_magnitude_u64};
use crate::text::{chars_of, push_char, str_equal};
use crate::value::Value;
use crate::search::{occurs_at, occurs_in, first_occurrence, lemma_first_occurrence_from, window_eq, first_occurrence_exec};
use vstd::utf8::is_ascii_chars;

verus! {

// ------------------------------------------------------------ the table

/// The kind of receiver a table entry applies to.
#[derive(Debug, Clone, Copy, PartialEq, Eq, Structural)]
pub enum IhiReceiverKind {
    String,
    Array,
    Number,
}

/// The per-entry cache slot of the intrinsic's object id in the runtime.
#[derive(Debug, Clone, Copy, PartialEq, Eq, Structural)]
pub enum IhiCachedField {
    StringCharCodeAt,
    StringToLowerCase,
    StringTrim,
    /// `indexOf` with one argument (the start index defaults to 0).
    StringIndexOf,
    /// `codePointAt` with one argument; it shares the fast path of
    /// `charCodeAt`.
    StringCodePointAt,
    StringToUpperCase,
    /// `startsWith` with one argument.
    StringStartsWith,
    /// `endsWith` with one argument.
    StringEndsWith,
    /// `includes` with one argument.
    StringIncludes,
}

/// The per-call-site memo of a table lookup.
#[derive(Debug, Clone, Copy, PartialEq, Eq, Structural)]
pub enum CachedDispatch {
    NotCached,
    NoMatch,
    /// The index of the matching table entry.
    Entry(u8),
}

/// One entry of the table. Its fast path is `IhiEntry::fast`, chosen by
/// the cache slot.
#[derive(Debug, Clone, Copy)]
pub struct IhiEntry {
    pub key: &'static str,
    pub receiver: IhiReceiverKind,
    /// `None` for a property read, `Some(n)` for a method call of arity `n`.
    pub arity: Option<u8>,
    pub cached_id_field: IhiCachedField,
}

/// The entries of the table, in lookup order.
pub open spec fn table() -> Seq<IhiEntry> {
    seq![
        IhiEntry { key: "charCodeAt", receiver: IhiReceiverKind::String, arity: Some(1u8), cached_id_field: IhiCachedField::StringCharCodeAt },
        IhiEntry { key: "toLowerCase", receiver: IhiReceiverKind::String, arity: Some(0u8), cached_id_field: IhiCachedField::StringToLowerCase },
        IhiEntry { key: "trim", receiver: IhiReceiverKind::String, arity: Some(0u8), cached_id_field: IhiCachedField::StringTrim },
        IhiEntry { key: "indexOf", receiver: IhiReceiverKind::String, arity: Some(1u8), cached_id_field: IhiCachedField::StringIndexOf },
        IhiEntry { key: "codePointAt", receiver: IhiReceiverKind::String, arity: Some(1u8), cached_id_field: IhiCachedField::StringCodePointAt },
        IhiEntry { key: "toUpperCase", receiver: IhiReceiverKind::String, arity: Some(0u8), cached_id_field: IhiCachedField::StringToUpperCase },
        IhiEntry { key: "startsWith", receiver: IhiReceiverKind::String, arity: Some(1u8), cached_id_field: IhiCachedField::StringStartsWith },
        IhiEntry { key: "endsWith", receiver: IhiReceiverKind::String, arity: Some(1u8), cached_id_field: IhiCachedField::StringEndsWith },
        IhiEntry { key: "includes", receiver: IhiReceiverKind::String, arity: Some(1u8), cached_id_field: IhiCachedField::StringIncludes },
    ]
}

/// The table.
pub fn ihi_table() -> (t: Vec<IhiEntry>)
    ensures
        t@ == table(),
{
    let t = vec![
        IhiEntry { key: "charCodeAt", receiver: IhiReceiverKind::String, arity: Some(1u8), cached_id_field: IhiCachedField::StringCharCodeAt },
        IhiEntry { key: "toLowerCase", receiver: IhiReceiverKind::String, arity: Some(0u8), cached_id_field: IhiCachedField::StringToLowerCase },
        IhiEntry { key: "trim", receiver: IhiReceiverKind::String, arity: Some(0u8), cached_id_field: IhiCachedField::StringTrim },
        IhiEntry { key: "indexOf", receiver: IhiReceiverKind::String, arity: Some(1u8), cached_id_field: IhiCachedField::StringIndexOf },
        IhiEntry { key: "codePointAt", receiver: IhiReceiverKind::String, arity: Some(1u8), cached_id_field: IhiCachedField::StringCodePointAt },
        IhiEntry { key: "toUpperCase", receiver: IhiReceiverKind::String, arity: Some(0u8), cached_id_field: IhiCachedField::StringToUpperCase },
        IhiEntry { key: "startsWith", receiver: IhiReceiverKind::String, arity: Some(1u8), cached_id_field: IhiCachedField::StringStartsWith },
        IhiEntry { key: "endsWith", receiver: IhiReceiverKind::String, arity: Some(1u8), cached_id_field: IhiCachedField::StringEndsWith },
        IhiEntry { key: "includes", receiver: IhiReceiverKind::String, arity: Some(1u8), cached_id_field: IhiCachedField::StringIncludes },
    ];
    assert(t@ =~= table());
    t
}

/// The entry applies to a method call of `key` with this receiver kind and
/// arity.
pub open spec fn entry_matches(e: IhiEntry, key: Seq<char>, receiver: IhiReceiverKind, arity: u8) -> bool {
    e.key@ == key && e.receiver == receiver && e.arity == Some(arity)
}

/// The first entry of `t` that applies.
pub open spec fn first_match(t: Seq<IhiEntry>, key: Seq<char>, receiver: IhiReceiverKind, arity: u8) -> Option<IhiEntry>
    decreases t.len(),
{
    if t.len() == 0 {
        None
    } else if entry_matches(t[0], key, receiver, arity) {
        Some(t[0])
    } else {
        first_match(t.skip(1), key, receiver, arity)
    }
}

/// Looks up the table entry for a method call of `key` on a receiver of
/// this kind with `arity` arguments.
pub fn lookup(key: &str, receiver: IhiReceiverKind, arity: u8) -> (r: Option<IhiEntry>)
    ensures
        r == first_match(table(), key@, receiver, arity),
{
    let t = ihi_table();
    let mut i: usize = 0;
    assert(t@.skip(0) =~= t@);
    while i < t.len()
        invariant
            0 <= i <= t@.len(),
            t@ == table(),
            first_match(table(), key@, receiver, arity) == first_match(t@.skip(i as int), key@, receiver, arity),
        decreases t@.len() - i,
    {
        let e = t[i];
        assert(t@.skip(i as int)[0] == e);
        assert(t@.skip(i as int).skip(1) =~= t@.skip(i + 1));
        let arity_matches = match e.arity {
            Some(a) => a == arity,
            None => false,
        };
        if str_equal(e.key, key) && e.receiver == receiver && arity_matches {
            return Some(e);
        }
        i = i + 1;
    }
    None
}

/// The receiver kind of a value, for the table lookup: strings, objects
/// (counted as arrays) and numbers; any other value counts as a number,
/// which no entry applies to.
pub fn receiver_kind_of(v: &Value) -> (k: IhiReceiverKind)
    ensures
        k == (match *v {
            Value::String(_) => IhiReceiverKind::String,
            Value::Object(_) => IhiReceiverKind::Array,
            _ => IhiReceiverKind::Number,
        }),
{
    match v {
        Value::String(_) => IhiReceiverKind::String,
        Value::Object(_) => IhiReceiverKind::Array,
        _ => IhiReceiverKind::Number,
    }
}

// ------------------------------------------------------ results, in spec

/// `r` is the Number of the integer `k` (`+0` for zero).
pub open spec fn number_result(r: Option<Value>, k: int) -> bool {
    r matches Some(Value::Number(b)) && denotes_int(b, k) && (sign_bit(b) <==> k < 0)
}

/// `r` is a NaN Number.
pub open spec fn nan_result(r: Option<Value>) -> bool {
    r matches Some(Value::Number(b)) && is_nan(b)
}

/// `r` is the String `t`.
pub open spec fn string_result(r: Option<Value>, t: Seq<char>) -> bool {
    r matches Some(Value::String(x)) && x@ == t
}

/// The string of a value, if it is one.
pub open spec fn string_of(v: Value) -> Option<Seq<char>> {
    match v {
        Value::String(s) => Some(s@),
        _ => None,
    }
}

/// The character index that `charCodeAt` reads for its argument on the fast
/// path: `undefined` reads 0, a finite Number `x >= 0` reads `x` truncated;
/// anything else (NaN, negative, not a Number) leaves the fast path.
pub open spec fn char_index(arg: Value) -> Option<int> {
    match arg {
        Value::Undefined => Some(0),
        Value::Number(n) => if is_finite(n) && (!sign_bit(n) || is_zero(n)) {
            Some(trunc_magnitude(n))
        } else {
            None
        },
        _ => None,
    }
}

/// The ASCII whitespace the fast `trim` strips: space, tab, line feed,
/// vertical tab, form feed and carriage return.
pub open spec fn is_ascii_ws(c: char) -> bool {
    c == ' ' || ('\t' <= c <= '\r')
}

/// `s` without its leading ASCII whitespace.
pub open spec fn trim_ws_start(s: Seq<char>) -> Seq<char>
    decreases s.len(),
{
    if s.len() > 0 && is_ascii_ws(s[0]) {
        trim_ws_start(s.skip(1))
    } else {
        s
    }
}

/// `s` without its trailing ASCII whitespace.
pub open spec fn trim_ws_end(s: Seq<char>) -> Seq<char>
    decreases s.len(),
{
    if s.len() > 0 && is_ascii_ws(s.last()) {
        trim_ws_end(s.drop_last())
    } else {
        s
    }
}

/// `s` without leading or trailing ASCII whitespace.
pub open spec fn trim_ws(s: Seq<char>) -> Seq<char> {
    trim_ws_end(trim_ws_start(s))
}

/// An ASCII letter moved to lower case; any other character unchanged.
pub open spec fn ascii_lower(c: char) -> char {
    if 'A' <= c <= 'Z' { ((c as u32) + 32) as char } else { c }
}

/// An ASCII letter moved to upper case; any other character unchanged.
pub open spec fn ascii_upper(c: char) -> char {
    if 'a' <= c <= 'z' { ((c as u32) - 32) as char } else { c }
}

/// What the fast path of the intrinsic `field` answers for a call on
/// `recv` with `args`. (`indexOf` leaves the fast path for a string of 2^53
/// characters or more, whose positions a Number cannot hold exactly.)
pub open spec fn fast_answer(field: IhiCachedField, recv: Value, args: Seq<Value>, r: Option<Value>) -> bool {
    match field {
        IhiCachedField::StringCharCodeAt | IhiCachedField::StringCodePointAt => match string_of(recv) {
            Some(s) if args.len() == 1 => match char_index(args[0]) {
                Some(i) => if i < s.len() { number_result(r, s[i] as u32 as int) } else { nan_result(r) },
                None => r is None,
            },
            _ => r is None,
        },
        IhiCachedField::StringToLowerCase => match string_of(recv) {
            Some(s) if args.len() == 0 && is_ascii_chars(s) => string_result(r, s.map_values(|c: char| ascii_lower(c))),
            _ => r is None,
        },
        IhiCachedField::StringToUpperCase => match string_of(recv) {
            Some(s) if args.len() == 0 && is_ascii_chars(s) => string_result(r, s.map_values(|c: char| ascii_upper(c))),
            _ => r is None,
        },
        IhiCachedField::StringTrim => match string_of(recv) {
            Some(s) if args.len() == 0 && is_ascii_chars(s) => string_result(r, trim_ws(s)),
            _ => r is None,
        },
        IhiCachedField::StringIndexOf => match (string_of(recv), if args.len() == 1 { string_of(args[0]) } else { None }) {
            (Some(s), Some(n)) if is_ascii_chars(s) && is_ascii_chars(n)
                && (s.len() < 2 * two52() || n.len() == 0 || n.len() > s.len()) => number_result(r, first_occurrence(s, n)),
            _ => r is None,
        },
        IhiCachedField::StringStartsWith => match (string_of(recv), if args.len() == 1 { string_of(args[0]) } else { None }) {
            (Some(s), Some(n)) if is_ascii_chars(s) && is_ascii_chars(n) => r == Some(Value::Boolean(occurs_at(s, n, 0))),
            _ => r is None,
        },
        IhiCachedField::StringEndsWith => match (string_of(recv), if args.len() == 1 { string_of(args[0]) } else { None }) {
            (Some(s), Some(n)) if is_ascii_chars(s) && is_ascii_chars(n) => r == Some(Value::Boolean(occurs_at(s, n, s.len() - n.len()))),
            _ => r is None,
        },
        IhiCachedField::StringIncludes => match (string_of(recv), if args.len() == 1 { string_of(args[0]) } else { None }) {
            (Some(s), Some(n)) if is_ascii_chars(s) && is_ascii_chars(n) => r == Some(Value::Boolean(occurs_in(s, n))),
            _ => r is None,
        },
    }
}

// ---------------------------------------------------------- fast paths

/// The number of a position or -1.
fn position_number(p: Option<usize>) -> (b: u64)
    requires
        p matches Some(q) ==> q < 2 * two52(),
    ensures
        match p {
            Some(q) => denotes_int(b, q as int) && !sign_bit(b),
            None => denotes_int(b, -1) && sign_bit(b),
        },
{
    match p {
        Some(q) => number_from_u64(q as u64),
        None => minus_one(),
    }
}

/// `charCodeAt` (and `codePointAt`) with one argument: the code of the
/// character at the index, NaN past the end; a NaN, negative or
/// non-numeric index leaves the fast path.
fn fast_string_char_code_at(recv: &Value, args: &[Value]) -> (r: Option<Value>)
    ensures
        fast_answer(IhiCachedField::StringCharCodeAt, *recv, args@, r),
{
    if args.len() != 1 {
        return None;
    }
    match recv {
        Value::String(s) => {
            // The index, or `None` when it exceeds every length.
            let idx: Option<u64> = match &args[0] {
                Value::Undefined => Some(0),
                Value::Number(n) => {
                    if number_is_finite(*n) && (!number_is_sign_negative(*n) || number_is_zero(*n)) {
                        trunc_magnitude_u64(*n)
                    } else {
                        return None;
                    }
                },
                _ => {
                    return None;
                },
            };
            let cs = chars_of(s.as_str());
            let len = cs.len();
            match idx {
                Some(t) => {
                    if t < len as u64 {
                        let c = cs[t as usize];
                        let code: u32 = c as u32;
                        proof {
                            vstd::utf8::char_is_scalar(c);
                        }
                        let b = number_from_u64(code as u64);
                        assert(char_index(args@[0]) == Some(t as int));
                        assert(s@[t as int] == c);
                        let r = Some(Value::Number(b));
                        r
                    } else {
                        assert(char_index(args@[0]) == Some(t as int));
                        Some(Value::Number(nan()))
                    }
                },
                None => Some(Value::Number(nan())),
            }
        },
        _ => None,
    }
}

fn to_ascii_lower(c: char) -> (r: char)
    ensures
        r == ascii_lower(c),
{
    if 'A' <= c && c <= 'Z' {
        ((c as u8) + 32) as char
    } else {
        c
    }
}

fn to_ascii_upper(c: char) -> (r: char)
    ensures
        r == ascii_upper(c),
{
    if 'a' <= c && c <= 'z' {
        ((c as u8) - 32) as char
    } else {
        c
    }
}

/// `toLowerCase` on an ASCII string; any other string leaves the fast path.
fn fast_string_to_lower_case(recv: &Value, args: &[Value]) -> (r: Option<Value>)
    ensures
        fast_answer(IhiCachedField::StringToLowerCase, *recv, args@, r),
{
    if args.len() != 0 {
        return None;
    }
    match recv {
        Value::String(s) => {
            if s.as_str().is_ascii() {
                let cs = chars_of(s.as_str());
                let mut out = String::new();
                let mut i: usize = 0;
                while i < cs.len()
                    invariant
                        0 <= i <= cs@.len(),
                        out@ == cs@.subrange(0, i as int).map_values(|c: char| ascii_lower(c)),
                    decreases cs@.len() - i,
                {
                    push_char(&mut out, to_ascii_lower(cs[i]));
                    assert(cs@.subrange(0, i + 1).map_values(|c: char| ascii_lower(c))
                        =~= cs@.subrange(0, i as int).map_values(|c: char| ascii_lower(c)).push(ascii_lower(cs@[i as int])));
                    i = i + 1;
                }
                assert(cs@.subrange(0, cs@.len() as int) =~= s@);
                Some(Value::String(out))
            } else {
                None
            }
        },
        _ => None,
    }
}

/// `toUpperCase` on an ASCII string; any other string leaves the fast path.
fn fast_string_to_upper_case(recv: &Value, args: &[Value]) -> (r: Option<Value>)
    ensures
        fast_answer(IhiCachedField::StringToUpperCase, *recv, args@, r),
{
    if args.len() != 0 {
        return None;
    }
    match recv {
        Value::String(s) => {
            if s.as_str().is_ascii() {
                let cs = chars_of(s.as_str());
                let mut out = String::new();
                let mut i: usize = 0;
                while i < cs.len()
                    invariant
                        0 <= i <= cs@.len(),
                        out@ == cs@.subrange(0, i as int).map_values(|c: char| ascii_upper(c)),
                    decreases cs@.len() - i,
                {
                    push_char(&mut out, to_ascii_upper(cs[i]));
                    assert(cs@.subrange(0, i + 1).map_values(|c: char| ascii_upper(c))
                        =~= cs@.subrange(0, i as int).map_values(|c: char| ascii_upper(c)).push(ascii_upper(cs@[i as int])));
                    i = i + 1;
                }
                assert(cs@.subrange(0, cs@.len() as int) =~= s@);
                Some(Value::String(out))
            } else {
                None
            }
        },
        _ => None,
    }
}

fn is_ascii_ws_exec(c: char) -> (r: bool)
    ensures
        r == is_ascii_ws(c),
{
    c == ' ' || ('\t' <= c && c <= '\r')
}

/// `trim` on an ASCII string: the ASCII whitespace at both ends stripped;
/// any other string leaves the fast path, as it may hold other whitespace.
fn fast_string_trim(recv: &Value, args: &[Value]) -> (r: Option<Value>)
    ensures
        fast_answer(IhiCachedField::StringTrim, *recv, args@, r),
{
    if args.len() != 0 {
        return None;
    }
    match recv {
        Value::String(s) => {
            if !s.as_str().is_ascii() {
                return None;
            }
            let cs = chars_of(s.as_str());
            let n = cs.len();
            let mut start: usize = 0;
            assert(s@.skip(0) =~= s@);
            while start < n && is_ascii_ws_exec(cs[start])
                invariant
                    0 <= start <= n,
                    n == s@.len(),
                    cs@ == s@,
                    trim_ws_start(s@) == trim_ws_start(s@.skip(start as int)),
                decreases n - start,
            {
                assert(s@.skip(start as int).skip(1) =~= s@.skip(start + 1));
                start = start + 1;
            }
            assert(trim_ws_start(s@) == s@.skip(start as int));
            let mut end: usize = n;
            assert(s@.subrange(start as int, n as int) =~= s@.skip(start as int));
            while end > start && is_ascii_ws_exec(cs[end - 1])
                invariant
                    0 <= start <= end <= n,
                    n == s@.len(),
                    cs@ == s@,
                    trim_ws(s@) == trim_ws_end(s@.subrange(start as int, end as int)),
                decreases end,
            {
                assert(s@.subrange(start as int, end as int).drop_last() =~= s@.subrange(start as int, end - 1));
                end = end - 1;
            }
            assert(trim_ws(s@) == s@.subrange(start as int, end as int));
            if start == 0 && end == n {
                assert(s@.subrange(0, n as int) =~= s@);
                Some(Value::String(s.clone()))
            } else {
                let t = s.as_str().substring_char(start, end);
                Some(Value::String(String::from_str(t)))
            }
        },
        _ => None,
    }
}

/// `indexOf` with one argument on ASCII strings: the first position of the
/// needle, or -1; non-ASCII strings leave the fast path.
fn fast_string_index_of_1(recv: &Value, args: &[Value]) -> (r: Option<Value>)
    ensures
        fast_answer(IhiCachedField::StringIndexOf, *recv, args@, r),
{
    if args.len() != 1 {
        return None;
    }
    match (recv, &args[0]) {
        (Value::String(s), Value::String(needle)) => {
            if s.as_str().is_ascii() && needle.as_str().is_ascii() {
                let sc = chars_of(s.as_str());
                let nc = chars_of(needle.as_str());
                if nc.len() == 0 {
                    assert(sc@.subrange(0, 0) =~= nc@);
                    return Some(Value::Number(position_number(Some(0))));
                }
                if nc.len() > sc.len() {
                    return Some(Value::Number(position_number(None)));
                }
                if sc.len() as u64 >= 0x20_0000_0000_0000 {
                    return None;
                }
                let p = first_occurrence_exec(&sc, &nc);
                proof {
                    lemma_first_occurrence_from(s@, needle@, 0);
                }
                Some(Value::Number(position_number(p)))
            } else {
                None
            }
        },
        _ => None,
    }
}

/// `startsWith` with one argument on ASCII strings.
fn fast_string_starts_with(recv: &Value, args: &[Value]) -> (r: Option<Value>)
    ensures
        fast_answer(IhiCachedField::StringStartsWith, *recv, args@, r),
{
    if args.len() != 1 {
        return None;
    }
    match (recv, &args[0]) {
        (Value::String(s), Value::String(prefix)) => {
            if s.as_str().is_ascii() && prefix.as_str().is_ascii() {
                let sc = chars_of(s.as_str());
                let pc = chars_of(prefix.as_str());
                if pc.len() > sc.len() {
                    return Some(Value::Boolean(false));
                }
                Some(Value::Boolean(window_eq(&sc, &pc, 0)))
            } else {
                None
            }
        },
        _ => None,
    }
}

/// `endsWith` with one argument on ASCII strings.
fn fast_string_ends_with(recv: &Value, args: &[Value]) -> (r: Option<Value>)
    ensures
        fast_answer(IhiCachedField::StringEndsWith, *recv, args@, r),
{
    if args.len() != 1 {
        return None;
    }
    match (recv, &args[0]) {
        (Value::String(s), Value::String(suffix)) => {
            if s.as_str().is_ascii() && suffix.as_str().is_ascii() {
                let sc = chars_of(s.as_str());
                let fc = chars_of(suffix.as_str());
                if fc.len() > sc.len() {
                    return Some(Value::Boolean(false));
                }
                let off = sc.len() - fc.len();
                Some(Value::Boolean(window_eq(&sc, &fc, off)))
            } else {
                None
            }
        },
        _ => None,
    }
}

/// `includes` with one argument on ASCII strings.
fn fast_string_includes(recv: &Value, args: &[Value]) -> (r: Option<Value>)
    ensures
        fast_answer(IhiCachedField::StringIncludes, *recv, args@, r),
{
    if args.len() != 1 {
        return None;
    }
    match (recv, &args[0]) {
        (Value::String(s), Value::String(needle)) => {
            if s.as_str().is_ascii() && needle.as_str().is_ascii() {
                let sc = chars_of(s.as_str());
                let nc = chars_of(needle.as_str());
                if nc.len() == 0 {
                    assert(occurs_at(s@, needle@, 0)) by {
                        assert(s@.subrange(0, 0) =~= needle@);
                    }
                    return Some(Value::Boolean(true));
                }
                if nc.len() > sc.len() {
                    return Some(Value::Boolean(false));
                }
                let p = first_occurrence_exec(&sc, &nc);
                proof {
                    lemma_first_occurrence_from(s@, needle@, 0);
                    if let Some(q) = p {
                        assert(occurs_at(s@, needle@, q as int));
                    }
                }
                Some(Value::Boolean(p.is_some()))
            } else {
                None
            }
        },
        _ => None,
    }
}

impl IhiEntry {
    /// The fast path of the entry: `Some(value)` answers the call, `None`
    /// sends it on to the general path.
    pub fn fast(&self, recv: &Value, args: &[Value]) -> (r: Option<Value>)
        ensures
            fast_answer(self.cached_id_field, *recv, args@, r),
    {
        match self.cached_id_field {
            IhiCachedField::StringCharCodeAt | IhiCachedField::StringCodePointAt => fast_string_char_code_at(recv, args),
            IhiCachedField::StringToLowerCase => fast_string_to_lower_case(recv, args),
            IhiCachedField::StringTrim => fast_string_trim(recv, args),
            IhiCachedField::StringIndexOf => fast_string_index_of_1(recv, args),
            IhiCachedField::StringToUpperCase => fast_string_to_upper_case(recv, args),
            IhiCachedField::StringStartsWith => fast_string_starts_with(recv, args),
            IhiCachedField::StringEndsWith => fast_string_ends_with(recv, args),
            IhiCachedField::StringIncludes => fast_string_includes(recv, args),
        }
    }
}

// ------------------------------------------------------------------ laws

/// Only string receivers have fast paths: a lookup for any other receiver
/// kind finds nothing.
pub proof fn law_only_strings_have_fast_paths(key: Seq<char>, receiver: IhiReceiverKind, arity: u8)
    requires
        receiver != IhiReceiverKind::String,
    ensures
        first_match(table(), key, receiver, arity) is None,
{
    reveal_with_fuel(first_match, 10);
}

/// The first entry that applies is the one at `i` when it applies and none
/// before it does.
proof fn lemma_first_match_at(t: Seq<IhiEntry>, key: Seq<char>, receiver: IhiReceiverKind, arity: u8, i: int)
    requires
        0 <= i < t.len(),
        entry_matches(t[i], key, receiver, arity),
        forall|j: int| 0 <= j < i ==> !entry_matches(#[trigger] t[j], key, receiver, arity),
    ensures
        first_match(t, key, receiver, arity) == Some(t[i]),
    decreases i,
{
    if i > 0 {
        assert forall|j: int| 0 <= j < i - 1 implies !entry_matches(#[trigger] t.skip(1)[j], key, receiver, arity) by {
            assert(t.skip(1)[j] == t[j + 1]);
        }
        lemma_first_match_at(t.skip(1), key, receiver, arity, i - 1);
    }
}

/// Every entry of the table is what a lookup of its own key, receiver kind
/// and arity finds: no two entries share a key.
pub proof fn law_every_entry_is_found(i: int)
    requires
        0 <= i < table().len(),
    ensures
        first_match(table(), table()[i].key@, table()[i].receiver, table()[i].arity->0)
            == Some(table()[i]),
{
    reveal_strlit("charCodeAt");
    reveal_strlit("toLowerCase");
    reveal_strlit("trim");
    reveal_strlit("indexOf");
    reveal_strlit("codePointAt");
    reveal_strlit("toUpperCase");
    reveal_strlit("startsWith");
    reveal_strlit("endsWith");
    reveal_strlit("includes");
    let t = table();
    // Entries of equal key length differ in a character.
    assert(t[0].key@[0] != t[6].key@[0]);
    assert(t[1].key@[0] != t[4].key@[0]);
    assert(t[1].key@[2] != t[5].key@[2]);
    assert(t[4].key@[0] != t[5].key@[0]);
    assert(t[7].key@[0] != t[8].key@[0]);
    assert forall|j: int| 0 <= j < table().len() && j != i implies t[j].key@ != #[trigger] t[i].key@ by {
        if t[j].key@ == t[i].key@ {
            assert(t[j].key@.len() == t[i].key@.len());
        }
    }
    lemma_first_match_at(t, t[i].key@, t[i].receiver, t[i].arity->0, i);
}

/// `indexOf` finds the first occurrence: it is -1 exactly when the needle
/// occurs nowhere (when `includes` is false), 0 exactly when the string
/// starts with it, and otherwise a position where it occurs with none
/// before.
pub proof fn law_index_of_agrees_with_includes_and_starts_with(s: Seq<char>, n: Seq<char>)
    ensures
        first_occurrence(s, n) >= 0 <==> occurs_in(s, n),
        first_occurrence(s, n) == -1 <==> !occurs_in(s, n),
        first_occurrence(s, n) == 0 <==> occurs_at(s, n, 0),
        first_occurrence(s, n) >= 0 ==> occurs_at(s, n, first_occurrence(s, n))
            && forall|q: int| 0 <= q < first_occurrence(s, n) ==> !occurs_at(s, n, q),
{
    lemma_first_occurrence_from(s, n, 0);
    if first_occurrence(s, n) >= 0 {
        assert(occurs_at(s, n, first_occurrence(s, n)));
    }
    if occurs_in(s, n) {
        let p = choose|p: int| occurs_at(s, n, p);
        assert(occurs_at(s, n, p));
    }
}

/// Lower-casing moves each capital letter `A`..`Z` to the small letter 32
/// code points above it (`Z` to `z`), and keeps every other character.
pub proof fn law_lower_case_moves_each_capital(c: char)
    ensures
        'A' <= c <= 'Z' ==> ascii_lower(c) as u32 == c as u32 + 32 && 'a' <= ascii_lower(c) <= 'z',
        !('A' <= c <= 'Z') ==> ascii_lower(c) == c,
{
}

/// Upper-casing moves each small letter `a`..`z` to the capital 32 code
/// points below it (`z` to `Z`), and keeps every other character.
pub proof fn law_upper_case_moves_each_small_letter(c: char)
    ensures
        'a' <= c <= 'z' ==> ascii_upper(c) as u32 + 32 == c as u32 && 'A' <= ascii_upper(c) <= 'Z',
        !('a' <= c <= 'z') ==> ascii_upper(c) == c,
{
}

/// The fast `toLowerCase` of a string is as long as the string, holds no
/// capital letter `A`..`Z`, and differs from it only where the string holds a
/// capital, which becomes the small letter 32 code points above it.
pub proof fn law_fast_lower_case_leaves_no_capitals(recv: Value, args: Seq<Value>, r: Option<Value>)
    requires
        fast_answer(IhiCachedField::StringToLowerCase, recv, args, r),
        r is Some,
    ensures
        recv matches Value::String(s) && r matches Some(Value::String(t)) && {
            &&& t@.len() == s@.len()
            &&& forall|i: int| 0 <= i < t@.len() ==> !('A' <= #[trigger] t@[i] <= 'Z')
            &&& forall|i: int| 0 <= i < t@.len() ==> ('A' <= s@[i] <= 'Z' ==> #[trigger] t@[i] as u32 == s@[i] as u32 + 32)
            &&& forall|i: int| 0 <= i < t@.len() ==> (!('A' <= s@[i] <= 'Z') ==> #[trigger] t@[i] == s@[i])
        },
{
    if let Value::String(s) = recv {
        if let Some(Value::String(t)) = r {
            assert forall|i: int| 0 <= i < t@.len() implies !('A' <= #[trigger] t@[i] <= 'Z') by {
                law_lower_case_moves_each_capital(s@[i]);
            }
            assert forall|i: int| 0 <= i < t@.len() implies ('A' <= s@[i] <= 'Z' ==> #[trigger] t@[i] as u32 == s@[i] as u32 + 32) by {
                law_lower_case_moves_each_capital(s@[i]);
            }
        }
    }
}

/// The fast `toUpperCase` of a string is as long as the string, holds no
/// small letter `a`..`z`, and differs from it only where the string holds a
/// small letter, which becomes the capital 32 code points below it.
pub proof fn law_fast_upper_case_leaves_no_small_letters(recv: Value, args: Seq<Value>, r: Option<Value>)
    requires
        fast_answer(IhiCachedField::StringToUpperCase, recv, args, r),
        r is Some,
    ensures
        recv matches Value::String(s) && r matches Some(Value::String(t)) && {
            &&& t@.len() == s@.len()
            &&& forall|i: int| 0 <= i < t@.len() ==> !('a' <= #[trigger] t@[i] <= 'z')
            &&& forall|i: int| 0 <= i < t@.len() ==> ('a' <= s@[i] <= 'z' ==> #[trigger] t@[i] as u32 + 32 == s@[i] as u32)
            &&& forall|i: int| 0 <= i < t@.len() ==> (!('a' <= s@[i] <= 'z') ==> #[trigger] t@[i] == s@[i])
        },
{
    if let Value::String(s) = recv {
        if let Some(Value::String(t)) = r {
            assert forall|i: int| 0 <= i < t@.len() implies !('a' <= #[trigger] t@[i] <= 'z') by {
                law_upper_case_moves_each_small_letter(s@[i]);
            }
            assert forall|i: int| 0 <= i < t@.len() implies ('a' <= s@[i] <= 'z' ==> #[trigger] t@[i] as u32 + 32 == s@[i] as u32) by {
                law_upper_case_moves_each_small_letter(s@[i]);
            }
        }
    }
}

/// Trimming twice trims no more than once.
pub proof fn law_trim_is_idempotent(s: Seq<char>)
    ensures
        trim_ws(trim_ws(s)) == trim_ws(s),
{
    lemma_trim_start_keeps_no_leading_ws(s);
    let t = trim_ws_start(s);
    lemma_trim_end_keeps_start(t);
    lemma_trim_end_keeps_no_trailing_ws(t);
    let u = trim_ws_end(t);
    // `u` starts and ends with no whitespace, so both passes keep it.
    assert(trim_ws_start(u) == u);
    assert(trim_ws_end(u) == u);
}

proof fn lemma_trim_start_keeps_no_leading_ws(s: Seq<char>)
    ensures
        trim_ws_start(s).len() == 0 || !is_ascii_ws(trim_ws_start(s)[0]),
    decreases s.len(),
{
    if s.len() > 0 && is_ascii_ws(s[0]) {
        lemma_trim_start_keeps_no_leading_ws(s.skip(1));
    }
}

proof fn lemma_trim_end_keeps_no_trailing_ws(s: Seq<char>)
    ensures
        trim_ws_end(s).len() == 0 || !is_ascii_ws(trim_ws_end(s).last()),
    decreases s.len(),
{
    if s.len() > 0 && is_ascii_ws(s.last()) {
        lemma_trim_end_keeps_no_trailing_ws(s.drop_last());
    }
}

/// Trimming the end keeps a prefix, so a first character that was no
/// whitespace stays first (or the result is empty).
proof fn lemma_trim_end_keeps_start(s: Seq<char>)
    ensures
        trim_ws_end(s).len() <= s.len(),
        trim_ws_end(s) == s.subrange(0, trim_ws_end(s).len() as int),
    decreases s.len(),
{
    if s.len() > 0 && is_ascii_ws(s.last()) {
        lemma_trim_end_keeps_start(s.drop_last());
        assert(s.drop_last().subrange(0, trim_ws_end(s).len() as int)
            =~= s.subrange(0, trim_ws_end(s).len() as int));
    } else {
        assert(s.subrange(0, s.len() as int) =~= s);
    }
}

} // verus!
