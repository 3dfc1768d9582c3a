//! Built-in functions of the runtime on arguments already coerced: the
//! `Number` predicates, the array-length conversion, `Math.imul` and
//! `Math.clz32`, `String.fromCharCode`, `String.raw`,
//! `Object.prototype.toString`,
//! the symbol registry lookup and the `toString` texts of symbols and
//! errors.
use vstd::prelude::*;
use vstd::utf8::is_scalar;
use crate::interp::RuntimeError;
use crate::number::{to_i64_saturating, number_to_i64, denotes_int, is_finite, is_integral, is_nan, to_u32_saturating, to_uint32, trunc_magnitude, number_is_finite, number_is_integral, number_is_nan, number_is_sign_negative, number_to_u32, number_to_uint32, trunc_magnitude_u64};
use crate::string_proto::collect_range;
use crate::text::{char_from_u32, chars_of, push_char};
use crate::value::Value;

verus! {

// ------------------------------------------------------ Number predicates

/// `Number.isInteger(v)`: a finite Number with no fractional part.
pub fn js_number_is_integer(v: &Value) -> (r: bool)
    ensures
        r == (*v matches Value::Number(n) && is_integral(n)),
{
    match v {
        Value::Number(n) => number_is_integral(*n),
        _ => false,
    }
}

/// `Number.isFinite(v)`: a finite Number.
pub fn js_number_is_finite(v: &Value) -> (r: bool)
    ensures
        r == (*v matches Value::Number(n) && is_finite(n)),
{
    match v {
        Value::Number(n) => number_is_finite(*n),
        _ => false,
    }
}

/// `Number.isNaN(v)`: the Number NaN.
pub fn js_number_is_nan(v: &Value) -> (r: bool)
    ensures
        r == (*v matches Value::Number(n) && is_nan(n)),
{
    match v {
        Value::Number(n) => number_is_nan(*n),
        _ => false,
    }
}

/// `Number.isSafeInteger(v)`: an integer Number of magnitude at most
/// `2^53 - 1`.
pub fn js_number_is_safe_integer(v: &Value) -> (r: bool)
    ensures
        r == (*v matches Value::Number(n) && is_integral(n) && trunc_magnitude(n) <= 0x1f_ffff_ffff_ffff),
{
    match v {
        Value::Number(n) => {
            if !number_is_integral(*n) {
                return false;
            }
            match trunc_magnitude_u64(*n) {
                Some(t) => t <= 0x1f_ffff_ffff_ffff,
                None => false,
            }
        },
        _ => false,
    }
}

// ----------------------------------------------------------- array length

/// The array-length conversion that must round-trip (§10.4.2.1 step 3):
/// ToUint32 of the number, or a RangeError when the number is not that
/// integer (`ToUint32(n) as f64 != n`).
pub fn to_uint32_strict(n: u64) -> (r: Result<u32, RuntimeError>)
    ensures
        match r {
            Ok(u) => u == to_uint32(n) && denotes_int(n, u as int),
            Err(e) => !denotes_int(n, to_uint32(n)) && (e matches RuntimeError::RangeError(m)
                && m@ == "Invalid array length: ToUint32 does not round-trip"@),
        },
{
    let u = number_to_uint32(n);
    let round_trips = if !number_is_integral(n) {
        false
    } else {
        match trunc_magnitude_u64(n) {
            Some(t) => if number_is_sign_negative(n) { t == 0 && u == 0 } else { t == u as u64 },
            None => false,
        }
    };
    if round_trips {
        Ok(u)
    } else {
        Err(RuntimeError::RangeError(String::from_str("Invalid array length: ToUint32 does not round-trip")))
    }
}

// --------------------------------------------------------- fromCharCode

/// The code unit of a `fromCharCode` argument: `n as u32`, low 16 bits.
pub open spec fn code_unit(n: u64) -> int {
    to_u32_saturating(n) % 0x10000
}

/// The codes of the characters `fromCharCode` makes: each argument's code
/// unit, but for the surrogates, which make none.
pub open spec fn char_code_units(codes: Seq<u64>) -> Seq<u32>
    decreases codes.len(),
{
    if codes.len() == 0 {
        Seq::empty()
    } else {
        let u = code_unit(codes.last()) as u32;
        if is_scalar(u) {
            char_code_units(codes.drop_last()).push(u)
        } else {
            char_code_units(codes.drop_last())
        }
    }
}

/// `String.fromCharCode(...codes)` on arguments coerced to Numbers: a
/// character per code unit, surrogate code units skipped.
pub fn string_from_char_codes(codes: &[u64]) -> (r: String)
    ensures
        r@.map_values(|c: char| c as u32) == char_code_units(codes@),
{
    let mut out = String::new();
    let mut i: usize = 0;
    while i < codes.len()
        invariant
            0 <= i <= codes@.len(),
            out@.map_values(|c: char| c as u32) == char_code_units(codes@.subrange(0, i as int)),
        decreases codes@.len() - i,
    {
        let u = number_to_u32(codes[i]) % 0x10000;
        assert(codes@.subrange(0, i + 1).drop_last() =~= codes@.subrange(0, i as int));
        assert(codes@.subrange(0, i + 1).last() == codes@[i as int]);
        match char_from_u32(u) {
            Some(c) => {
                let ghost prev = out@;
                push_char(&mut out, c);
                assert(out@.map_values(|c: char| c as u32) =~= prev.map_values(|c: char| c as u32).push(u));
            },
            None => {},
        }
        i = i + 1;
    }
    assert(codes@.subrange(0, codes@.len() as int) =~= codes@);
    out
}

// ---------------------------------------------------------------- symbols

/// The prefix of every canonical symbol key.
pub open spec fn sym_prefix() -> Seq<char> {
    seq!['@', '@', 's', 'y', 'm', ':']
}

/// The key carries the symbol prefix.
pub open spec fn has_sym_prefix(k: Seq<char>) -> bool {
    k.len() >= 6 && k.subrange(0, 6) == sym_prefix()
}

pub open spec fn is_ascii_digit(c: char) -> bool {
    '0' <= c <= '9'
}

/// The registry key of a symbol: a registered symbol is `@@sym:<key>` with
/// a key that does not start with a digit (other symbols carry a counter
/// there).
pub open spec fn registry_key(k: Seq<char>) -> Option<Seq<char>> {
    if has_sym_prefix(k) && !(k.len() > 6 && is_ascii_digit(k[6])) {
        Some(k.skip(6))
    } else {
        None
    }
}

fn has_sym_prefix_exec(cs: &Vec<char>) -> (r: bool)
    ensures
        r == has_sym_prefix(cs@),
{
    if cs.len() < 6 {
        return false;
    }
    let r = cs[0] == '@' && cs[1] == '@' && cs[2] == 's' && cs[3] == 'y' && cs[4] == 'm' && cs[5] == ':';
    proof {
        if r {
            assert(cs@.subrange(0, 6) =~= sym_prefix());
        } else {
            if cs@.subrange(0, 6) == sym_prefix() {
                assert(cs@.subrange(0, 6)[0] == '@');
                assert(cs@.subrange(0, 6)[1] == '@');
                assert(cs@.subrange(0, 6)[2] == 's');
                assert(cs@.subrange(0, 6)[3] == 'y');
                assert(cs@.subrange(0, 6)[4] == 'm');
                assert(cs@.subrange(0, 6)[5] == ':');
            }
        }
    }
    r
}

/// `Symbol.keyFor(sym)`: the registry key of a registered symbol,
/// `undefined` for any other symbol; a TypeError for a non-symbol (or no)
/// argument.
pub fn symbol_key_for(args: &[Value]) -> (r: Result<Value, RuntimeError>)
    ensures
        match (if args@.len() > 0 { args@[0] } else { Value::Undefined }) {
            Value::Symbol(k) => match registry_key(k@) {
                Some(key) => r matches Ok(Value::String(x)) && x@ == key,
                None => r matches Ok(Value::Undefined),
            },
            _ => r matches Err(RuntimeError::TypeError(m)) && m@ == "Symbol.keyFor: argument is not a Symbol"@,
        },
{
    if args.len() == 0 {
        return Err(RuntimeError::TypeError(String::from_str("Symbol.keyFor: argument is not a Symbol")));
    }
    match &args[0] {
        Value::Symbol(k) => {
            let cs = chars_of(k.as_str());
            if !has_sym_prefix_exec(&cs) {
                return Ok(Value::Undefined);
            }
            if cs.len() > 6 && '0' <= cs[6] && cs[6] <= '9' {
                return Ok(Value::Undefined);
            }
            let body = collect_range(&cs, 6, cs.len());
            assert(body@ =~= k@.skip(6));
            Ok(Value::String(body))
        },
        _ => Err(RuntimeError::TypeError(String::from_str("Symbol.keyFor: argument is not a Symbol"))),
    }
}

/// The position of the first `:` in `s`, if any.
pub open spec fn first_colon(s: Seq<char>) -> Option<int>
    decreases s.len(),
{
    if s.len() == 0 {
        None
    } else if s[0] == ':' {
        Some(0)
    } else {
        match first_colon(s.skip(1)) {
            Some(i) => Some(i + 1),
            None => None,
        }
    }
}

/// The description of a symbol from its key: the text after `@@sym:`, less
/// the counter and its `:` when the text starts with a digit.
pub open spec fn symbol_description(k: Seq<char>) -> Seq<char> {
    let body = if has_sym_prefix(k) { k.skip(6) } else { k };
    if body.len() > 0 && is_ascii_digit(body[0]) {
        match first_colon(body) {
            Some(i) => body.skip(i + 1),
            None => Seq::empty(),
        }
    } else {
        body
    }
}

/// `Symbol.prototype.toString()` of the symbol with key `k`:
/// `Symbol(<description>)`.
pub fn symbol_to_string(k: &str) -> (r: String)
    ensures
        r@ == "Symbol("@ + symbol_description(k@) + ")"@,
{
    let cs = chars_of(k);
    let start: usize = if has_sym_prefix_exec(&cs) { 6 } else { 0 };
    let n = cs.len();
    let ghost body = if has_sym_prefix(k@) { k@.skip(6) } else { k@ };
    assert(body =~= k@.subrange(start as int, n as int));
    let mut out = String::from_str("Symbol(");
    if start < n && '0' <= cs[start] && cs[start] <= '9' {
        let mut j: usize = start;
        assert(body.skip(0) =~= body);
        while j < n && cs[j] != ':'
            invariant
                start <= j <= n,
                n == k@.len(),
                cs@ == k@,
                body == k@.subrange(start as int, n as int),
                first_colon(body) == match first_colon(k@.subrange(j as int, n as int)) {
                    Some(i) => Some(i + (j - start)),
                    None => None::<int>,
                },
            decreases n - j,
        {
            assert(k@.subrange(j as int, n as int).skip(1) =~= k@.subrange(j + 1, n as int));
            j = j + 1;
        }
        if j < n {
            assert(k@.subrange(j as int, n as int)[0] == ':');
            let desc = collect_range(&cs, j + 1, n);
            assert(desc@ =~= body.skip(j - start + 1));
            out.append(desc.as_str());
        } else {
            assert(k@.subrange(j as int, n as int).len() == 0);
        }
    } else {
        let desc = collect_range(&cs, start, n);
        out.append(desc.as_str());
    }
    out.append(")");
    out
}

// ----------------------------------------------------------------- errors

/// `Error.prototype.toString()` of an error with this name and message:
/// the name alone when the message is empty, else `name: message`.
pub fn error_to_string(name: &str, message: &str) -> (r: String)
    ensures
        r@ == if message@.len() == 0 { name@ } else { name@ + ": "@ + message@ },
{
    let mut out = String::from_str(name);
    if !message.is_empty() {
        out.append(": ");
        out.append(message);
    }
    out
}

// -------------------------------------------------- 32-bit integer Math

/// `x` modulo 2^32, as a non-negative integer.
pub open spec fn low32(x: int) -> int {
    x % 0x1_0000_0000
}

/// `x` modulo 2^32, read as a signed 32-bit integer.
pub open spec fn wrap_i32(x: int) -> int {
    if low32(x) >= 0x8000_0000 { low32(x) - 0x1_0000_0000 } else { low32(x) }
}

/// The integer an argument becomes by the conversion to `i64` (truncating,
/// NaN to 0, saturating); `+0` when absent.
pub open spec fn i64_arg(x: Option<u64>) -> int {
    match x {
        Some(n) => to_i64_saturating(n),
        None => 0,
    }
}

fn i64_arg_exec(x: Option<u64>) -> (r: i64)
    ensures
        r == i64_arg(x),
{
    match x {
        Some(n) => number_to_i64(n),
        None => 0,
    }
}

/// `x` modulo 2^32 for `|x| <= 2^126`.
pub(crate) fn low32_exec(x: i128) -> (r: u32)
    requires
        -0x4000_0000_0000_0000_0000_0000_0000_0000 <= x <= 0x4000_0000_0000_0000_0000_0000_0000_0000,
    ensures
        r == low32(x as int),
{
    let q: u128 = if x < 0 { (x + 0x4000_0000_0000_0000_0000_0000_0000_0000) as u128 } else { x as u128 };
    proof {
        assert(low32(x + 0x4000_0000_0000_0000_0000_0000_0000_0000) == low32(x as int)) by (nonlinear_arith)
            requires
                true,
        {
            vstd::arithmetic::div_mod::lemma_mod_add_multiples_vanish(x as int, 0x1_0000_0000);
            assert(0x4000_0000_0000_0000_0000_0000_0000_0000int == 0x4000_0000_0000_0000_0000_0000int * 0x1_0000_0000);
            vstd::arithmetic::div_mod::lemma_mod_multiples_vanish(0x4000_0000_0000_0000_0000_0000int, x as int, 0x1_0000_0000);
        }
    }
    (q % 0x1_0000_0000) as u32
}

/// `Math.imul(a, b)`: the arguments converted to integers as `i64` (NaN to
/// 0, saturating) and cut to 32 bits, multiplied with 32-bit wrapping: the
/// product of the two integers modulo 2^32, as a signed 32-bit integer.
pub fn math_imul(a: Option<u64>, b: Option<u64>) -> (r: i32)
    ensures
        r == wrap_i32(i64_arg(a) * i64_arg(b)),
{
    let x = i64_arg_exec(a);
    let y = i64_arg_exec(b);
    assert(-0x4000_0000_0000_0000_0000_0000_0000_0000 <= x * y <= 0x4000_0000_0000_0000_0000_0000_0000_0000) by (nonlinear_arith)
        requires
            i64::MIN <= x <= i64::MAX,
            i64::MIN <= y <= i64::MAX,
    ;
    let p: i128 = (x as i128) * (y as i128);
    let m = low32_exec(p);
    if m >= 0x8000_0000 {
        (m as i64 - 0x1_0000_0000) as i32
    } else {
        m as i32
    }
}

/// The number of binary digits of `u`, none for zero.
pub open spec fn bit_length(u: nat) -> nat
    decreases u,
{
    if u == 0 { 0 } else { 1 + bit_length(u / 2) }
}

proof fn lemma_bit_length_bound(u: nat, k: nat, bound: nat)
    requires
        u < bound,
        bound <= vstd::arithmetic::power2::pow2(k),
    ensures
        bit_length(u) <= k,
    decreases u,
{
    if u > 0 {
        if k == 0 {
            vstd::arithmetic::power2::lemma2_to64();
        } else {
            vstd::arithmetic::power2::lemma_pow2_unfold(k);
            lemma_bit_length_bound(u / 2, (k - 1) as nat, vstd::arithmetic::power2::pow2((k - 1) as nat));
        }
    }
}

/// `Math.clz32(x)`: the leading zero bits of the argument converted to an
/// integer as `i64` (NaN to 0, saturating) and cut to 32 bits.
pub fn math_clz32(x: Option<u64>) -> (r: u32)
    ensures
        r == 32 - bit_length(low32(i64_arg(x)) as nat),
{
    let n = i64_arg_exec(x);
    let u = low32_exec(n as i128);
    let mut v: u32 = u;
    let mut len: u32 = 0;
    proof {
        vstd::arithmetic::power2::lemma2_to64();
        lemma_bit_length_bound(u as nat, 32, 0x1_0000_0000);
    }
    while v > 0
        invariant
            len + bit_length(v as nat) == bit_length(u as nat),
            bit_length(u as nat) <= 32,
        decreases v,
    {
        v = v / 2;
        len = len + 1;
    }
    32 - len
}

// ------------------------------------------------------------ String.raw

/// `String.raw`'s text: each raw segment, followed, but for the last, by
/// the substitution of the same index when there is one.
pub open spec fn raw_text(segments: Seq<Seq<char>>, subs: Seq<Seq<char>>, k: int) -> Seq<char>
    decreases k,
{
    if k <= 0 {
        Seq::empty()
    } else {
        let i = k - 1;
        raw_text(segments, subs, i) + segments[i]
            + if i + 1 < segments.len() && i < subs.len() { subs[i] } else { Seq::<char>::empty() }
    }
}

/// `String.raw(template, ...substitutions)` on the template's raw segments
/// and the substitutions, each already converted to a string.
pub fn string_raw(segments: &Vec<String>, subs: &Vec<String>) -> (r: String)
    ensures
        r@ == raw_text(segments@.map_values(|t: String| t@), subs@.map_values(|t: String| t@), segments@.len() as int),
{
    let ghost segs = segments@.map_values(|t: String| t@);
    let ghost sb = subs@.map_values(|t: String| t@);
    let mut out = String::new();
    let mut i: usize = 0;
    while i < segments.len()
        invariant
            0 <= i <= segments@.len(),
            segs == segments@.map_values(|t: String| t@),
            sb == subs@.map_values(|t: String| t@),
            out@ == raw_text(segs, sb, i as int),
        decreases segments@.len() - i,
    {
        out.append(segments[i].as_str());
        assert(segs[i as int] == segments@[i as int]@);
        if i + 1 < segments.len() && i < subs.len() {
            out.append(subs[i].as_str());
            assert(sb[i as int] == subs@[i as int]@);
        }
        assert(out@ =~= raw_text(segs, sb, i + 1));
        i = i + 1;
    }
    out
}

// --------------------------------------------- Object.prototype.toString

/// The kind of an object, as far as its default string tag goes.
#[derive(Debug, Clone, Copy, PartialEq, Eq, Structural)]
pub enum ObjectKind {
    Array,
    Function,
    Promise,
    Error,
    RegExp,
    NumberWrapper,
    StringWrapper,
    BooleanWrapper,
    BigIntWrapper,
    Ordinary,
}

/// The tag of an object without a string `@@toStringTag`.
pub open spec fn kind_tag(k: ObjectKind) -> Seq<char> {
    match k {
        ObjectKind::Array => "Array"@,
        ObjectKind::Function => "Function"@,
        ObjectKind::Promise => "Promise"@,
        ObjectKind::Error => "Error"@,
        ObjectKind::RegExp => "RegExp"@,
        ObjectKind::NumberWrapper => "Number"@,
        ObjectKind::StringWrapper => "String"@,
        ObjectKind::BooleanWrapper => "Boolean"@,
        ObjectKind::BigIntWrapper => "BigInt"@,
        ObjectKind::Ordinary => "Object"@,
    }
}

fn kind_tag_exec(k: ObjectKind) -> (r: &'static str)
    ensures
        r@ == kind_tag(k),
{
    match k {
        ObjectKind::Array => "Array",
        ObjectKind::Function => "Function",
        ObjectKind::Promise => "Promise",
        ObjectKind::Error => "Error",
        ObjectKind::RegExp => "RegExp",
        ObjectKind::NumberWrapper => "Number",
        ObjectKind::StringWrapper => "String",
        ObjectKind::BooleanWrapper => "Boolean",
        ObjectKind::BigIntWrapper => "BigInt",
        ObjectKind::Ordinary => "Object",
    }
}

/// The text of `Object.prototype.toString` for `this`: `[object T]` with
/// T the type of a primitive, and for an object its `@@toStringTag` when
/// that is a string, else the tag of its kind.
pub open spec fn object_to_string_text(this: Value, to_string_tag: Value, kind: ObjectKind) -> Seq<char> {
    "[object "@ + match this {
        Value::Undefined => "Undefined"@,
        Value::Null => "Null"@,
        Value::Boolean(_) => "Boolean"@,
        Value::Number(_) => "Number"@,
        Value::String(_) => "String"@,
        Value::BigInt(_) => "BigInt"@,
        Value::Symbol(_) => "Symbol"@,
        Value::Object(_) => match to_string_tag {
            Value::String(t) => t@,
            _ => kind_tag(kind),
        },
    } + "]"@
}

/// `Object.prototype.toString()` for `this`, given, for an object, the
/// value its `@@toStringTag` reads and its kind (both unused for a
/// primitive).
pub fn object_to_string(this: &Value, to_string_tag: &Value, kind: ObjectKind) -> (r: String)
    ensures
        r@ == object_to_string_text(*this, *to_string_tag, kind),
{
    let mut out = String::from_str("[object ");
    match this {
        Value::Undefined => out.append("Undefined"),
        Value::Null => out.append("Null"),
        Value::Boolean(_) => out.append("Boolean"),
        Value::Number(_) => out.append("Number"),
        Value::String(_) => out.append("String"),
        Value::BigInt(_) => out.append("BigInt"),
        Value::Symbol(_) => out.append("Symbol"),
        Value::Object(_) => match to_string_tag {
            Value::String(t) => out.append(t.as_str()),
            _ => out.append(kind_tag_exec(kind)),
        },
    }
    out.append("]");
    out
}

// ------------------------------------------------------------------ laws

/// `Math.imul` gives the signed 32-bit integer congruent to the product
/// modulo 2^32: it lies in `[-2^31, 2^31)` and differs from the product by
/// a multiple of 2^32.
pub proof fn law_imul_is_the_product_modulo_2_32(x: int)
    ensures
        -0x8000_0000 <= wrap_i32(x) < 0x8000_0000,
        (x - wrap_i32(x)) % 0x1_0000_0000 == 0,
{
    let q = x / 0x1_0000_0000;
    vstd::arithmetic::div_mod::lemma_fundamental_div_mod(x, 0x1_0000_0000);
    assert(x - low32(x) == 0x1_0000_0000 * q);
    vstd::arithmetic::div_mod::lemma_mod_multiples_basic(q, 0x1_0000_0000);
    vstd::arithmetic::div_mod::lemma_mod_multiples_basic(q + 1, 0x1_0000_0000);
    if low32(x) >= 0x8000_0000 {
        assert(x - wrap_i32(x) == 0x1_0000_0000 * (q + 1));
    }
}

/// `fromCharCode` makes one character per argument whose code unit is not
/// a surrogate, in order, each the argument's code unit; a surrogate unit
/// makes none. Every code it makes lies below 0x10000 and outside the
/// surrogates.
pub proof fn law_char_codes_keep_the_non_surrogate_units(codes: Seq<u64>)
    ensures
        char_code_units(codes) == codes.filter(|n: u64| is_scalar(code_unit(n) as u32)).map_values(|n: u64| code_unit(n) as u32),
        forall|i: int| 0 <= i < char_code_units(codes).len() ==> {
            let u = #[trigger] char_code_units(codes)[i];
            &&& u < 0x10000
            &&& !(0xD800 <= u <= 0xDFFF)
        },
    decreases codes.len(),
{
    reveal(Seq::filter);
    if codes.len() > 0 {
        law_char_codes_keep_the_non_surrogate_units(codes.drop_last());
        let f = codes.drop_last().filter(|n: u64| is_scalar(code_unit(n) as u32));
        let u = code_unit(codes.last()) as u32;
        assert(0 <= code_unit(codes.last()) < 0x10000);
        if is_scalar(u) {
            assert(f.push(codes.last()).map_values(|n: u64| code_unit(n) as u32)
                =~= f.map_values(|n: u64| code_unit(n) as u32).push(u));
            let prev = char_code_units(codes.drop_last());
            assert forall|i: int| 0 <= i < char_code_units(codes).len() implies {
                let w = #[trigger] char_code_units(codes)[i];
                &&& w < 0x10000
                &&& !(0xD800 <= w <= 0xDFFF)
            } by {
                if i < prev.len() {
                    assert(char_code_units(codes)[i] == prev[i]);
                }
            }
        }
    }
}

} // verus!
