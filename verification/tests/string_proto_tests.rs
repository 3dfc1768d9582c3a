use rusty_js_runtime::interp::RuntimeError;
use rusty_js_runtime::number::number_rounded_product_exceeds_2_29;
use rusty_js_runtime::string_proto::{
    string_at, string_char_at, string_char_code_at, string_code_point_at, string_ends_with, string_includes,
    string_index_of, string_last_index_of, string_locale_compare, string_pad_end, string_pad_start, string_repeat,
    string_replace, string_replace_all, string_slice, string_split, string_starts_with, string_substr,
    string_substring,
};

fn n(x: f64) -> Option<u64> {
    Some(x.to_bits())
}

#[test]
fn at_and_char_access() {
    assert_eq!(string_at("abc", None), Some('a'));
    assert_eq!(string_at("abc", n(-1.0)), Some('c'));
    assert_eq!(string_at("abc", n(-3.0)), Some('a'));
    assert_eq!(string_at("abc", n(-4.0)), None);
    assert_eq!(string_at("abc", n(3.0)), None);
    assert_eq!(string_at("abc", n(1.7)), Some('b'));
    assert_eq!(string_at("abc", n(f64::NAN)), Some('a'));
    assert_eq!(string_char_at("h\u{e9}llo", n(1.0)), Some('\u{e9}'));
    assert_eq!(string_char_at("abc", n(-1.0)), None);
    assert_eq!(string_char_at("abc", n(f64::INFINITY)), None);
    assert_eq!(string_char_at("abc", n(-0.0)), Some('a'));
    assert_eq!(string_char_code_at("abc", n(2.0)), Some(99));
    assert_eq!(string_char_code_at("abc", n(5.0)), None);
    assert_eq!(string_char_code_at("abc", None), Some(97));
}

#[test]
fn code_point_at_counts_utf16_units() {
    let s = "a\u{1f600}b";
    assert_eq!(string_code_point_at(s, n(0.0)), Some(97));
    assert_eq!(string_code_point_at(s, n(1.0)), Some(0x1f600));
    assert_eq!(string_code_point_at(s, n(2.0)), Some(0xde00));
    assert_eq!(string_code_point_at(s, n(3.0)), Some(98));
    assert_eq!(string_code_point_at(s, n(4.0)), None);
    assert_eq!(string_code_point_at(s, n(-1.0)), None);
    assert_eq!(string_code_point_at(s, None), Some(97));
}

#[test]
fn slices_and_substrings() {
    assert_eq!(string_slice("hello world", n(6.0), None), "world");
    assert_eq!(string_slice("hello world", n(-5.0), n(-1.0)), "worl");
    assert_eq!(string_slice("hello", n(3.0), n(1.0)), "");
    assert_eq!(string_slice("hello", n(-100.0), n(100.0)), "hello");
    assert_eq!(string_slice("h\u{e9}llo", n(1.0), n(2.0)), "\u{e9}");
    assert_eq!(string_substring("hello", n(3.0), n(1.0)), "el");
    assert_eq!(string_substring("hello", n(-3.0), n(2.0)), "he");
    assert_eq!(string_substring("hello", n(2.0), None), "llo");
    assert_eq!(string_substring("hello", n(f64::NAN), n(f64::INFINITY)), "hello");
    assert_eq!(string_substr("hello", n(1.0), n(3.0)), "ell");
    assert_eq!(string_substr("hello", n(-3.0), None), "llo");
    assert_eq!(string_substr("hello", n(2.0), n(-1.0)), "");
    assert_eq!(string_substr("hello", n(4.0), n(10.0)), "o");
    assert_eq!(string_substr("hello", n(9.0), n(1.0)), "");
}

#[test]
fn padding() {
    assert_eq!(string_pad_start("5", n(3.0), Some("0")), "005");
    assert_eq!(string_pad_start("abc", n(10.0), Some("123")), "1231231abc");
    assert_eq!(string_pad_start("abc", n(6.0), None), "   abc");
    assert_eq!(string_pad_start("abc", n(2.0), Some("x")), "abc");
    assert_eq!(string_pad_start("abc", n(5.0), Some("")), "abc");
    assert_eq!(string_pad_start("abc", n(f64::NAN), Some("x")), "abc");
    assert_eq!(string_pad_end("abc", n(5.5), Some("xy")), "abcxy");
    assert_eq!(string_pad_end("abc", n(4.0), Some("xyz")), "abcx");
    assert_eq!(string_pad_end("abc", None, Some("xyz")), "abc");
}

#[test]
fn searching() {
    assert_eq!(string_index_of("a-b-c", "-", None), Some(1));
    assert_eq!(string_index_of("a-b-c", "-", n(2.0)), Some(3));
    assert_eq!(string_index_of("a-b-c", "-", n(4.0)), None);
    assert_eq!(string_index_of("a-b-c", "", n(99.0)), Some(5));
    assert_eq!(string_index_of("a-b-c", "a", n(-5.0)), Some(0));
    assert_eq!(string_index_of("\u{e9}t\u{e9}", "t", None), Some(1));
    assert_eq!(string_last_index_of("a-b-c", "-"), Some(3));
    assert_eq!(string_last_index_of("a-b-c", "x"), None);
    assert_eq!(string_last_index_of("abc", ""), Some(3));
    assert!(string_includes("haystack", "st"));
    assert!(!string_includes("haystack", "ts"));
    assert!(string_includes("", ""));
    assert!(string_starts_with("haystack", "hay"));
    assert!(!string_starts_with("hay", "haystack"));
    assert!(string_ends_with("haystack", "stack"));
    assert!(!string_ends_with("haystack", "hay"));
}

#[test]
fn locale_compare_by_code_point() {
    assert_eq!(string_locale_compare("a", "b"), -1);
    assert_eq!(string_locale_compare("b", "a"), 1);
    assert_eq!(string_locale_compare("abc", "abc"), 0);
    assert_eq!(string_locale_compare("ab", "abc"), -1);
    assert_eq!(string_locale_compare("Z", "a"), -1);
    assert_eq!(string_locale_compare("\u{e9}", "z"), 1);
    assert_eq!(string_locale_compare("", ""), 0);
}

#[test]
fn replacing() {
    assert_eq!(string_replace("a-b-c", "-", "+"), "a+b-c");
    assert_eq!(string_replace("a-b-c", "x", "+"), "a-b-c");
    assert_eq!(string_replace("a-b", "-", "[$&|$`|$']"), "a[-|a|b]b");
    assert_eq!(string_replace("abc", "", "X"), "Xabc");
    assert_eq!(string_replace_all("a-b-c", "-", "+"), "a+b+c");
    assert_eq!(string_replace_all("aaaa", "aa", "b"), "bb");
    assert_eq!(string_replace_all("abc", "", "X"), "abc");
    assert_eq!(string_replace_all("x.y.z", ".", "$`"), "xxyx.yz");
    assert_eq!(string_replace_all("1,2", ",", "$$"), "1$2");
}

#[test]
fn splitting() {
    let v = |xs: &[&str]| xs.iter().map(|x| x.to_string()).collect::<Vec<String>>();
    assert_eq!(string_split("a,b,,c", Some(","), None), v(&["a", "b", "", "c"]));
    assert_eq!(string_split("a,b,c", Some(","), n(2.0)), v(&["a", "b"]));
    assert_eq!(string_split("a,b,c", Some(","), n(0.0)), v(&[]));
    assert_eq!(string_split("a,b,c", Some(","), n(-1.0)), v(&[]));
    assert_eq!(string_split("a,b,c", Some(","), n(f64::INFINITY)), v(&["a", "b", "c"]));
    assert_eq!(string_split("abc", Some(""), None), v(&["a", "b", "c"]));
    assert_eq!(string_split("", Some(""), None), v(&[]));
    assert_eq!(string_split("", Some(","), None), v(&[""]));
    assert_eq!(string_split("abc", None, None), v(&["abc"]));
    assert_eq!(string_split(",a,", Some(","), None), v(&["", "a", ""]));
    assert_eq!(string_split("a<>b<>c", Some("<>"), n(2.9)), v(&["a", "b"]));
}

#[test]
fn repeating() {
    let range_error = |r: Result<String, RuntimeError>| match r {
        Err(RuntimeError::RangeError(m)) => m,
        other => panic!("{:?}", other),
    };
    assert_eq!(string_repeat("ab", n(3.0)).unwrap(), "ababab");
    assert_eq!(string_repeat("ab", n(2.9)).unwrap(), "abab");
    assert_eq!(string_repeat("ab", None).unwrap(), "");
    assert_eq!(string_repeat("ab", n(-0.0)).unwrap(), "");
    assert_eq!(string_repeat("", n(1e300)).unwrap(), "");
    assert_eq!(string_repeat("\u{e9}", n(2.0)).unwrap(), "\u{e9}\u{e9}");
    assert_eq!(range_error(string_repeat("ab", n(-1.0))), "Invalid count value");
    assert_eq!(range_error(string_repeat("ab", n(f64::NAN))), "Invalid count value");
    assert_eq!(range_error(string_repeat("ab", n(f64::INFINITY))), "Invalid count value");
    assert_eq!(range_error(string_repeat("ab", n(f64::NEG_INFINITY))), "Invalid count value");
    assert_eq!(range_error(string_repeat("ab", n(268435457.0))), "Invalid string length");
    assert_eq!(range_error(string_repeat("x", n(9007199254740991.0))), "Invalid string length");
}

#[test]
fn rounded_product_limit_matches_float_multiplication() {
    let cap = 536870912.0f64;
    let mut xs = vec![0.0, 1.0, 2.5, 1e-300, 1e300, 268435456.0, 268435456.5, 178956970.0, 178956971.0];
    // Counts around the rounding midpoint above 2^29 for a few lengths.
    for len in [1u64, 3, 5, 7, 1000, 123457] {
        let base = cap / len as f64;
        let mut x = base;
        for _ in 0..40 {
            xs.push(x);
            x = f64::from_bits(x.to_bits() + 1);
        }
        let mut y = base;
        for _ in 0..40 {
            xs.push(y);
            y = f64::from_bits(y.to_bits() - 1);
        }
    }
    for len in [0u64, 1, 2, 3, 5, 7, 1000, 123457, 1 << 40] {
        for &x in &xs {
            assert_eq!(
                number_rounded_product_exceeds_2_29(len, x.to_bits()),
                (len as f64) * x > cap,
                "{len} * {x}"
            );
        }
    }
}
