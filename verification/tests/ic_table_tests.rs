use rusty_js_runtime::interp_ic_table::{
    ihi_table, lookup, receiver_kind_of, CachedDispatch, IhiCachedField, IhiEntry, IhiReceiverKind,
};
use rusty_js_runtime::value::{ObjectId, Value};

fn st(s: &str) -> Value {
    Value::String(s.to_string())
}

fn num(x: f64) -> Value {
    Value::Number(x.to_bits())
}

fn entry(key: &str, arity: u8) -> IhiEntry {
    lookup(key, IhiReceiverKind::String, arity).expect("entry")
}

fn as_num(v: Option<Value>) -> f64 {
    match v {
        Some(Value::Number(b)) => f64::from_bits(b),
        other => panic!("not a number: {:?}", other),
    }
}

fn as_str(v: Option<Value>) -> String {
    match v {
        Some(Value::String(s)) => s,
        other => panic!("not a string: {:?}", other),
    }
}

#[test]
fn table_and_lookup() {
    let t = ihi_table();
    assert_eq!(t.len(), 9);
    assert_eq!(t[0].key, "charCodeAt");
    assert_eq!(t[8].key, "includes");
    for (i, e) in t.iter().enumerate() {
        let found = lookup(e.key, e.receiver, e.arity.unwrap()).unwrap();
        assert_eq!(found.key, t[i].key);
    }
    assert!(lookup("charCodeAt", IhiReceiverKind::String, 2).is_none());
    assert!(lookup("charCodeAt", IhiReceiverKind::Array, 1).is_none());
    assert!(lookup("slice", IhiReceiverKind::String, 1).is_none());
    let cp = entry("codePointAt", 1);
    assert!(matches!(cp.cached_id_field, IhiCachedField::StringCodePointAt));
    assert_eq!(CachedDispatch::Entry(3), CachedDispatch::Entry(3));
    assert_ne!(CachedDispatch::NotCached, CachedDispatch::NoMatch);
}

#[test]
fn receiver_kinds() {
    assert_eq!(receiver_kind_of(&st("a")), IhiReceiverKind::String);
    assert_eq!(receiver_kind_of(&Value::Object(ObjectId(1))), IhiReceiverKind::Array);
    assert_eq!(receiver_kind_of(&num(1.0)), IhiReceiverKind::Number);
    assert_eq!(receiver_kind_of(&Value::Null), IhiReceiverKind::Number);
}

#[test]
fn char_code_at_fast_path() {
    let e = entry("charCodeAt", 1);
    assert_eq!(as_num(e.fast(&st("abc"), &[num(1.0)])), 98.0);
    assert_eq!(as_num(e.fast(&st("abc"), &[num(1.9)])), 98.0);
    assert_eq!(as_num(e.fast(&st("abc"), &[Value::Undefined])), 97.0);
    assert_eq!(as_num(e.fast(&st("abc"), &[num(-0.0)])), 97.0);
    assert!(as_num(e.fast(&st("abc"), &[num(3.0)])).is_nan());
    assert!(as_num(e.fast(&st("abc"), &[num(1e300)])).is_nan());
    assert_eq!(as_num(e.fast(&st("h\u{e9}llo"), &[num(1.0)])), 233.0);
    assert!(e.fast(&st("abc"), &[num(-1.0)]).is_none());
    assert!(e.fast(&st("abc"), &[num(f64::NAN)]).is_none());
    assert!(e.fast(&st("abc"), &[st("1")]).is_none());
    assert!(e.fast(&st("abc"), &[]).is_none());
    assert!(e.fast(&num(5.0), &[num(0.0)]).is_none());
    let cp = entry("codePointAt", 1);
    assert_eq!(as_num(cp.fast(&st("x\u{1f600}"), &[num(1.0)])), 128512.0);
}

#[test]
fn case_fast_paths() {
    let lo = entry("toLowerCase", 0);
    assert_eq!(as_str(lo.fast(&st("Hello, World 42!"), &[])), "hello, world 42!");
    assert!(lo.fast(&st("\u{c9}T\u{c9}"), &[]).is_none());
    assert!(lo.fast(&st("A"), &[num(1.0)]).is_none());
    let up = entry("toUpperCase", 0);
    assert_eq!(as_str(up.fast(&st("azAZ@[`{"), &[])), "AZAZ@[`{");
    assert_eq!(as_str(up.fast(&st(""), &[])), "");
}

#[test]
fn trim_fast_path() {
    let tr = entry("trim", 0);
    assert_eq!(as_str(tr.fast(&st(" \t\n\r\u{b}\u{c}ab c \n"), &[])), "ab c");
    assert_eq!(as_str(tr.fast(&st("abc"), &[])), "abc");
    assert_eq!(as_str(tr.fast(&st("   "), &[])), "");
    assert!(tr.fast(&st("\u{a0}x"), &[]).is_none());
}

#[test]
fn search_fast_paths() {
    let io = entry("indexOf", 1);
    assert_eq!(as_num(io.fast(&st("hello world"), &[st("o")])), 4.0);
    assert_eq!(as_num(io.fast(&st("hello world"), &[st("world")])), 6.0);
    assert_eq!(as_num(io.fast(&st("hello"), &[st("")])), 0.0);
    assert_eq!(as_num(io.fast(&st("hello"), &[st("xyz")])), -1.0);
    assert_eq!(as_num(io.fast(&st("hi"), &[st("high")])), -1.0);
    assert!(io.fast(&st("h\u{e9}"), &[st("x")]).is_none());
    assert!(io.fast(&st("abc"), &[num(1.0)]).is_none());

    let sw = entry("startsWith", 1);
    assert!(matches!(sw.fast(&st("prefix-rest"), &[st("prefix")]), Some(Value::Boolean(true))));
    assert!(matches!(sw.fast(&st("prefix-rest"), &[st("rest")]), Some(Value::Boolean(false))));
    assert!(matches!(sw.fast(&st("ab"), &[st("abc")]), Some(Value::Boolean(false))));

    let ew = entry("endsWith", 1);
    assert!(matches!(ew.fast(&st("file.js"), &[st(".js")]), Some(Value::Boolean(true))));
    assert!(matches!(ew.fast(&st("file.js"), &[st(".ts")]), Some(Value::Boolean(false))));
    assert!(matches!(ew.fast(&st("x"), &[st("")]), Some(Value::Boolean(true))));

    let inc = entry("includes", 1);
    assert!(matches!(inc.fast(&st("content-type"), &[st("nt-t")]), Some(Value::Boolean(true))));
    assert!(matches!(inc.fast(&st("content-type"), &[st("xx")]), Some(Value::Boolean(false))));
    assert!(matches!(inc.fast(&st(""), &[st("")]), Some(Value::Boolean(true))));
    assert!(inc.fast(&st("\u{e9}"), &[st("")]).is_none());
}
