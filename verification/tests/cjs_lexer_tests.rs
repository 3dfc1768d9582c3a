//! Each source of these scenarios is given as the syntax tree that parsing
//! its wrapped form (`cjs_wrap_source`) yields.
use rusty_js_runtime::cjs_lexer::{
    cjs_lex, cjs_wrap_source, Argument, AssignOp, CjsExportSet, Expr, MemberProperty, ModuleItem,
    ObjectKey, ObjectProperty, Stmt,
};

fn ident(name: &str) -> Expr {
    Expr::Identifier { name: name.to_string() }
}

fn string_lit(value: &str) -> Expr {
    Expr::StringLiteral { value: value.to_string() }
}

fn member(object: Expr, name: &str) -> Expr {
    Expr::Member { object: Box::new(object), property: MemberProperty::Identifier { name: name.to_string() } }
}

fn computed(object: Expr, key: &str) -> Expr {
    Expr::Member {
        object: Box::new(object),
        property: MemberProperty::Computed { expr: Box::new(string_lit(key)) },
    }
}

fn module_exports() -> Expr {
    member(ident("module"), "exports")
}

fn assign(target: Expr, value: Expr) -> Stmt {
    Stmt::Expression {
        expr: Expr::Assign { operator: AssignOp::Assign, target: Box::new(target), value: Box::new(value) },
    }
}

fn function(body: Vec<Stmt>) -> Expr {
    Expr::Function { body }
}

/// The parse of the wrapped source whose wrapper function holds `body`.
fn wrapped(body: Vec<Stmt>) -> Option<Vec<ModuleItem>> {
    Some(vec![ModuleItem::ExportDefaultExpression {
        expr: Expr::Parenthesized { expr: Box::new(function(body)) },
    }])
}

fn set(parsed: Option<Vec<ModuleItem>>) -> (Vec<String>, bool) {
    let s: CjsExportSet = cjs_lex(&parsed);
    let mut names = s.names.clone();
    names.sort();
    (names, s.esmodule)
}

#[test]
fn r1_member_assignment() {
    // exports.foo = 1;\nmodule.exports.bar = function(){};\n
    let (n, esm) = set(wrapped(vec![
        assign(member(ident("exports"), "foo"), Expr::Other),
        assign(member(module_exports(), "bar"), function(vec![])),
    ]));
    assert_eq!(n, vec!["bar".to_string(), "foo".to_string()]);
    assert!(!esm);
}

#[test]
fn r1_computed_string_key() {
    // exports['baz'] = 1; module.exports["qux"] = 2;
    let (n, _) = set(wrapped(vec![
        assign(computed(ident("exports"), "baz"), Expr::Other),
        assign(computed(module_exports(), "qux"), Expr::Other),
    ]));
    assert_eq!(n, vec!["baz".to_string(), "qux".to_string()]);
}

#[test]
fn r2_object_literal() {
    // module.exports = { SemVer: 1, parse: function(){}, 'clean': 3 };
    let (n, _) = set(wrapped(vec![assign(
        module_exports(),
        Expr::Object {
            properties: vec![
                ObjectProperty::Property { key: ObjectKey::Identifier { name: "SemVer".to_string() } },
                ObjectProperty::Property { key: ObjectKey::Identifier { name: "parse".to_string() } },
                ObjectProperty::Property { key: ObjectKey::String { value: "clean".to_string() } },
            ],
        },
    )]));
    assert_eq!(n, vec!["SemVer".to_string(), "clean".to_string(), "parse".to_string()]);
}

#[test]
fn dynamic_assignment_is_empty() {
    // var f = {}; f.map = 1; f.filter = 2; module.exports = f;
    let (n, _) = set(wrapped(vec![
        Stmt::Other,
        assign(member(ident("f"), "map"), Expr::Other),
        assign(member(ident("f"), "filter"), Expr::Other),
        assign(module_exports(), ident("f")),
    ]));
    assert!(n.is_empty(), "expected empty, got {:?}", n);
}

#[test]
fn function_export_is_empty() {
    // module.exports = function(val){ return val; };
    let (n, _) = set(wrapped(vec![assign(module_exports(), function(vec![Stmt::Other]))]));
    assert!(n.is_empty(), "expected empty, got {:?}", n);
}

#[test]
fn esmodule_flag_and_default_name() {
    // Object.defineProperty(exports, "__esModule", { value: true });
    // exports.default = x;
    // exports.thing = y;
    let (n, esm) = set(wrapped(vec![
        Stmt::Expression {
            expr: Expr::Call {
                callee: Box::new(member(ident("Object"), "defineProperty")),
                arguments: vec![
                    Argument::Expr(ident("exports")),
                    Argument::Expr(string_lit("__esModule")),
                    Argument::Expr(Expr::Object {
                        properties: vec![ObjectProperty::Property {
                            key: ObjectKey::Identifier { name: "value".to_string() },
                        }],
                    }),
                ],
            },
        },
        assign(member(ident("exports"), "default"), ident("x")),
        assign(member(ident("exports"), "thing"), ident("y")),
    ]));
    assert!(esm);
    assert_eq!(n, vec!["default".to_string(), "thing".to_string()]);
}

#[test]
fn esmodule_via_assignment() {
    // exports.__esModule = true; exports.only = 1;
    let (n, esm) = set(wrapped(vec![
        assign(member(ident("exports"), "__esModule"), Expr::Other),
        assign(member(ident("exports"), "only"), Expr::Other),
    ]));
    assert!(esm);
    assert_eq!(n, vec!["only".to_string()]);
}

#[test]
fn names_inside_if_block() {
    // if (true) { exports.a = 1; } else { exports.b = 2; }
    let (n, _) = set(wrapped(vec![Stmt::If {
        consequent: Box::new(Stmt::Block { body: vec![assign(member(ident("exports"), "a"), Expr::Other)] }),
        alternate: Some(Box::new(Stmt::Block {
            body: vec![assign(member(ident("exports"), "b"), Expr::Other)],
        })),
    }]));
    assert_eq!(n, vec!["a".to_string(), "b".to_string()]);
}

#[test]
fn nested_function_body_not_scanned() {
    // function f(){ exports.hidden = 1; }\nexports.real = 2;
    let (n, _) = set(wrapped(vec![
        Stmt::Other,
        assign(member(ident("exports"), "real"), Expr::Other),
    ]));
    assert_eq!(n, vec!["real".to_string()]);
    // The same assignment inside a function expression statement is not scanned either.
    let (n2, _) = set(wrapped(vec![Stmt::Expression {
        expr: function(vec![assign(member(ident("exports"), "hidden"), Expr::Other)]),
    }]));
    assert!(n2.is_empty());
}

#[test]
fn unparseable_source_is_empty() {
    // "this is not ){ valid javascript" does not parse.
    let (n, esm) = set(None);
    assert!(n.is_empty());
    assert!(!esm);
}

// ------------------------------------------------------------------ more cases

#[test]
fn names_keep_first_seen_order_once_each() {
    let s = cjs_lex(&wrapped(vec![
        assign(member(ident("exports"), "zeta"), Expr::Other),
        assign(member(ident("exports"), "alpha"), Expr::Other),
        assign(member(module_exports(), "zeta"), Expr::Other),
        Stmt::Expression {
            expr: Expr::Sequence {
                expressions: vec![
                    Expr::Assign {
                        operator: AssignOp::Assign,
                        target: Box::new(member(ident("exports"), "mid")),
                        value: Box::new(Expr::Other),
                    },
                    Expr::Assign {
                        operator: AssignOp::Compound,
                        target: Box::new(member(ident("exports"), "compound")),
                        value: Box::new(Expr::Other),
                    },
                ],
            },
        },
    ]));
    assert_eq!(s.names, vec!["zeta".to_string(), "alpha".to_string(), "mid".to_string()]);
    assert!(!s.esmodule);
}

#[test]
fn parenthesized_targets_and_numeric_keys() {
    let s = cjs_lex(&wrapped(vec![
        Stmt::Expression {
            expr: Expr::Parenthesized {
                expr: Box::new(Expr::Assign {
                    operator: AssignOp::Assign,
                    target: Box::new(Expr::Parenthesized { expr: Box::new(member(ident("exports"), "p")) }),
                    value: Box::new(Expr::Other),
                }),
            },
        },
        assign(
            ident("exports"),
            Expr::Object {
                properties: vec![
                    ObjectProperty::Property { key: ObjectKey::Number },
                    ObjectProperty::Property { key: ObjectKey::Computed },
                    ObjectProperty::Other,
                    ObjectProperty::Property { key: ObjectKey::String { value: "q".to_string() } },
                ],
            },
        ),
        assign(
            Expr::Member { object: Box::new(ident("exports")), property: MemberProperty::Private },
            Expr::Other,
        ),
    ]));
    assert_eq!(s.names, vec!["p".to_string(), "q".to_string()]);
}

#[test]
fn module_without_wrapper_has_no_exports() {
    let s = cjs_lex(&Some(vec![ModuleItem::Other]));
    assert!(s.names.is_empty());
    assert!(!s.esmodule);
    let t = cjs_lex(&Some(vec![ModuleItem::ExportDefaultExpression { expr: ident("x") }]));
    assert!(t.names.is_empty());
}

#[test]
fn wrap_source_text() {
    assert_eq!(
        cjs_wrap_source("exports.a = 1;"),
        "export default (function (exports, module, require, __filename, __dirname) {\nexports.a = 1;\n});\n"
    );
    assert_eq!(
        cjs_wrap_source("#!/usr/bin/env node\nexports.b = 2;"),
        "export default (function (exports, module, require, __filename, __dirname) {\nexports.b = 2;\n});\n"
    );
    assert_eq!(
        cjs_wrap_source("#!no newline"),
        "export default (function (exports, module, require, __filename, __dirname) {\n\n});\n"
    );
    assert_eq!(
        cjs_wrap_source("#"),
        "export default (function (exports, module, require, __filename, __dirname) {\n#\n});\n"
    );
}
