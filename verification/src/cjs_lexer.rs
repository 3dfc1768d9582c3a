//! Static scan of a CommonJS module for the export names that Node's
//! cjs-module-lexer would attribute to it.
//!
//! Detected forms: direct member assignment (`exports.NAME = …`,
//! `module.exports.NAME = …`, also with a computed string key), an object
//! literal assigned to the whole exports (`module.exports = { NAME: … }`),
//! and the `__esModule` interop flag, set by assignment or by
//! `Object.defineProperty(exports, "__esModule", …)`.
//!
//! The scan works on the parsed wrapper function of the module: it walks
//! statements, blocks and both branches of `if`, but does not enter nested
//! function bodies. Names are reported once each, in first-seen order.
use vstd::prelude::*;
use crate::text::{chars_of, str_equal};

verus! {

// ------------------------------------------------------------- syntax tree

/// The assignment operator of an assignment expression.
#[derive(Debug, Clone, Copy, PartialEq, Eq, Structural)]
pub enum AssignOp {
    /// Plain `=`.
    Assign,
    /// Any compound operator (`+=`, `||=`, …).
    Compound,
}

/// The expressions the scan distinguishes; every other form is `Other`.
#[derive(Debug)]
pub enum Expr {
    Parenthesized { expr: Box<Expr> },
    Function { body: Vec<Stmt> },
    Sequence { expressions: Vec<Expr> },
    Assign { operator: AssignOp, target: Box<Expr>, value: Box<Expr> },
    Object { properties: Vec<ObjectProperty> },
    Call { callee: Box<Expr>, arguments: Vec<Argument> },
    Identifier { name: String },
    Member { object: Box<Expr>, property: MemberProperty },
    StringLiteral { value: String },
    Other,
}

/// The property part of a member expression.
#[derive(Debug)]
pub enum MemberProperty {
    Identifier { name: String },
    Computed { expr: Box<Expr> },
    Private,
}

/// A member of an object literal.
#[derive(Debug)]
pub enum ObjectProperty {
    Property { key: ObjectKey },
    /// Spreads, methods and accessors.
    Other,
}

/// The key of an object-literal property.
#[derive(Debug, Clone)]
pub enum ObjectKey {
    Identifier { name: String },
    String { value: String },
    Number,
    Computed,
}

/// An argument of a call.
#[derive(Debug)]
pub enum Argument {
    Expr(Expr),
    /// A spread argument.
    Other,
}

/// The statements the scan distinguishes; every other form is `Other`.
#[derive(Debug)]
pub enum Stmt {
    Expression { expr: Expr },
    Block { body: Vec<Stmt> },
    If { consequent: Box<Stmt>, alternate: Option<Box<Stmt>> },
    Other,
}

/// A top-level item of a parsed module.
#[derive(Debug)]
pub enum ModuleItem {
    /// `export default <expression>;`
    ExportDefaultExpression { expr: Expr },
    Other,
}

/// The static export set of a CommonJS source.
#[derive(Debug, Clone)]
pub struct CjsExportSet {
    /// Statically detected named exports, in first-seen order.
    pub names: Vec<String>,
    /// The source declared itself a transpiled ES module (`__esModule`).
    pub esmodule: bool,
}

impl Default for CjsExportSet {
    fn default() -> (s: Self)
        ensures
            s.names@.len() == 0,
            !s.esmodule,
    {
        CjsExportSet { names: Vec::new(), esmodule: false }
    }
}

// ------------------------------------------------------------ the scan, in spec

/// The expression inside any number of parentheses.
pub open spec fn unparen(e: Expr) -> Expr
    decreases e,
{
    match e {
        Expr::Parenthesized { expr } => unparen(*expr),
        _ => e,
    }
}

/// The name a member property spells out statically, if any.
pub open spec fn member_prop_name(p: MemberProperty) -> Option<Seq<char>> {
    match p {
        MemberProperty::Identifier { name } => Some(name@),
        MemberProperty::Computed { expr } => match unparen(*expr) {
            Expr::StringLiteral { value } => Some(value@),
            _ => None,
        },
        MemberProperty::Private => None,
    }
}

/// `exports` or `module.exports`, possibly parenthesized.
pub open spec fn is_exports_root(e: Expr) -> bool {
    match unparen(e) {
        Expr::Identifier { name } => name@ == "exports"@,
        Expr::Member { object, property } => (match unparen(*object) {
            Expr::Identifier { name } => name@ == "module"@,
            _ => false,
        }) && member_prop_name(property) == Some("exports"@),
        _ => false,
    }
}

/// `exports.NAME` or `module.exports.NAME` gives `NAME`.
pub open spec fn exports_member_name(target: Expr) -> Option<Seq<char>> {
    match target {
        Expr::Member { object, property } => if is_exports_root(*object) {
            member_prop_name(property)
        } else {
            None
        },
        _ => None,
    }
}

/// The name an object-literal key spells out statically, if any.
pub open spec fn object_key_name(k: ObjectKey) -> Option<Seq<char>> {
    match k {
        ObjectKey::Identifier { name } => Some(name@),
        ObjectKey::String { value } => Some(value@),
        _ => None,
    }
}

/// The statically named members of an object literal, in order.
pub open spec fn property_names(props: Seq<ObjectProperty>) -> Seq<Seq<char>>
    decreases props.len(),
{
    if props.len() == 0 {
        seq![]
    } else {
        let rest = property_names(props.drop_last());
        match props.last() {
            ObjectProperty::Property { key } => match object_key_name(key) {
                Some(n) => rest.push(n),
                None => rest,
            },
            ObjectProperty::Other => rest,
        }
    }
}

/// `Object.defineProperty`, possibly parenthesized.
pub open spec fn is_object_define_property(callee: Expr) -> bool {
    match unparen(callee) {
        Expr::Member { object, property } => (match unparen(*object) {
            Expr::Identifier { name } => name@ == "Object"@,
            _ => false,
        }) && member_prop_name(property) == Some("defineProperty"@),
        _ => false,
    }
}

/// `Object.defineProperty(exports, "__esModule", …)`.
pub open spec fn is_esmodule_define(callee: Expr, arguments: Seq<Argument>) -> bool {
    &&& is_object_define_property(callee)
    &&& arguments.len() >= 1
    &&& arguments[0] matches Argument::Expr(arg0)
    &&& is_exports_root(unparen(arg0))
    &&& arguments.len() >= 2
    &&& arguments[1] matches Argument::Expr(arg1)
    &&& unparen(arg1) matches Expr::StringLiteral { value }
    &&& value@ == "__esModule"@
}

/// The export names an expression statement contributes, in order, with
/// repetitions.
pub open spec fn expr_names(e: Expr) -> Seq<Seq<char>>
    decreases e, 1int,
{
    match e {
        Expr::Parenthesized { expr } => expr_names(*expr),
        Expr::Sequence { expressions } => exprs_names(expressions@),
        Expr::Assign { operator: AssignOp::Assign, target, value } => {
            let t = unparen(*target);
            if is_exports_root(t) {
                match unparen(*value) {
                    Expr::Object { properties } => property_names(properties@),
                    _ => seq![],
                }
            } else {
                match exports_member_name(t) {
                    Some(n) => if n == "__esModule"@ { seq![] } else { seq![n] },
                    None => seq![],
                }
            }
        },
        _ => seq![],
    }
}

/// The export names of a list of expressions, in order.
pub open spec fn exprs_names(es: Seq<Expr>) -> Seq<Seq<char>>
    decreases es, 0int,
{
    if es.len() == 0 {
        seq![]
    } else {
        exprs_names(es.drop_last()) + expr_names(es.last())
    }
}

/// An expression statement sets the `__esModule` flag.
pub open spec fn expr_esm(e: Expr) -> bool
    decreases e, 1int,
{
    match e {
        Expr::Parenthesized { expr } => expr_esm(*expr),
        Expr::Sequence { expressions } => exprs_esm(expressions@),
        Expr::Assign { operator: AssignOp::Assign, target, value } => {
            let t = unparen(*target);
            !is_exports_root(t) && exports_member_name(t) == Some("__esModule"@)
        },
        Expr::Call { callee, arguments } => is_esmodule_define(*callee, arguments@),
        _ => false,
    }
}

/// One of the expressions sets the `__esModule` flag.
pub open spec fn exprs_esm(es: Seq<Expr>) -> bool
    decreases es, 0int,
{
    if es.len() == 0 {
        false
    } else {
        exprs_esm(es.drop_last()) || expr_esm(es.last())
    }
}

/// The export names a statement contributes, in order, with repetitions.
/// Nested function bodies are not entered.
pub open spec fn stmt_names(s: Stmt) -> Seq<Seq<char>>
    decreases s, 1int,
{
    match s {
        Stmt::Expression { expr } => expr_names(expr),
        Stmt::Block { body } => stmts_names(body@),
        Stmt::If { consequent, alternate } => stmt_names(*consequent) + match alternate {
            Some(a) => stmt_names(*a),
            None => seq![],
        },
        Stmt::Other => seq![],
    }
}

/// The export names of a list of statements, in order.
pub open spec fn stmts_names(ss: Seq<Stmt>) -> Seq<Seq<char>>
    decreases ss, 0int,
{
    if ss.len() == 0 {
        seq![]
    } else {
        stmts_names(ss.drop_last()) + stmt_names(ss.last())
    }
}

/// A statement sets the `__esModule` flag.
pub open spec fn stmt_esm(s: Stmt) -> bool
    decreases s, 1int,
{
    match s {
        Stmt::Expression { expr } => expr_esm(expr),
        Stmt::Block { body } => stmts_esm(body@),
        Stmt::If { consequent, alternate } => stmt_esm(*consequent) || match alternate {
            Some(a) => stmt_esm(*a),
            None => false,
        },
        Stmt::Other => false,
    }
}

/// One of the statements sets the `__esModule` flag.
pub open spec fn stmts_esm(ss: Seq<Stmt>) -> bool
    decreases ss, 0int,
{
    if ss.len() == 0 {
        false
    } else {
        stmts_esm(ss.drop_last()) || stmt_esm(ss.last())
    }
}

/// `acc` with `n` appended unless it already holds it.
pub open spec fn add_name(acc: Seq<Seq<char>>, n: Seq<char>) -> Seq<Seq<char>> {
    if acc.contains(n) {
        acc
    } else {
        acc.push(n)
    }
}

/// `acc` with each of `ns` added in turn: first occurrences only, in order.
pub open spec fn add_names(acc: Seq<Seq<char>>, ns: Seq<Seq<char>>) -> Seq<Seq<char>>
    decreases ns.len(),
{
    if ns.len() == 0 {
        acc
    } else {
        add_name(add_names(acc, ns.drop_last()), ns.last())
    }
}

/// Adding a concatenation adds its two parts in turn.
pub proof fn lemma_add_names_concat(acc: Seq<Seq<char>>, xs: Seq<Seq<char>>, ys: Seq<Seq<char>>)
    ensures
        add_names(acc, xs + ys) == add_names(add_names(acc, xs), ys),
    decreases ys.len(),
{
    if ys.len() == 0 {
        assert(xs + ys =~= xs);
    } else {
        assert((xs + ys).drop_last() =~= xs + ys.drop_last());
        lemma_add_names_concat(acc, xs, ys.drop_last());
    }
}

/// Adding one more name after a list adds it to the result for the list.
pub proof fn lemma_add_names_push(acc: Seq<Seq<char>>, ns: Seq<Seq<char>>, n: Seq<char>)
    ensures
        add_names(acc, ns.push(n)) == add_name(add_names(acc, ns), n),
{
    assert(ns.push(n).drop_last() =~= ns);
}

/// The character sequences held by a list of strings.
pub open spec fn names_view(v: Seq<String>) -> Seq<Seq<char>> {
    v.map_values(|s: String| s@)
}

// ------------------------------------------------------------ the scan, in code

fn unparen_exec(e: &Expr) -> (r: &Expr)
    ensures
        *r == unparen(*e),
    decreases e,
{
    match e {
        Expr::Parenthesized { expr } => unparen_exec(expr),
        _ => e,
    }
}

fn member_prop_name_exec(p: &MemberProperty) -> (r: Option<String>)
    ensures
        r matches Some(n) ==> member_prop_name(*p) == Some(n@),
        r is None ==> member_prop_name(*p) is None,
{
    match p {
        MemberProperty::Identifier { name } => Some(String::from_str(name.as_str())),
        MemberProperty::Computed { expr } => match unparen_exec(expr) {
            Expr::StringLiteral { value } => Some(String::from_str(value.as_str())),
            _ => None,
        },
        MemberProperty::Private => None,
    }
}

fn member_prop_is(p: &MemberProperty, s: &str) -> (r: bool)
    ensures
        r == (member_prop_name(*p) == Some(s@)),
{
    match member_prop_name_exec(p) {
        Some(n) => str_equal(n.as_str(), s),
        None => false,
    }
}

fn is_identifier(e: &Expr, s: &str) -> (r: bool)
    ensures
        r == (match unparen(*e) {
            Expr::Identifier { name } => name@ == s@,
            _ => false,
        }),
{
    match unparen_exec(e) {
        Expr::Identifier { name } => str_equal(name.as_str(), s),
        _ => false,
    }
}

fn is_exports_root_exec(e: &Expr) -> (r: bool)
    ensures
        r == is_exports_root(*e),
{
    match unparen_exec(e) {
        Expr::Identifier { name } => str_equal(name.as_str(), "exports"),
        Expr::Member { object, property } => is_identifier(object, "module") && member_prop_is(property, "exports"),
        _ => false,
    }
}

fn exports_member_name_exec(target: &Expr) -> (r: Option<String>)
    ensures
        r matches Some(n) ==> exports_member_name(*target) == Some(n@),
        r is None ==> exports_member_name(*target) is None,
{
    match target {
        Expr::Member { object, property } => if is_exports_root_exec(object) {
            member_prop_name_exec(property)
        } else {
            None
        },
        _ => None,
    }
}

fn object_key_name_exec(k: &ObjectKey) -> (r: Option<String>)
    ensures
        r matches Some(n) ==> object_key_name(*k) == Some(n@),
        r is None ==> object_key_name(*k) is None,
{
    match k {
        ObjectKey::Identifier { name } => Some(String::from_str(name.as_str())),
        ObjectKey::String { value } => Some(String::from_str(value.as_str())),
        _ => None,
    }
}

fn is_object_define_property_exec(callee: &Expr) -> (r: bool)
    ensures
        r == is_object_define_property(*callee),
{
    match unparen_exec(callee) {
        Expr::Member { object, property } => is_identifier(object, "Object") && member_prop_is(property, "defineProperty"),
        _ => false,
    }
}

fn is_esmodule_define_exec(callee: &Expr, arguments: &Vec<Argument>) -> (r: bool)
    ensures
        r == is_esmodule_define(*callee, arguments@),
{
    if !is_object_define_property_exec(callee) || arguments.len() < 2 {
        return false;
    }
    match &arguments[0] {
        Argument::Expr(arg0) => {
            if !is_exports_root_exec(unparen_exec(arg0)) {
                return false;
            }
        },
        Argument::Other => {
            return false;
        },
    }
    match &arguments[1] {
        Argument::Expr(arg1) => match unparen_exec(arg1) {
            Expr::StringLiteral { value } => str_equal(value.as_str(), "__esModule"),
            _ => false,
        },
        Argument::Other => false,
    }
}

/// Whether `names` already holds `name`.
fn holds_name(names: &Vec<String>, name: &str) -> (r: bool)
    ensures
        r == names_view(names@).contains(name@),
{
    let mut i: usize = 0;
    while i < names.len()
        invariant
            0 <= i <= names@.len(),
            forall|j: int| 0 <= j < i ==> #[trigger] names_view(names@)[j] != name@,
        decreases names@.len() - i,
    {
        if str_equal(names[i].as_str(), name) {
            assert(names_view(names@)[i as int] == name@);
            return true;
        }
        i = i + 1;
    }
    false
}

/// Appends `name` unless `names` already holds it.
fn push_name(names: &mut Vec<String>, name: String)
    ensures
        names_view(final(names)@) == add_name(names_view(old(names)@), name@),
{
    if !holds_name(names, name.as_str()) {
        names.push(name);
        assert(names_view(final(names)@) =~= names_view(old(names)@).push(name@));
    }
}

/// Adds the statically named members of an object literal.
fn push_property_names(props: &Vec<ObjectProperty>, names: &mut Vec<String>)
    ensures
        names_view(final(names)@) == add_names(names_view(old(names)@), property_names(props@)),
{
    let mut i: usize = 0;
    while i < props.len()
        invariant
            0 <= i <= props@.len(),
            names_view(names@) == add_names(names_view(old(names)@), property_names(props@.take(i as int))),
        decreases props@.len() - i,
    {
        proof {
            assert(props@.take(i + 1).drop_last() =~= props@.take(i as int));
            assert(props@.take(i + 1).last() == props@[i as int]);
        }
        match &props[i] {
            ObjectProperty::Property { key } => match object_key_name_exec(key) {
                Some(n) => {
                    proof {
                        lemma_add_names_push(names_view(old(names)@), property_names(props@.take(i as int)), n@);
                    }
                    push_name(names, n);
                },
                None => {},
            },
            ObjectProperty::Other => {},
        }
        i = i + 1;
    }
    assert(props@.take(props@.len() as int) =~= props@);
}

/// Records the export names and the `__esModule` flag of one expression
/// statement.
#[verifier::loop_isolation(false)]
fn handle_expr(expr: &Expr, names: &mut Vec<String>, esmod: &mut bool)
    ensures
        names_view(final(names)@) == add_names(names_view(old(names)@), expr_names(*expr)),
        *final(esmod) == (*old(esmod) || expr_esm(*expr)),
    decreases expr,
{
    match expr {
        Expr::Parenthesized { expr: inner } => {
            handle_expr(inner, names, esmod);
        },
        Expr::Sequence { expressions } => {
            let mut i: usize = 0;
            while i < expressions.len()
                invariant
                    0 <= i <= expressions@.len(),
                    names_view(names@) == add_names(names_view(old(names)@), exprs_names(expressions@.take(i as int))),
                    *esmod == (*old(esmod) || exprs_esm(expressions@.take(i as int))),
                decreases expressions@.len() - i,
            {
                proof {
                    assert(expressions@.take(i + 1).drop_last() =~= expressions@.take(i as int));
                    assert(expressions@.take(i + 1).last() == expressions@[i as int]);
                    lemma_add_names_concat(
                        names_view(old(names)@),
                        exprs_names(expressions@.take(i as int)),
                        expr_names(expressions@[i as int]),
                    );
                }
                assert(decreases_to!(*expr => expressions@[i as int]));
                handle_expr(&expressions[i], names, esmod);
                i = i + 1;
            }
            assert(expressions@.take(expressions@.len() as int) =~= expressions@);
        },
        Expr::Assign { operator: AssignOp::Assign, target, value } => {
            let t = unparen_exec(target);
            if is_exports_root_exec(t) {
                match unparen_exec(value) {
                    Expr::Object { properties } => push_property_names(properties, names),
                    _ => {},
                }
                return;
            }
            match exports_member_name_exec(t) {
                Some(name) => {
                    if str_equal(name.as_str(), "__esModule") {
                        *esmod = true;
                        return;
                    }
                    proof {
                        assert(add_names(names_view(old(names)@), seq![name@]) == add_name(
                            add_names(names_view(old(names)@), seq![name@].drop_last()), name@));
                        assert(seq![name@].drop_last() =~= Seq::<Seq<char>>::empty());
                    }
                    push_name(names, name);
                },
                None => {},
            }
        },
        Expr::Call { callee, arguments } => {
            if is_esmodule_define_exec(callee, arguments) {
                *esmod = true;
            }
        },
        _ => {},
    }
}

/// Records the export names and the `__esModule` flag of one statement,
/// descending into blocks and both branches of `if`.
fn walk_stmt(s: &Stmt, names: &mut Vec<String>, esmod: &mut bool)
    ensures
        names_view(final(names)@) == add_names(names_view(old(names)@), stmt_names(*s)),
        *final(esmod) == (*old(esmod) || stmt_esm(*s)),
    decreases s,
{
    match s {
        Stmt::Expression { expr } => handle_expr(expr, names, esmod),
        Stmt::Block { body } => walk_stmts(body, names, esmod),
        Stmt::If { consequent, alternate } => {
            let ghost mid = names_view(names@);
            walk_stmt(consequent, names, esmod);
            match alternate {
                Some(a) => {
                    proof {
                        lemma_add_names_concat(names_view(old(names)@), stmt_names(**consequent), stmt_names(**a));
                    }
                    walk_stmt(a, names, esmod);
                },
                None => {
                    assert(stmt_names(**consequent) + Seq::<Seq<char>>::empty() =~= stmt_names(**consequent));
                },
            }
        },
        Stmt::Other => {},
    }
}

/// Records the export names and the `__esModule` flag of a statement list.
fn walk_stmts(stmts: &Vec<Stmt>, names: &mut Vec<String>, esmod: &mut bool)
    ensures
        names_view(final(names)@) == add_names(names_view(old(names)@), stmts_names(stmts@)),
        *final(esmod) == (*old(esmod) || stmts_esm(stmts@)),
    decreases stmts, 0int,
{
    let mut i: usize = 0;
    while i < stmts.len()
        invariant
            0 <= i <= stmts@.len(),
            names_view(names@) == add_names(names_view(old(names)@), stmts_names(stmts@.take(i as int))),
            *esmod == (*old(esmod) || stmts_esm(stmts@.take(i as int))),
        decreases stmts@.len() - i,
    {
        proof {
            assert(stmts@.take(i + 1).drop_last() =~= stmts@.take(i as int));
            assert(stmts@.take(i + 1).last() == stmts@[i as int]);
            lemma_add_names_concat(
                names_view(old(names)@),
                stmts_names(stmts@.take(i as int)),
                stmt_names(stmts@[i as int]),
            );
        }
        walk_stmt(&stmts[i], names, esmod);
        i = i + 1;
    }
    assert(stmts@.take(stmts@.len() as int) =~= stmts@);
}

// ------------------------------------------------------------ the module

/// The body of a function expression, possibly parenthesized.
pub open spec fn function_body(e: Expr) -> Option<Seq<Stmt>>
    decreases e,
{
    match e {
        Expr::Parenthesized { expr } => function_body(*expr),
        Expr::Function { body } => Some(body@),
        _ => None,
    }
}

/// The body of the first `export default` of a function expression.
pub open spec fn cjs_body(items: Seq<ModuleItem>) -> Option<Seq<Stmt>>
    decreases items.len(),
{
    if items.len() == 0 {
        None
    } else {
        match items[0] {
            ModuleItem::ExportDefaultExpression { expr } => match function_body(expr) {
                Some(b) => Some(b),
                None => cjs_body(items.skip(1)),
            },
            ModuleItem::Other => cjs_body(items.skip(1)),
        }
    }
}

/// The export names found in the wrapper function of `items`, once each in
/// first-seen order; none when the module holds no such wrapper.
pub open spec fn module_export_names(items: Seq<ModuleItem>) -> Seq<Seq<char>> {
    match cjs_body(items) {
        Some(b) => add_names(seq![], stmts_names(b)),
        None => seq![],
    }
}

/// The wrapper function of `items` sets the `__esModule` flag.
pub open spec fn module_esmodule(items: Seq<ModuleItem>) -> bool {
    match cjs_body(items) {
        Some(b) => stmts_esm(b),
        None => false,
    }
}

fn function_body_exec(e: &Expr) -> (r: Option<&Vec<Stmt>>)
    ensures
        r matches Some(b) ==> function_body(*e) == Some(b@),
        r is None ==> function_body(*e) is None,
    decreases e,
{
    match e {
        Expr::Parenthesized { expr } => function_body_exec(expr),
        Expr::Function { body } => Some(body),
        _ => None,
    }
}

fn cjs_body_exec(items: &Vec<ModuleItem>) -> (r: Option<&Vec<Stmt>>)
    ensures
        r matches Some(b) ==> cjs_body(items@) == Some(b@),
        r is None ==> cjs_body(items@) is None,
{
    let mut i: usize = 0;
    assert(items@.skip(0) =~= items@);
    while i < items.len()
        invariant
            0 <= i <= items@.len(),
            cjs_body(items@) == cjs_body(items@.skip(i as int)),
        decreases items@.len() - i,
    {
        assert(items@.skip(i as int)[0] == items@[i as int]);
        assert(items@.skip(i as int).skip(1) =~= items@.skip(i + 1));
        match &items[i] {
            ModuleItem::ExportDefaultExpression { expr } => match function_body_exec(expr) {
                Some(b) => {
                    return Some(b);
                },
                None => {},
            },
            ModuleItem::Other => {},
        }
        i = i + 1;
    }
    None
}

/// Scans a CommonJS source for its static export set, given the parse of
/// the source as wrapped by `cjs_wrap_source`: `None` when it does not parse,
/// which yields the empty set.
pub fn cjs_lex(parsed: &Option<Vec<ModuleItem>>) -> (set: CjsExportSet)
    ensures
        match parsed {
            Some(items) => {
                &&& names_view(set.names@) == module_export_names(items@)
                &&& set.esmodule == module_esmodule(items@)
            },
            None => set.names@.len() == 0 && !set.esmodule,
        },
{
    let mut set = CjsExportSet::default();
    match parsed {
        Some(items) => match cjs_body_exec(items) {
            Some(body) => {
                assert(names_view(set.names@) =~= Seq::<Seq<char>>::empty());
                walk_stmts(body, &mut set.names, &mut set.esmodule);
            },
            None => {
                assert(names_view(set.names@) =~= Seq::<Seq<char>>::empty());
            },
        },
        None => {},
    }
    set
}

/// The index of the first line feed at or after `k`.
pub open spec fn first_newline_from(s: Seq<char>, k: int) -> Option<int>
    decreases s.len() - k,
{
    if k < 0 || k >= s.len() {
        None
    } else if s[k] == '\n' {
        Some(k)
    } else {
        first_newline_from(s, k + 1)
    }
}

/// The source without a leading `#!` line.
pub open spec fn strip_hashbang(s: Seq<char>) -> Seq<char> {
    if s.len() >= 2 && s[0] == '#' && s[1] == '!' {
        match first_newline_from(s, 0) {
            Some(i) => s.subrange(i + 1, s.len() as int),
            None => seq![],
        }
    } else {
        s
    }
}

/// The text that opens the module wrapper.
pub open spec fn wrapper_head() -> Seq<char> {
    "export default (function (exports, module, require, __filename, __dirname) {\n"@
}

/// The text that closes the module wrapper.
pub open spec fn wrapper_tail() -> Seq<char> {
    "\n});\n"@
}

/// Wraps a CommonJS source the way the module loader evaluates it: a
/// leading `#!` line is dropped and the rest becomes the body of a default
/// exported function of `exports, module, require, __filename, __dirname`.
pub fn cjs_wrap_source(source: &str) -> (w: String)
    ensures
        w@ == wrapper_head() + strip_hashbang(source@) + wrapper_tail(),
{
    let cs = chars_of(source);
    let n = cs.len();
    let mut w = String::from_str("export default (function (exports, module, require, __filename, __dirname) {\n");
    if n >= 2 && cs[0] == '#' && cs[1] == '!' {
        let mut k: usize = 0;
        while k < n && cs[k] != '\n'
            invariant
                0 <= k <= n,
                n == source@.len(),
                cs@ == source@,
                first_newline_from(source@, 0) == first_newline_from(source@, k as int),
            decreases n - k,
        {
            k = k + 1;
        }
        if k < n {
            let rest = source.substring_char(k + 1, n);
            w.append(rest);
        } else {
            assert(first_newline_from(source@, k as int) is None);
            assert(w@ + strip_hashbang(source@) =~= w@);
        }
    } else {
        w.append(source);
    }
    w.append("\n});\n");
    w
}

// ------------------------------------------------------------------ laws

/// No name occurs twice in `s`.
pub open spec fn no_repeats(s: Seq<Seq<char>>) -> bool {
    forall|i: int, j: int| 0 <= i < j < s.len() ==> s[i] != s[j]
}

/// Adding names keeps what was there, at the same places, adds nothing
/// twice, and holds exactly the names of both.
pub proof fn lemma_add_names_properties(acc: Seq<Seq<char>>, ns: Seq<Seq<char>>)
    ensures
        no_repeats(acc) ==> no_repeats(add_names(acc, ns)),
        forall|x: Seq<char>| add_names(acc, ns).contains(x) <==> (acc.contains(x) || ns.contains(x)),
        add_names(acc, ns).len() >= acc.len(),
        forall|i: int| 0 <= i < acc.len() ==> add_names(acc, ns)[i] == acc[i],
    decreases ns.len(),
{
    if ns.len() > 0 {
        let prev = add_names(acc, ns.drop_last());
        lemma_add_names_properties(acc, ns.drop_last());
        let n = ns.last();
        assert forall|x: Seq<char>| ns.contains(x) <==> (ns.drop_last().contains(x) || x == n) by {
            if ns.contains(x) {
                let k = choose|k: int| 0 <= k < ns.len() && ns[k] == x;
                if k < ns.len() - 1 {
                    assert(ns.drop_last()[k] == x);
                }
            }
            if ns.drop_last().contains(x) {
                let k = choose|k: int| 0 <= k < ns.drop_last().len() && ns.drop_last()[k] == x;
                assert(ns[k] == x);
            }
            if x == n {
                assert(ns[ns.len() - 1] == x);
            }
        }
        if !prev.contains(n) {
            assert forall|x: Seq<char>| prev.push(n).contains(x) <==> (prev.contains(x) || x == n) by {
                if prev.push(n).contains(x) {
                    let k = choose|k: int| 0 <= k < prev.push(n).len() && prev.push(n)[k] == x;
                    if k < prev.len() {
                        assert(prev[k] == x);
                    }
                }
                if prev.contains(x) {
                    let k = choose|k: int| 0 <= k < prev.len() && prev[k] == x;
                    assert(prev.push(n)[k] == x);
                }
                if x == n {
                    assert(prev.push(n)[prev.len() as int] == x);
                }
            }
        }
    }
}

/// The names of a scanned module occur once each, and they are exactly the
/// names that its export statements assign.
pub proof fn law_export_names_are_distinct_and_complete(items: Seq<ModuleItem>)
    ensures
        no_repeats(module_export_names(items)),
        forall|x: Seq<char>| #[trigger] module_export_names(items).contains(x) <==> (match cjs_body(items) {
            Some(b) => stmts_names(b).contains(x),
            None => false,
        }),
{
    match cjs_body(items) {
        Some(b) => {
            lemma_add_names_properties(seq![], stmts_names(b));
        },
        None => {},
    }
}

/// An assignment inside a nested function body is not a static export: a
/// function expression contributes no names and no flag.
pub proof fn law_nested_functions_are_not_scanned(body: Seq<Stmt>, e: Expr)
    requires
        function_body(e) == Some(body),
        !(e is Parenthesized),
    ensures
        expr_names(e) == Seq::<Seq<char>>::empty(),
        !expr_esm(e),
{
}

/// Without a wrapper function (as for a source that does not parse) the
/// export set is empty.
pub proof fn law_no_wrapper_no_exports(items: Seq<ModuleItem>)
    requires
        cjs_body(items) is None,
    ensures
        module_export_names(items).len() == 0,
        !module_esmodule(items),
{
}

/// The names a list of expressions contributes are the concatenation, in
/// order, of the names each of them contributes, and the list sets the
/// `__esModule` flag exactly when one of them does.
pub proof fn law_every_expression_of_a_list_is_scanned(es: Seq<Expr>)
    ensures
        exprs_names(es) == es.map_values(|e: Expr| expr_names(e)).flatten(),
        exprs_esm(es) <==> exists|i: int| 0 <= i < es.len() && expr_esm(#[trigger] es[i]),
    decreases es.len(),
{
    let parts = es.map_values(|e: Expr| expr_names(e));
    parts.lemma_flatten_and_flatten_alt_are_equivalent();
    if es.len() > 0 {
        law_every_expression_of_a_list_is_scanned(es.drop_last());
        assert(parts.drop_last() =~= es.drop_last().map_values(|e: Expr| expr_names(e)));
        assert(parts.last() == expr_names(es.last()));
        es.drop_last().map_values(|e: Expr| expr_names(e)).lemma_flatten_and_flatten_alt_are_equivalent();
        if exprs_esm(es.drop_last()) {
            let i = choose|i: int| 0 <= i < es.drop_last().len() && expr_esm(#[trigger] es.drop_last()[i]);
            assert(es[i] == es.drop_last()[i]);
        }
        if exists|i: int| 0 <= i < es.len() && expr_esm(#[trigger] es[i]) {
            let i = choose|i: int| 0 <= i < es.len() && expr_esm(#[trigger] es[i]);
            if i < es.len() - 1 {
                assert(es.drop_last()[i] == es[i]);
            }
        }
    }
}

/// An expression statement holding a comma sequence (`exports.a = 1,
/// exports.b = 2;`) contributes the names of every member of the sequence,
/// concatenated in order, and sets the `__esModule` flag exactly when one
/// of its members does.
pub proof fn law_comma_sequences_are_scanned_whole(expressions: Vec<Expr>)
    ensures
        stmt_names(Stmt::Expression { expr: Expr::Sequence { expressions } })
            == expressions@.map_values(|e: Expr| expr_names(e)).flatten(),
        stmt_esm(Stmt::Expression { expr: Expr::Sequence { expressions } })
            <==> exists|i: int| 0 <= i < expressions@.len() && expr_esm(#[trigger] expressions@[i]),
{
    law_every_expression_of_a_list_is_scanned(expressions@);
}

/// The position of the first occurrence of `x` in `ns`, or -1.
pub open spec fn first_index(ns: Seq<Seq<char>>, x: Seq<char>) -> int
    decreases ns.len(),
{
    if ns.len() == 0 {
        -1
    } else if ns.drop_last().contains(x) {
        first_index(ns.drop_last(), x)
    } else if ns.last() == x {
        ns.len() - 1
    } else {
        -1
    }
}

proof fn lemma_first_index(ns: Seq<Seq<char>>, x: Seq<char>)
    ensures
        first_index(ns, x) >= 0 <==> ns.contains(x),
        first_index(ns, x) < ns.len(),
        first_index(ns, x) >= 0 ==> ns[first_index(ns, x)] == x,
    decreases ns.len(),
{
    if ns.len() > 0 {
        lemma_first_index(ns.drop_last(), x);
        if ns.contains(x) && !ns.drop_last().contains(x) {
            let k = choose|k: int| 0 <= k < ns.len() && ns[k] == x;
            if k < ns.len() - 1 {
                assert(ns.drop_last()[k] == x);
            }
        }
        if ns.drop_last().contains(x) {
            let k = choose|k: int| 0 <= k < ns.drop_last().len() && ns.drop_last()[k] == x;
            assert(ns[k] == x);
        }
        if ns.last() == x {
            assert(ns[ns.len() - 1] == x);
        }
    }
}

proof fn lemma_add_names_first_seen_order(ns: Seq<Seq<char>>)
    ensures
        forall|i: int| 0 <= i < add_names(seq![], ns).len()
            ==> 0 <= #[trigger] first_index(ns, add_names(seq![], ns)[i]),
        forall|i: int, j: int| 0 <= i < j < add_names(seq![], ns).len()
            ==> first_index(ns, #[trigger] add_names(seq![], ns)[i]) < first_index(ns, #[trigger] add_names(seq![], ns)[j]),
    decreases ns.len(),
{
    if ns.len() > 0 {
        let prev = ns.drop_last();
        let r0 = add_names(seq![], prev);
        let n = ns.last();
        lemma_add_names_first_seen_order(prev);
        lemma_add_names_properties(seq![], prev);
        assert forall|i: int| 0 <= i < r0.len() implies first_index(ns, r0[i]) == first_index(prev, r0[i])
            && first_index(prev, r0[i]) < prev.len() by {
            lemma_first_index(prev, r0[i]);
        }
        if !r0.contains(n) {
            assert(!prev.contains(n));
            assert(first_index(ns, n) == ns.len() - 1);
            let r = add_names(seq![], ns);
            assert(r == r0.push(n));
            assert forall|i: int| 0 <= i < r.len() implies 0 <= #[trigger] first_index(ns, r[i]) by {
                if i < r0.len() {
                    assert(r[i] == r0[i]);
                }
            }
            assert forall|i: int, j: int| 0 <= i < j < r.len()
                implies first_index(ns, #[trigger] r[i]) < first_index(ns, #[trigger] r[j]) by {
                assert(r[i] == r0[i]);
                if j < r0.len() {
                    assert(r[j] == r0[j]);
                }
            }
        }
    }
}

/// The names of a scanned module come in the order of their first
/// assignment: a name listed before another was first assigned before it.
pub proof fn law_export_names_keep_first_seen_order(items: Seq<ModuleItem>)
    ensures
        cjs_body(items) matches Some(b) ==> {
            let names = module_export_names(items);
            forall|i: int, j: int| 0 <= i < j < names.len()
                ==> first_index(stmts_names(b), #[trigger] names[i]) < first_index(stmts_names(b), #[trigger] names[j])
        },
{
    if let Some(b) = cjs_body(items) {
        lemma_add_names_first_seen_order(stmts_names(b));
    }
}

} // verus!
