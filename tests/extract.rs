use pydeps::calls::{convert_attribute_to_name, find_calls_in_body, find_calls_in_expr, find_calls_in_stmt};
use pydeps::syntax::{Comprehension, DictItem, ExceptHandler, Expr, MatchCase, Stmt};

fn name(id: &str) -> Expr {
    Expr::Name { id: id.to_string() }
}

fn attr(value: Expr, a: &str) -> Expr {
    Expr::Attribute { value: Box::new(value), attr: a.to_string() }
}

fn call(func: Expr, args: Vec<Expr>) -> Expr {
    Expr::Call { func: Box::new(func), args, keywords: vec![] }
}

fn expr_stmt(e: Expr) -> Stmt {
    Stmt::Expr { value: Box::new(e) }
}

fn strs(v: &[&str]) -> Vec<String> {
    v.iter().map(|s| s.to_string()).collect()
}

#[test]
fn attribute_chain_collapses_to_one_target() {
    let e = call(attr(attr(name("a"), "b"), "c"), vec![]);
    assert_eq!(find_calls_in_expr(&e), strs(&["a.b.c"]));
}

#[test]
fn convert_attribute_to_name_joins_chain() {
    assert_eq!(convert_attribute_to_name(&attr(attr(name("os"), "path"), "join")), Some("os.path.join".to_string()));
    assert_eq!(convert_attribute_to_name(&name("f")), Some("f".to_string()));
    let rooted_at_call = attr(call(name("f"), vec![]), "g");
    assert_eq!(convert_attribute_to_name(&rooted_at_call), None);
    assert_eq!(convert_attribute_to_name(&Expr::Constant), None);
}

#[test]
fn call_on_call_result_scans_the_callee() {
    // f().g() yields only f: the chain is rooted at a call.
    let e = call(attr(call(name("f"), vec![]), "g"), vec![]);
    assert_eq!(find_calls_in_expr(&e), strs(&["f"]));
    // a[h()]() yields h, found inside the subscript callee.
    let sub = Expr::Subscript { value: Box::new(name("a")), slice: Box::new(call(name("h"), vec![])) };
    assert_eq!(find_calls_in_expr(&call(sub, vec![])), strs(&["h"]));
}

#[test]
fn nested_arguments_follow_the_callee() {
    // f(g(x), h(), k=m())
    let e = Expr::Call {
        func: Box::new(name("f")),
        args: vec![call(name("g"), vec![name("x")]), call(name("h"), vec![])],
        keywords: vec![call(name("m"), vec![])],
    };
    assert_eq!(find_calls_in_expr(&e), strs(&["f", "g", "h", "m"]));
}

#[test]
fn compound_expressions_are_scanned_in_source_order() {
    // [p() for x in q() if r()] + (s() if t() else u())
    let comp = Expr::ListComp {
        elt: Box::new(call(name("p"), vec![])),
        generators: vec![Comprehension { iter: call(name("q"), vec![]), ifs: vec![call(name("r"), vec![])] }],
    };
    let ifexp = Expr::IfExp {
        test: Box::new(call(name("t"), vec![])),
        body: Box::new(call(name("s"), vec![])),
        orelse: Box::new(call(name("u"), vec![])),
    };
    let e = Expr::BinOp { left: Box::new(comp), right: Box::new(ifexp) };
    assert_eq!(find_calls_in_expr(&e), strs(&["p", "q", "r", "s", "t", "u"]));
}

#[test]
fn dict_entries_are_scanned_key_then_value() {
    // {a(): b(), **c()}
    let e = Expr::Dict {
        items: vec![
            DictItem { key: Some(call(name("a"), vec![])), value: call(name("b"), vec![]) },
            DictItem { key: None, value: call(name("c"), vec![]) },
        ],
    };
    assert_eq!(find_calls_in_expr(&e), strs(&["a", "b", "c"]));
}

#[test]
fn strings_slices_and_await_are_scanned() {
    let fstring = Expr::JoinedStr {
        values: vec![
            Expr::Constant,
            Expr::FormattedValue {
                value: Box::new(call(name("v"), vec![])),
                format_spec: Some(Box::new(call(name("w"), vec![]))),
            },
        ],
    };
    let slice = Expr::Slice { lower: None, upper: Some(Box::new(call(name("up"), vec![]))), step: None };
    let awaited = Expr::Await { value: Box::new(call(attr(name("io"), "read"), vec![])) };
    let e = Expr::Tuple { elts: vec![fstring, slice, awaited, Expr::Lambda { body: Box::new(call(name("lam"), vec![])) }] };
    assert_eq!(find_calls_in_expr(&e), strs(&["v", "w", "up", "io.read", "lam"]));
}

#[test]
fn plain_values_have_no_targets() {
    assert!(find_calls_in_expr(&name("x")).is_empty());
    assert!(find_calls_in_expr(&attr(name("x"), "y")).is_empty());
    assert!(find_calls_in_stmt(&Stmt::Pass).is_empty());
    assert!(find_calls_in_stmt(&Stmt::Import { names: strs(&["os"]) }).is_empty());
}

#[test]
fn statements_scan_every_block() {
    // while c(): d()  else: e()
    let w = Stmt::While {
        test: Box::new(call(name("c"), vec![])),
        body: vec![expr_stmt(call(name("d"), vec![]))],
        orelse: vec![expr_stmt(call(name("e"), vec![]))],
    };
    assert_eq!(find_calls_in_stmt(&w), strs(&["c", "d", "e"]));
    // try: f() except: g() else: h() finally: i()
    let t = Stmt::Try {
        body: vec![expr_stmt(call(name("f"), vec![]))],
        handlers: vec![ExceptHandler { body: vec![expr_stmt(call(name("g"), vec![]))] }],
        orelse: vec![expr_stmt(call(name("h"), vec![]))],
        finalbody: vec![expr_stmt(call(name("i"), vec![]))],
    };
    assert_eq!(find_calls_in_stmt(&t), strs(&["f", "g", "h", "i"]));
    // match s(): case _ if k(): m()
    let m = Stmt::Match {
        subject: Box::new(call(name("s"), vec![])),
        cases: vec![MatchCase { guard: Some(call(name("k"), vec![])), body: vec![expr_stmt(call(name("m"), vec![]))] }],
    };
    assert_eq!(find_calls_in_stmt(&m), strs(&["s", "k", "m"]));
    // with open(p) : w()
    let with = Stmt::With { items: vec![call(name("open"), vec![name("p")])], body: vec![expr_stmt(call(name("w"), vec![]))] };
    assert_eq!(find_calls_in_stmt(&with), strs(&["open", "w"]));
}

#[test]
fn nested_definitions_are_scanned_with_their_decorators() {
    // @deco()
    // def inner(): helper()
    let inner = Stmt::FunctionDef {
        name: "inner".to_string(),
        body: vec![expr_stmt(call(name("helper"), vec![]))],
        decorator_list: vec![call(name("deco"), vec![])],
    };
    assert_eq!(find_calls_in_stmt(&inner), strs(&["deco", "helper"]));
}

#[test]
fn extraction_is_idempotent() {
    let body = vec![
        expr_stmt(call(attr(name("a"), "b"), vec![call(name("c"), vec![])])),
        Stmt::Return { value: Some(Box::new(call(name("d"), vec![]))) },
    ];
    let first = find_calls_in_body(&body);
    let second = find_calls_in_body(&body);
    assert_eq!(first, second);
    assert_eq!(first, strs(&["a.b", "c", "d"]));
}

#[test]
fn every_named_call_is_found_once_in_order() {
    // x = one(); y = two(x) + three(); if four(): five.six(); raise seven()
    let body = vec![
        Stmt::Assign { targets: vec![name("x")], value: Box::new(call(name("one"), vec![])) },
        Stmt::Assign {
            targets: vec![name("y")],
            value: Box::new(Expr::BinOp {
                left: Box::new(call(name("two"), vec![name("x")])),
                right: Box::new(call(name("three"), vec![])),
            }),
        },
        Stmt::If {
            test: Box::new(call(name("four"), vec![])),
            body: vec![expr_stmt(call(attr(name("five"), "six"), vec![]))],
            orelse: vec![],
        },
        Stmt::Raise { exc: Some(Box::new(call(name("seven"), vec![]))), cause: None },
    ];
    let found = find_calls_in_body(&body);
    assert_eq!(found.len(), 6);
    assert_eq!(found, strs(&["one", "two", "three", "four", "five.six", "seven"]));
}

#[test]
fn empty_body_has_no_targets() {
    assert!(find_calls_in_body(&vec![]).is_empty());
}

#[test]
fn try_star_and_type_alias_are_scanned() {
    let t = Stmt::TryStar {
        body: vec![expr_stmt(call(name("a"), vec![]))],
        handlers: vec![ExceptHandler { body: vec![expr_stmt(call(name("b"), vec![]))] }],
        orelse: vec![],
        finalbody: vec![expr_stmt(call(name("c"), vec![]))],
    };
    assert_eq!(find_calls_in_stmt(&t), strs(&["a", "b", "c"]));
    let alias = Stmt::TypeAlias { value: Box::new(call(attr(name("typing"), "Union"), vec![])) };
    assert_eq!(find_calls_in_stmt(&alias), strs(&["typing.Union"]));
}
