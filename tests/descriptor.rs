use pydeps::module::{parse_module, PyModule};
use pydeps::syntax::{Expr, Stmt};

fn call_stmt(f: &str) -> Stmt {
    Stmt::Expr {
        value: Box::new(Expr::Call {
            func: Box::new(Expr::Name { id: f.to_string() }),
            args: vec![],
            keywords: vec![],
        }),
    }
}

fn strs(v: &[&str]) -> Vec<String> {
    v.iter().map(|s| s.to_string()).collect()
}

#[test]
fn new_descriptor_is_empty() {
    let m = PyModule::new("pkg.mod", "pkg/mod.py");
    assert_eq!(m.name, "pkg.mod");
    assert_eq!(m.path, "pkg/mod.py");
    assert!(m.imports.is_empty());
    assert!(m.import_froms.is_empty());
    assert!(m.functions.is_empty());
    assert!(m.classes.is_empty());
}

#[test]
fn top_level_statements_fill_the_descriptor() {
    let stmts = vec![
        Stmt::Import { names: strs(&["os", "a.b"]) },
        Stmt::ImportFrom { module: Some("c".to_string()), names: strs(&["x", "y"]), level: Some(0) },
        Stmt::ImportFrom { module: None, names: strs(&["z"]), level: Some(2) },
        Stmt::FunctionDef {
            name: "run".to_string(),
            body: vec![
                call_stmt("x"),
                Stmt::FunctionDef { name: "inner".to_string(), body: vec![call_stmt("y")], decorator_list: vec![] },
            ],
            decorator_list: vec![],
        },
        Stmt::AsyncFunctionDef { name: "go".to_string(), body: vec![call_stmt("z")], decorator_list: vec![] },
        Stmt::ClassDef {
            name: "K".to_string(),
            body: vec![
                Stmt::Pass,
                Stmt::FunctionDef { name: "m".to_string(), body: vec![call_stmt("w")], decorator_list: vec![] },
            ],
            decorator_list: vec![],
        },
        Stmt::Import { names: strs(&["sys"]) },
        call_stmt("main"),
    ];
    let m = parse_module("pkg.mod", &stmts, "pkg/mod.py");
    assert_eq!(m.name, "pkg.mod");
    assert_eq!(m.imports, strs(&["os", "a.b", "sys"]));
    assert_eq!(
        m.import_froms,
        vec![("c".to_string(), strs(&["x", "y"])), ("..".to_string(), strs(&["z"]))]
    );
    // The nested function is not registered, but its calls count for `run`.
    assert_eq!(
        m.functions,
        vec![("run".to_string(), strs(&["x", "y"])), ("go".to_string(), strs(&["z"]))]
    );
    assert_eq!(m.classes.len(), 1);
    assert_eq!(m.classes[0].name, "K");
    assert_eq!(m.classes[0].methods, vec![("m".to_string(), strs(&["w"]))]);
}

#[test]
fn relative_import_without_level_is_empty_name() {
    let stmts = vec![Stmt::ImportFrom { module: None, names: strs(&["q"]), level: None }];
    let m = parse_module("m", &stmts, "m.py");
    assert_eq!(m.import_froms, vec![(String::new(), strs(&["q"]))]);
}
