use pydeps::module::PyModule;
use pydeps::tree::{add_function_dependencies_to_tree, add_module_dependencies_to_tree, transitive_deps, DepTree};

fn strs(v: &[&str]) -> Vec<String> {
    v.iter().map(|s| s.to_string()).collect()
}

fn module(name: &str, imports: &[&str], froms: &[(&str, &[&str])]) -> PyModule {
    let mut m = PyModule::new(name, name);
    m.imports = strs(imports);
    m.import_froms = froms.iter().map(|(s, names)| (s.to_string(), strs(names))).collect();
    m
}

fn show(t: &DepTree) -> String {
    if t.children.is_empty() {
        t.label.clone()
    } else {
        let kids: Vec<String> = t.children.iter().map(show).collect();
        format!("{}[{}]", t.label, kids.join(", "))
    }
}

#[test]
fn module_tree_expands_known_and_keeps_unknown_as_leaf() {
    let mods = vec![module("a", &["b"], &[("c", &["x"])]), module("b", &[], &[])];
    let t = transitive_deps(&mods, "a", None);
    assert_eq!(show(&t), "a[b, c]");
    assert_eq!(t.children[0].children.len(), 0);
    assert_eq!(t.children[1].children.len(), 0);
}

#[test]
fn module_tree_goes_deep() {
    let mods = vec![
        module("a", &["b"], &[]),
        module("b", &["c"], &[("d", &["f"])]),
        module("c", &[], &[]),
        module("d", &["os"], &[]),
    ];
    assert_eq!(show(&transitive_deps(&mods, "a", None)), "a[b[c, d[os]]]");
}

#[test]
fn function_tree_resolves_from_imports() {
    let mut a = module("a", &[], &[("b", &["helper"])]);
    a.functions = vec![("run".to_string(), strs(&["helper", "unrelated_var.method"]))];
    let mut b = module("b", &[], &[]);
    b.functions = vec![("helper".to_string(), strs(&[]))];
    let mods = vec![a, b];
    let t = transitive_deps(&mods, "a", Some("run"));
    assert_eq!(show(&t), "a::run[b::helper]");
}

#[test]
fn function_tree_resolves_whole_module_imports() {
    let mut a = module("a", &["pkg.util"], &[]);
    a.functions = vec![("run".to_string(), strs(&["pkg.util.go", "pkg.other.go", "print"]))];
    let mut util = module("pkg.util", &["c"], &[]);
    util.functions = vec![("go".to_string(), strs(&["c.deep"]))];
    let mods = vec![a, util];
    assert_eq!(show(&transitive_deps(&mods, "a", Some("run"))), "a::run[pkg.util::go[c::deep]]");
}

#[test]
fn later_from_import_wins() {
    let mut a = module("a", &[], &[("b", &["f"]), ("c", &["f"])]);
    a.functions = vec![("run".to_string(), strs(&["f"]))];
    let mods = vec![a];
    assert_eq!(show(&transitive_deps(&mods, "a", Some("run"))), "a::run[c::f]");
}

#[test]
fn module_cycle_is_marked_and_stops() {
    let mods = vec![module("a", &["b"], &[]), module("b", &["a"], &[])];
    let t = transitive_deps(&mods, "a", None);
    assert_eq!(show(&t), "a[b[a (cycle)]]");
}

#[test]
fn self_import_is_a_cycle() {
    let mods = vec![module("a", &["a", "b"], &[])];
    assert_eq!(show(&transitive_deps(&mods, "a", None)), "a[a (cycle), b]");
}

#[test]
fn sibling_branches_may_repeat_a_module() {
    let mods = vec![module("a", &["b", "c"], &[]), module("b", &["d"], &[]), module("c", &["d"], &[]), module("d", &[], &[])];
    assert_eq!(show(&transitive_deps(&mods, "a", None)), "a[b[d], c[d]]");
}

#[test]
fn function_cycle_is_marked_and_stops() {
    let mut a = module("a", &[], &[("b", &["g"])]);
    a.functions = vec![("f".to_string(), strs(&["g"]))];
    let mut b = module("b", &[], &[("a", &["f"])]);
    b.functions = vec![("g".to_string(), strs(&["f"]))];
    let mods = vec![a, b];
    assert_eq!(show(&transitive_deps(&mods, "a", Some("f"))), "a::f[b::g[a::f (cycle)]]");
}

#[test]
fn unknown_start_module_has_no_children() {
    let mods = vec![module("a", &["b"], &[])];
    let t = transitive_deps(&mods, "zzz", None);
    assert_eq!(t.label, "zzz");
    assert!(t.children.is_empty());
    let f = transitive_deps(&mods, "zzz", Some("main"));
    assert_eq!(f.label, "zzz::main");
    assert!(f.children.is_empty());
}

#[test]
fn unknown_start_function_has_no_children() {
    let mods = vec![module("a", &["b"], &[])];
    let t = transitive_deps(&mods, "a", Some("nothing"));
    assert_eq!(show(&t), "a::nothing");
}

#[test]
fn add_to_tree_appends_children() {
    let mods = vec![module("a", &["b"], &[])];
    let mut t = DepTree { label: "root".to_string(), children: vec![DepTree { label: "x".to_string(), children: vec![] }] };
    add_module_dependencies_to_tree(&mut t, &mods, "a");
    assert_eq!(show(&t), "root[x, b]");
    let mut a = module("q", &["m"], &[]);
    a.functions = vec![("f".to_string(), strs(&["m.g"]))];
    let mods = vec![a];
    let mut u = DepTree { label: "q::f".to_string(), children: vec![] };
    add_function_dependencies_to_tree(&mut u, &mods, "q", "f");
    assert_eq!(show(&u), "q::f[m::g]");
}

#[test]
fn first_function_of_a_name_is_used() {
    let mut a = module("a", &["x", "y"], &[]);
    a.functions = vec![
        ("run".to_string(), strs(&["x.first"])),
        ("run".to_string(), strs(&["y.second"])),
    ];
    let mods = vec![a];
    assert_eq!(show(&transitive_deps(&mods, "a", Some("run"))), "a::run[x::first]");
}

#[test]
fn methods_are_not_looked_up() {
    let mut a = module("a", &[], &[]);
    a.classes = vec![pydeps::module::PyClass { name: "K".to_string(), methods: vec![("m".to_string(), strs(&["b.f"]))] }];
    let mods = vec![a];
    assert_eq!(show(&transitive_deps(&mods, "a", Some("m"))), "a::m");
}
