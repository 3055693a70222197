use pydeps::catalog::{build_module_to_paths, get_module_name, is_source_file};

fn strs(v: &[&str]) -> Vec<String> {
    v.iter().map(|s| s.to_string()).collect()
}

#[test]
fn package_init_is_named_after_its_directory() {
    assert_eq!(get_module_name("pkg/sub/__init__.py"), "pkg.sub");
}

#[test]
fn plain_file_is_named_after_directory_and_stem() {
    assert_eq!(get_module_name("pkg/sub/mod.py"), "pkg.sub.mod");
}

#[test]
fn root_file_is_named_after_its_stem() {
    assert_eq!(get_module_name("top.py"), "top");
    assert_eq!(get_module_name("__init__.py"), "");
    assert_eq!(get_module_name("a/b.c.py"), "a.b.c");
}

#[test]
fn only_py_files_are_sources() {
    assert!(is_source_file("a/b.py"));
    assert!(is_source_file("x.y.py"));
    assert!(!is_source_file("a/b.pyc"));
    assert!(!is_source_file("a/README"));
    assert!(!is_source_file("a/.py"));
    assert!(!is_source_file("a.py/readme"));
}

#[test]
fn catalog_names_each_source_file() {
    let paths = strs(&["pkg/__init__.py", "pkg/sub/mod.py", "notes.txt", "main.py"]);
    let c = build_module_to_paths(&paths);
    assert_eq!(
        c,
        vec![
            ("pkg".to_string(), "pkg/__init__.py".to_string()),
            ("pkg.sub.mod".to_string(), "pkg/sub/mod.py".to_string()),
            ("main".to_string(), "main.py".to_string()),
        ]
    );
}

#[test]
fn catalog_keeps_the_last_file_of_a_name() {
    // Both `a/b.py` and `a/b/__init__.py` are named `a.b`.
    let paths = strs(&["a/b.py", "c.py", "a/b/__init__.py"]);
    let c = build_module_to_paths(&paths);
    assert_eq!(
        c,
        vec![("a.b".to_string(), "a/b/__init__.py".to_string()), ("c".to_string(), "c.py".to_string())]
    );
}

#[test]
fn empty_catalog() {
    assert!(build_module_to_paths(&vec![]).is_empty());
}
