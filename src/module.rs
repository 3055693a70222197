//! Module descriptors: what one source file imports and which calls each of
//! its top-level functions and methods makes.
use vstd::prelude::*;
use crate::calls::{calls_stmts, find_calls_in_body, lemma_views_prefix, lemma_views_push, views};
use crate::syntax::Stmt;

verus! {

/// A class and the call targets of each of its methods.
#[derive(Debug)]
pub struct PyClass {
    pub name: String,
    pub methods: Vec<(String, Vec<String>)>,
}

/// The descriptor of one module.
#[derive(Debug)]
pub struct PyModule {
    /// The canonical dotted name.
    pub name: String,
    /// Where the module was read from; not used in resolution.
    pub path: String,
    /// Modules imported whole (`import a.b`), in order.
    pub imports: Vec<String>,
    /// `from m import x, y` statements: the source module and the names.
    pub import_froms: Vec<(String, Vec<String>)>,
    /// Each top-level function with its call targets.
    pub functions: Vec<(String, Vec<String>)>,
    /// Each top-level class with its methods.
    pub classes: Vec<PyClass>,
}

/// A named sequence of call targets, as plain values.
pub type EntryModel = (Seq<char>, Seq<Seq<char>>);

/// A class as plain values.
pub struct ClassModel {
    pub name: Seq<char>,
    pub methods: Seq<EntryModel>,
}

/// A module descriptor as plain values.
pub struct ModuleModel {
    pub name: Seq<char>,
    pub path: Seq<char>,
    pub imports: Seq<Seq<char>>,
    pub import_froms: Seq<EntryModel>,
    pub functions: Seq<EntryModel>,
    pub classes: Seq<ClassModel>,
}

pub open spec fn entry_view(e: (String, Vec<String>)) -> EntryModel {
    (e.0@, views(e.1@))
}

pub open spec fn entries_view(s: Seq<(String, Vec<String>)>) -> Seq<EntryModel> {
    s.map_values(|e: (String, Vec<String>)| entry_view(e))
}

impl View for PyClass {
    type V = ClassModel;

    open spec fn view(&self) -> ClassModel {
        ClassModel { name: self.name@, methods: entries_view(self.methods@) }
    }
}

impl View for PyModule {
    type V = ModuleModel;

    open spec fn view(&self) -> ModuleModel {
        ModuleModel {
            name: self.name@,
            path: self.path@,
            imports: views(self.imports@),
            import_froms: entries_view(self.import_froms@),
            functions: entries_view(self.functions@),
            classes: self.classes@.map_values(|c: PyClass| c@),
        }
    }
}

/// The module name that `from ... import` refers to: the named module, or
/// as many dots as the relative level where no module is named.
pub open spec fn from_module_name(module: Option<String>, level: Option<usize>) -> Seq<char> {
    match module {
        Some(m) => m@,
        None => Seq::new(
            match level {
                Some(n) => n as nat,
                None => 0,
            },
            |i: int| '.',
        ),
    }
}

/// The modules that the `import` statements of a block import, in order.
pub open spec fn imports_of(stmts: Seq<Stmt>) -> Seq<Seq<char>>
    decreases stmts.len(),
{
    if stmts.len() == 0 {
        seq![]
    } else {
        let rest = imports_of(stmts.subrange(0, stmts.len() - 1));
        match stmts[stmts.len() - 1] {
            Stmt::Import { names } => rest + views(names@),
            _ => rest,
        }
    }
}

/// The `from ... import` statements of a block, in order.
pub open spec fn import_froms_of(stmts: Seq<Stmt>) -> Seq<EntryModel>
    decreases stmts.len(),
{
    if stmts.len() == 0 {
        seq![]
    } else {
        let rest = import_froms_of(stmts.subrange(0, stmts.len() - 1));
        match stmts[stmts.len() - 1] {
            Stmt::ImportFrom { module, names, level } =>
                rest.push((from_module_name(module, level), views(names@))),
            _ => rest,
        }
    }
}

/// The function definitions of a block (plain and async), each with the
/// call targets of its body.
pub open spec fn functions_of(stmts: Seq<Stmt>) -> Seq<EntryModel>
    decreases stmts.len(),
{
    if stmts.len() == 0 {
        seq![]
    } else {
        let rest = functions_of(stmts.subrange(0, stmts.len() - 1));
        match stmts[stmts.len() - 1] {
            Stmt::FunctionDef { name, body, .. } => rest.push((name@, calls_stmts(body@))),
            Stmt::AsyncFunctionDef { name, body, .. } => rest.push((name@, calls_stmts(body@))),
            _ => rest,
        }
    }
}

/// The class definitions of a block, each with the functions defined
/// directly in its body.
pub open spec fn classes_of(stmts: Seq<Stmt>) -> Seq<ClassModel>
    decreases stmts.len(),
{
    if stmts.len() == 0 {
        seq![]
    } else {
        let rest = classes_of(stmts.subrange(0, stmts.len() - 1));
        match stmts[stmts.len() - 1] {
            Stmt::ClassDef { name, body, .. } =>
                rest.push(ClassModel { name: name@, methods: functions_of(body@) }),
            _ => rest,
        }
    }
}

/// The descriptor of a module with the given name, path and top-level
/// statements.
pub open spec fn describe(name: Seq<char>, path: Seq<char>, stmts: Seq<Stmt>) -> ModuleModel {
    ModuleModel {
        name,
        path,
        imports: imports_of(stmts),
        import_froms: import_froms_of(stmts),
        functions: functions_of(stmts),
        classes: classes_of(stmts),
    }
}

impl PyModule {
    /// A descriptor with the given name and path and nothing else.
    pub fn new(name: &str, path: &str) -> (r: PyModule)
        ensures
            r@ == describe(name@, path@, seq![]),
    {
        let r = PyModule {
            name: name.to_string(),
            path: path.to_string(),
            imports: Vec::new(),
            import_froms: Vec::new(),
            functions: Vec::new(),
            classes: Vec::new(),
        };
        proof {
            assert(r@.imports =~= seq![]);
            assert(r@.import_froms =~= seq![]);
            assert(r@.functions =~= seq![]);
            assert(r@.classes =~= seq![]);
        }
        r
    }
}

/// A copy of a vector of strings.
fn copy_strings(v: &Vec<String>) -> (r: Vec<String>)
    ensures
        views(r@) == views(v@),
{
    let mut r: Vec<String> = Vec::new();
    let mut i: usize = 0;
    while i < v.len()
        invariant
            i <= v.len(),
            views(r@) == views(v@.subrange(0, i as int)),
        decreases v.len() - i,
    {
        let ghost old_r = r@;
        let s = v[i].clone();
        r.push(s);
        proof {
            lemma_views_push(old_r, s);
            lemma_views_prefix(v@, i as int);
        }
        i += 1;
    }
    proof {
        assert(v@.subrange(0, v@.len() as int) =~= v@);
    }
    r
}

/// A string of `n` dots.
fn dots(n: usize) -> (r: String)
    ensures
        r@ == Seq::new(n as nat, |i: int| '.'),
{
    let mut r = String::new();
    let mut i: usize = 0;
    proof {
        reveal_strlit(".");
    }
    while i < n
        invariant
            i <= n,
            r@ == Seq::new(i as nat, |j: int| '.'),
            "."@ == seq!['.'],
        decreases n - i,
    {
        r.append(".");
        i += 1;
        proof {
            assert(r@ =~= Seq::new(i as nat, |j: int| '.'));
        }
    }
    r
}

/// The function definitions of a block, each with the call targets of its
/// body.
fn function_entries(stmts: &Vec<Stmt>) -> (r: Vec<(String, Vec<String>)>)
    ensures
        entries_view(r@) == functions_of(stmts@),
{
    let mut r: Vec<(String, Vec<String>)> = Vec::new();
    let mut i: usize = 0;
    while i < stmts.len()
        invariant
            i <= stmts.len(),
            entries_view(r@) == functions_of(stmts@.subrange(0, i as int)),
        decreases stmts.len() - i,
    {
        let ghost prefix = stmts@.subrange(0, i + 1);
        proof {
            assert(prefix.subrange(0, i as int) =~= stmts@.subrange(0, i as int));
        }
        match &stmts[i] {
            Stmt::FunctionDef { name, body, .. } | Stmt::AsyncFunctionDef { name, body, .. } => {
                let calls = find_calls_in_body(body);
                r.push((name.clone(), calls));
            },
            _ => {},
        }
        proof {
            assert(entries_view(r@) =~= functions_of(prefix));
        }
        i += 1;
    }
    proof {
        assert(stmts@.subrange(0, stmts@.len() as int) =~= stmts@);
    }
    r
}

/// Builds the descriptor of a module from its top-level statements: the
/// imports, the `from` imports, the top-level functions with their call
/// targets, and the classes with theirs. Functions nested in functions are
/// not registered.
pub fn parse_module(name: &str, stmts: &Vec<Stmt>, path: &str) -> (r: PyModule)
    ensures
        r@ == describe(name@, path@, stmts@),
{
    let mut m = PyModule::new(name, path);
    let mut i: usize = 0;
    proof {
        assert(stmts@.subrange(0, 0) =~= seq![]);
    }
    while i < stmts.len()
        invariant
            i <= stmts.len(),
            m@ == describe(name@, path@, stmts@.subrange(0, i as int)),
        decreases stmts.len() - i,
    {
        let ghost prefix = stmts@.subrange(0, i + 1);
        let ghost before = m@;
        proof {
            assert(prefix.subrange(0, i as int) =~= stmts@.subrange(0, i as int));
        }
        match &stmts[i] {
            Stmt::Import { names } => {
                let mut k: usize = 0;
                while k < names.len()
                    invariant
                        k <= names.len(),
                        m@ == (ModuleModel {
                            imports: before.imports + views(names@.subrange(0, k as int)),
                            ..before
                        }),
                    decreases names.len() - k,
                {
                    let ghost old_imports = m.imports@;
                    let s = names[k].clone();
                    m.imports.push(s);
                    proof {
                        lemma_views_push(old_imports, s);
                        lemma_views_prefix(names@, k as int);
                        assert(m@.imports =~= before.imports + views(names@.subrange(0, k + 1)));
                    }
                    k += 1;
                }
                proof {
                    assert(names@.subrange(0, names@.len() as int) =~= names@);
                }
            },
            Stmt::ImportFrom { module, names, level } => {
                let source = match module {
                    Some(s) => s.clone(),
                    None => dots(
                        match level {
                            Some(n) => *n,
                            None => 0,
                        },
                    ),
                };
                let imported = copy_strings(names);
                m.import_froms.push((source, imported));
                proof {
                    assert(m@.import_froms =~= before.import_froms.push(
                        (from_module_name(*module, *level), views(names@)),
                    ));
                }
            },
            Stmt::FunctionDef { name: fname, body, .. }
            | Stmt::AsyncFunctionDef { name: fname, body, .. } => {
                let calls = find_calls_in_body(body);
                m.functions.push((fname.clone(), calls));
                proof {
                    assert(m@.functions =~= before.functions.push((fname@, calls_stmts(body@))));
                }
            },
            Stmt::ClassDef { name: cname, body, .. } => {
                let methods = function_entries(body);
                m.classes.push(PyClass { name: cname.clone(), methods });
                proof {
                    assert(m@.classes =~= before.classes.push(
                        ClassModel { name: cname@, methods: functions_of(body@) },
                    ));
                }
            },
            _ => {},
        }
        proof {
            assert(m@ == describe(name@, path@, prefix));
        }
        i += 1;
    }
    proof {
        assert(stmts@.subrange(0, stmts@.len() as int) =~= stmts@);
    }
    m
}

} // verus!
