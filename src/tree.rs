//! Dependency trees: the import tree of a module and the call tree of a
//! function, resolved through imports. A dependency that is already being
//! expanded on the path from the root becomes a cycle marker instead of
//! being expanded again, so every build terminates.
use vstd::prelude::*;
use crate::calls::views;
use crate::catalog::{last_index, last_index_of};
use crate::module::{entries_view, entry_view, EntryModel, ModuleModel, PyModule};

verus! {

/// A node of a dependency tree: a label and its children, in order.
pub struct DepTree {
    pub label: String,
    pub children: Vec<DepTree>,
}

/// A dependency tree as plain values.
pub struct TreeModel {
    pub label: Seq<char>,
    pub children: Seq<TreeModel>,
}

pub open spec fn tree_view(t: DepTree) -> TreeModel
    decreases t,
{
    TreeModel { label: t.label@, children: forest_view(t.children@) }
}

pub open spec fn forest_view(s: Seq<DepTree>) -> Seq<TreeModel>
    decreases s,
{
    if s.len() == 0 {
        seq![]
    } else {
        forest_view(s.subrange(0, s.len() - 1)).push(tree_view(s[s.len() - 1]))
    }
}

/// How many levels lie below the root of a tree.
pub open spec fn height(t: TreeModel) -> nat
    decreases t,
{
    forest_height(t.children)
}

/// How many levels lie below the parent of trees side by side.
pub open spec fn forest_height(s: Seq<TreeModel>) -> nat
    decreases s,
{
    if s.len() == 0 {
        0
    } else {
        let rest = forest_height(s.subrange(0, s.len() - 1));
        let last = 1 + height(s[s.len() - 1]);
        if rest > last {
            rest
        } else {
            last
        }
    }
}

/// The descriptors as plain values.
pub open spec fn models(mods: Seq<PyModule>) -> Seq<ModuleModel> {
    mods.map_values(|m: PyModule| m@)
}

/// A node without children.
pub open spec fn leaf(label: Seq<char>) -> TreeModel {
    TreeModel { label, children: seq![] }
}

/// The suffix that marks a dependency met again on its own path.
pub open spec fn cycle_suffix() -> Seq<char> {
    seq![' ', '(', 'c', 'y', 'c', 'l', 'e', ')']
}

/// The label of a cycle marker.
pub open spec fn cycle_label(label: Seq<char>) -> Seq<char> {
    label + cycle_suffix()
}

/// The index of the first descriptor with the given name, or -1.
pub open spec fn module_index(mods: Seq<ModuleModel>, name: Seq<char>) -> int
    decreases mods.len(),
{
    if mods.len() == 0 {
        -1
    } else if module_index(mods.subrange(0, mods.len() - 1), name) >= 0 {
        module_index(mods.subrange(0, mods.len() - 1), name)
    } else if mods[mods.len() - 1].name == name {
        mods.len() - 1
    } else {
        -1
    }
}

pub proof fn lemma_module_index(mods: Seq<ModuleModel>, name: Seq<char>)
    ensures
        -1 <= module_index(mods, name) < mods.len(),
        module_index(mods, name) >= 0 ==> mods[module_index(mods, name)].name == name,
        forall|j: int|
            0 <= j < mods.len() && mods[j].name == name ==> 0 <= module_index(mods, name) <= j,
    decreases mods.len(),
{
    if mods.len() > 0 {
        let t = mods.subrange(0, mods.len() - 1);
        lemma_module_index(t, name);
        assert forall|j: int| 0 <= j < mods.len() && mods[j].name == name implies 0
            <= module_index(mods, name) <= j by {
            if j < mods.len() - 1 {
                assert(t[j] == mods[j]);
            }
        }
    }
}

/// A path of distinct indices below `n`.
pub open spec fn valid_path(n: int, path: Seq<usize>) -> bool {
    &&& path.no_duplicates()
    &&& forall|i: int| 0 <= i < path.len() ==> path[i] < n
}

/// Distinct naturals below `n` number at most `n`.
pub proof fn lemma_distinct_below(s: Seq<int>, n: int)
    requires
        s.no_duplicates(),
        n >= 0,
        forall|i: int| 0 <= i < s.len() ==> 0 <= #[trigger] s[i] < n,
    ensures
        s.len() <= n,
{
    s.unique_seq_to_set();
    vstd::set_lib::lemma_int_range(0, n);
    assert(s.to_set().subset_of(vstd::set_lib::set_int_range(0, n)));
    vstd::set_lib::lemma_len_subset(s.to_set(), vstd::set_lib::set_int_range(0, n));
}

pub proof fn lemma_valid_path_len(n: int, path: Seq<usize>)
    requires
        valid_path(n, path),
        n >= 0,
    ensures
        path.len() <= n,
{
    let s = path.map_values(|x: usize| x as int);
    assert forall|i: int, j: int| 0 <= i < s.len() && 0 <= j < s.len() && i != j implies s[i]
        != s[j] by {
        assert(path[i] != path[j]);
    }
    lemma_distinct_below(s, n);
}

/// The modules that a module depends on: those it imports whole, then the
/// sources of its `from` imports.
pub open spec fn module_deps(m: ModuleModel) -> Seq<Seq<char>> {
    m.imports + m.import_froms.map_values(|e: EntryModel| e.0)
}

/// The subtrees of a list of module dependencies, given the path of module
/// indices being expanded, one node per dependency.
pub open spec fn module_subtrees(mods: Seq<ModuleModel>, path: Seq<usize>, deps: Seq<Seq<char>>) -> Seq<
    TreeModel,
>
    decreases mods.len() - path.len(), deps.len(),
    when valid_path(mods.len() as int, path)
{
    if deps.len() == 0 {
        seq![]
    } else {
        module_subtrees(mods, path, deps.subrange(0, deps.len() - 1)).push(
            module_node_model(mods, path, deps[deps.len() - 1]),
        )
    }
}

/// The node of one module dependency: a module absent from the descriptors
/// is a leaf; one already on the path is a cycle marker; any other is
/// expanded with its own dependencies.
pub open spec fn module_node_model(mods: Seq<ModuleModel>, path: Seq<usize>, d: Seq<char>) -> TreeModel
    decreases mods.len() - path.len(), 0nat,
    when valid_path(mods.len() as int, path)
{
    let j = module_index(mods, d);
    if j < 0 {
        leaf(d)
    } else if path.contains(j as usize) {
        leaf(cycle_label(d))
    } else {
        proof {
            lemma_module_index(mods, d);
            lemma_valid_path_push(mods.len() as int, path, j as usize);
        }
        TreeModel {
            label: d,
            children: module_subtrees(mods, path.push(j as usize), module_deps(mods[j])),
        }
    }
}

pub proof fn lemma_valid_path_push(n: int, path: Seq<usize>, j: usize)
    requires
        valid_path(n, path),
        j < n,
        !path.contains(j),
    ensures
        valid_path(n, path.push(j)),
        path.len() < n,
{
    let p = path.push(j);
    assert forall|a: int, b: int| 0 <= a < p.len() && 0 <= b < p.len() && a != b implies p[a]
        != p[b] by {
        if a == path.len() {
            assert(path[b] != j);
        } else if b == path.len() {
            assert(path[a] != j);
        }
    }
    lemma_valid_path_len(n, p);
}

/// The import tree of a module: the root is the module's name; its children
/// are its dependencies, each expanded in turn. A module absent from the
/// descriptors has no children.
pub open spec fn module_tree(mods: Seq<ModuleModel>, name: Seq<char>) -> TreeModel {
    let i = module_index(mods, name);
    TreeModel {
        label: name,
        children: if i < 0 {
            seq![]
        } else {
            module_subtrees(mods, seq![i as usize], module_deps(mods[i]))
        },
    }
}

/// The index of the first descriptor named `name`.
pub fn find_module(mods: &Vec<PyModule>, name: &String) -> (r: Option<usize>)
    ensures
        match r {
            Some(i) => module_index(models(mods@), name@) == i,
            None => module_index(models(mods@), name@) == -1,
        },
{
    let ghost ms = models(mods@);
    let mut i: usize = 0;
    while i < mods.len()
        invariant
            i <= mods.len(),
            ms == models(mods@),
            module_index(ms.subrange(0, i as int), name@) == -1,
        decreases mods.len() - i,
    {
        proof {
            assert(ms.subrange(0, i + 1).subrange(0, i as int) =~= ms.subrange(0, i as int));
        }
        if mods[i].name == *name {
            proof {
                assert(ms[i as int].name == name@);
                lemma_module_index(ms, name@);
                lemma_module_index(ms.subrange(0, i as int), name@);
                assert forall|j: int| 0 <= j < i implies ms[j].name != name@ by {
                    assert(ms.subrange(0, i as int)[j] == ms[j]);
                }
            }
            return Some(i);
        }
        i += 1;
    }
    proof {
        assert(ms.subrange(0, mods.len() as int) =~= ms);
    }
    None
}

fn vec_contains(v: &Vec<usize>, x: usize) -> (r: bool)
    ensures
        r == v@.contains(x),
{
    let mut i: usize = 0;
    while i < v.len()
        invariant
            i <= v.len(),
            forall|k: int| 0 <= k < i ==> v@[k] != x,
        decreases v.len() - i,
    {
        if v[i] == x {
            return true;
        }
        i += 1;
    }
    false
}

/// The node of one module dependency.
fn module_node(mods: &Vec<PyModule>, path: &mut Vec<usize>, dep: &String) -> (r: DepTree)
    requires
        valid_path(mods@.len() as int, old(path)@),
    ensures
        final(path)@ == old(path)@,
        tree_view(r) == module_node_model(models(mods@), old(path)@, dep@),
    decreases mods@.len() - old(path)@.len(), 0nat,
{
    let ghost ms = models(mods@);
    let ghost p = path@;
    proof {
        lemma_module_index(ms, dep@);
    }
    let label = dep.clone();
    match find_module(mods, dep) {
        None => {
            let r = DepTree { label, children: Vec::new() };
            proof {
                assert(forest_view(r.children@) =~= seq![]);
            }
            r
        },
        Some(j) => {
            if vec_contains(path, j) {
                let mut label = label;
                label.append(" (cycle)");
                proof {
                    reveal_strlit(" (cycle)");
                    assert(label@ =~= cycle_label(dep@));
                }
                let r = DepTree { label, children: Vec::new() };
                proof {
                    assert(forest_view(r.children@) =~= seq![]);
                }
                r
            } else {
                proof {
                    lemma_valid_path_push(mods@.len() as int, p, j);
                }
                path.push(j);
                let children = expand_module(mods, path, j);
                path.pop();
                proof {
                    assert(path@ =~= p);
                }
                DepTree { label, children }
            }
        },
    }
}

/// The subtrees of the dependencies of module `i`, with `i` last on the path.
fn expand_module(mods: &Vec<PyModule>, path: &mut Vec<usize>, i: usize) -> (r: Vec<DepTree>)
    requires
        valid_path(mods@.len() as int, old(path)@),
        i < mods@.len(),
    ensures
        final(path)@ == old(path)@,
        forest_view(r@) == module_subtrees(models(mods@), old(path)@, module_deps(models(mods@)[i as int])),
    decreases mods@.len() - old(path)@.len(), 2nat,
{
    let ghost ms = models(mods@);
    let ghost p = path@;
    let ghost deps = module_deps(ms[i as int]);
    let m = &mods[i];
    let mut r: Vec<DepTree> = Vec::new();
    let mut k: usize = 0;
    proof {
        assert(forest_view(r@) =~= module_subtrees(ms, p, deps.subrange(0, 0)));
    }
    while k < m.imports.len()
        invariant
            k <= m.imports@.len(),
            i < mods@.len(),
            ms == models(mods@),
            m == mods@[i as int],
            deps == module_deps(ms[i as int]),
            path@ == p,
            p == old(path)@,
            valid_path(mods@.len() as int, p),
            forest_view(r@) == module_subtrees(ms, p, deps.subrange(0, k as int)),
        decreases m.imports@.len() - k,
    {
        let dep = &m.imports[k];
        proof {
            assert(dep@ == deps[k as int]);
        }
        push_module_node(mods, path, &mut r, dep, Ghost(deps), Ghost(k as int));
        k += 1;
    }
    let ghost n_imports = k as int;
    let mut t: usize = 0;
    while t < m.import_froms.len()
        invariant
            t <= m.import_froms@.len(),
            n_imports == m.imports@.len(),
            i < mods@.len(),
            ms == models(mods@),
            m == mods@[i as int],
            deps == module_deps(ms[i as int]),
            path@ == p,
            p == old(path)@,
            valid_path(mods@.len() as int, p),
            forest_view(r@) == module_subtrees(ms, p, deps.subrange(0, n_imports + t)),
        decreases m.import_froms@.len() - t,
    {
        let dep = &m.import_froms[t].0;
        proof {
            assert(dep@ == deps[n_imports + t]);
        }
        push_module_node(mods, path, &mut r, dep, Ghost(deps), Ghost(n_imports + t));
        t += 1;
    }
    proof {
        assert(deps.subrange(0, deps.len() as int) =~= deps);
    }
    r
}

/// Appends the node of `deps[k]` to the subtrees of `deps[..k]`.
fn push_module_node(
    mods: &Vec<PyModule>,
    path: &mut Vec<usize>,
    r: &mut Vec<DepTree>,
    dep: &String,
    deps: Ghost<Seq<Seq<char>>>,
    k: Ghost<int>,
)
    requires
        valid_path(mods@.len() as int, old(path)@),
        0 <= k@ < deps@.len(),
        dep@ == deps@[k@],
        forest_view(old(r)@) == module_subtrees(models(mods@), old(path)@, deps@.subrange(0, k@)),
    ensures
        final(path)@ == old(path)@,
        forest_view(final(r)@) == module_subtrees(models(mods@), old(path)@, deps@.subrange(0, k@ + 1)),
    decreases mods@.len() - old(path)@.len(), 1nat,
{
    let ghost ms = models(mods@);
    let ghost p = path@;
    let node = module_node(mods, path, dep);
    let ghost before = r@;
    r.push(node);
    proof {
        let pre = deps@.subrange(0, k@ + 1);
        assert(pre.subrange(0, k@) =~= deps@.subrange(0, k@));
        assert(r@.subrange(0, r@.len() - 1) =~= before);
    }
}

/// The forest of two vectors of nodes, one after the other.
pub proof fn lemma_forest_view_append(a: Seq<DepTree>, b: Seq<DepTree>)
    ensures
        forest_view(a + b) == forest_view(a) + forest_view(b),
    decreases b.len(),
{
    if b.len() == 0 {
        assert(a + b =~= a);
        assert(forest_view(a) + forest_view(b) =~= forest_view(a));
    } else {
        let b0 = b.subrange(0, b.len() - 1);
        lemma_forest_view_append(a, b0);
        assert((a + b).subrange(0, (a + b).len() - 1) =~= a + b0);
        assert(forest_view(a) + forest_view(b) =~= (forest_view(a) + forest_view(b0)).push(
            tree_view(b[b.len() - 1]),
        ));
    }
}

/// Appends nodes to the children of a tree.
fn append_children(tree: &mut DepTree, mut more: Vec<DepTree>)
    ensures
        tree_view(*final(tree)) == (TreeModel {
            label: tree_view(*old(tree)).label,
            children: tree_view(*old(tree)).children + forest_view(more@),
        }),
{
    let ghost before = tree.children@;
    let ghost added = more@;
    tree.children.append(&mut more);
    proof {
        lemma_forest_view_append(before, added);
    }
}

/// Adds to `tree` the import tree of `module_name`: each module it imports
/// whole, then each source of its `from` imports, each expanded in turn. A
/// module absent from `modules` adds nothing and stays a leaf where it
/// appears; a module met again on its own path becomes a cycle marker.
pub fn add_module_dependencies_to_tree(
    tree: &mut DepTree,
    modules: &Vec<PyModule>,
    module_name: &str,
)
    ensures
        tree_view(*final(tree)) == (TreeModel {
            label: tree_view(*old(tree)).label,
            children: tree_view(*old(tree)).children + module_tree(
                models(modules@),
                module_name@,
            ).children,
        }),
{
    let name = String::from_str(module_name);
    match find_module(modules, &name) {
        Some(i) => {
            let mut path: Vec<usize> = Vec::new();
            path.push(i);
            proof {
                assert(path@ =~= seq![i]);
                lemma_module_index(models(modules@), name@);
            }
            let children = expand_module(modules, &mut path, i);
            append_children(tree, children);
        },
        None => {
            proof {
                assert(tree_view(*old(tree)).children + module_tree(
                    models(modules@),
                    module_name@,
                ).children =~= tree_view(*old(tree)).children);
            }
        },
    }
}

/// The source module of the last `from` import that brings in `name`.
pub open spec fn imported_from(ifs: Seq<EntryModel>, name: Seq<char>) -> Option<Seq<char>>
    decreases ifs.len(),
{
    if ifs.len() == 0 {
        None
    } else if ifs[ifs.len() - 1].1.contains(name) {
        Some(ifs[ifs.len() - 1].0)
    } else {
        imported_from(ifs.subrange(0, ifs.len() - 1), name)
    }
}

/// What a call target of module `m` refers to, as (module, function): a
/// name brought in by `from` import resolves to its source module; a dotted
/// target whose part before the last dot is a module that `m` imports whole
/// resolves to that module and the last part. Anything else is unresolved.
pub open spec fn resolve(m: ModuleModel, target: Seq<char>) -> Option<(Seq<char>, Seq<char>)> {
    match imported_from(m.import_froms, target) {
        Some(source) => Some((source, target)),
        None => {
            let k = last_index(target, '.');
            if k >= 0 && m.imports.contains(target.subrange(0, k)) {
                Some((target.subrange(0, k), target.subrange(k + 1, target.len() as int)))
            } else {
                None
            }
        },
    }
}

/// The index of the first function entry with the given name, or -1.
pub open spec fn function_index(fns: Seq<EntryModel>, name: Seq<char>) -> int
    decreases fns.len(),
{
    if fns.len() == 0 {
        -1
    } else if function_index(fns.subrange(0, fns.len() - 1), name) >= 0 {
        function_index(fns.subrange(0, fns.len() - 1), name)
    } else if fns[fns.len() - 1].0 == name {
        fns.len() - 1
    } else {
        -1
    }
}

pub proof fn lemma_function_index(fns: Seq<EntryModel>, name: Seq<char>)
    ensures
        -1 <= function_index(fns, name) < fns.len(),
        function_index(fns, name) >= 0 ==> fns[function_index(fns, name)].0 == name,
        forall|j: int|
            0 <= j < fns.len() && fns[j].0 == name ==> 0 <= function_index(fns, name) <= j,
    decreases fns.len(),
{
    if fns.len() > 0 {
        let t = fns.subrange(0, fns.len() - 1);
        lemma_function_index(t, name);
        assert forall|j: int| 0 <= j < fns.len() && fns[j].0 == name implies 0 <= function_index(
            fns,
            name,
        ) <= j by {
            if j < fns.len() - 1 {
                assert(t[j] == fns[j]);
            }
        }
    }
}

/// The label of a function node: `module::function`.
pub open spec fn fn_label(module: Seq<char>, function: Seq<char>) -> Seq<char> {
    module + seq![':', ':'] + function
}

/// The largest number of functions in one module.
pub open spec fn max_functions(mods: Seq<ModuleModel>) -> nat
    decreases mods.len(),
{
    if mods.len() == 0 {
        0
    } else {
        let rest = max_functions(mods.subrange(0, mods.len() - 1));
        let here = mods[mods.len() - 1].functions.len();
        if here > rest {
            here
        } else {
            rest
        }
    }
}

pub proof fn lemma_max_functions(mods: Seq<ModuleModel>)
    ensures
        forall|j: int| 0 <= j < mods.len() ==> #[trigger] mods[j].functions.len() <= max_functions(mods),
    decreases mods.len(),
{
    if mods.len() > 0 {
        let t = mods.subrange(0, mods.len() - 1);
        lemma_max_functions(t);
        assert forall|j: int| 0 <= j < mods.len() implies #[trigger] mods[j].functions.len()
            <= max_functions(mods) by {
            if j < mods.len() - 1 {
                assert(t[j] == mods[j]);
            }
        }
    }
}

/// An upper bound on the number of (module, function) pairs.
pub open spec fn call_key_bound(mods: Seq<ModuleModel>) -> int {
    mods.len() * max_functions(mods) as int
}

/// A path of distinct (module index, function index) pairs that name
/// functions of the descriptors.
pub open spec fn valid_call_path(mods: Seq<ModuleModel>, path: Seq<(int, int)>) -> bool {
    &&& path.no_duplicates()
    &&& forall|i: int|
        0 <= i < path.len() ==> #[trigger] path[i].0 < mods.len() && 0 <= path[i].1 < mods[path[i].0].functions.len() && 0 <= path[i].0
}

proof fn lemma_pair_code(a: int, b: int, c: int, d: int, m: int)
    requires
        0 <= a,
        0 <= c,
        0 <= b < m,
        0 <= d < m,
        a * m + b == c * m + d,
    ensures
        a == c,
        b == d,
{
    if a < c {
        assert(a * m + b < c * m + d) by (nonlinear_arith)
            requires
                a < c,
                0 <= b < m,
                0 <= d,
        ;
    } else if c < a {
        assert(c * m + d < a * m + b) by (nonlinear_arith)
            requires
                c < a,
                0 <= d < m,
                0 <= b,
        ;
    }
}

pub proof fn lemma_valid_call_path_len(mods: Seq<ModuleModel>, path: Seq<(int, int)>)
    requires
        valid_call_path(mods, path),
    ensures
        path.len() <= call_key_bound(mods),
{
    let m = max_functions(mods) as int;
    let n = mods.len() as int;
    lemma_max_functions(mods);
    let s = path.map_values(|p: (int, int)| p.0 * m + p.1);
    assert forall|i: int| 0 <= i < s.len() implies 0 <= #[trigger] s[i] < n * m by {
        let p = path[i];
        assert(0 <= p.0 < n && 0 <= p.1 < mods[p.0].functions.len());
        assert(p.1 < m);
        assert(0 <= p.0 * m + p.1 < n * m) by (nonlinear_arith)
            requires
                0 <= p.0 < n,
                0 <= p.1 < m,
        ;
    }
    assert forall|i: int, j: int| 0 <= i < s.len() && 0 <= j < s.len() && i != j implies s[i]
        != s[j] by {
        let p = path[i];
        let q = path[j];
        assert(p != q);
        assert(p.1 < m && q.1 < m) by {
            assert(p.1 < mods[p.0].functions.len());
            assert(q.1 < mods[q.0].functions.len());
        }
        if s[i] == s[j] {
            assert(0 <= p.0 && 0 <= q.0 && 0 <= p.1 && 0 <= q.1);
            lemma_pair_code(p.0, p.1, q.0, q.1, m);
        }
    }
    assert(n * m >= 0) by (nonlinear_arith)
        requires
            n >= 0,
            m >= 0,
    ;
    lemma_distinct_below(s, n * m);
}

pub proof fn lemma_valid_call_path_push(
    mods: Seq<ModuleModel>,
    path: Seq<(int, int)>,
    j: int,
    k: int,
)
    requires
        valid_call_path(mods, path),
        0 <= j < mods.len(),
        0 <= k < mods[j].functions.len(),
        !path.contains((j, k)),
    ensures
        valid_call_path(mods, path.push((j, k))),
        path.len() < call_key_bound(mods),
{
    let p = path.push((j, k));
    assert forall|a: int, b: int| 0 <= a < p.len() && 0 <= b < p.len() && a != b implies p[a]
        != p[b] by {
        if a == path.len() {
            assert(path[b] != (j, k));
        } else if b == path.len() {
            assert(path[a] != (j, k));
        }
    }
    assert forall|i: int| 0 <= i < p.len() implies #[trigger] p[i].0 < mods.len() && 0 <= p[i].1
        < mods[p[i].0].functions.len() && 0 <= p[i].0 by {
        if i < path.len() {
            assert(p[i] == path[i]);
        }
    }
    lemma_valid_call_path_len(mods, p);
}

/// The subtrees of the call targets of a function of module `caller`, given
/// the path of (module, function) pairs being expanded: one node per target
/// that resolves, none for the others.
pub open spec fn call_subtrees(
    mods: Seq<ModuleModel>,
    path: Seq<(int, int)>,
    caller: ModuleModel,
    targets: Seq<Seq<char>>,
) -> Seq<TreeModel>
    decreases call_key_bound(mods) - path.len(), targets.len(),
    when valid_call_path(mods, path)
{
    if targets.len() == 0 {
        seq![]
    } else {
        let rest = call_subtrees(mods, path, caller, targets.subrange(0, targets.len() - 1));
        match resolve(caller, targets[targets.len() - 1]) {
            Some(r) => rest.push(call_node_model(mods, path, r.0, r.1)),
            None => rest,
        }
    }
}

/// The node of a resolved call: where the module and the function exist it
/// is expanded with the function's own call targets, unless the pair is
/// already on the path (a cycle marker); otherwise it is a leaf.
pub open spec fn call_node_model(
    mods: Seq<ModuleModel>,
    path: Seq<(int, int)>,
    module: Seq<char>,
    function: Seq<char>,
) -> TreeModel
    decreases call_key_bound(mods) - path.len(), 0nat,
    when valid_call_path(mods, path)
{
    let label = fn_label(module, function);
    let j = module_index(mods, module);
    if j < 0 {
        leaf(label)
    } else {
        let k = function_index(mods[j].functions, function);
        if k < 0 {
            leaf(label)
        } else if path.contains((j, k)) {
            leaf(cycle_label(label))
        } else {
            proof {
                lemma_module_index(mods, module);
                lemma_function_index(mods[j].functions, function);
                lemma_valid_call_path_push(mods, path, j, k);
            }
            TreeModel {
                label,
                children: call_subtrees(
                    mods,
                    path.push((j, k)),
                    mods[j],
                    mods[j].functions[k].1,
                ),
            }
        }
    }
}

/// The call tree of a function: the root is `module::function`; its
/// children are the resolved call targets of the function, each expanded in
/// turn. An unknown module or function has no children. Functions are looked
/// up among a module's top-level functions only (the first of a name), never
/// among class methods.
pub open spec fn function_tree(mods: Seq<ModuleModel>, module: Seq<char>, function: Seq<char>) -> TreeModel {
    let j = module_index(mods, module);
    let k = if j < 0 {
        -1
    } else {
        function_index(mods[j].functions, function)
    };
    TreeModel {
        label: fn_label(module, function),
        children: if k < 0 {
            seq![]
        } else {
            call_subtrees(mods, seq![(j, k)], mods[j], mods[j].functions[k].1)
        },
    }
}

/// A path of exec index pairs as plain values.
pub open spec fn key_path(v: Seq<(usize, usize)>) -> Seq<(int, int)> {
    v.map_values(|p: (usize, usize)| (p.0 as int, p.1 as int))
}

/// Whether a vector of strings holds `x`.
fn strings_contain(v: &Vec<String>, x: &String) -> (r: bool)
    ensures
        r == views(v@).contains(x@),
{
    let mut i: usize = 0;
    while i < v.len()
        invariant
            i <= v.len(),
            forall|k: int| 0 <= k < i ==> v@[k]@ != x@,
        decreases v.len() - i,
    {
        if v[i] == *x {
            proof {
                assert(views(v@)[i as int] == x@);
            }
            return true;
        }
        i += 1;
    }
    proof {
        assert forall|k: int| 0 <= k < views(v@).len() implies views(v@)[k] != x@ by {
            assert(views(v@)[k] == v@[k]@);
        }
    }
    false
}

/// The source module of the last `from` import of `m` that brings in `name`.
fn find_imported_from(m: &PyModule, name: &String) -> (r: Option<String>)
    ensures
        match r {
            Some(s) => imported_from(m@.import_froms, name@) == Some(s@),
            None => imported_from(m@.import_froms, name@) is None,
        },
{
    let ghost ifs = m@.import_froms;
    let mut found: Option<usize> = None;
    let mut i: usize = 0;
    while i < m.import_froms.len()
        invariant
            i <= m.import_froms@.len(),
            ifs == m@.import_froms,
            match found {
                Some(k) => k < i && imported_from(ifs.subrange(0, i as int), name@) == Some(ifs[k as int].0),
                None => imported_from(ifs.subrange(0, i as int), name@) is None,
            },
        decreases m.import_froms@.len() - i,
    {
        proof {
            assert(ifs.subrange(0, i + 1).subrange(0, i as int) =~= ifs.subrange(0, i as int));
            assert(ifs[i as int] == entry_view(m.import_froms@[i as int]));
        }
        if strings_contain(&m.import_froms[i].1, name) {
            found = Some(i);
        }
        i += 1;
    }
    proof {
        assert(ifs.subrange(0, ifs.len() as int) =~= ifs);
    }
    match found {
        Some(k) => {
            proof {
                assert(ifs[k as int] == entry_view(m.import_froms@[k as int]));
            }
            Some(m.import_froms[k].0.clone())
        },
        None => None,
    }
}

/// Resolves a call target of module `m` to (module, function); see
/// [`resolve`].
fn resolve_call(m: &PyModule, target: &String) -> (r: Option<(String, String)>)
    ensures
        match r {
            Some(p) => resolve(m@, target@) == Some((p.0@, p.1@)),
            None => resolve(m@, target@) is None,
        },
{
    match find_imported_from(m, target) {
        Some(source) => Some((source, target.clone())),
        None => {
            let t = target.as_str();
            match last_index_of(t, '.') {
                Some(k) => {
                    let n = t.unicode_len();
                    let module = String::from_str(t.substring_char(0, k));
                    if strings_contain(&m.imports, &module) {
                        let function = String::from_str(t.substring_char(k + 1, n));
                        Some((module, function))
                    } else {
                        None
                    }
                },
                None => None,
            }
        },
    }
}

/// The index of the first function entry named `name`.
fn find_function(fns: &Vec<(String, Vec<String>)>, name: &String) -> (r: Option<usize>)
    ensures
        match r {
            Some(i) => function_index(entries_view(fns@), name@) == i,
            None => function_index(entries_view(fns@), name@) == -1,
        },
{
    let ghost es = entries_view(fns@);
    let mut i: usize = 0;
    while i < fns.len()
        invariant
            i <= fns.len(),
            es == entries_view(fns@),
            function_index(es.subrange(0, i as int), name@) == -1,
        decreases fns.len() - i,
    {
        proof {
            assert(es.subrange(0, i + 1).subrange(0, i as int) =~= es.subrange(0, i as int));
        }
        if fns[i].0 == *name {
            proof {
                assert(es[i as int].0 == name@);
                lemma_function_index(es, name@);
                lemma_function_index(es.subrange(0, i as int), name@);
                assert forall|j: int| 0 <= j < i implies es[j].0 != name@ by {
                    assert(es.subrange(0, i as int)[j] == es[j]);
                }
            }
            return Some(i);
        }
        i += 1;
    }
    proof {
        assert(es.subrange(0, fns.len() as int) =~= es);
    }
    None
}

fn pairs_contain(v: &Vec<(usize, usize)>, j: usize, k: usize) -> (r: bool)
    ensures
        r == key_path(v@).contains((j as int, k as int)),
{
    let mut i: usize = 0;
    while i < v.len()
        invariant
            i <= v.len(),
            forall|x: int| 0 <= x < i ==> key_path(v@)[x] != (j as int, k as int),
        decreases v.len() - i,
    {
        if v[i].0 == j && v[i].1 == k {
            proof {
                assert(key_path(v@)[i as int] == (j as int, k as int));
            }
            return true;
        }
        i += 1;
    }
    false
}

/// `module::function`.
fn function_label(module: &String, function: &String) -> (r: String)
    ensures
        r@ == fn_label(module@, function@),
{
    let mut label = module.clone();
    label.append("::");
    label.append(function.as_str());
    proof {
        reveal_strlit("::");
        assert(label@ =~= fn_label(module@, function@));
    }
    label
}

/// The node of a resolved call.
fn call_node(
    mods: &Vec<PyModule>,
    path: &mut Vec<(usize, usize)>,
    module: &String,
    function: &String,
) -> (r: DepTree)
    requires
        valid_call_path(models(mods@), key_path(old(path)@)),
    ensures
        final(path)@ == old(path)@,
        tree_view(r) == call_node_model(models(mods@), key_path(old(path)@), module@, function@),
    decreases call_key_bound(models(mods@)) - old(path)@.len(), 0nat,
{
    let ghost ms = models(mods@);
    let ghost p = path@;
    let label = function_label(module, function);
    proof {
        lemma_module_index(ms, module@);
    }
    match find_module(mods, module) {
        None => {
            let r = DepTree { label, children: Vec::new() };
            proof {
                assert(forest_view(r.children@) =~= seq![]);
            }
            r
        },
        Some(j) => {
            proof {
                assert(ms[j as int].functions == entries_view(mods@[j as int].functions@));
                lemma_function_index(ms[j as int].functions, function@);
            }
            match find_function(&mods[j].functions, function) {
                None => {
                    let r = DepTree { label, children: Vec::new() };
                    proof {
                        assert(forest_view(r.children@) =~= seq![]);
                    }
                    r
                },
                Some(k) => {
                    if pairs_contain(path, j, k) {
                        let mut label = label;
                        label.append(" (cycle)");
                        proof {
                            reveal_strlit(" (cycle)");
                            assert(label@ =~= cycle_label(fn_label(module@, function@)));
                        }
                        let r = DepTree { label, children: Vec::new() };
                        proof {
                            assert(forest_view(r.children@) =~= seq![]);
                        }
                        r
                    } else {
                        proof {
                            lemma_valid_call_path_push(ms, key_path(p), j as int, k as int);
                        }
                        path.push((j, k));
                        proof {
                            assert(key_path(path@) =~= key_path(p).push((j as int, k as int)));
                        }
                        let children = expand_function(mods, path, j, k);
                        path.pop();
                        proof {
                            assert(path@ =~= p);
                        }
                        DepTree { label, children }
                    }
                },
            }
        },
    }
}

/// The subtrees of the call targets of function `k` of module `j`, with
/// that pair last on the path.
fn expand_function(mods: &Vec<PyModule>, path: &mut Vec<(usize, usize)>, j: usize, k: usize) -> (r:
    Vec<DepTree>)
    requires
        valid_call_path(models(mods@), key_path(old(path)@)),
        j < mods@.len(),
        k < mods@[j as int].functions@.len(),
    ensures
        final(path)@ == old(path)@,
        forest_view(r@) == call_subtrees(
            models(mods@),
            key_path(old(path)@),
            models(mods@)[j as int],
            models(mods@)[j as int].functions[k as int].1,
        ),
    decreases call_key_bound(models(mods@)) - old(path)@.len(), 1nat,
{
    let ghost ms = models(mods@);
    let ghost p = path@;
    let m = &mods[j];
    let targets = &m.functions[k].1;
    let ghost ts = views(targets@);
    proof {
        assert(ms[j as int].functions[k as int] == entry_view(m.functions@[k as int]));
        assert(forest_view(Seq::<DepTree>::empty()) =~= call_subtrees(ms, key_path(p), m@, ts.subrange(0, 0)));
    }
    let mut r: Vec<DepTree> = Vec::new();
    let mut t: usize = 0;
    while t < targets.len()
        invariant
            t <= targets@.len(),
            j < mods@.len(),
            ms == models(mods@),
            m == mods@[j as int],
            ms[j as int] == m@,
            ts == views(targets@),
            path@ == p,
            p == old(path)@,
            valid_call_path(ms, key_path(p)),
            forest_view(r@) == call_subtrees(ms, key_path(p), m@, ts.subrange(0, t as int)),
        decreases targets@.len() - t,
    {
        proof {
            let pre = ts.subrange(0, t + 1);
            assert(pre.subrange(0, t as int) =~= ts.subrange(0, t as int));
            assert(ts[t as int] == targets@[t as int]@);
        }
        match resolve_call(m, &targets[t]) {
            Some(pair) => {
                let node = call_node(mods, path, &pair.0, &pair.1);
                let ghost before = r@;
                r.push(node);
                proof {
                    assert(r@.subrange(0, r@.len() - 1) =~= before);
                }
            },
            None => {},
        }
        t += 1;
    }
    proof {
        assert(ts.subrange(0, ts.len() as int) =~= ts);
    }
    r
}

/// Adds to `tree` the call tree of `function_name` in `module_name`: each
/// call target of the function that resolves through the module's imports
/// becomes a child `module::function`, expanded in turn; targets that do not
/// resolve are dropped. An unknown module or function adds nothing; a
/// function met again on its own path becomes a cycle marker.
pub fn add_function_dependencies_to_tree(
    tree: &mut DepTree,
    modules: &Vec<PyModule>,
    module_name: &str,
    function_name: &str,
)
    ensures
        tree_view(*final(tree)) == (TreeModel {
            label: tree_view(*old(tree)).label,
            children: tree_view(*old(tree)).children + function_tree(
                models(modules@),
                module_name@,
                function_name@,
            ).children,
        }),
{
    let ghost ms = models(modules@);
    let module = String::from_str(module_name);
    let function = String::from_str(function_name);
    proof {
        lemma_module_index(ms, module@);
    }
    let found = match find_module(modules, &module) {
        Some(j) => {
            proof {
                assert(ms[j as int].functions == entries_view(modules@[j as int].functions@));
                lemma_function_index(ms[j as int].functions, function@);
            }
            match find_function(&modules[j].functions, &function) {
                Some(k) => Some((j, k)),
                None => None,
            }
        },
        None => None,
    };
    match found {
        Some((j, k)) => {
            let mut path: Vec<(usize, usize)> = Vec::new();
            path.push((j, k));
            proof {
                assert(key_path(path@) =~= seq![(j as int, k as int)]);
            }
            let children = expand_function(modules, &mut path, j, k);
            append_children(tree, children);
        },
        None => {
            proof {
                assert(tree_view(*old(tree)).children + function_tree(
                    ms,
                    module_name@,
                    function_name@,
                ).children =~= tree_view(*old(tree)).children);
            }
        },
    }
}

/// The dependency tree of a module (no function given) or of a function of
/// a module: see [`module_tree`] and [`function_tree`].
pub fn transitive_deps(modules: &Vec<PyModule>, module_name: &str, function_name: Option<&str>) -> (r:
    DepTree)
    ensures
        tree_view(r) == match function_name {
            Some(f) => function_tree(models(modules@), module_name@, f@),
            None => module_tree(models(modules@), module_name@),
        },
{
    match function_name {
        Some(f) => {
            let module = String::from_str(module_name);
            let function = String::from_str(f);
            let label = function_label(&module, &function);
            let mut tree = DepTree { label, children: Vec::new() };
            proof {
                assert(forest_view(tree.children@) =~= seq![]);
            }
            add_function_dependencies_to_tree(&mut tree, modules, module_name, f);
            proof {
                assert(tree_view(tree).children =~= function_tree(models(modules@), module_name@, f@).children);
            }
            tree
        },
        None => {
            let mut tree = DepTree { label: String::from_str(module_name), children: Vec::new() };
            proof {
                assert(forest_view(tree.children@) =~= seq![]);
            }
            add_module_dependencies_to_tree(&mut tree, modules, module_name);
            proof {
                assert(tree_view(tree).children =~= module_tree(models(modules@), module_name@).children);
            }
            tree
        },
    }
}

/// Asking for a module that no descriptor names gives a root without
/// children, in module mode and in function mode alike.
pub proof fn lemma_unknown_start_has_no_children(
    mods: Seq<ModuleModel>,
    name: Seq<char>,
    function: Seq<char>,
)
    requires
        forall|i: int| 0 <= i < mods.len() ==> mods[i].name != name,
    ensures
        module_tree(mods, name) == leaf(name),
        function_tree(mods, name, function) == leaf(fn_label(name, function)),
{
    lemma_module_index(mods, name);
    assert(module_tree(mods, name).children =~= seq![]);
    assert(function_tree(mods, name, function).children =~= seq![]);
}

proof fn lemma_forest_height_push(s: Seq<TreeModel>, t: TreeModel, bound: int)
    requires
        forest_height(s) <= bound,
        1 + height(t) <= bound,
    ensures
        forest_height(s.push(t)) <= bound,
{
    assert(s.push(t).subrange(0, s.len() as int) =~= s);
}

proof fn lemma_module_subtrees_height(mods: Seq<ModuleModel>, path: Seq<usize>, deps: Seq<Seq<char>>)
    requires
        valid_path(mods.len() as int, path),
    ensures
        path.len() <= mods.len(),
        forest_height(module_subtrees(mods, path, deps)) <= mods.len() - path.len() + 1,
    decreases mods.len() - path.len(), deps.len(),
{
    lemma_valid_path_len(mods.len() as int, path);
    if deps.len() > 0 {
        let d = deps[deps.len() - 1];
        lemma_module_subtrees_height(mods, path, deps.subrange(0, deps.len() - 1));
        lemma_module_node_height(mods, path, d);
        lemma_forest_height_push(
            module_subtrees(mods, path, deps.subrange(0, deps.len() - 1)),
            module_node_model(mods, path, d),
            mods.len() - path.len() + 1,
        );
    }
}

proof fn lemma_module_node_height(mods: Seq<ModuleModel>, path: Seq<usize>, d: Seq<char>)
    requires
        valid_path(mods.len() as int, path),
    ensures
        height(module_node_model(mods, path, d)) <= mods.len() - path.len(),
    decreases mods.len() - path.len(), 0nat,
{
    lemma_valid_path_len(mods.len() as int, path);
    let j = module_index(mods, d);
    lemma_module_index(mods, d);
    if j >= 0 && !path.contains(j as usize) {
        lemma_valid_path_push(mods.len() as int, path, j as usize);
        lemma_module_subtrees_height(mods, path.push(j as usize), module_deps(mods[j]));
    }
}

proof fn lemma_call_subtrees_height(
    mods: Seq<ModuleModel>,
    path: Seq<(int, int)>,
    caller: ModuleModel,
    targets: Seq<Seq<char>>,
)
    requires
        valid_call_path(mods, path),
    ensures
        path.len() <= call_key_bound(mods),
        forest_height(call_subtrees(mods, path, caller, targets)) <= call_key_bound(mods) - path.len() + 1,
    decreases call_key_bound(mods) - path.len(), targets.len(),
{
    lemma_valid_call_path_len(mods, path);
    if targets.len() > 0 {
        let rest = targets.subrange(0, targets.len() - 1);
        lemma_call_subtrees_height(mods, path, caller, rest);
        if let Some(r) = resolve(caller, targets[targets.len() - 1]) {
            lemma_call_node_height(mods, path, r.0, r.1);
            lemma_forest_height_push(
                call_subtrees(mods, path, caller, rest),
                call_node_model(mods, path, r.0, r.1),
                call_key_bound(mods) - path.len() + 1,
            );
        }
    }
}

proof fn lemma_call_node_height(
    mods: Seq<ModuleModel>,
    path: Seq<(int, int)>,
    module: Seq<char>,
    function: Seq<char>,
)
    requires
        valid_call_path(mods, path),
    ensures
        height(call_node_model(mods, path, module, function)) <= call_key_bound(mods) - path.len(),
    decreases call_key_bound(mods) - path.len(), 0nat,
{
    lemma_valid_call_path_len(mods, path);
    let j = module_index(mods, module);
    lemma_module_index(mods, module);
    if j >= 0 {
        let k = function_index(mods[j].functions, function);
        lemma_function_index(mods[j].functions, function);
        if k >= 0 && !path.contains((j, k)) {
            lemma_valid_call_path_push(mods, path, j, k);
            lemma_call_subtrees_height(mods, path.push((j, k)), mods[j], mods[j].functions[k].1);
        }
    }
}

/// Every build stops, cycles included: no branch of a module's import tree
/// is longer than the number of modules, and no branch of a function's call
/// tree is longer than the number of (module, function) pairs, because a
/// dependency met again on its own path becomes a leaf marked as a cycle.
pub proof fn lemma_trees_are_bounded(mods: Seq<ModuleModel>, module: Seq<char>, function: Seq<char>)
    ensures
        height(module_tree(mods, module)) <= mods.len(),
        height(function_tree(mods, module, function)) <= call_key_bound(mods),
{
    lemma_module_index(mods, module);
    let i = module_index(mods, module);
    if i >= 0 {
        assert(valid_path(mods.len() as int, seq![i as usize]));
        lemma_module_subtrees_height(mods, seq![i as usize], module_deps(mods[i]));
        let k = function_index(mods[i].functions, function);
        lemma_function_index(mods[i].functions, function);
        if k >= 0 {
            assert(valid_call_path(mods, seq![(i, k)]));
            lemma_call_subtrees_height(mods, seq![(i, k)], mods[i], mods[i].functions[k].1);
        }
    }
}

} // verus!
