//! The catalog: canonical dotted module names derived from file paths.
//!
//! Paths are relative to the project root, with `/` between components.
use vstd::prelude::*;
use crate::calls::views;

verus! {

/// The index of the last occurrence of `c` in `s`, or -1.
pub open spec fn last_index(s: Seq<char>, c: char) -> int
    decreases s.len(),
{
    if s.len() == 0 {
        -1
    } else if s[s.len() - 1] == c {
        s.len() - 1
    } else {
        last_index(s.subrange(0, s.len() - 1), c)
    }
}

/// The last occurrence of `c` lies inside `s` and holds `c`.
pub proof fn lemma_last_index(s: Seq<char>, c: char)
    ensures
        -1 <= last_index(s, c) < s.len(),
        last_index(s, c) >= 0 ==> s[last_index(s, c)] == c,
        forall|i: int| last_index(s, c) < i < s.len() ==> s[i] != c,
    decreases s.len(),
{
    if s.len() > 0 {
        let t = s.subrange(0, s.len() - 1);
        lemma_last_index(t, c);
        assert forall|i: int| last_index(s, c) < i < s.len() implies s[i] != c by {
            if i < s.len() - 1 {
                assert(s[i] == t[i]);
            }
        }
    }
}

/// An occurrence of `c` with none after it is the last one.
pub proof fn lemma_last_index_at(s: Seq<char>, c: char, k: int)
    requires
        0 <= k < s.len(),
        s[k] == c,
        forall|i: int| k < i < s.len() ==> s[i] != c,
    ensures
        last_index(s, c) == k,
{
    lemma_last_index(s, c);
}

/// The last component of a path.
pub open spec fn file_name_of(p: Seq<char>) -> Seq<char> {
    p.subrange(last_index(p, '/') + 1, p.len() as int)
}

/// The directory part of a path: everything before the last `/`, or empty.
pub open spec fn parent_of(p: Seq<char>) -> Seq<char> {
    if last_index(p, '/') < 0 {
        seq![]
    } else {
        p.subrange(0, last_index(p, '/'))
    }
}

/// A file name without its extension: the part before the last `.`, unless
/// that dot is the first character or there is none.
pub open spec fn stem_of(f: Seq<char>) -> Seq<char> {
    if last_index(f, '.') <= 0 {
        f
    } else {
        f.subrange(0, last_index(f, '.'))
    }
}

/// The extension of a file name: the part after the last `.`, unless that
/// dot is the first character or there is none.
pub open spec fn extension_of(f: Seq<char>) -> Option<Seq<char>> {
    if last_index(f, '.') <= 0 {
        None
    } else {
        Some(f.subrange(last_index(f, '.') + 1, f.len() as int))
    }
}

/// A directory path in dotted form: each `/` becomes `.`.
pub open spec fn dotted(d: Seq<char>) -> Seq<char> {
    d.map_values(|c: char|
        if c == '/' {
            '.'
        } else {
            c
        })
}

/// The stem of a package-init file.
pub open spec fn init_stem() -> Seq<char> {
    seq!['_', '_', 'i', 'n', 'i', 't', '_', '_']
}

/// The extension of an analyzable source file.
pub open spec fn source_extension() -> Seq<char> {
    seq!['p', 'y']
}

/// Whether a path names an analyzable source file.
pub open spec fn is_source_path(p: Seq<char>) -> bool {
    extension_of(file_name_of(p)) == Some(source_extension())
}

/// The canonical module name of a file: a package-init file is named after
/// its directory; any other file after its directory and its stem; a file
/// at the root after its stem alone.
pub open spec fn module_name(p: Seq<char>) -> Seq<char> {
    let stem = stem_of(file_name_of(p));
    let dir = parent_of(p);
    if stem == init_stem() {
        dotted(dir)
    } else if dir.len() == 0 {
        stem
    } else {
        dotted(dir) + seq!['.'] + stem
    }
}

/// The index of the last occurrence of `c` in `s`.
pub(crate) fn last_index_of(s: &str, c: char) -> (r: Option<usize>)
    ensures
        match r {
            Some(k) => last_index(s@, c) == k && k < s@.len(),
            None => last_index(s@, c) == -1,
        },
{
    let n = s.unicode_len();
    let mut found: Option<usize> = None;
    let mut i: usize = 0;
    while i < n
        invariant
            i <= n,
            n == s@.len(),
            match found {
                Some(k) => last_index(s@.subrange(0, i as int), c) == k,
                None => last_index(s@.subrange(0, i as int), c) == -1,
            },
        decreases n - i,
    {
        proof {
            assert(s@.subrange(0, i + 1).subrange(0, i as int) =~= s@.subrange(0, i as int));
        }
        if s.get_char(i) == c {
            found = Some(i);
        }
        i += 1;
    }
    proof {
        assert(s@.subrange(0, n as int) =~= s@);
        lemma_last_index(s@, c);
    }
    found
}

/// A directory path in dotted form.
fn dotted_of(d: &str) -> (r: String)
    ensures
        r@ == dotted(d@),
{
    let n = d.unicode_len();
    let mut r = String::new();
    let mut i: usize = 0;
    proof {
        reveal_strlit(".");
    }
    while i < n
        invariant
            i <= n,
            n == d@.len(),
            r@ == dotted(d@.subrange(0, i as int)),
            "."@ == seq!['.'],
        decreases n - i,
    {
        if d.get_char(i) == '/' {
            r.append(".");
        } else {
            r.append(d.substring_char(i, i + 1));
        }
        i += 1;
        proof {
            assert(r@ =~= dotted(d@.subrange(0, i as int)));
        }
    }
    proof {
        assert(d@.subrange(0, n as int) =~= d@);
    }
    r
}

/// The directory part and the file name of a path.
fn split_path(path: &str) -> (r: (&str, &str))
    ensures
        r.0@ == parent_of(path@),
        r.1@ == file_name_of(path@),
{
    let n = path.unicode_len();
    match last_index_of(path, '/') {
        Some(k) => (path.substring_char(0, k), path.substring_char(k + 1, n)),
        None => {
            proof {
                assert(path@.subrange(0, n as int) =~= path@);
            }
            (path.substring_char(0, 0), path)
        },
    }
}

/// Whether a path names an analyzable source file (its extension is `py`).
pub fn is_source_file(path: &str) -> (r: bool)
    ensures
        r == is_source_path(path@),
{
    let (_, file) = split_path(path);
    let n = file.unicode_len();
    let py = String::from_str("py");
    proof {
        reveal_strlit("py");
        assert(py@ =~= source_extension());
    }
    match last_index_of(file, '.') {
        Some(k) => {
            if k == 0 {
                false
            } else {
                let ext = String::from_str(file.substring_char(k + 1, n));
                ext == py
            }
        },
        None => false,
    }
}

/// The canonical dotted module name of a file (see [`module_name`]):
/// `pkg/sub/__init__.py` is `pkg.sub`, `pkg/sub/mod.py` is `pkg.sub.mod`,
/// `top.py` is `top`.
pub fn get_module_name(path: &str) -> (r: String)
    ensures
        r@ == module_name(path@),
{
    let (dir, file) = split_path(path);
    let stem = match last_index_of(file, '.') {
        Some(k) => {
            if k == 0 {
                file
            } else {
                file.substring_char(0, k)
            }
        },
        None => file,
    };
    let init = String::from_str("__init__");
    proof {
        reveal_strlit("__init__");
        reveal_strlit(".");
        assert(init@ =~= init_stem());
    }
    let stem = String::from_str(stem);
    if stem == init {
        dotted_of(dir)
    } else if dir.unicode_len() == 0 {
        stem
    } else {
        let mut name = dotted_of(dir);
        name.append(".");
        name.append(stem.as_str());
        name
    }
}

/// A catalog as plain values: (module name, path) pairs.
pub type CatalogModel = Seq<(Seq<char>, Seq<char>)>;

/// The catalog's entries as plain values.
pub open spec fn pairs_view(s: Seq<(String, String)>) -> CatalogModel {
    s.map_values(|e: (String, String)| (e.0@, e.1@))
}

/// The index of the first entry named `k`, or -1.
pub open spec fn key_index(c: CatalogModel, k: Seq<char>) -> int
    decreases c.len(),
{
    if c.len() == 0 {
        -1
    } else if key_index(c.subrange(0, c.len() - 1), k) >= 0 {
        key_index(c.subrange(0, c.len() - 1), k)
    } else if c[c.len() - 1].0 == k {
        c.len() - 1
    } else {
        -1
    }
}

/// No two entries share a name.
pub open spec fn keys_unique(c: CatalogModel) -> bool {
    forall|i: int, j: int| 0 <= i < j < c.len() ==> c[i].0 != c[j].0
}

/// Records `path` under `name`: the entry of that name takes the new path
/// where there is one (the last file seen wins); else the entry is added.
pub open spec fn upsert(c: CatalogModel, name: Seq<char>, path: Seq<char>) -> CatalogModel {
    if key_index(c, name) >= 0 {
        c.update(key_index(c, name), (name, path))
    } else {
        c.push((name, path))
    }
}

/// The catalog of a list of paths: each analyzable source file under its
/// module name, in the order in which the names first occur.
pub open spec fn catalog_of(paths: Seq<Seq<char>>) -> CatalogModel
    decreases paths.len(),
{
    if paths.len() == 0 {
        seq![]
    } else {
        let rest = catalog_of(paths.subrange(0, paths.len() - 1));
        let p = paths[paths.len() - 1];
        if is_source_path(p) {
            upsert(rest, module_name(p), p)
        } else {
            rest
        }
    }
}

pub proof fn lemma_key_index(c: CatalogModel, k: Seq<char>)
    ensures
        -1 <= key_index(c, k) < c.len(),
        key_index(c, k) >= 0 ==> c[key_index(c, k)].0 == k,
        forall|j: int| 0 <= j < c.len() && c[j].0 == k ==> key_index(c, k) >= 0 && key_index(c, k) <= j,
    decreases c.len(),
{
    if c.len() > 0 {
        let t = c.subrange(0, c.len() - 1);
        lemma_key_index(t, k);
        assert forall|j: int| 0 <= j < c.len() && c[j].0 == k implies key_index(c, k) >= 0
            && key_index(c, k) <= j by {
            if j < c.len() - 1 {
                assert(t[j] == c[j]);
            }
        }
    }
}

/// The catalog never holds two entries of one name.
pub proof fn lemma_catalog_keys_unique(paths: Seq<Seq<char>>)
    ensures
        keys_unique(catalog_of(paths)),
    decreases paths.len(),
{
    if paths.len() > 0 {
        let rest = catalog_of(paths.subrange(0, paths.len() - 1));
        lemma_catalog_keys_unique(paths.subrange(0, paths.len() - 1));
        let p = paths[paths.len() - 1];
        lemma_key_index(rest, module_name(p));
    }
}

/// Builds the catalog from the paths (relative to the project root) of all
/// files found: each file whose extension is `py` is recorded under its
/// module name; where two files share a name, the later path is kept.
pub fn build_module_to_paths(paths: &Vec<String>) -> (r: Vec<(String, String)>)
    ensures
        pairs_view(r@) == catalog_of(views(paths@)),
        keys_unique(pairs_view(r@)),
{
    let ghost ps = views(paths@);
    let mut r: Vec<(String, String)> = Vec::new();
    let mut i: usize = 0;
    proof {
        assert(pairs_view(r@) =~= catalog_of(ps.subrange(0, 0)));
    }
    while i < paths.len()
        invariant
            i <= paths.len(),
            ps == views(paths@),
            pairs_view(r@) == catalog_of(ps.subrange(0, i as int)),
        decreases paths.len() - i,
    {
        let ghost prefix = ps.subrange(0, i + 1);
        proof {
            assert(prefix.subrange(0, i as int) =~= ps.subrange(0, i as int));
        }
        let path = paths[i].as_str();
        if is_source_file(path) {
            let name = get_module_name(path);
            let ghost c = pairs_view(r@);
            let mut j: usize = 0;
            let mut found: Option<usize> = None;
            while j < r.len()
                invariant
                    j <= r.len(),
                    c == pairs_view(r@),
                    match found {
                        Some(k) => key_index(c.subrange(0, j as int), name@) == k && k < j,
                        None => key_index(c.subrange(0, j as int), name@) == -1,
                    },
                decreases r.len() - j,
            {
                proof {
                    assert(c.subrange(0, j + 1).subrange(0, j as int) =~= c.subrange(0, j as int));
                }
                if found.is_none() && r[j].0 == name {
                    found = Some(j);
                }
                j += 1;
            }
            proof {
                assert(c.subrange(0, r.len() as int) =~= c);
            }
            let entry = (name, paths[i].clone());
            match found {
                Some(k) => {
                    r.set(k, entry);
                },
                None => {
                    r.push(entry);
                },
            }
            proof {
                assert(pairs_view(r@) =~= upsert(c, module_name(ps[i as int]), ps[i as int]));
            }
        }
        proof {
            assert(pairs_view(r@) == catalog_of(prefix));
        }
        i += 1;
    }
    proof {
        assert(ps.subrange(0, ps.len() as int) =~= ps);
        lemma_catalog_keys_unique(ps);
    }
    r
}

/// `.py`.
pub open spec fn py_suffix() -> Seq<char> {
    seq!['.'] + source_extension()
}

/// A package-init file is a source file named after its directory
/// (`pkg/sub/__init__.py` is `pkg.sub`), and any other source file whose
/// stem holds no `/` is named after its directory and its stem
/// (`pkg/sub/mod.py` is `pkg.sub.mod`).
pub proof fn lemma_catalog_naming(dir: Seq<char>, stem: Seq<char>)
    requires
        dir.len() > 0,
        stem.len() > 0,
        stem != init_stem(),
        forall|i: int| 0 <= i < stem.len() ==> stem[i] != '/',
    ensures
        is_source_path(dir + seq!['/'] + init_stem() + py_suffix()),
        module_name(dir + seq!['/'] + init_stem() + py_suffix()) == dotted(dir),
        is_source_path(dir + seq!['/'] + stem + py_suffix()),
        module_name(dir + seq!['/'] + stem + py_suffix()) == dotted(dir) + seq!['.'] + stem,
{
    let init_file = init_stem() + py_suffix();
    let p = dir + seq!['/'] + init_file;
    assert(dir + seq!['/'] + init_stem() + py_suffix() =~= p);
    assert(p[dir.len() as int] == '/');
    assert forall|i: int| dir.len() < i < p.len() implies p[i] != '/' by {
        assert(p[i] == init_file[i - dir.len() - 1]);
    }
    lemma_last_index_at(p, '/', dir.len() as int);
    assert(file_name_of(p) =~= init_file);
    assert(parent_of(p) =~= dir);
    assert(init_file[8] == '.');
    lemma_last_index_at(init_file, '.', 8);
    assert(stem_of(init_file) =~= init_stem());
    assert(extension_of(init_file) == Some(init_file.subrange(9, 11)));
    assert(init_file.subrange(9, 11) =~= source_extension());

    let file = stem + py_suffix();
    let q = dir + seq!['/'] + file;
    assert(dir + seq!['/'] + stem + py_suffix() =~= q);
    assert(q[dir.len() as int] == '/');
    assert forall|i: int| dir.len() < i < q.len() implies q[i] != '/' by {
        assert(q[i] == file[i - dir.len() - 1]);
        if i - dir.len() - 1 < stem.len() {
            assert(file[i - dir.len() - 1] == stem[i - dir.len() - 1]);
        }
    }
    lemma_last_index_at(q, '/', dir.len() as int);
    assert(file_name_of(q) =~= file);
    assert(parent_of(q) =~= dir);
    assert(file[stem.len() as int] == '.');
    lemma_last_index_at(file, '.', stem.len() as int);
    assert(stem_of(file) =~= stem);
    assert(file.subrange(stem.len() + 1int, file.len() as int) =~= source_extension());
}

} // verus!
