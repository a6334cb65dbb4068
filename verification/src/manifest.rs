//! The generated package's manifest: the dependency table derived from the
//! WIT source tree, and the rules for locating each dependency package's
//! source directory.

use vstd::prelude::*;
use crate::context::{ctx_wf, GeneratorContext};
use crate::errors::GenError;
use crate::model::{wf, Model, PackageName};
use crate::names::{package_name_display, replace_all, replace_all_exec, snake_of, to_snake};
use toml_edit::DocumentMut;

verus! {

/// The WIT source files of one package, as paths into the WIT root.
#[derive(Debug, Clone)]
pub struct PackageSources {
    pub package: usize,
    pub paths: Vec<String>,
}

/// `p` relative to the WIT root: the part after `root/` when `p` lies
/// under it, empty when `p` is the root itself, and `p` unchanged
/// otherwise.
pub open spec fn strip_root(root: Seq<char>, p: Seq<char>) -> Seq<char> {
    if p.len() > root.len() && p.subrange(0, root.len() as int) == root && p[root.len() as int]
        == '/' {
        p.subrange(root.len() as int + 1, p.len() as int)
    } else if p == root {
        Seq::empty()
    } else {
        p
    }
}

/// The position of the last `/` in `p`, as the unique index with no `/`
/// after it.
pub open spec fn is_last_slash(p: Seq<char>, i: int) -> bool {
    &&& 0 <= i < p.len()
    &&& p[i] == '/'
    &&& forall|k: int| i < k < p.len() ==> p[k] != '/'
}

/// The directory part of a path: everything before the last `/`, the
/// empty path for a bare file name, and nothing for an empty path.
pub open spec fn parent_of(p: Seq<char>) -> Option<Seq<char>> {
    if p.len() == 0 {
        None
    } else if forall|k: int| 0 <= k < p.len() ==> p[k] != '/' {
        Some(Seq::empty())
    } else {
        Some(p.subrange(0, choose|i: int| is_last_slash(p, i)))
    }
}

/// The parent directory a source path contributes to its package, after
/// making the path relative to the WIT root.
pub open spec fn parent_opt(root: Seq<char>, p: Seq<char>) -> Option<Seq<char>> {
    parent_of(strip_root(root, p))
}

/// Makes `p` relative to `root`.
pub fn strip_root_exec(root: &str, p: &str) -> (r: String)
    ensures
        r@ == strip_root(root@, p@),
{
    let pl = p.unicode_len();
    let rl = root.unicode_len();
    if pl > rl {
        let slash = p.get_char(rl) == '/';
        let mut under = slash;
        let mut i: usize = 0;
        while i < rl
            invariant
                i <= rl,
                rl < pl,
                pl == p@.len(),
                rl == root@.len(),
                under ==> forall|k: int| 0 <= k < i ==> p@[k] == root@[k],
                !under ==> !(slash && p@.subrange(0, root@.len() as int) == root@),
                slash == (p@[rl as int] == '/'),
            decreases rl - i,
        {
            if p.get_char(i) != root.get_char(i) {
                proof {
                    if slash {
                        assert(p@.subrange(0, root@.len() as int)[i as int] == p@[i as int]);
                    }
                }
                under = false;
            }
            i += 1;
        }
        if under && slash {
            proof {
                assert(p@.subrange(0, root@.len() as int) =~= root@);
            }
            let tail = p.substring_char(rl + 1, pl);
            proof {
                assert(tail@ =~= strip_root(root@, p@));
            }
            String::from_str(tail)
        } else {
            proof {
                assert(!(p@.subrange(0, root@.len() as int) == root@ && p@[root@.len() as int]
                    == '/'));
                assert(p@.len() != root@.len());
            }
            String::from_str(p)
        }
    } else if pl == rl {
        let mut same = true;
        let mut i: usize = 0;
        while i < rl
            invariant
                i <= rl,
                pl == p@.len(),
                rl == root@.len(),
                pl == rl,
                same ==> forall|k: int| 0 <= k < i ==> p@[k] == root@[k],
                !same ==> p@ != root@,
            decreases rl - i,
        {
            if p.get_char(i) != root.get_char(i) {
                same = false;
                proof {
                    assert(p@[i as int] != root@[i as int]);
                }
            }
            i += 1;
        }
        if same {
            proof {
                assert(p@ =~= root@);
            }
            String::new()
        } else {
            String::from_str(p)
        }
    } else {
        proof {
            assert(p@.len() != root@.len());
        }
        String::from_str(p)
    }
}

/// The directory part of `p`, when `p` is not empty.
pub fn parent_exec(p: &str) -> (r: Option<String>)
    ensures
        (match r {
            Some(s) => parent_of(p@) == Some(s@),
            None => parent_of(p@) is None,
        }),
{
    let n = p.unicode_len();
    if n == 0 {
        return None;
    }
    let mut last: Option<usize> = None;
    let mut i: usize = 0;
    while i < n
        invariant
            i <= n,
            n == p@.len(),
            (match last {
                Some(ls) => ls < i && p@[ls as int] == '/' && (forall|k: int|
                    ls < k < i ==> p@[k] != '/'),
                None => forall|k: int| 0 <= k < i ==> p@[k] != '/',
            }),
        decreases n - i,
    {
        if p.get_char(i) == '/' {
            last = Some(i);
        }
        i += 1;
    }
    match last {
        Some(ls) => {
            proof {
                assert(is_last_slash(p@, ls as int));
                let ci = choose|j: int| is_last_slash(p@, j);
                assert(is_last_slash(p@, ci));
                if ci != ls as int {
                    if ci < ls as int {
                        assert(p@[ls as int] == '/');
                        assert(false);
                    } else {
                        assert(p@[ci] == '/');
                        assert(false);
                    }
                }
            }
            let dir = p.substring_char(0, ls);
            proof {
                assert(dir@ =~= p@.subrange(0, ls as int));
            }
            Some(String::from_str(dir))
        },
        None => {
            proof {
                assert(forall|k: int| 0 <= k < p@.len() ==> p@[k] != '/');
            }
            Some(String::new())
        },
    }
}

/// A package's sources agree on one directory: at least one path has a
/// parent, and any two parents are the same.
pub open spec fn entry_ok(root: Seq<char>, ps: PackageSources) -> bool {
    &&& exists|i: int|
        0 <= i < ps.paths@.len() && (#[trigger] parent_opt(root, ps.paths@[i]@)) is Some
    &&& forall|i: int, j: int|
        0 <= i < ps.paths@.len() && 0 <= j < ps.paths@.len() && (#[trigger] parent_opt(
            root,
            ps.paths@[i]@,
        )) is Some && (#[trigger] parent_opt(root, ps.paths@[j]@)) is Some ==> parent_opt(
            root,
            ps.paths@[i]@,
        )->0 == parent_opt(root, ps.paths@[j]@)->0
}

/// The one directory of a package whose sources agree (see `entry_ok`).
pub open spec fn the_parent(root: Seq<char>, ps: PackageSources) -> Seq<char> {
    let i = choose|i: int|
        0 <= i < ps.paths@.len() && (#[trigger] parent_opt(root, ps.paths@[i]@)) is Some;
    parent_opt(root, ps.paths@[i]@)->0
}

/// A package name rendered without its version: `namespace:name`.
pub open spec fn name_without_version(pn: PackageName) -> Seq<char> {
    pn.namespace@ + seq![':'] + pn.name@
}

/// The dependency rows of the manifest, one per source-map entry whose
/// directory is not the WIT root itself: the versionless package name,
/// mapped to `wit/` plus the package's source directory.
pub open spec fn spec_dep_rows(m: Model, root: Seq<char>, entries: Seq<PackageSources>) -> Seq<
    (Seq<char>, Seq<char>),
>
    decreases entries.len(),
{
    if entries.len() == 0 {
        Seq::empty()
    } else {
        let head = (if the_parent(root, entries[0]) =~= Seq::<char>::empty() {
            Seq::<(Seq<char>, Seq<char>)>::empty()
        } else {
            seq![
                (
                    name_without_version(m.packages[entries[0].package as int].name),
                    seq!['w', 'i', 't', '/'] + the_parent(root, entries[0]),
                ),
            ]
        });
        head + spec_dep_rows(m, root, entries.drop_first())
    }
}

/// Computes the manifest's dependency table from the packages' source
/// paths: each dependency package contributes exactly one row naming its
/// single source directory under `wit/`; a package whose sources sit in
/// the WIT root itself contributes none. A package whose sources are
/// split across two directories, or that has no source directory at all,
/// fails generation, naming the first such package.
pub fn wit_dependency_table(m: &Model, root: &str, source_map: &Vec<PackageSources>) -> (r: Result<
    Vec<(String, String)>,
    GenError,
>)
    requires
        wf(*m),
        forall|k: int|
            0 <= k < source_map@.len() ==> (#[trigger] source_map@[k].package) < m.packages.len(),
    ensures
        (match r {
            Ok(rows) => (forall|k: int|
                0 <= k < source_map@.len() ==> entry_ok(root@, #[trigger] source_map@[k]))
                && rows@.map_values(|pr: (String, String)| (pr.0@, pr.1@)) == spec_dep_rows(
                *m,
                root@,
                source_map@,
            ),
            Err(e) => exists|k: int|
                0 <= k < source_map@.len() && !entry_ok(root@, #[trigger] source_map@[k])
                    && (forall|j: int| 0 <= j < k ==> entry_ok(root@, source_map@[j])) && ((e
                    == (GenError::SplitPackageSources(source_map@[k].package)) && !(forall|
                    i: int,
                    j: int,
                |
                    0 <= i < source_map@[k].paths@.len() && 0 <= j < source_map@[k].paths@.len()
                        && (#[trigger] parent_opt(root@, source_map@[k].paths@[i]@)) is Some && (
                    #[trigger] parent_opt(root@, source_map@[k].paths@[j]@)) is Some
                        ==> parent_opt(root@, source_map@[k].paths@[i]@)->0 == parent_opt(
                        root@,
                        source_map@[k].paths@[j]@,
                    )->0)) || (e == (GenError::NoPackageSources(
                    source_map@[k].package,
                )) && (forall|i: int|
                    0 <= i < source_map@[k].paths@.len() ==> !((#[trigger] parent_opt(
                        root@,
                        source_map@[k].paths@[i]@,
                    )) is Some)))),
        }),
{
    let mut rows: Vec<(String, String)> = Vec::new();
    let mut e: usize = 0;
    proof {
        assert(source_map@.skip(0) =~= source_map@);
    }
    while e < source_map.len()
        invariant
            wf(*m),
            forall|k: int|
                0 <= k < source_map@.len() ==> (#[trigger] source_map@[k].package)
                    < m.packages.len(),
            e <= source_map@.len(),
            forall|j: int| 0 <= j < e ==> entry_ok(root@, #[trigger] source_map@[j]),
            rows@.map_values(|pr: (String, String)| (pr.0@, pr.1@)) + spec_dep_rows(
                *m,
                root@,
                source_map@.skip(e as int),
            ) =~= spec_dep_rows(*m, root@, source_map@),
        decreases source_map@.len() - e,
    {
        let entry = &source_map[e];
        let mut found: Option<String> = None;
        let mut i: usize = 0;
        while i < entry.paths.len()
            invariant
                e < source_map@.len(),
                forall|j: int| 0 <= j < e ==> entry_ok(root@, #[trigger] source_map@[j]),
                entry == &source_map@[e as int],
                i <= source_map@[e as int].paths@.len(),
                found is Some ==> (exists|j: int|
                    0 <= j < i && (#[trigger] parent_opt(
                        root@,
                        source_map@[e as int].paths@[j]@,
                    )) == Some(found->0@)),
                found is Some ==> (forall|j: int|
                    0 <= j < i && (#[trigger] parent_opt(
                        root@,
                        source_map@[e as int].paths@[j]@,
                    )) is Some ==> parent_opt(root@, source_map@[e as int].paths@[j]@)->0
                        == found->0@),
                found is None ==> (forall|j: int|
                    0 <= j < i ==> !((#[trigger] parent_opt(
                        root@,
                        source_map@[e as int].paths@[j]@,
                    )) is Some)),
            decreases entry.paths@.len() - i,
        {
            let rel = strip_root_exec(root, entry.paths[i].as_str());
            let par = parent_exec(rel.as_str());
            match par {
                Some(pv) => {
                    match &found {
                        Some(fv) => {
                            if !(pv == *fv) {
                                proof {
                                    let jw = choose|j: int|
                                        0 <= j < i && (#[trigger] parent_opt(
                                            root@,
                                            source_map@[e as int].paths@[j]@,
                                        )) == Some(fv@);
                                    assert(parent_opt(
                                        root@,
                                        source_map@[e as int].paths@[jw]@,
                                    ) == Some(fv@));
                                    assert(parent_opt(
                                        root@,
                                        source_map@[e as int].paths@[i as int]@,
                                    ) == Some(pv@));
                                    assert(fv@ != pv@);
                                    assert(i < source_map@[e as int].paths@.len());
                                    assert(!(forall|i2: int, j2: int|
                                        0 <= i2 < source_map@[e as int].paths@.len() && 0 <= j2
                                            < source_map@[e as int].paths@.len() && (
                                        #[trigger] parent_opt(
                                            root@,
                                            source_map@[e as int].paths@[i2]@,
                                        )) is Some && (#[trigger] parent_opt(
                                            root@,
                                            source_map@[e as int].paths@[j2]@,
                                        )) is Some ==> parent_opt(
                                            root@,
                                            source_map@[e as int].paths@[i2]@,
                                        )->0 == parent_opt(
                                            root@,
                                            source_map@[e as int].paths@[j2]@,
                                        )->0));
                                    assert(!entry_ok(root@, source_map@[e as int]));
                                }
                                return Err(GenError::SplitPackageSources(entry.package));
                            }
                        },
                        None => {
                            found = Some(pv);
                        },
                    }
                },
                None => {},
            }
            i += 1;
        }
        let ghost pre_rows = rows@.map_values(|pr: (String, String)| (pr.0@, pr.1@));
        match &found {
            Some(v) => {
                proof {
                    assert(i >= source_map@[e as int].paths@.len());
                    let jw0 = choose|j: int|
                        0 <= j < i && (#[trigger] parent_opt(
                            root@,
                            source_map@[e as int].paths@[j]@,
                        )) == Some(v@);
                    assert(0 <= jw0 < source_map@[e as int].paths@.len() && parent_opt(
                        root@,
                        source_map@[e as int].paths@[jw0]@,
                    ) is Some);
                    assert(exists|ii: int|
                        0 <= ii < source_map@[e as int].paths@.len() && (#[trigger] parent_opt(
                            root@,
                            source_map@[e as int].paths@[ii]@,
                        )) is Some);
                    assert forall|i2: int, j2: int|
                        0 <= i2 < source_map@[e as int].paths@.len() && 0 <= j2
                            < source_map@[e as int].paths@.len() && (#[trigger] parent_opt(
                        root@,
                        source_map@[e as int].paths@[i2]@,
                    )) is Some && (#[trigger] parent_opt(
                        root@,
                        source_map@[e as int].paths@[j2]@,
                    )) is Some implies parent_opt(root@, source_map@[e as int].paths@[i2]@)->0
                        == parent_opt(root@, source_map@[e as int].paths@[j2]@)->0 by {
                        assert(i2 < i && j2 < i);
                    }
                    assert(entry_ok(root@, source_map@[e as int]));
                    let ci = choose|ii: int|
                        0 <= ii < source_map@[e as int].paths@.len() && (#[trigger] parent_opt(
                            root@,
                            source_map@[e as int].paths@[ii]@,
                        )) is Some;
                    assert(parent_opt(root@, source_map@[e as int].paths@[ci]@) is Some);
                    assert(the_parent(root@, source_map@[e as int]) == v@);
                }
                if v.unicode_len() > 0 {
                    let pkg_name = &m.packages[entry.package].name;
                    let dep_name = PackageName {
                        namespace: pkg_name.namespace.clone(),
                        name: pkg_name.name.clone(),
                        version: None,
                    }.display();
                    let mut path = String::from_str("wit/");
                    proof {
                        reveal_strlit("wit/");
                        assert("wit/"@ =~= seq!['w', 'i', 't', '/']);
                    }
                    path.append(v.as_str());
                    rows.push((dep_name, path));
                }
            },
            None => {
                proof {
                    assert(!entry_ok(root@, source_map@[e as int]));
                }
                return Err(GenError::NoPackageSources(entry.package));
            },
        }
        proof {
            assert(source_map@.skip(e as int).drop_first() =~= source_map@.skip(e + 1));
            assert(source_map@.skip(e as int)[0] == source_map@[e as int]);
            assert(rows@.map_values(|pr: (String, String)| (pr.0@, pr.1@)) + spec_dep_rows(
                *m,
                root@,
                source_map@.skip(e + 1),
            ) =~= spec_dep_rows(*m, root@, source_map@));
        }
        e += 1;
    }
    proof {
        assert(source_map@.skip(source_map@.len() as int) =~= Seq::<PackageSources>::empty());
        assert(rows@.map_values(|pr: (String, String)| (pr.0@, pr.1@)) =~= spec_dep_rows(
            *m,
            root@,
            source_map@,
        ));
    }
    Ok(rows)
}

/// The manifest document type of the TOML editing library, opaque here.
#[verifier::external_type_specification]
#[verifier::external_body]
pub struct ExDocumentMut(DocumentMut);

/// Whether a text is a valid TOML document.
pub uninterp spec fn toml_parses(text: Seq<char>) -> bool;

/// The document a valid TOML text parses to; parsing depends on the
/// characters alone.
pub uninterp spec fn toml_doc_of(text: Seq<char>) -> DocumentMut;

/// Whether walking the nested tables named by `keys` from the document
/// root meets only tables (absent levels count, since the walk creates
/// them); a function of the document and the keys alone.
pub uninterp spec fn tables_at(d: DocumentMut, keys: Seq<Seq<char>>) -> bool;

/// The document with the value `key = val` set in the table reached by
/// `keys`, when the walk succeeds.
pub uninterp spec fn with_value_at(
    d: DocumentMut,
    keys: Seq<Seq<char>>,
    key: Seq<char>,
    val: Seq<char>,
) -> DocumentMut;

/// The document with a table `name` holding `key = val` inserted into
/// the table reached by `keys`, when the walk succeeds.
pub uninterp spec fn with_table_row(
    d: DocumentMut,
    keys: Seq<Seq<char>>,
    name: Seq<char>,
    key: Seq<char>,
    val: Seq<char>,
) -> DocumentMut;

/// The rendered text of a document; rendering depends on the document
/// alone.
pub uninterp spec fn rendered(d: DocumentMut) -> Seq<char>;

/// Relies on toml_edit's DocumentMut parser (str::parse): deterministic
/// in the text, succeeding exactly on valid TOML, never panicking.
#[verifier::external_body]
fn parse_toml(text: &str) -> (r: Option<DocumentMut>)
    ensures
        r is Some <==> toml_parses(text@),
        (match r {
            Some(d) => d == toml_doc_of(text@),
            None => true,
        }),
{
    match text.parse::<DocumentMut>() {
        Ok(doc) => Some(doc),
        Err(_) => None,
    }
}

/// Relies on toml_edit's Table::entry, or_insert and as_table_mut: walks
/// or creates the nested tables named by `keys` and sets `key = val` in
/// the last of them. A level held by a non-table item makes the walk
/// fail with `false` instead of panicking; the document may then be left
/// with some empty tables created along the way.
#[verifier::external_body]
fn set_nested_value(doc: &mut DocumentMut, keys: &Vec<String>, key: &str, val: &str) -> (r: bool)
    ensures
        r == tables_at(*old(doc), keys@.map_values(|s: String| s@)),
        r ==> *final(doc) == with_value_at(
            *old(doc),
            keys@.map_values(|s: String| s@),
            key@,
            val@,
        ),
{
    let mut cur = doc.as_table_mut();
    for k2 in keys {
        let item = toml_edit::Item::Table(toml_edit::Table::new());
        match cur.entry(k2.as_str()).or_insert(item).as_table_mut() {
            Some(t) => cur = t,
            None => return false,
        }
    }
    cur.insert(key, toml_edit::value(val));
    true
}

/// Relies on toml_edit's Table::entry, or_insert, as_table_mut and
/// insert: walks or creates the nested tables named by `keys` and
/// inserts under the last of them a table `name` holding `key = val`.
/// A level held by a non-table item makes the walk fail with `false`
/// instead of panicking.
#[verifier::external_body]
fn insert_nested_table(
    doc: &mut DocumentMut,
    keys: &Vec<String>,
    name: &str,
    key: &str,
    val: &str,
) -> (r: bool)
    ensures
        r == tables_at(*old(doc), keys@.map_values(|s: String| s@)),
        r ==> *final(doc) == with_table_row(
            *old(doc),
            keys@.map_values(|s: String| s@),
            name@,
            key@,
            val@,
        ),
{
    let mut cur = doc.as_table_mut();
    for k2 in keys {
        let item = toml_edit::Item::Table(toml_edit::Table::new());
        match cur.entry(k2.as_str()).or_insert(item).as_table_mut() {
            Some(t) => cur = t,
            None => return false,
        }
    }
    let mut target = toml_edit::Table::new();
    target.insert(key, toml_edit::Item::Value(toml_edit::Value::from(val)));
    cur.insert(name, toml_edit::Item::Table(target));
    true
}

/// Relies on DocumentMut's Display impl: renders the edited manifest,
/// deterministically in the document.
#[verifier::external_body]
fn doc_to_string(doc: &DocumentMut) -> (r: String)
    ensures
        r@ == rendered(*doc),
{
    doc.to_string()
}

/// The key path of the manifest section listing WIT dependencies.
pub open spec fn dep_section_path() -> Seq<Seq<char>> {
    seq!["package"@, "metadata"@, "component"@, "target"@, "dependencies"@]
}

/// The key path of the table holding the package name.
pub open spec fn package_path() -> Seq<Seq<char>> {
    seq!["package"@]
}

/// The skeleton document after the package-name rewrite.
pub open spec fn named_doc(skeleton: Seq<char>, world_name: Seq<char>) -> DocumentMut {
    with_value_at(toml_doc_of(skeleton), package_path(), "name"@, world_name)
}

/// The document after inserting every dependency row, first row first.
pub open spec fn with_rows(d: DocumentMut, rows: Seq<(Seq<char>, Seq<char>)>) -> DocumentMut
    decreases rows.len(),
{
    if rows.len() == 0 {
        d
    } else {
        with_rows(
            with_table_row(d, dep_section_path(), rows[0].0, "path"@, rows[0].1),
            rows.drop_first(),
        )
    }
}

/// Every dependency row finds the dependency section to be (or become) a
/// chain of tables, row after row.
pub open spec fn rows_insertable(d: DocumentMut, rows: Seq<(Seq<char>, Seq<char>)>) -> bool
    decreases rows.len(),
{
    if rows.len() == 0 {
        true
    } else {
        tables_at(d, dep_section_path()) && rows_insertable(
            with_table_row(d, dep_section_path(), rows[0].0, "path"@, rows[0].1),
            rows.drop_first(),
        )
    }
}

/// Builds the dependency-section key path.
fn dependency_section_keys() -> (r: Vec<String>)
    ensures
        r@.map_values(|s: String| s@) == dep_section_path(),
{
    let mut keys: Vec<String> = Vec::new();
    keys.push(String::from_str("package"));
    keys.push(String::from_str("metadata"));
    keys.push(String::from_str("component"));
    keys.push(String::from_str("target"));
    keys.push(String::from_str("dependencies"));
    proof {
        assert(keys@.map_values(|s: String| s@) =~= dep_section_path());
    }
    keys
}

/// Generates the wrapper crate's manifest from the skeleton manifest: the
/// skeleton document with the package name rewritten to the selected
/// world's name and the dependency section extended by one row per WIT
/// dependency package (see `wit_dependency_table`), rendered back to
/// text. Succeeds exactly when the dependency table is computable, the
/// skeleton parses as TOML, and the rewritten sections are tables.
pub fn generate_cargo_toml(
    c: &GeneratorContext,
    skeleton: &str,
    wit_root: &str,
    source_map: &Vec<PackageSources>,
) -> (r: Result<String, GenError>)
    requires
        ctx_wf(*c),
        forall|k: int|
            0 <= k < source_map@.len() ==> (#[trigger] source_map@[k].package)
                < c.model.packages.len(),
    ensures
        r is Ok <==> ((forall|k: int|
            0 <= k < source_map@.len() ==> entry_ok(wit_root@, #[trigger] source_map@[k]))
            && toml_parses(skeleton@) && tables_at(toml_doc_of(skeleton@), package_path())
            && rows_insertable(
            named_doc(skeleton@, c.model.worlds[c.world as int].name@),
            spec_dep_rows(c.model, wit_root@, source_map@),
        )),
        (match r {
            Ok(s) => s@ == rendered(
                with_rows(
                    named_doc(skeleton@, c.model.worlds[c.world as int].name@),
                    spec_dep_rows(c.model, wit_root@, source_map@),
                ),
            ),
            Err(e) => e == GenError::BadSkeleton || (exists|k: int|
                0 <= k < source_map@.len() && !entry_ok(wit_root@, #[trigger] source_map@[k])),
        }),
{
    let ghost rv = spec_dep_rows(c.model, wit_root@, source_map@);
    let rows = match wit_dependency_table(&c.model, wit_root, source_map) {
        Ok(rows) => rows,
        Err(e) => {
            return Err(e);
        },
    };
    let mut doc = match parse_toml(skeleton) {
        Some(doc) => doc,
        None => {
            return Err(GenError::BadSkeleton);
        },
    };
    let mut pkg_keys: Vec<String> = Vec::new();
    pkg_keys.push(String::from_str("package"));
    proof {
        assert(pkg_keys@.map_values(|s: String| s@) =~= package_path());
    }
    if !set_nested_value(&mut doc, &pkg_keys, "name", c.world_name.as_str()) {
        return Err(GenError::BadSkeleton);
    }
    proof {
        assert(doc == named_doc(skeleton@, c.model.worlds[c.world as int].name@));
        assert(rv.skip(0) =~= rv);
    }
    let ghost d1 = doc;
    let keys = dependency_section_keys();
    let mut k: usize = 0;
    while k < rows.len()
        invariant
            k <= rows@.len(),
            rv == spec_dep_rows(c.model, wit_root@, source_map@),
            rows@.map_values(|pr: (String, String)| (pr.0@, pr.1@)) == rv,
            keys@.map_values(|s: String| s@) == dep_section_path(),
            forall|q: int|
                0 <= q < source_map@.len() ==> entry_ok(wit_root@, #[trigger] source_map@[q]),
            toml_parses(skeleton@),
            tables_at(toml_doc_of(skeleton@), package_path()),
            d1 == named_doc(skeleton@, c.model.worlds[c.world as int].name@),
            with_rows(d1, rv) == with_rows(doc, rv.skip(k as int)),
            rows_insertable(d1, rv) <==> rows_insertable(doc, rv.skip(k as int)),
        decreases rows@.len() - k,
    {
        proof {
            assert(rv[k as int] == (rows@[k as int].0@, rows@[k as int].1@));
            assert(rv.skip(k as int)[0] == rv[k as int]);
            assert(rv.skip(k as int).drop_first() =~= rv.skip(k + 1));
        }
        let ghost pre_doc = doc;
        if !insert_nested_table(&mut doc, &keys, rows[k].0.as_str(), "path", rows[k].1.as_str()) {
            proof {
                assert(!rows_insertable(pre_doc, rv.skip(k as int)));
            }
            return Err(GenError::BadSkeleton);
        }
        proof {
            assert(doc == with_table_row(
                pre_doc,
                dep_section_path(),
                rv[k as int].0,
                "path"@,
                rv[k as int].1,
            ));
            assert(with_rows(pre_doc, rv.skip(k as int)) == with_rows(doc, rv.skip(k + 1)));
            assert(rows_insertable(pre_doc, rv.skip(k as int)) <==> rows_insertable(
                doc,
                rv.skip(k + 1),
            ));
        }
        k += 1;
    }
    proof {
        assert(rv.skip(rows@.len() as int) =~= Seq::<(Seq<char>, Seq<char>)>::empty());
        assert(with_rows(d1, rv) == doc);
        assert(rows_insertable(d1, rv));
    }
    Ok(doc_to_string(&doc))
}

/// Generates the deployment manifest from its skeleton: the component
/// name placeholder becomes the snake_case world name, and the root
/// package placeholder becomes the root package's rendered name.
pub fn generate_app_manifest(c: &GeneratorContext, template: &str) -> (r: String)
    requires
        ctx_wf(*c),
    ensures
        r@ == replace_all(
            replace_all(
                template@,
                "component_name"@,
                snake_of(c.model.worlds[c.world as int].name@),
            ),
            "root:package"@,
            package_name_display(c.model.packages[c.root_package as int].name),
        ),
{
    let snake = to_snake(c.world_name.as_str());
    let pkg = c.root_package_name();
    proof {
        reveal_strlit("component_name");
        reveal_strlit("root:package");
    }
    let step1 = replace_all_exec(template, "component_name", snake.as_str());
    replace_all_exec(step1.as_str(), "root:package", pkg.as_str())
}

} // verus!
