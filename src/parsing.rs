//! Element extraction: from the declarations of a source file to code elements.

use vstd::prelude::*;

use crate::imports::{
    explode_all, import_paths, import_views, imports_of, retrieve_imports, sep, shadow,
    update_imports, ImportView,
};
use crate::models::{element_views, id_views, CodeElement, CodeElementID, CodeFile, ElementView, IdView, ItemKind};
use crate::syntax::Decl;
use crate::text::{
    chars_of, contains_chars, contains_seq, ends_with, find_first, first_occurrence, join_lines, join_range,
    lines_of, lower_of, replace_all, replace_chars, split_lines, string_of, sub_chars, to_lowercase,
    trim_suffix_all, trim_suffix_chars, views,
};

verus! {

/// `x` brought into `lo..=hi`.
pub open spec fn clamp(x: int, lo: int, hi: int) -> int {
    if x < lo {
        lo
    } else if x > hi {
        hi
    } else {
        x
    }
}

/// The text of lines `from..=to` (1-based) of `code`, as far as they exist.
pub open spec fn line_range(code: Seq<char>, from: int, to: int) -> Seq<char> {
    let ls = lines_of(code);
    let a = clamp(from - 1, 0, ls.len() as int);
    let b = clamp(to, a, ls.len() as int);
    join_lines(ls.subrange(a, b))
}

/// The text of a declaration on lines `first..=last` of a file, taken from
/// `code`: the whole file, or the text of an enclosing declaration that starts
/// on line `parent`.
pub open spec fn nested_code(code: Seq<char>, first: int, last: int, parent: Option<usize>) -> Seq<char> {
    match parent {
        Some(p) => line_range(code, first - p + 1, last - p + 1),
        None => line_range(code, first, last),
    }
}

/// The text of the declaration on lines `first_line..=last_line`, out of
/// `code` (the text of the enclosing declaration that starts on line
/// `parent_first_line`, or the whole file).
pub fn get_code_from_nested(
    code: &str,
    first_line: usize,
    last_line: usize,
    parent_first_line: Option<usize>,
) -> (r: String)
    ensures
        r@ == nested_code(code@, first_line as int, last_line as int, parent_first_line),
{
    let lines = split_lines(code);
    let n = lines.len();
    let a: usize = match parent_first_line {
        Some(p) => if first_line < p {
            0
        } else if first_line - p > n {
            n
        } else {
            first_line - p
        },
        None => if first_line == 0 {
            0
        } else if first_line - 1 > n {
            n
        } else {
            first_line - 1
        },
    };
    let t: usize = match parent_first_line {
        Some(p) => if last_line < p {
            0
        } else if last_line - p >= n {
            n
        } else {
            last_line - p + 1
        },
        None => if last_line > n {
            n
        } else {
            last_line
        },
    };
    let b = if t < a {
        a
    } else {
        t
    };
    proof {
        assert(views(lines@) == lines_of(code@));
    }
    join_range(lines.as_slice(), a, b)
}


/// Modules whose name holds "test", in any case, are left out with all they contain.
pub open spec fn excluded_module(ident: Seq<char>) -> bool {
    contains_seq(lower_of(ident), "test"@)
}

/// Whether a module whose name in lower case is `lowered` is left out: it holds "test".
pub fn is_test_module_name(lowered: &str) -> (r: bool)
    ensures
        r == contains_seq(lowered@, "test"@),
{
    contains_chars(chars_of(lowered).as_slice(), chars_of("test").as_slice())
}

/// The line of a module's documentation: the first line of its body.
pub open spec fn module_doc_line(first: usize) -> usize {
    if first < usize::MAX {
        (first + 1) as usize
    } else {
        first
    }
}

/// The lines at which documentation for `d` is placed: its first line (for a
/// module, the line after it), and for a struct or enum the first line of each
/// named field or variant.
pub open spec fn own_line_start(d: Decl) -> Seq<usize> {
    if d.kind == ItemKind::Struct || d.kind == ItemKind::Enum {
        seq![d.first_line] + d.field_lines@
    } else if d.kind == ItemKind::Mod {
        seq![module_doc_line(d.first_line)]
    } else {
        seq![d.first_line]
    }
}

/// The imports visible in the body of `d`, given those around it.
pub open spec fn body_imports(d: Decl, imports: Seq<ImportView>) -> Seq<ImportView> {
    shadow(imports, explode_all(d.scope_uses@, Seq::empty()))
}

/// The identity of a member of an implementation block or trait.
pub open spec fn member_id(m: Decl, location: Seq<char>) -> IdView {
    (m.ident@, m.kind, location)
}

/// The element of a member `m` of an implementation block (`in_impl`) or a
/// trait that starts on line `parent_first` and has the text `code`.
pub open spec fn member_element(
    m: Decl,
    code: Seq<char>,
    parent_first: usize,
    location: Seq<char>,
    imports: Seq<ImportView>,
    in_impl: bool,
) -> ElementView {
    ElementView {
        id: member_id(m, location),
        code: nested_code(code, m.first_line as int, m.last_line as int, Some(parent_first)),
        line_start: seq![m.first_line],
        imports: import_paths(if in_impl { body_imports(m, imports) } else { imports }),
        children: Seq::empty(),
        dependencies: Seq::empty(),
        implementors: Seq::empty(),
    }
}

/// The elements of the members `ms`.
pub open spec fn members_of(
    ms: Seq<Decl>,
    code: Seq<char>,
    parent_first: usize,
    location: Seq<char>,
    imports: Seq<ImportView>,
    in_impl: bool,
) -> Seq<ElementView> {
    Seq::new(ms.len(), |i: int| member_element(ms[i], code, parent_first, location, imports, in_impl))
}

/// The identities of the members `ms`.
pub open spec fn member_ids(ms: Seq<Decl>, location: Seq<char>) -> Seq<IdView> {
    Seq::new(ms.len(), |i: int| member_id(ms[i], location))
}

/// The elements extracted from `d`, whose text is `code`, declared at
/// `location` with `imports` visible, in the order they are produced; and the
/// identity of `d` unless it is left out.
pub open spec fn element_of(d: Decl, code: Seq<char>, location: Seq<char>, imports: Seq<ImportView>) -> (Seq<ElementView>, Option<IdView>)
    decreases d,
{
    if d.kind == ItemKind::Use || (d.kind == ItemKind::Mod && excluded_module(d.ident@)) {
        (Seq::empty(), None)
    } else {
        let id = (d.ident@, d.kind, location);
        let inner = location + sep() + d.ident@;
        let nested = if d.kind == ItemKind::Impl || d.kind == ItemKind::Trait {
            (members_of(d.members@, code, d.first_line, inner, imports, d.kind == ItemKind::Impl), member_ids(d.members@, inner))
        } else if d.kind == ItemKind::Mod {
            items_of(d.members@, code, Some(d.first_line), inner, imports_of(d.members@))
        } else {
            (Seq::empty(), Seq::empty())
        };
        let own_imports = if d.kind == ItemKind::Fn { body_imports(d, imports) } else { imports };
        let me = ElementView {
            id,
            code,
            line_start: own_line_start(d),
            imports: import_paths(own_imports),
            children: nested.1,
            dependencies: Seq::empty(),
            implementors: Seq::empty(),
        };
        if d.kind == ItemKind::Mod && d.first_line == d.last_line {
            (nested.0, Some(id))
        } else {
            (nested.0.push(me), Some(id))
        }
    }
}

/// The elements extracted from the declarations `ds`, each with its text cut
/// out of `code`, and the identities of those not left out.
pub open spec fn items_of(ds: Seq<Decl>, code: Seq<char>, parent: Option<usize>, location: Seq<char>, imports: Seq<ImportView>) -> (Seq<ElementView>, Seq<IdView>)
    decreases ds,
{
    if ds.len() == 0 {
        (Seq::empty(), Seq::empty())
    } else {
        let before = items_of(ds.drop_last(), code, parent, location, imports);
        let d = ds.last();
        let one = element_of(d, nested_code(code, d.first_line as int, d.last_line as int, parent), location, imports);
        (before.0 + one.0, match one.1 {
            Some(id) => before.1.push(id),
            None => before.1,
        })
    }
}


fn clone_imports(v: &Vec<(String, String)>) -> (r: Vec<(String, String)>)
    ensures
        import_views(r@) == import_views(v@),
{
    let mut r: Vec<(String, String)> = Vec::new();
    for i in 0..v.len()
        invariant
            r.len() == i,
            forall|j: int| 0 <= j < i ==> r@[j].0@ == v@[j].0@ && r@[j].1@ == v@[j].1@,
    {
        let p = &v[i];
        r.push((p.0.clone(), p.1.clone()));
    }
    assert(import_views(r@) =~= import_views(v@));
    r
}

fn paths_of(v: &Vec<(String, String)>) -> (r: Vec<String>)
    ensures
        views(r@) == import_paths(import_views(v@)),
{
    let mut r: Vec<String> = Vec::new();
    for i in 0..v.len()
        invariant
            r.len() == i,
            forall|j: int| 0 <= j < i ==> r@[j]@ == v@[j].0@,
    {
        r.push(v[i].0.clone());
    }
    assert(views(r@) =~= import_paths(import_views(v@)));
    r
}

fn join_location(location: &str, ident: &str) -> (r: String)
    ensures
        r@ == location@ + sep() + ident@,
{
    proof {
        reveal_strlit(" :: ");
    }
    let mut r = location.to_string();
    r.append(" :: ");
    r.append(ident);
    r
}

/// Extracts the elements of the declaration `item`, whose text is `code`,
/// declared at `location` with `imports` visible. They are appended to
/// `code_elements` (the members first, the declaration itself last) and the
/// identity of `item` is returned, unless it is a `use` declaration or an
/// excluded module.
pub fn retrieve_code_element(
    item: &Decl,
    code: &str,
    code_elements: &mut Vec<CodeElement>,
    location: &str,
    imports: Vec<(String, String)>,
) -> (r: Option<CodeElementID>)
    ensures
        element_views(final(code_elements)@) == element_views(old(code_elements)@) + element_of(
            *item,
            code@,
            location@,
            import_views(imports@),
        ).0,
        match r {
            Some(id) => element_of(*item, code@, location@, import_views(imports@)).1 == Some(id@),
            None => element_of(*item, code@, location@, import_views(imports@)).1 is None,
        },
    decreases item,
{
    let ghost iv = import_views(imports@);
    let ghost base = element_views(code_elements@);
    let kind = item.kind;
    if kind == ItemKind::Use {
        assert(base + Seq::<ElementView>::empty() =~= base);
        return None;
    }
    if kind == ItemKind::Mod {
        let lower = to_lowercase(item.ident.as_str());
        if is_test_module_name(lower.as_str()) {
            assert(base + Seq::<ElementView>::empty() =~= base);
            return None;
        }
    }
    let id = CodeElementID::new(item.ident.clone(), kind, location.to_string());
    let inner = join_location(location, item.ident.as_str());
    let ghost ms = item.members@;
    let mut children: Vec<CodeElementID> = Vec::new();
    let ghost nested: (Seq<ElementView>, Seq<IdView>) = (Seq::empty(), Seq::empty());
    if kind == ItemKind::Impl || kind == ItemKind::Trait {
        let in_impl = kind == ItemKind::Impl;
        proof {
            nested = (members_of(ms, code@, item.first_line, inner@, iv, in_impl), member_ids(ms, inner@));
        }
        for k in 0..item.members.len()
            invariant
                ms == item.members@,
                iv == import_views(imports@),
                in_impl == (item.kind == ItemKind::Impl),
                nested == (members_of(ms, code@, item.first_line, inner@, iv, in_impl), member_ids(ms, inner@)),
                element_views(code_elements@) == base + nested.0.take(k as int),
                id_views(children@) == nested.1.take(k as int),
        {
            let m = &item.members[k];
            let mut member_imports = clone_imports(&imports);
            if in_impl {
                update_imports(&m.scope_uses, &mut member_imports);
            }
            let mid = CodeElementID::new(m.ident.clone(), m.kind, inner.clone());
            let element = CodeElement {
                code_element_id: mid.clone(),
                code: get_code_from_nested(code, m.first_line, m.last_line, Some(item.first_line)),
                line_start: vec![m.first_line],
                imports: paths_of(&member_imports),
                children: Vec::new(),
                dependencies: Vec::new(),
                implementors: Vec::new(),
            };
            proof {
                let e = member_element(ms[k as int], code@, item.first_line, inner@, iv, in_impl);
                assert(element@.line_start =~= e.line_start);
                assert(element@.children =~= e.children);
                assert(element@.dependencies =~= e.dependencies);
                assert(element@.implementors =~= e.implementors);
                assert(element@ == e);
            }
            let ghost prev_e = code_elements@;
            let ghost prev_c = children@;
            code_elements.push(element);
            children.push(mid);
            proof {
                assert(element_views(code_elements@) =~= element_views(prev_e).push(element@));
                assert(nested.0.take(k + 1) =~= nested.0.take(k as int).push(nested.0[k as int]));
                assert(id_views(children@) =~= id_views(prev_c).push(mid@));
                assert(nested.1.take(k + 1) =~= nested.1.take(k as int).push(nested.1[k as int]));
            }
        }
        proof {
            assert(nested.0.take(ms.len() as int) =~= nested.0);
            assert(nested.1.take(ms.len() as int) =~= nested.1);
        }
    } else if kind == ItemKind::Mod {
        let module_imports = retrieve_imports(&item.members);
        let ghost mi = import_views(module_imports@);
        assert(ms.take(0) =~= Seq::<Decl>::empty());
        assert(base + Seq::<ElementView>::empty() =~= base);
        assert(id_views(children@) =~= Seq::<IdView>::empty());
        for k in 0..item.members.len()
            invariant
                ms == item.members@,
                mi == import_views(module_imports@),
                mi == imports_of(ms),
                element_views(code_elements@) == base + items_of(ms.take(k as int), code@, Some(item.first_line), inner@, mi).0,
                id_views(children@) == items_of(ms.take(k as int), code@, Some(item.first_line), inner@, mi).1,
        {
            let n = &item.members[k];
            proof {
                assert(decreases_to!(*item => item.members));
                assert(decreases_to!(item.members => item.members@));
                assert(decreases_to!(item.members@ => item.members@[k as int]));
                assert(ms.take(k + 1).drop_last() =~= ms.take(k as int));
                assert(ms.take(k + 1).last() == ms[k as int]);
            }
            let sub = get_code_from_nested(code, n.first_line, n.last_line, Some(item.first_line));
            let ghost prev_e = element_views(code_elements@);
            let ghost prev_c = children@;
            let found = retrieve_code_element(n, sub.as_str(), code_elements, inner.as_str(), clone_imports(&module_imports));
            match found {
                Some(cid) => {
                    children.push(cid);
                    assert(id_views(children@) =~= id_views(prev_c).push(cid@));
                },
                None => {},
            }
            proof {
                assert(element_views(code_elements@) =~= base + items_of(ms.take(k + 1), code@, Some(item.first_line), inner@, mi).0);
            }
        }
        proof {
            assert(ms.take(ms.len() as int) =~= ms);
            nested = items_of(ms, code@, Some(item.first_line), inner@, mi);
        }
    } else {
        assert(base + Seq::<ElementView>::empty() =~= base);
        assert(id_views(children@) =~= Seq::<IdView>::empty());
    }
    let mut own_imports = imports;
    if kind == ItemKind::Fn {
        update_imports(&item.scope_uses, &mut own_imports);
    }
    let line_start: Vec<usize> = if kind == ItemKind::Struct || kind == ItemKind::Enum {
        let mut ls = vec![item.first_line];
        let mut fields = item.field_lines.clone();
        ls.append(&mut fields);
        ls
    } else if kind == ItemKind::Mod {
        if item.first_line < usize::MAX {
            vec![item.first_line + 1]
        } else {
            vec![item.first_line]
        }
    } else {
        vec![item.first_line]
    };
    assert(line_start@ =~= own_line_start(*item));
    if !(kind == ItemKind::Mod && item.first_line == item.last_line) {
        let element = CodeElement {
            code_element_id: id.clone(),
            code: code.to_string(),
            line_start,
            imports: paths_of(&own_imports),
            children,
            dependencies: Vec::new(),
            implementors: Vec::new(),
        };
        let ghost prev_e = code_elements@;
        code_elements.push(element);
        proof {
            assert(element@.dependencies =~= Seq::<IdView>::empty());
            assert(element@.implementors =~= Seq::<IdView>::empty());
            assert(element_views(code_elements@) =~= element_views(prev_e).push(element@));
        }
    }
    Some(id)
}


/// Whether the path names a Rust source file.
pub fn is_rust_path(path: &str) -> (r: bool)
    ensures
        r == is_rust_file(path@),
{
    proof {
        reveal_strlit(".rs");
    }
    let p = chars_of(path);
    let start = last_slash_exec(p.as_slice());
    proof {
        lemma_last_slash_bounds(p@);
    }
    let name = sub_chars(p.as_slice(), start, p.len());
    assert(name@ == file_name(path@));
    let r = name.len() > 3 && crate::text::occurs_at_exec(name.as_slice(), literal_chars(".rs").as_slice(), name.len() - 3);
    if name.len() > 3 {
        assert(name@.subrange(name@.len() - 3, name@.len() as int) =~= name@.subrange(name.len() - 3, name.len() - 3 + 3));
    }
    r
}

/// The position of the last `'/'` of `s`, or -1.
pub open spec fn last_slash(s: Seq<char>) -> int
    decreases s.len(),
{
    if s.len() == 0 {
        -1
    } else if s.last() == '/' {
        s.len() - 1
    } else {
        last_slash(s.drop_last())
    }
}

proof fn lemma_last_slash_bounds(s: Seq<char>)
    ensures
        -1 <= last_slash(s) < s.len(),
    decreases s.len(),
{
    if s.len() > 0 && s.last() != '/' {
        lemma_last_slash_bounds(s.drop_last());
    }
}

/// The last component of a path.
pub open spec fn file_name(path: Seq<char>) -> Seq<char> {
    path.subrange(last_slash(path) + 1, path.len() as int)
}

/// The path names a Rust source file: its file name has the extension `rs`.
pub open spec fn is_rust_file(path: Seq<char>) -> bool {
    ends_with(file_name(path), ".rs"@) && file_name(path).len() > 3
}

/// The file name of a Rust source file without its extension.
pub open spec fn file_stem(path: Seq<char>) -> Seq<char> {
    file_name(path).subrange(0, file_name(path).len() - 3)
}

/// The name of the directory that holds the file.
pub open spec fn parent_name(path: Seq<char>) -> Seq<char> {
    if last_slash(path) < 0 {
        Seq::empty()
    } else {
        file_name(path.subrange(0, last_slash(path)))
    }
}

/// The path of a source file below `/src/`, without the extension, with `/`
/// read as the path separator.
pub open spec fn relative_location(path: Seq<char>) -> Seq<char> {
    let p = match first_occurrence(path, "/src/"@) {
        Some(i) => path.subrange(i + 5, path.len() as int),
        None => path,
    };
    replace_all(trim_suffix_all(p, ".rs"@), "/"@, sep())
}

/// The module location of a source file: its relative location under `crate`.
pub open spec fn source_location(path: Seq<char>) -> Seq<char> {
    "crate :: "@ + relative_location(path)
}

/// The identifier and location of the element that stands for the file
/// itself; a `mod.rs` file stands for its directory, one level up.
pub open spec fn file_identity(path: Seq<char>) -> (Seq<char>, Seq<char>) {
    if file_stem(path) == "mod"@ {
        (parent_name(path), enclosing_location(source_location(path)))
    } else {
        (file_stem(path), enclosing_location(source_location(path)))
    }
}

/// The position of the last separator ` :: ` in `s`, or -1.
pub open spec fn last_sep(s: Seq<char>) -> int
    decreases s.len(),
{
    if s.len() < 4 {
        -1
    } else if ends_with(s, sep()) {
        s.len() - 4
    } else {
        last_sep(s.drop_last())
    }
}

proof fn lemma_last_sep_bounds(s: Seq<char>)
    ensures
        -1 <= last_sep(s),
        last_sep(s) >= 0 ==> last_sep(s) + 4 <= s.len(),
    decreases s.len(),
{
    reveal_strlit(" :: ");
    if s.len() >= 4 && !ends_with(s, sep()) {
        lemma_last_sep_bounds(s.drop_last());
    }
}

/// The location one level above `location`: without its last segment.
pub open spec fn enclosing_location(location: Seq<char>) -> Seq<char> {
    if last_sep(location) >= 0 {
        location.subrange(0, last_sep(location))
    } else {
        Seq::empty()
    }
}

/// The location one level above `location`.
pub fn enclosing_location_of(location: &str) -> (r: String)
    ensures
        r@ == enclosing_location(location@),
{
    proof {
        reveal_strlit(" :: ");
    }
    let cs = chars_of(location);
    let separator = literal_chars(" :: ");
    let mut j: usize = cs.len();
    assert(cs@.subrange(0, j as int) =~= cs@);
    while j >= 4 && !crate::text::occurs_at_exec(cs.as_slice(), separator.as_slice(), j - 4)
        invariant
            j <= cs.len(),
            separator@ == sep(),
            last_sep(cs@) == last_sep(cs@.subrange(0, j as int)),
        decreases j,
    {
        proof {
            reveal_strlit(" :: ");
            let t = cs@.subrange(0, j as int);
            assert(t.subrange(t.len() - 4, t.len() as int) =~= cs@.subrange(j - 4, j - 4 + separator@.len()));
            assert(t.drop_last() =~= cs@.subrange(0, j - 1));
        }
        j = j - 1;
    }
    proof {
        reveal_strlit(" :: ");
        lemma_last_sep_bounds(cs@);
    }
    if j >= 4 {
        proof {
            let t = cs@.subrange(0, j as int);
            assert(t.subrange(t.len() - 4, t.len() as int) =~= cs@.subrange(j - 4, j - 4 + separator@.len()));
        }
        string_of(sub_chars(cs.as_slice(), 0, j - 4).as_slice())
    } else {
        String::new()
    }
}

/// The elements extracted from the source file at `path` with text `code` and
/// top-level declarations `items`: none for a file that is no Rust source;
/// else those of each declaration, then one module element for the file.
pub open spec fn file_elements_of(path: Seq<char>, code: Seq<char>, items: Seq<Decl>) -> Seq<ElementView> {
    if !is_rust_file(path) {
        Seq::empty()
    } else {
        let location = source_location(path);
        let imports = imports_of(items);
        let top = items_of(items, code, None, location, imports);
        let fid = file_identity(path);
        top.0.push(
            ElementView {
                id: (fid.0, ItemKind::Mod, fid.1),
                code,
                line_start: seq![1usize],
                imports: import_paths(imports),
                children: top.1,
                dependencies: Seq::empty(),
                implementors: Seq::empty(),
            },
        )
    }
}

fn last_slash_exec(s: &[char]) -> (r: usize)
    ensures
        r as int == last_slash(s@) + 1,
{
    let mut j: usize = s.len();
    assert(s@.subrange(0, j as int) =~= s@);
    while j > 0 && s[j - 1] != '/'
        invariant
            j <= s.len(),
            last_slash(s@) == last_slash(s@.subrange(0, j as int)),
        decreases j,
    {
        assert(s@.subrange(0, j as int).drop_last() =~= s@.subrange(0, j - 1));
        j = j - 1;
    }
    j
}

fn literal_chars(s: &str) -> (r: Vec<char>)
    ensures
        r@ == s@,
{
    chars_of(s)
}

/// The path of the source file at `path` below `/src/`, as a location.
pub fn relative_location_of(path: &str) -> (r: String)
    ensures
        r@ == relative_location(path@),
{
    proof {
        reveal_strlit("/src/");
        reveal_strlit(".rs");
        reveal_strlit("/");
        reveal_strlit(" :: ");
    }
    let p = chars_of(path);
    let src = literal_chars("/src/");
    assert(src@.len() == 5);
    let found = find_first(p.as_slice(), src.as_slice());
    let rel = match found {
        Some(i) => {
            assert(i + src@.len() <= p@.len());
            assert(src@.len() == src.len());
            assert(p@.len() == p.len());
            assert(i + src.len() <= p.len());
            sub_chars(p.as_slice(), i + src.len(), p.len())
        },
        None => p,
    };
    let trimmed = trim_suffix_chars(rel.as_slice(), literal_chars(".rs").as_slice());
    let replaced = replace_chars(trimmed.as_slice(), literal_chars("/").as_slice(), literal_chars(" :: ").as_slice());
    string_of(replaced.as_slice())
}

/// The module location of the source file at `path`.
pub fn module_location(path: &str) -> (r: String)
    ensures
        r@ == source_location(path@),
{
    proof {
        reveal_strlit("crate :: ");
    }
    let mut r = "crate :: ".to_string();
    r.append(relative_location_of(path).as_str());
    r
}

/// Extracts the elements of the source file at `file_path`, whose text is
/// `code` and whose top-level declarations are `items`.
pub fn parse_file(file_path: &str, code: &str, items: &Vec<Decl>) -> (r: CodeFile)
    ensures
        r.path@ == file_path@,
        element_views(r.elements@) == file_elements_of(file_path@, code@, items@),
{
    proof {
        reveal_strlit(".rs");
        reveal_strlit("mod");
        reveal_strlit(" :: mod");
        reveal_strlit("");
    }
    let mut code_elements: Vec<CodeElement> = Vec::new();
    let p = chars_of(file_path);
    let start = last_slash_exec(p.as_slice());
    proof {
        lemma_last_slash_bounds(p@);
    }
    let name = sub_chars(p.as_slice(), start, p.len());
    assert(name@ == file_name(file_path@));
    if !(name.len() > 3 && crate::text::occurs_at_exec(name.as_slice(), literal_chars(".rs").as_slice(), name.len() - 3)) {
        assert(element_views(code_elements@) =~= Seq::<ElementView>::empty());
        return CodeFile { path: file_path.to_string(), elements: code_elements };
    }
    assert(name@.subrange(name@.len() - 3, name@.len() as int) =~= name@.subrange(name.len() - 3, name.len() - 3 + 3));
    let location = module_location(file_path);
    let imports = retrieve_imports(items);
    let ghost iv = import_views(imports@);
    let ghost ds = items@;
    let mut children: Vec<CodeElementID> = Vec::new();
    assert(ds.take(0) =~= Seq::<Decl>::empty());
    assert(element_views(code_elements@) =~= Seq::<ElementView>::empty());
    assert(id_views(children@) =~= Seq::<IdView>::empty());
    for k in 0..items.len()
        invariant
            ds == items@,
            iv == import_views(imports@),
            iv == imports_of(ds),
            element_views(code_elements@) == items_of(ds.take(k as int), code@, None, location@, iv).0,
            id_views(children@) == items_of(ds.take(k as int), code@, None, location@, iv).1,
    {
        let item = &items[k];
        proof {
            assert(ds.take(k + 1).drop_last() =~= ds.take(k as int));
            assert(ds.take(k + 1).last() == ds[k as int]);
        }
        let item_code = get_code_from_nested(code, item.first_line, item.last_line, None);
        let ghost prev_e = element_views(code_elements@);
        let ghost prev_c = children@;
        match retrieve_code_element(item, item_code.as_str(), &mut code_elements, location.as_str(), clone_imports(&imports)) {
            Some(cid) => {
                children.push(cid);
                assert(id_views(children@) =~= id_views(prev_c).push(cid@));
            },
            None => {},
        }
    }
    assert(ds.take(items.len() as int) =~= ds);
    let stem = sub_chars(name.as_slice(), 0, name.len() - 3);
    let is_mod = stem.len() == 3 && stem[0] == 'm' && stem[1] == 'o' && stem[2] == 'd';
    assert(is_mod == (stem@ == "mod"@)) by {
        if stem@.len() == 3 {
            if is_mod {
                assert(stem@ =~= "mod"@);
            }
        }
    }
    let (ident, file_location) = if is_mod {
        let parent = sub_chars(p.as_slice(), 0, if start > 0 { start - 1 } else { 0 });
        let pstart = last_slash_exec(parent.as_slice());
        proof {
            lemma_last_slash_bounds(parent@);
        }
        let pname = if start > 0 {
            sub_chars(parent.as_slice(), pstart, parent.len())
        } else {
            Vec::new()
        };
        assert(pname@ =~= parent_name(file_path@));
        (string_of(pname.as_slice()), enclosing_location_of(location.as_str()))
    } else {
        (string_of(stem.as_slice()), enclosing_location_of(location.as_str()))
    };
    let file_element = CodeElement {
        code_element_id: CodeElementID::new(ident, ItemKind::Mod, file_location),
        code: code.to_string(),
        line_start: vec![1],
        imports: paths_of(&imports),
        children,
        dependencies: Vec::new(),
        implementors: Vec::new(),
    };
    let ghost prev_e = code_elements@;
    code_elements.push(file_element);
    proof {
        assert(is_rust_file(file_path@));
        assert(file_stem(file_path@) == stem@);
        assert(ident@ == file_identity(file_path@).0);
        assert(file_location@ == file_identity(file_path@).1);
        assert(file_element@.line_start =~= seq![1usize]);
        assert(file_element@.dependencies =~= Seq::<IdView>::empty());
        assert(file_element@.implementors =~= Seq::<IdView>::empty());
        assert(element_views(code_elements@) =~= element_views(prev_e).push(file_element@));
    }
    CodeFile { path: file_path.to_string(), elements: code_elements }
}


/// The members of every implementation block and trait are no `use`
/// declarations, down through inline modules: so a parsed file is.
pub open spec fn decl_valid(d: Decl) -> bool
    decreases d,
{
    &&& (d.kind == ItemKind::Impl || d.kind == ItemKind::Trait) ==> forall|i: int|
        0 <= i < d.members@.len() ==> (#[trigger] d.members@[i]).kind != ItemKind::Use
    &&& d.kind == ItemKind::Mod ==> decls_valid(d.members@)
}

/// Every declaration of `ds` is valid.
pub open spec fn decls_valid(ds: Seq<Decl>) -> bool
    decreases ds,
{
    ds.len() == 0 || (decls_valid(ds.drop_last()) && decl_valid(ds.last()))
}

/// `a` extends `b` strictly: `b` is a proper prefix of `a`.
pub open spec fn strictly_extends(a: Seq<char>, b: Seq<char>) -> bool {
    b.len() < a.len() && a.subrange(0, b.len() as int) == b
}

/// What extraction gives: no element, and no child of an element, of kind
/// `use`; and every child of an element is located strictly below it.
pub open spec fn extraction_laws(es: Seq<ElementView>) -> bool {
    &&& forall|i: int| 0 <= i < es.len() ==> (#[trigger] es[i]).id.1 != ItemKind::Use
    &&& forall|i: int, j: int| 0 <= i < es.len() && 0 <= j < es[i].children.len() ==> (#[trigger] es[i].children[j]).1
        != ItemKind::Use
    &&& forall|i: int, j: int| 0 <= i < es.len() && 0 <= j < es[i].children.len() ==> strictly_extends(
        (#[trigger] es[i].children[j]).2,
        es[i].id.2,
    )
}

/// The extraction laws hold of the elements drawn from one declaration, and
/// the identity returned for it is no `use` and is located where the
/// declaration is.
pub proof fn lemma_element_laws(d: Decl, code: Seq<char>, location: Seq<char>, imports: Seq<ImportView>)
    requires
        decl_valid(d),
    ensures
        extraction_laws(element_of(d, code, location, imports).0),
        element_of(d, code, location, imports).1 matches Some(id) ==> id.2 == location && id.1 != ItemKind::Use,
    decreases d,
{
    reveal_strlit(" :: ");
    if d.kind == ItemKind::Use || (d.kind == ItemKind::Mod && excluded_module(d.ident@)) {
    } else {
        let inner = location + sep() + d.ident@;
        assert(strictly_extends(inner, location)) by {
            assert(inner.subrange(0, location.len() as int) =~= location);
        }
        if d.kind == ItemKind::Impl || d.kind == ItemKind::Trait {
            let ms = members_of(d.members@, code, d.first_line, inner, imports, d.kind == ItemKind::Impl);
            assert forall|i: int| 0 <= i < ms.len() implies (#[trigger] ms[i]).id.1 != ItemKind::Use by {
                assert(d.members@[i].kind != ItemKind::Use);
            }
            let ids = member_ids(d.members@, inner);
            assert forall|j: int| 0 <= j < ids.len() implies (#[trigger] ids[j]).1 != ItemKind::Use by {
                assert(d.members@[j].kind != ItemKind::Use);
            }
        } else if d.kind == ItemKind::Mod {
            assert(decreases_to!(d => d.members));
            assert(decreases_to!(d.members => d.members@));
            lemma_items_laws(d.members@, code, Some(d.first_line), inner, imports_of(d.members@));
        }
    }
}

/// The extraction laws hold of the elements drawn from the declarations `ds`,
/// and the identities returned are no `use` and are located at `location`.
pub proof fn lemma_items_laws(ds: Seq<Decl>, code: Seq<char>, parent: Option<usize>, location: Seq<char>, imports: Seq<ImportView>)
    requires
        decls_valid(ds),
    ensures
        extraction_laws(items_of(ds, code, parent, location, imports).0),
        forall|j: int| 0 <= j < items_of(ds, code, parent, location, imports).1.len() ==> (
            #[trigger] items_of(ds, code, parent, location, imports).1[j]).2 == location
            && items_of(ds, code, parent, location, imports).1[j].1 != ItemKind::Use,
    decreases ds,
{
    if ds.len() > 0 {
        let d = ds.last();
        let dcode = nested_code(code, d.first_line as int, d.last_line as int, parent);
        lemma_items_laws(ds.drop_last(), code, parent, location, imports);
        assert(decreases_to!(ds => ds[ds.len() - 1]));
        lemma_element_laws(d, dcode, location, imports);
        let before = items_of(ds.drop_last(), code, parent, location, imports);
        let one = element_of(d, dcode, location, imports);
        let all = before.0 + one.0;
        assert forall|i: int| 0 <= i < all.len() implies (#[trigger] all[i]).id.1 != ItemKind::Use by {
            if i >= before.0.len() {
                assert(all[i] == one.0[i - before.0.len()]);
            }
        }
        assert forall|i: int, j: int| 0 <= i < all.len() && 0 <= j < all[i].children.len() implies (#[trigger] all[i].children[j]).1
            != ItemKind::Use && strictly_extends(all[i].children[j].2, all[i].id.2) by {
            if i >= before.0.len() {
                assert(all[i] == one.0[i - before.0.len()]);
            }
        }
    }
}

/// Extraction of a file never yields a node of kind `use` nor lists one as a
/// child, and every child of an element, the file's own module element
/// included, is located strictly below it.
pub proof fn lemma_file_extraction_laws(path: Seq<char>, code: Seq<char>, items: Seq<Decl>)
    requires
        decls_valid(items),
    ensures
        extraction_laws(file_elements_of(path, code, items)),
{
    if is_rust_file(path) {
        reveal_strlit("crate :: ");
        let location = source_location(path);
        let imports = imports_of(items);
        let top = items_of(items, code, None, location, imports);
        lemma_items_laws(items, code, None, location, imports);
        lemma_last_sep_bounds(location);
        let up = enclosing_location(location);
        assert(strictly_extends(location, up)) by {
            if last_sep(location) >= 0 {
                assert(location.subrange(0, up.len() as int) =~= up);
            } else {
                assert(location.subrange(0, 0) =~= up);
            }
        }
        let es = file_elements_of(path, code, items);
        assert forall|i: int| 0 <= i < es.len() implies (#[trigger] es[i]).id.1 != ItemKind::Use by {
            if i < top.0.len() {
                assert(es[i] == top.0[i]);
            }
        }
        assert forall|i: int, j: int| 0 <= i < es.len() && 0 <= j < es[i].children.len() implies (#[trigger] es[i].children[j]).1
            != ItemKind::Use && strictly_extends(es[i].children[j].2, es[i].id.2) by {
            if i < top.0.len() {
                assert(es[i] == top.0[i]);
            } else {
                assert(es[i].children == top.1);
                assert(es[i].id.2 == up);
            }
        }
    }
}

/// A module whose name, in lower case, holds "test" contributes nothing: no
/// element of its own or of anything inside it, and no identity to its parent.
pub proof fn lemma_test_module_left_out(d: Decl, code: Seq<char>, location: Seq<char>, imports: Seq<ImportView>)
    requires
        d.kind == ItemKind::Mod,
        excluded_module(d.ident@),
    ensures
        element_of(d, code, location, imports) == (Seq::<ElementView>::empty(), Option::<IdView>::None),
{
}

/// Extraction is deterministic: two runs over the same file give the same
/// identities, in the same order, with the same content hashes.
pub proof fn lemma_extraction_deterministic(path: Seq<char>, code: Seq<char>, items: Seq<Decl>, first: Seq<ElementView>, second: Seq<ElementView>)
    requires
        first == file_elements_of(path, code, items),
        second == file_elements_of(path, code, items),
    ensures
        first.len() == second.len(),
        forall|i: int| 0 <= i < first.len() ==> (#[trigger] first[i]).id == second[i].id && crate::models::id_hash(first[i].id)
            == crate::models::id_hash(second[i].id),
{
}


/// `s` starts with `p`.
pub open spec fn starts_with(s: Seq<char>, p: Seq<char>) -> bool {
    p.len() <= s.len() && s.subrange(0, p.len() as int) == p
}

/// The lines among `lines` that are inner documentation (`//!`), each ended by `'\n'`.
pub open spec fn module_docs(lines: Seq<Seq<char>>) -> Seq<char>
    decreases lines.len(),
{
    if lines.len() == 0 {
        Seq::empty()
    } else {
        module_docs(lines.drop_last()) + if starts_with(lines.last(), "//!"@) {
            lines.last() + seq!['\n']
        } else {
            Seq::empty()
        }
    }
}

/// The inner documentation lines of `source`.
pub fn extract_documentation(source: &str) -> (r: String)
    ensures
        r@ == module_docs(lines_of(source@)),
{
    proof {
        reveal_strlit("//!");
    }
    let lines = split_lines(source);
    let ghost ls = views(lines@);
    let marker = literal_chars("//!");
    let mut out: Vec<char> = Vec::new();
    assert(ls.take(0) =~= Seq::<Seq<char>>::empty());
    for i in 0..lines.len()
        invariant
            ls == views(lines@),
            ls == lines_of(source@),
            marker@ == "//!"@,
            out@ == module_docs(ls.take(i as int)),
    {
        proof {
            reveal_strlit("//!");
            assert(ls.take(i + 1).drop_last() =~= ls.take(i as int));
            assert(ls.take(i + 1).last() == lines@[i as int]@);
        }
        let line = chars_of(lines[i].as_str());
        if line.len() >= 3 && crate::text::occurs_at_exec(line.as_slice(), marker.as_slice(), 0) {
            assert(line@.subrange(0, 3) == "//!"@);
            let ghost prev = out@;
            crate::text::push_str_chars(&mut out, lines[i].as_str());
            out.push('\n');
            assert(out@ =~= prev + (line@ + seq!['\n']));
        } else {
            assert(!starts_with(line@, "//!"@)) by {
                if line@.len() >= 3 {
                    assert(!crate::text::occurs_at(line@, marker@, 0));
                }
            }
            assert(module_docs(ls.take(i + 1)) =~= module_docs(ls.take(i as int)));
        }
    }
    assert(ls.take(lines.len() as int) =~= ls);
    string_of(out.as_slice())
}

} // verus!
