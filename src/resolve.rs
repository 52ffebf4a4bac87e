//! Cross-reference resolution: which elements reference which, over the whole
//! repository-wide collection.

use vstd::prelude::*;

use crate::imports::sep;
use crate::models::{
    element_views, id_views, is_container, sort_dedup, strictly_sorted, CodeElement,
    CodeElementID, CodeFile, ElementView, IdView, ItemKind,
};
use crate::text::{
    chars_of, contains_chars, contains_seq, find_first, first_occurrence, remove_spaces,
    string_of, sub_chars, views, without_spaces,
};

verus! {

/// A name for whether `\b<ident>\b`, read as a regular expression, matches
/// somewhere in `text`; `None` where it is no valid expression.
pub uninterp spec fn word_match(ident: Seq<char>, text: Seq<char>) -> Option<bool>;

/// Relies on `regex::Regex::new` and `regex::Regex::is_match`: compiles the
/// word-bounded expression for `ident` and tests it on `text`.
#[verifier::external_body]
fn contains_isolated(ident: &str, text: &str) -> (r: Option<bool>)
    ensures
        r == word_match(ident@, text@),
{
    match regex::Regex::new(&format!(r"\b{ident}\b")) {
        Ok(re) => Some(re.is_match(text)),
        Err(_) => None,
    }
}

/// The text at which the declaration of an element of this kind begins.
pub open spec fn decl_pattern(ident: Seq<char>, kind: ItemKind) -> Seq<char> {
    match kind {
        ItemKind::Fn => "fn "@ + ident,
        ItemKind::Const => "const "@ + ident,
        ItemKind::Trait => "trait "@ + ident,
        ItemKind::Type => "type "@ + ident,
        ItemKind::Enum => "enum "@ + ident,
        ItemKind::Struct => "struct "@ + ident,
        _ => Seq::empty(),
    }
}

pub fn pattern_formatter(ident: &str, kind: &ItemKind) -> (r: String)
    ensures
        r@ == decl_pattern(ident@, *kind),
{
    let head: &str = match kind {
        ItemKind::Fn => "fn ",
        ItemKind::Const => "const ",
        ItemKind::Trait => "trait ",
        ItemKind::Type => "type ",
        ItemKind::Enum => "enum ",
        ItemKind::Struct => "struct ",
        _ => {
            return String::new();
        },
    };
    let mut r = head.to_string();
    r.append(ident);
    r
}

/// The fully qualified name of `ident` declared at `location`.
pub open spec fn fully_qualified(location: Seq<char>, ident: Seq<char>) -> Seq<char> {
    without_spaces(location) + "::"@ + ident
}

pub fn contains_fully_qualified(ident: &str, location: &str, text: &str) -> (r: bool)
    ensures
        r == contains_seq(text@, fully_qualified(location@, ident@)),
{
    let mut name = remove_spaces(chars_of(location).as_slice());
    name.push(':');
    name.push(':');
    let id = chars_of(ident);
    let mut i: usize = 0;
    let ghost base = name@;
    proof {
        reveal_strlit("::");
        assert(base =~= without_spaces(location@) + "::"@);
    }
    while i < id.len()
        invariant
            i <= id.len(),
            id@ == ident@,
            name@ == base + id@.subrange(0, i as int),
        decreases id.len() - i,
    {
        name.push(id[i]);
        i = i + 1;
        assert(name@ =~= base + id@.subrange(0, i as int));
    }
    assert(id@.subrange(0, i as int) =~= id@);
    contains_chars(chars_of(text).as_slice(), name.as_slice())
}

/// The locations of the crate root: the top level of `lib.rs` and of `main.rs`.
pub open spec fn is_root_location(location: Seq<char>) -> bool {
    location == "crate :: lib"@ || location == "crate :: main"@
}

/// `location` lies nested under `target`: it extends `target` by at least one
/// more path segment.
pub open spec fn nested_under(location: Seq<char>, target: Seq<char>) -> bool {
    crate::text::occurs_at(location, target + sep(), 0)
}

/// Whether an element at `location` with `imports` may see, by its bare
/// identifier, the element of `kind` declared at `target`: the target is at
/// the crate root, in the same place, an enclosing place (unless it is a trait
/// or module), or imported.
pub open spec fn visible(target: Seq<char>, kind: ItemKind, location: Seq<char>, imports: Seq<Seq<char>>) -> bool {
    ||| is_root_location(target)
    ||| target == location
    ||| (kind != ItemKind::Mod && kind != ItemKind::Trait && nested_under(location, target))
    ||| imports.contains(target)
}

pub fn verify_dependency(
    analyzed_code_element_location: &str,
    analyzed_code_element_kind: &ItemKind,
    code_element_location: &str,
    code_element_imports: &[String],
) -> (r: bool)
    ensures
        r == visible(
            analyzed_code_element_location@,
            *analyzed_code_element_kind,
            code_element_location@,
            views(code_element_imports@),
        ),
{
    proof {
        reveal_strlit(" :: ");
    }
    let target = analyzed_code_element_location.to_string();
    if target == "crate :: lib".to_string() || target == "crate :: main".to_string() {
        return true;
    }
    let location = code_element_location.to_string();
    if target == location {
        return true;
    }
    let structural = match analyzed_code_element_kind {
        ItemKind::Mod | ItemKind::Trait => true,
        _ => false,
    };
    let mut prefix = chars_of(analyzed_code_element_location);
    crate::text::push_str_chars(&mut prefix, " :: ");
    if !structural && crate::text::occurs_at_exec(chars_of(code_element_location).as_slice(), prefix.as_slice(), 0) {
        return true;
    }
    let ghost imps = views(code_element_imports@);
    let mut i: usize = 0;
    while i < code_element_imports.len()
        invariant
            i <= code_element_imports.len(),
            imps == views(code_element_imports@),
            target@ == analyzed_code_element_location@,
            forall|j: int| 0 <= j < i ==> imps[j] != target@,
        decreases code_element_imports.len() - i,
    {
        if code_element_imports[i] == target {
            assert(imps[i as int] == target@);
            return true;
        }
        i = i + 1;
    }
    false
}

/// The part of an element's text from its own declaration on, which leaves out
/// the documentation above it.
pub open spec fn body_of(e: ElementView) -> Option<Seq<char>> {
    match first_occurrence(e.code, decl_pattern(e.id.0, e.id.1)) {
        Some(i) => Some(e.code.subrange(i, e.code.len() as int)),
        None => None,
    }
}

/// Element `y` references element `x`: its body names `x` by its bare
/// identifier where `x` is visible to it, or its text names `x` fully qualified.
#[verifier::opaque]
pub open spec fn references(y: ElementView, x: ElementView) -> bool {
    &&& !is_container(x.id.1)
    &&& !is_container(y.id.1)
    &&& ((body_of(y) matches Some(b) && word_match(x.id.0, b) == Some(true) && visible(
        x.id.2,
        x.id.1,
        y.id.2,
        y.imports,
    )) || contains_seq(y.code, fully_qualified(x.id.2, x.id.0)))
}

/// The identities of the elements among the first `k` (other than `x`) whose bodies reference `x`.
pub open spec fn implementors_upto(es: Seq<ElementView>, x: int, k: int) -> Set<IdView> {
    Set::new(|id: IdView| exists|y: int| 0 <= y < k && y != x && #[trigger] es[y].id == id && references(es[y], es[x]))
}

proof fn lemma_implementors_step(es: Seq<ElementView>, x: int, y: int)
    requires
        0 <= y < es.len(),
    ensures
        implementors_upto(es, x, y + 1) == if y != x && references(es[y], es[x]) {
            implementors_upto(es, x, y).insert(es[y].id)
        } else {
            implementors_upto(es, x, y)
        },
{
    let next = if y != x && references(es[y], es[x]) {
        implementors_upto(es, x, y).insert(es[y].id)
    } else {
        implementors_upto(es, x, y)
    };
    assert forall|id: IdView| implementors_upto(es, x, y + 1).contains(id) implies next.contains(id) by {
        let w = choose|w: int| 0 <= w < y + 1 && w != x && #[trigger] es[w].id == id && references(es[w], es[x]);
        if w < y {
            assert(implementors_upto(es, x, y).contains(id));
        }
    }
    assert forall|id: IdView| next.contains(id) implies implementors_upto(es, x, y + 1).contains(id) by {
        if implementors_upto(es, x, y).contains(id) {
            let w = choose|w: int| 0 <= w < y && w != x && #[trigger] es[w].id == id && references(es[w], es[x]);
            assert(0 <= w < y + 1);
        } else {
            assert(es[y].id == id);
        }
    }
    assert(implementors_upto(es, x, y + 1) =~= next);
}

/// The identities of the elements whose bodies reference element `x`.
pub open spec fn implementor_set(es: Seq<ElementView>, x: int) -> Set<IdView> {
    implementors_upto(es, x, es.len() as int)
}

/// The identities of the elements that element `x` references: those (other
/// than `x`) that have `x` among their implementors.
pub open spec fn dependency_set(es: Seq<ElementView>, x: int) -> Set<IdView> {
    Set::new(|id: IdView| exists|y: int| 0 <= y < es.len() && y != x && #[trigger] es[y].id == id && implementor_set(es, y).contains(es[x].id))
}

/// `out` is `es` with implementors and dependencies resolved: each list sorted,
/// free of repeats, and holding exactly the identities the relations give.
pub open spec fn resolved(es: Seq<ElementView>, out: Seq<ElementView>) -> bool {
    &&& out.len() == es.len()
    &&& forall|i: int| 0 <= i < es.len() ==> {
        &&& #[trigger] out[i].id == es[i].id
        &&& out[i].code == es[i].code
        &&& out[i].line_start == es[i].line_start
        &&& out[i].imports == es[i].imports
        &&& out[i].children == es[i].children
        &&& strictly_sorted(out[i].implementors)
        &&& out[i].implementors.to_set() == implementor_set(es, i)
        &&& strictly_sorted(out[i].dependencies)
        &&& out[i].dependencies.to_set() == dependency_set(es, i)
    }
}

/// The part of `e`'s text from its own declaration on, if that declaration is found.
fn element_body(e: &CodeElement) -> (r: Option<String>)
    ensures
        match r {
            Some(b) => body_of(e@) == Some(b@),
            None => body_of(e@) is None,
        },
{
    let pattern = pattern_formatter(e.code_element_id.ident.as_str(), &e.code_element_id.kind);
    let code = chars_of(e.code.as_str());
    match find_first(code.as_slice(), chars_of(pattern.as_str()).as_slice()) {
        Some(i) => Some(string_of(sub_chars(code.as_slice(), i, code.len()).as_slice())),
        None => None,
    }
}

/// Whether the body `body` of element `y` references element `x`.
fn references_exec(y: &CodeElement, body: &Option<String>, x: &CodeElement) -> (r: bool)
    requires
        match body {
            Some(b) => body_of(y@) == Some(b@),
            None => body_of(y@) is None,
        },
    ensures
        r == references(y@, x@),
{
    reveal(references);
    if x.code_element_id.kind.is_container() || y.code_element_id.kind.is_container() {
        return false;
    }
    let by_name = match body {
        Some(b) => {
            let isolated = match contains_isolated(x.code_element_id.ident.as_str(), b.as_str()) {
                Some(found) => found,
                None => false,
            };
            isolated && verify_dependency(
                x.code_element_id.location.as_str(),
                &x.code_element_id.kind,
                y.code_element_id.location.as_str(),
                y.imports.as_slice(),
            )
        },
        None => false,
    };
    by_name || contains_fully_qualified(
        x.code_element_id.ident.as_str(),
        x.code_element_id.location.as_str(),
        y.code.as_str(),
    )
}

/// Whether `v` holds an identity equal to `x`.
fn contains_id(v: &Vec<CodeElementID>, x: &CodeElementID) -> (r: bool)
    ensures
        r == id_views(v@).contains(x@),
{
    let mut i: usize = 0;
    while i < v.len()
        invariant
            i <= v.len(),
            forall|j: int| 0 <= j < i ==> v@[j]@ != x@,
        decreases v.len() - i,
    {
        if v[i] == *x {
            assert(id_views(v@)[i as int] == x@);
            return true;
        }
        i = i + 1;
    }
    false
}

/// For every element, the sorted identities of the elements whose bodies reference it.
pub fn add_implementors(code_elements: &Vec<CodeElement>) -> (r: Vec<Vec<CodeElementID>>)
    ensures
        r.len() == code_elements.len(),
        forall|x: int| 0 <= x < r.len() ==> {
            &&& strictly_sorted(id_views(#[trigger] r@[x]@))
            &&& id_views(r@[x]@).to_set() == implementor_set(element_views(code_elements@), x)
        },
{
    let ghost es = element_views(code_elements@);
    let n = code_elements.len();
    let mut bodies: Vec<Option<String>> = Vec::new();
    for k in 0..n
        invariant
            n == code_elements.len(),
            bodies.len() == k,
            forall|j: int| 0 <= j < k ==> match #[trigger] bodies@[j] {
                Some(b) => body_of(code_elements@[j]@) == Some(b@),
                None => body_of(code_elements@[j]@) is None,
            },
    {
        bodies.push(element_body(&code_elements[k]));
    }
    let mut r: Vec<Vec<CodeElementID>> = Vec::new();
    for x in 0..n
        invariant
            n == code_elements.len(),
            es == element_views(code_elements@),
            bodies.len() == n,
            forall|j: int| 0 <= j < n ==> match #[trigger] bodies@[j] {
                Some(b) => body_of(code_elements@[j]@) == Some(b@),
                None => body_of(code_elements@[j]@) is None,
            },
            r.len() == x,
            forall|i: int| 0 <= i < x ==> {
                &&& strictly_sorted(id_views(#[trigger] r@[i]@))
                &&& id_views(r@[i]@).to_set() == implementor_set(es, i)
            },
    {
        let mut found: Vec<CodeElementID> = Vec::new();
        for y in 0..n
            invariant
                n == code_elements.len(),
                es == element_views(code_elements@),
                bodies.len() == n,
                forall|j: int| 0 <= j < n ==> match #[trigger] bodies@[j] {
                    Some(b) => body_of(code_elements@[j]@) == Some(b@),
                    None => body_of(code_elements@[j]@) is None,
                },
                0 <= x < n,
                id_views(found@).to_set() == implementors_upto(es, x as int, y as int),
        {
            let ghost before = id_views(found@);
            if y != x && references_exec(&code_elements[y], &bodies[y], &code_elements[x]) {
                found.push(code_elements[y].code_element_id.clone());
                proof {
                    assert(id_views(found@) =~= before.push(es[y as int].id));
                    before.lemma_push_to_set_commute(es[y as int].id);
                }
            }
            proof {
                lemma_implementors_step(es, x as int, y as int);
            }
        }
        r.push(sort_dedup(found));
    }
    r
}


/// The identity lists of each element.
pub open spec fn id_lists(v: Seq<Vec<CodeElementID>>) -> Seq<Seq<IdView>> {
    v.map_values(|l: Vec<CodeElementID>| id_views(l@))
}

/// The identities of the elements (other than `x`) among the first `k` whose
/// list in `lists` holds the identity of `x`.
pub open spec fn inverse_upto(es: Seq<ElementView>, lists: Seq<Seq<IdView>>, x: int, k: int) -> Set<IdView> {
    Set::new(|id: IdView| exists|y: int| 0 <= y < k && y != x && #[trigger] es[y].id == id && lists[y].contains(es[x].id))
}

/// The identities of the elements (other than `x`) whose list in `lists` holds
/// the identity of `x`: the inverse of the relation that `lists` gives.
pub open spec fn inverse_set(es: Seq<ElementView>, lists: Seq<Seq<IdView>>, x: int) -> Set<IdView> {
    inverse_upto(es, lists, x, es.len() as int)
}

proof fn lemma_inverse_step(es: Seq<ElementView>, lists: Seq<Seq<IdView>>, x: int, y: int)
    requires
        0 <= y < es.len(),
    ensures
        inverse_upto(es, lists, x, y + 1) == if y != x && lists[y].contains(es[x].id) {
            inverse_upto(es, lists, x, y).insert(es[y].id)
        } else {
            inverse_upto(es, lists, x, y)
        },
{
    let next = if y != x && lists[y].contains(es[x].id) {
        inverse_upto(es, lists, x, y).insert(es[y].id)
    } else {
        inverse_upto(es, lists, x, y)
    };
    assert forall|id: IdView| inverse_upto(es, lists, x, y + 1).contains(id) implies next.contains(id) by {
        let w = choose|w: int| 0 <= w < y + 1 && w != x && #[trigger] es[w].id == id && lists[w].contains(es[x].id);
        if w < y {
            assert(inverse_upto(es, lists, x, y).contains(id));
        }
    }
    assert forall|id: IdView| next.contains(id) implies inverse_upto(es, lists, x, y + 1).contains(id) by {
        if inverse_upto(es, lists, x, y).contains(id) {
            let w = choose|w: int| 0 <= w < y && w != x && #[trigger] es[w].id == id && lists[w].contains(es[x].id);
            assert(0 <= w < y + 1);
        } else {
            assert(es[y].id == id);
        }
    }
    assert(inverse_upto(es, lists, x, y + 1) =~= next);
}

/// Inverting the implementor sets gives the dependency sets.
proof fn lemma_inverse_of_implementors(es: Seq<ElementView>, lists: Seq<Seq<IdView>>, x: int)
    requires
        lists.len() == es.len(),
        forall|y: int| 0 <= y < lists.len() ==> (#[trigger] lists[y]).to_set() == implementor_set(es, y),
    ensures
        inverse_set(es, lists, x) == dependency_set(es, x),
{
    assert forall|id: IdView| inverse_set(es, lists, x).contains(id) == dependency_set(es, x).contains(id) by {
        if inverse_set(es, lists, x).contains(id) {
            let w = choose|w: int| 0 <= w < es.len() && w != x && #[trigger] es[w].id == id && lists[w].contains(es[x].id);
            assert(lists[w].to_set().contains(es[x].id));
        }
        if dependency_set(es, x).contains(id) {
            let w = choose|w: int| 0 <= w < es.len() && w != x && #[trigger] es[w].id == id && implementor_set(es, w).contains(es[x].id);
            assert(lists[w].to_set().contains(es[x].id));
        }
    }
    assert(inverse_set(es, lists, x) =~= dependency_set(es, x));
}

/// For every element, the sorted identities of the elements whose list in
/// `implementors` holds it: the inverse of those lists.
pub fn add_dependencies(
    code_elements: &Vec<CodeElement>,
    implementors: &Vec<Vec<CodeElementID>>,
) -> (r: Vec<Vec<CodeElementID>>)
    requires
        implementors.len() == code_elements.len(),
    ensures
        r.len() == code_elements.len(),
        forall|x: int| 0 <= x < r.len() ==> {
            &&& strictly_sorted(id_views(#[trigger] r@[x]@))
            &&& id_views(r@[x]@).to_set() == inverse_set(element_views(code_elements@), id_lists(implementors@), x)
        },
{
    let ghost es = element_views(code_elements@);
    let ghost lists = id_lists(implementors@);
    let n = code_elements.len();
    let mut r: Vec<Vec<CodeElementID>> = Vec::new();
    for x in 0..n
        invariant
            n == code_elements.len(),
            es == element_views(code_elements@),
            lists == id_lists(implementors@),
            implementors.len() == n,
            r.len() == x,
            forall|i: int| 0 <= i < x ==> {
                &&& strictly_sorted(id_views(#[trigger] r@[i]@))
                &&& id_views(r@[i]@).to_set() == inverse_set(es, lists, i)
            },
    {
        let mut found: Vec<CodeElementID> = Vec::new();
        for y in 0..n
            invariant
                n == code_elements.len(),
                es == element_views(code_elements@),
                lists == id_lists(implementors@),
                implementors.len() == n,
                0 <= x < n,
                id_views(found@).to_set() == inverse_upto(es, lists, x as int, y as int),
        {
            let ghost before = id_views(found@);
            assert(lists[y as int] == id_views(implementors@[y as int]@));
            if y != x && contains_id(&implementors[y], &code_elements[x].code_element_id) {
                found.push(code_elements[y].code_element_id.clone());
                proof {
                    assert(id_views(found@) =~= before.push(es[y as int].id));
                    before.lemma_push_to_set_commute(es[y as int].id);
                }
            }
            proof {
                lemma_inverse_step(es, lists, x as int, y as int);
            }
        }
        r.push(sort_dedup(found));
    }
    r
}

/// Resolves the implementors and dependencies of every element of the collection.
pub fn resolve_elements(code_elements: &Vec<CodeElement>) -> (r: Vec<CodeElement>)
    ensures
        resolved(element_views(code_elements@), element_views(r@)),
{
    let ghost es = element_views(code_elements@);
    let implementors = add_implementors(code_elements);
    let dependencies = add_dependencies(code_elements, &implementors);
    proof {
        let lists = id_lists(implementors@);
        assert forall|y: int| 0 <= y < lists.len() implies (#[trigger] lists[y]).to_set() == implementor_set(es, y) by {
            assert(lists[y] == id_views(implementors@[y]@));
        }
        assert forall|x: int| 0 <= x < dependencies.len() implies id_views(#[trigger] dependencies@[x]@).to_set()
            == dependency_set(es, x) by {
            lemma_inverse_of_implementors(es, lists, x);
        }
    }
    let mut r: Vec<CodeElement> = Vec::new();
    for i in 0..code_elements.len()
        invariant
            es == element_views(code_elements@),
            implementors.len() == code_elements.len(),
            dependencies.len() == code_elements.len(),
            forall|x: int| 0 <= x < implementors.len() ==> {
                &&& strictly_sorted(id_views(#[trigger] implementors@[x]@))
                &&& id_views(implementors@[x]@).to_set() == implementor_set(es, x)
            },
            forall|x: int| 0 <= x < dependencies.len() ==> {
                &&& strictly_sorted(id_views(#[trigger] dependencies@[x]@))
                &&& id_views(dependencies@[x]@).to_set() == dependency_set(es, x)
            },
            r.len() == i,
            forall|x: int| 0 <= x < i ==> {
                &&& (#[trigger] r@[x])@.id == es[x].id
                &&& r@[x]@.code == es[x].code
                &&& r@[x]@.line_start == es[x].line_start
                &&& r@[x]@.imports == es[x].imports
                &&& r@[x]@.children == es[x].children
                &&& strictly_sorted(r@[x]@.implementors)
                &&& r@[x]@.implementors.to_set() == implementor_set(es, x)
                &&& strictly_sorted(r@[x]@.dependencies)
                &&& r@[x]@.dependencies.to_set() == dependency_set(es, x)
            },
    {
        let e = &code_elements[i];
        let out = CodeElement {
            code_element_id: e.code_element_id.clone(),
            code: e.code.clone(),
            line_start: e.line_start.clone(),
            imports: crate::models::clone_strings(&e.imports),
            children: crate::models::clone_ids(&e.children),
            dependencies: crate::models::clone_ids(&dependencies[i]),
            implementors: crate::models::clone_ids(&implementors[i]),
        };
        r.push(out);
    }
    proof {
        let rs = element_views(r@);
        assert forall|x: int| 0 <= x < es.len() implies #[trigger] rs[x].id == es[x].id by {
            assert(rs[x] == r@[x]@);
        }
        assert forall|x: int| 0 <= x < es.len() implies {
            &&& rs[x].code == es[x].code
            &&& rs[x].line_start == es[x].line_start
            &&& rs[x].imports == es[x].imports
            &&& rs[x].children == es[x].children
            &&& strictly_sorted(#[trigger] rs[x].implementors)
            &&& rs[x].implementors.to_set() == implementor_set(es, x)
            &&& strictly_sorted(rs[x].dependencies)
            &&& rs[x].dependencies.to_set() == dependency_set(es, x)
        } by {
            assert(rs[x] == r@[x]@);
        }
    }
    r
}

/// After resolution, no implementor list and no dependency list holds the same
/// identity twice.
pub proof fn lemma_resolved_lists_have_no_repeats(es: Seq<ElementView>, out: Seq<ElementView>)
    requires
        resolved(es, out),
    ensures
        forall|i: int, a: int, b: int|
            0 <= i < out.len() && 0 <= a < b < out[i].implementors.len() ==> #[trigger] out[i].implementors[a]
                != #[trigger] out[i].implementors[b],
        forall|i: int, a: int, b: int|
            0 <= i < out.len() && 0 <= a < b < out[i].dependencies.len() ==> #[trigger] out[i].dependencies[a]
                != #[trigger] out[i].dependencies[b],
{
    assert forall|i: int, a: int, b: int|
        0 <= i < out.len() && 0 <= a < b < out[i].implementors.len() implies #[trigger] out[i].implementors[a]
            != #[trigger] out[i].implementors[b] by {
        assert(out[i].id == es[i].id);
        crate::models::lemma_id_lt_trichotomy(out[i].implementors[a], out[i].implementors[a]);
    }
    assert forall|i: int, a: int, b: int|
        0 <= i < out.len() && 0 <= a < b < out[i].dependencies.len() implies #[trigger] out[i].dependencies[a]
            != #[trigger] out[i].dependencies[b] by {
        assert(out[i].id == es[i].id);
        crate::models::lemma_id_lt_trichotomy(out[i].dependencies[a], out[i].dependencies[a]);
    }
}

/// No two elements of the collection share an identity.
pub open spec fn unique_ids(es: Seq<ElementView>) -> bool {
    forall|i: int, j: int| 0 <= i < es.len() && 0 <= j < es.len() && i != j ==> es[i].id != es[j].id
}

/// Whether no two elements of `code_elements` share an identity, which the
/// inversion law asks of a collection.
pub fn has_unique_ids(code_elements: &Vec<CodeElement>) -> (r: bool)
    ensures
        r == unique_ids(element_views(code_elements@)),
{
    let ghost es = element_views(code_elements@);
    let n = code_elements.len();
    for i in 0..n
        invariant
            n == code_elements.len(),
            es == element_views(code_elements@),
            forall|a: int, b: int| 0 <= a < i && 0 <= b < n && a != b ==> es[a].id != es[b].id,
    {
        for j in 0..n
            invariant
                n == code_elements.len(),
                es == element_views(code_elements@),
                0 <= i < n,
                forall|a: int, b: int| 0 <= a < i && 0 <= b < n && a != b ==> es[a].id != es[b].id,
                forall|b: int| 0 <= b < j && b != i ==> es[i as int].id != es[b].id,
        {
            if i != j && code_elements[i].code_element_id == code_elements[j].code_element_id {
                assert(es[i as int].id == es[j as int].id);
                return false;
            }
        }
    }
    true
}

/// In a resolved collection of distinct identities, `Y` is among the
/// dependencies of `X` exactly when `X` is among the implementors of `Y`.
pub proof fn lemma_dependencies_invert_implementors(es: Seq<ElementView>, out: Seq<ElementView>, x: int, y: int)
    requires
        resolved(es, out),
        unique_ids(es),
        0 <= x < out.len(),
        0 <= y < out.len(),
    ensures
        out[x].dependencies.contains(out[y].id) <==> out[y].implementors.contains(out[x].id),
{
    assert(out[x].id == es[x].id);
    assert(out[y].id == es[y].id);
    if out[x].dependencies.contains(out[y].id) {
        assert(dependency_set(es, x).contains(es[y].id));
        let w = choose|w: int| 0 <= w < es.len() && w != x && #[trigger] es[w].id == es[y].id
            && implementor_set(es, w).contains(es[x].id);
        assert(w == y);
    }
    if out[y].implementors.contains(out[x].id) {
        assert(implementor_set(es, y).contains(es[x].id));
        let w = choose|w: int| 0 <= w < es.len() && w != y && #[trigger] es[w].id == es[x].id
            && references(es[w], es[y]);
        assert(w == x);
        assert(dependency_set(es, x).contains(es[y].id));
    }
}


/// The elements of all files, file after file.
pub open spec fn file_elements(files: Seq<CodeFile>) -> Seq<ElementView>
    decreases files.len(),
{
    if files.len() == 0 {
        Seq::empty()
    } else {
        file_elements(files.drop_last()) + element_views(files.last().elements@)
    }
}

proof fn lemma_file_elements_take(files: Seq<CodeFile>, f: int)
    requires
        0 <= f < files.len(),
    ensures
        file_elements(files.take(f + 1)) == file_elements(files.take(f)) + element_views(files[f].elements@),
{
    assert(files.take(f + 1).drop_last() =~= files.take(f));
}

/// Resolves implementors and dependencies over the elements of all files
/// together; files keep their paths and their elements in order.
pub fn parsing_step_2(code_files: Vec<CodeFile>) -> (r: Vec<CodeFile>)
    ensures
        r.len() == code_files.len(),
        forall|f: int| 0 <= f < r.len() ==> (#[trigger] r@[f]).path@ == code_files@[f].path@
            && r@[f].elements.len() == code_files@[f].elements.len(),
        resolved(file_elements(code_files@), file_elements(r@)),
{
    let ghost files = code_files@;
    let total = crate::store::collect_elements(&code_files);
    assert(files.take(files.len() as int) =~= files);
    let flat = resolve_elements(&total);
    let ghost out = element_views(flat@);
    let mut r: Vec<CodeFile> = Vec::new();
    let mut offset: usize = 0;
    assert(out.subrange(0, 0) =~= file_elements(r@));
    for f in 0..code_files.len()
        invariant
            files == code_files@,
            out == element_views(flat@),
            out.len() == file_elements(files).len(),
            r.len() == f,
            offset == file_elements(files.take(f as int)).len(),
            file_elements(r@) == out.subrange(0, offset as int),
            forall|g: int| 0 <= g < f ==> (#[trigger] r@[g]).path@ == files[g].path@
                && r@[g].elements.len() == files[g].elements.len(),
    {
        proof {
            lemma_file_elements_take(files, f as int);
            assert(file_elements(files) =~= file_elements(files.take(f + 1)) + file_elements(files.subrange(f + 1, files.len() as int))) by {
                lemma_file_elements_split(files, f + 1);
            }
        }
        let count = code_files[f].elements.len();
        let mut elements: Vec<CodeElement> = Vec::new();
        for k in 0..count
            invariant
                out == element_views(flat@),
                out.len() == flat.len(),
                offset + count <= out.len(),
                element_views(elements@) == out.subrange(offset as int, offset + k),
        {
            let c = flat[offset + k].clone();
            assert(c@ == out[offset + k]);
            let ghost prev = elements@;
            elements.push(c);
            assert(element_views(elements@) =~= element_views(prev).push(c@));
            assert(element_views(elements@) =~= out.subrange(offset as int, offset + k + 1));
        }
        let ghost before = r@;
        r.push(CodeFile { path: code_files[f].path.clone(), elements });
        proof {
            assert(r@.drop_last() =~= before);
            assert(file_elements(r@) =~= out.subrange(0, offset + count));
        }
        offset = offset + count;
    }
    assert(files.take(files.len() as int) =~= files);
    assert(out.subrange(0, offset as int) =~= out);
    r
}

proof fn lemma_file_elements_split(files: Seq<CodeFile>, k: int)
    requires
        0 <= k <= files.len(),
    ensures
        file_elements(files) == file_elements(files.take(k)) + file_elements(files.subrange(k, files.len() as int)),
    decreases files.len(),
{
    if files.len() == k {
        assert(files.take(k) =~= files);
        assert(files.subrange(k, files.len() as int) =~= Seq::<CodeFile>::empty());
        assert(file_elements(files) =~= file_elements(files) + Seq::<ElementView>::empty());
    } else {
        lemma_file_elements_split(files.drop_last(), k);
        assert(files.drop_last().take(k) =~= files.take(k));
        let tail = files.subrange(k, files.len() as int);
        assert(tail.drop_last() =~= files.drop_last().subrange(k, files.len() - 1));
        assert(tail.last() == files.last());
    }
}

} // verus!
