//! The imports visible in a scope: exploded `use` trees and their shadowing by
//! the `use` statements of a function body.

use vstd::prelude::*;

use crate::syntax::{Decl, UseTree};

verus! {

/// An import: the full path (with a rename, if any) and the local name.
pub type ImportView = (Seq<char>, Seq<char>);

/// The views of a sequence of imports.
pub open spec fn import_views(v: Seq<(String, String)>) -> Seq<ImportView> {
    v.map_values(|p: (String, String)| (p.0@, p.1@))
}

/// The paths of a sequence of imports.
pub open spec fn import_paths(v: Seq<ImportView>) -> Seq<Seq<char>> {
    v.map_values(|p: ImportView| p.0)
}

/// The separator between the segments of a path.
pub open spec fn sep() -> Seq<char> {
    " :: "@
}

/// `base` extended by the segment `s`.
pub open spec fn extend_path(base: Seq<char>, s: Seq<char>) -> Seq<char> {
    if base.len() == 0 {
        s
    } else {
        base + sep() + s
    }
}

/// The imports that a `use` tree brings in under the path `base`. A glob brings
/// in none.
pub open spec fn explode(t: UseTree, base: Seq<char>) -> Seq<ImportView>
    decreases t,
{
    match t {
        UseTree::Path(s, rest) => explode(*rest, extend_path(base, s@)),
        UseTree::Name(s) => seq![(base + sep() + s@, s@)],
        UseTree::Rename(s, r) => seq![(extend_path(base, s@) + " as "@ + r@, r@)],
        UseTree::Glob => Seq::empty(),
        UseTree::Group(items) => explode_all(items@, base),
    }
}

/// The imports of each tree of `ts`, in order.
pub open spec fn explode_all(ts: Seq<UseTree>, base: Seq<char>) -> Seq<ImportView>
    decreases ts,
{
    if ts.len() == 0 {
        Seq::empty()
    } else {
        explode_all(ts.drop_last(), base) + explode(ts.last(), base)
    }
}


/// The imports of the `use` declarations among `items`, in order.
pub open spec fn imports_of(items: Seq<Decl>) -> Seq<ImportView>
    decreases items.len(),
{
    if items.len() == 0 {
        Seq::empty()
    } else {
        imports_of(items.drop_last()) + match items.last().use_tree {
            Some(t) => explode(t, Seq::empty()),
            None => Seq::empty(),
        }
    }
}

/// The position of the first import of `scope` named `name`, or the length of
/// `scope` where there is none.
pub open spec fn index_of_name(scope: Seq<ImportView>, name: Seq<char>) -> int
    decreases scope.len(),
{
    if scope.len() == 0 {
        0
    } else if scope[0].1 == name {
        0
    } else {
        1 + index_of_name(scope.drop_first(), name)
    }
}

/// The imports `outer` of a surrounding scope after the local imports `scope`
/// of a body: each outer import is replaced by the first local import of the
/// same name, which is used up; the local imports left over follow.
pub open spec fn shadow(outer: Seq<ImportView>, scope: Seq<ImportView>) -> Seq<ImportView>
    decreases outer.len(),
{
    if outer.len() == 0 {
        scope
    } else {
        let k = index_of_name(scope, outer[0].1);
        if k < scope.len() {
            seq![scope[k]] + shadow(outer.drop_first(), scope.remove(k))
        } else {
            seq![outer[0]] + shadow(outer.drop_first(), scope)
        }
    }
}

proof fn lemma_index_of_name_bounds(scope: Seq<ImportView>, name: Seq<char>)
    ensures
        0 <= index_of_name(scope, name) <= scope.len(),
        index_of_name(scope, name) < scope.len() ==> scope[index_of_name(scope, name)].1 == name,
        forall|j: int| 0 <= j < index_of_name(scope, name) ==> scope[j].1 != name,
        forall|j: int| 0 <= j < scope.len() && scope[j].1 == name ==> index_of_name(scope, name) <= j,
    decreases scope.len(),
{
    if scope.len() > 0 && scope[0].1 != name {
        let t = scope.drop_first();
        lemma_index_of_name_bounds(t, name);
        assert forall|j: int| 0 <= j < index_of_name(scope, name) implies scope[j].1 != name by {
            if j > 0 {
                assert(scope[j] == t[j - 1]);
            }
        }
        assert forall|j: int| 0 <= j < scope.len() && scope[j].1 == name implies index_of_name(scope, name) <= j by {
            assert(scope[j] == t[j - 1]);
        }
    }
}

fn text_of(s: &str) -> (r: String)
    ensures
        r@ == s@,
{
    s.to_string()
}

/// The imports that `use_tree` brings in under the path `base`.
pub fn explode_use_tree(use_tree: &UseTree, base: &str) -> (r: Vec<(String, String)>)
    ensures
        import_views(r@) == explode(*use_tree, base@),
    decreases use_tree,
{
    proof {
        reveal_strlit(" :: ");
    }
    match use_tree {
        UseTree::Path(s, rest) => {
            let mut path = text_of(base);
            if !base.is_empty() {
                path.append(" :: ");
            }
            path.append(s.as_str());
            assert(path@ == extend_path(base@, s@));
            explode_use_tree(rest, path.as_str())
        },
        UseTree::Name(s) => {
            let mut path = text_of(base);
            path.append(" :: ");
            path.append(s.as_str());
            let r = vec![(path, s.clone())];
            assert(import_views(r@) =~= seq![(base@ + sep() + s@, s@)]);
            r
        },
        UseTree::Rename(s, rename) => {
            let mut path = text_of(base);
            if !base.is_empty() {
                path.append(" :: ");
            }
            path.append(s.as_str());
            path.append(" as ");
            path.append(rename.as_str());
            let r = vec![(path, rename.clone())];
            assert(import_views(r@) =~= seq![(extend_path(base@, s@) + " as "@ + rename@, rename@)]);
            r
        },
        UseTree::Glob => {
            let r: Vec<(String, String)> = Vec::new();
            assert(import_views(r@) =~= Seq::<ImportView>::empty());
            r
        },
        UseTree::Group(items) => {
            let mut out: Vec<(String, String)> = Vec::new();
            let mut i: usize = 0;
            assert(items@.take(0) =~= Seq::<UseTree>::empty());
            assert(import_views(out@) =~= Seq::<ImportView>::empty());
            while i < items.len()
                invariant
                    (*use_tree) is Group,
                    (*use_tree)->Group_0 == *items,
                    i <= items.len(),
                    import_views(out@) == explode_all(items@.take(i as int), base@),
                decreases items.len() - i,
            {
                proof {
                    assert(decreases_to!(*use_tree => (*use_tree)->Group_0));
                    assert(decreases_to!(*items => items@));
                    assert(decreases_to!(items@ => items@[i as int]));
                    assert(decreases_to!(*use_tree => items@[i as int]));
                }
                let mut more = explode_use_tree(&items[i], base);
                let ghost prev = out@;
                let ghost added = more@;
                out.append(&mut more);
                proof {
                    assert(items@.take(i + 1).drop_last() =~= items@.take(i as int));
                    assert(items@.take(i + 1).last() == items@[i as int]);
                    assert(import_views(out@) =~= import_views(prev) + import_views(added));
                }
                i = i + 1;
            }
            assert(items@.take(i as int) =~= items@);
            out
        },
    }
}

/// The imports of the `use` declarations among `items`.
pub fn retrieve_imports(items: &Vec<Decl>) -> (r: Vec<(String, String)>)
    ensures
        import_views(r@) == imports_of(items@),
{
    proof {
        reveal_strlit("");
    }
    let mut out: Vec<(String, String)> = Vec::new();
    let mut i: usize = 0;
    assert(items@.take(0) =~= Seq::<Decl>::empty());
    assert(import_views(out@) =~= Seq::<ImportView>::empty());
    while i < items.len()
        invariant
            i <= items.len(),
            import_views(out@) == imports_of(items@.take(i as int)),
        decreases items.len() - i,
    {
        proof {
            reveal_strlit("");
            assert(""@ =~= Seq::<char>::empty());
            assert(items@.take(i + 1).drop_last() =~= items@.take(i as int));
            assert(items@.take(i + 1).last() == items@[i as int]);
        }
        match &items[i].use_tree {
            Some(t) => {
                let mut more = explode_use_tree(t, "");
                let ghost prev = out@;
                let ghost added = more@;
                out.append(&mut more);
                assert(import_views(out@) =~= import_views(prev) + import_views(added));
            },
            None => {
                assert(imports_of(items@.take(i + 1)) =~= imports_of(items@.take(i as int)));
            },
        }
        i = i + 1;
    }
    assert(items@.take(i as int) =~= items@);
    out
}

/// The imports of the `use` statements `uses` of a body.
pub fn explode_scope(uses: &Vec<UseTree>) -> (r: Vec<(String, String)>)
    ensures
        import_views(r@) == explode_all(uses@, Seq::empty()),
{
    proof {
        reveal_strlit("");
    }
    let mut out: Vec<(String, String)> = Vec::new();
    let mut i: usize = 0;
    assert(uses@.take(0) =~= Seq::<UseTree>::empty());
    assert(import_views(out@) =~= Seq::<ImportView>::empty());
    while i < uses.len()
        invariant
            i <= uses.len(),
            import_views(out@) == explode_all(uses@.take(i as int), Seq::empty()),
        decreases uses.len() - i,
    {
        proof {
            reveal_strlit("");
            assert(""@ =~= Seq::<char>::empty());
        }
        let mut more = explode_use_tree(&uses[i], "");
        let ghost prev = out@;
        let ghost added = more@;
        out.append(&mut more);
        proof {
            assert(uses@.take(i + 1).drop_last() =~= uses@.take(i as int));
            assert(uses@.take(i + 1).last() == uses@[i as int]);
            assert(import_views(out@) =~= import_views(prev) + import_views(added));
        }
        i = i + 1;
    }
    assert(uses@.take(i as int) =~= uses@);
    out
}

/// Applies the `use` statements `scope_uses` of a body to the imports of the
/// surrounding scope.
pub fn update_imports(scope_uses: &Vec<UseTree>, surroundings_imports: &mut Vec<(String, String)>)
    ensures
        import_views(final(surroundings_imports)@) == shadow(
            import_views(old(surroundings_imports)@),
            explode_all(scope_uses@, Seq::empty()),
        ),
{
    let mut scope = explode_scope(scope_uses);
    let ghost outer = import_views(surroundings_imports@);
    let mut out: Vec<(String, String)> = Vec::new();
    let mut i: usize = 0;
    assert(outer.subrange(0, outer.len() as int) =~= outer);
    assert(import_views(out@) + shadow(outer, import_views(scope@)) =~= shadow(outer, import_views(scope@)));
    while i < surroundings_imports.len()
        invariant
            outer == import_views(surroundings_imports@),
            i <= surroundings_imports.len(),
            import_views(out@) + shadow(outer.subrange(i as int, outer.len() as int), import_views(scope@))
                == shadow(outer, explode_all(scope_uses@, Seq::empty())),
        decreases surroundings_imports.len() - i,
    {
        let ghost rest = outer.subrange(i as int, outer.len() as int);
        let ghost sv = import_views(scope@);
        assert(rest.drop_first() =~= outer.subrange(i + 1, outer.len() as int));
        proof {
            lemma_index_of_name_bounds(sv, rest[0].1);
        }
        let name = &surroundings_imports[i].1;
        let mut k: usize = 0;
        while k < scope.len() && scope[k].1 != *name
            invariant
                sv == import_views(scope@),
                name@ == rest[0].1,
                k <= scope.len(),
                forall|j: int| 0 <= j < k ==> sv[j].1 != name@,
                k <= index_of_name(sv, name@),
            decreases scope.len() - k,
        {
            proof {
                lemma_index_of_name_bounds(sv, name@);
            }
            k = k + 1;
        }
        proof {
            lemma_index_of_name_bounds(sv, name@);
            if k < scope.len() {
                assert(sv[k as int].1 == name@);
            }
        }
        assert(k == index_of_name(sv, name@));
        let ghost prev = out@;
        if k < scope.len() {
            let taken = scope.remove(k);
            proof {
                assert(import_views(scope@) =~= sv.remove(k as int));
            }
            out.push(taken);
        } else {
            let pair = &surroundings_imports[i];
            out.push((pair.0.clone(), pair.1.clone()));
        }
        proof {
            assert(import_views(out@) =~= import_views(prev).push(import_views(out@).last()));
            assert(import_views(prev) + shadow(rest, sv) =~= import_views(out@) + shadow(
                outer.subrange(i + 1, outer.len() as int),
                import_views(scope@),
            ));
        }
        i = i + 1;
    }
    proof {
        assert(outer.subrange(i as int, outer.len() as int) =~= Seq::<ImportView>::empty());
    }
    let ghost prev = out@;
    let ghost added = scope@;
    out.append(&mut scope);
    assert(import_views(out@) =~= import_views(prev) + import_views(added));
    *surroundings_imports = out;
}

} // verus!
