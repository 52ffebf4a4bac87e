//! The code-element graph: identities, elements, files and documentation records.

use std::hash::{Hash, Hasher};
use vstd::prelude::*;

use crate::text::{
    is_space, is_whitespace, lower_of, string_of, sub_chars, to_lowercase,
    chars_of, chars_lt, compare_chars, lemma_chars_lt_transitive, lemma_chars_lt_trichotomy, views,
};

verus! {

/// The kind of a declaration.
#[derive(Clone, Copy, Debug, PartialEq, Eq, Structural, Hash)]
pub enum ItemKind {
    All,
    Const,
    Enum,
    ExternCrate,
    Fn,
    ForeignMod,
    Impl,
    Macro,
    Mod,
    Static,
    Struct,
    Trait,
    TraitAlias,
    Type,
    Union,
    Use,
    Verbatim,
}

/// Position of a kind in declaration order, which is the order of kinds.
pub open spec fn kind_rank(k: ItemKind) -> u8 {
    match k {
        ItemKind::All => 0,
        ItemKind::Const => 1,
        ItemKind::Enum => 2,
        ItemKind::ExternCrate => 3,
        ItemKind::Fn => 4,
        ItemKind::ForeignMod => 5,
        ItemKind::Impl => 6,
        ItemKind::Macro => 7,
        ItemKind::Mod => 8,
        ItemKind::Static => 9,
        ItemKind::Struct => 10,
        ItemKind::Trait => 11,
        ItemKind::TraitAlias => 12,
        ItemKind::Type => 13,
        ItemKind::Union => 14,
        ItemKind::Use => 15,
        ItemKind::Verbatim => 16,
    }
}

/// The lower-case name under which a kind is shown.
pub open spec fn kind_name(k: ItemKind) -> Seq<char> {
    match k {
        ItemKind::All => "all"@,
        ItemKind::Const => "const"@,
        ItemKind::Enum => "enum"@,
        ItemKind::ExternCrate => "extern_crate"@,
        ItemKind::Fn => "fn"@,
        ItemKind::ForeignMod => "foreign_mod"@,
        ItemKind::Impl => "impl"@,
        ItemKind::Macro => "macro"@,
        ItemKind::Mod => "mod"@,
        ItemKind::Static => "static"@,
        ItemKind::Struct => "struct"@,
        ItemKind::Trait => "trait"@,
        ItemKind::TraitAlias => "trait_alias"@,
        ItemKind::Type => "type"@,
        ItemKind::Union => "union"@,
        ItemKind::Use => "use"@,
        ItemKind::Verbatim => "verbatim"@,
    }
}

/// The kinds that only contain other declarations; they are never recorded as
/// referencing or referenced.
pub open spec fn is_container(k: ItemKind) -> bool {
    k == ItemKind::Impl || k == ItemKind::Mod || k == ItemKind::Verbatim
}

impl ItemKind {
    pub fn rank(&self) -> (r: u8)
        ensures
            r == kind_rank(*self),
    {
        match self {
            ItemKind::All => 0,
            ItemKind::Const => 1,
            ItemKind::Enum => 2,
            ItemKind::ExternCrate => 3,
            ItemKind::Fn => 4,
            ItemKind::ForeignMod => 5,
            ItemKind::Impl => 6,
            ItemKind::Macro => 7,
            ItemKind::Mod => 8,
            ItemKind::Static => 9,
            ItemKind::Struct => 10,
            ItemKind::Trait => 11,
            ItemKind::TraitAlias => 12,
            ItemKind::Type => 13,
            ItemKind::Union => 14,
            ItemKind::Use => 15,
            ItemKind::Verbatim => 16,
        }
    }

    /// The name of the kind, as shown to users and matched in documentation records.
    pub fn to_string(&self) -> (r: String)
        ensures
            r@ == kind_name(*self),
    {
        let s: &str = match self {
            ItemKind::All => "all",
            ItemKind::Const => "const",
            ItemKind::Enum => "enum",
            ItemKind::ExternCrate => "extern_crate",
            ItemKind::Fn => "fn",
            ItemKind::ForeignMod => "foreign_mod",
            ItemKind::Impl => "impl",
            ItemKind::Macro => "macro",
            ItemKind::Mod => "mod",
            ItemKind::Static => "static",
            ItemKind::Struct => "struct",
            ItemKind::Trait => "trait",
            ItemKind::TraitAlias => "trait_alias",
            ItemKind::Type => "type",
            ItemKind::Union => "union",
            ItemKind::Use => "use",
            ItemKind::Verbatim => "verbatim",
        };
        s.to_string()
    }

    pub fn is_container(&self) -> (r: bool)
        ensures
            r == is_container(*self),
    {
        match self {
            ItemKind::Impl | ItemKind::Mod | ItemKind::Verbatim => true,
            _ => false,
        }
    }
}

/// `s` without whitespace at its start.
pub open spec fn trim_start(s: Seq<char>) -> Seq<char>
    decreases s.len(),
{
    if s.len() > 0 && is_space(s[0]) {
        trim_start(s.drop_first())
    } else {
        s
    }
}

/// `s` without whitespace at its end.
pub open spec fn trim_end(s: Seq<char>) -> Seq<char>
    decreases s.len(),
{
    if s.len() > 0 && is_space(s.last()) {
        trim_end(s.drop_last())
    } else {
        s
    }
}

/// The kind that a lower-case name stands for, as accepted when parsing.
pub open spec fn kind_of_name(n: Seq<char>) -> Option<ItemKind> {
    if n == "all"@ {
        Some(ItemKind::All)
    } else if n == "const"@ {
        Some(ItemKind::Const)
    } else if n == "enum"@ {
        Some(ItemKind::Enum)
    } else if n == "externcrate"@ {
        Some(ItemKind::ExternCrate)
    } else if n == "fn"@ {
        Some(ItemKind::Fn)
    } else if n == "foreignmod"@ {
        Some(ItemKind::ForeignMod)
    } else if n == "impl"@ {
        Some(ItemKind::Impl)
    } else if n == "macro"@ {
        Some(ItemKind::Macro)
    } else if n == "mod"@ {
        Some(ItemKind::Mod)
    } else if n == "static"@ {
        Some(ItemKind::Static)
    } else if n == "struct"@ {
        Some(ItemKind::Struct)
    } else if n == "trait"@ {
        Some(ItemKind::Trait)
    } else if n == "traitalias"@ {
        Some(ItemKind::TraitAlias)
    } else if n == "type"@ {
        Some(ItemKind::Type)
    } else if n == "union"@ {
        Some(ItemKind::Union)
    } else if n == "use"@ {
        Some(ItemKind::Use)
    } else if n == "verbatim"@ {
        Some(ItemKind::Verbatim)
    } else {
        None
    }
}

fn trim_chars(s: &str) -> (r: String)
    ensures
        r@ == trim_end(trim_start(s@)),
{
    let cs = chars_of(s);
    let mut a: usize = 0;
    assert(cs@.subrange(0, cs@.len() as int) =~= cs@);
    while a < cs.len() && is_whitespace(cs[a])
        invariant
            cs@ == s@,
            a <= cs.len(),
            trim_start(cs@.subrange(a as int, cs@.len() as int)) == trim_start(s@),
        decreases cs.len() - a,
    {
        assert(cs@.subrange(a as int, cs@.len() as int).drop_first() =~= cs@.subrange(a + 1, cs@.len() as int));
        a = a + 1;
    }
    let mut b: usize = cs.len();
    assert(cs@.subrange(a as int, b as int) == trim_start(s@));
    while b > a && is_whitespace(cs[b - 1])
        invariant
            a <= b <= cs.len(),
            trim_end(cs@.subrange(a as int, b as int)) == trim_end(trim_start(s@)),
        decreases b,
    {
        assert(cs@.subrange(a as int, b as int).drop_last() =~= cs@.subrange(a as int, b - 1));
        b = b - 1;
    }
    string_of(sub_chars(cs.as_slice(), a, b).as_slice())
}

impl ItemKind {
    /// The kind named by `s`, whatever its case and surrounding whitespace.
    pub fn from_name(s: &str) -> (r: Option<ItemKind>)
        ensures
            r == kind_of_name(lower_of(trim_end(trim_start(s@)))),
    {
        let n = to_lowercase(trim_chars(s).as_str());
        if n == "all".to_string() {
            Some(ItemKind::All)
        } else if n == "const".to_string() {
            Some(ItemKind::Const)
        } else if n == "enum".to_string() {
            Some(ItemKind::Enum)
        } else if n == "externcrate".to_string() {
            Some(ItemKind::ExternCrate)
        } else if n == "fn".to_string() {
            Some(ItemKind::Fn)
        } else if n == "foreignmod".to_string() {
            Some(ItemKind::ForeignMod)
        } else if n == "impl".to_string() {
            Some(ItemKind::Impl)
        } else if n == "macro".to_string() {
            Some(ItemKind::Macro)
        } else if n == "mod".to_string() {
            Some(ItemKind::Mod)
        } else if n == "static".to_string() {
            Some(ItemKind::Static)
        } else if n == "struct".to_string() {
            Some(ItemKind::Struct)
        } else if n == "trait".to_string() {
            Some(ItemKind::Trait)
        } else if n == "traitalias".to_string() {
            Some(ItemKind::TraitAlias)
        } else if n == "type".to_string() {
            Some(ItemKind::Type)
        } else if n == "union".to_string() {
            Some(ItemKind::Union)
        } else if n == "use".to_string() {
            Some(ItemKind::Use)
        } else if n == "verbatim".to_string() {
            Some(ItemKind::Verbatim)
        } else {
            None
        }
    }
}

impl std::str::FromStr for ItemKind {
    type Err = ();

    fn from_str(s: &str) -> Result<ItemKind, ()> {
        match ItemKind::from_name(s) {
            Some(k) => Ok(k),
            None => Err(()),
        }
    }
}

/// The view of an identity: identifier, kind and location.
pub type IdView = (Seq<char>, ItemKind, Seq<char>);

/// A name for the content hash of an identity, as the standard library's
/// default hasher computes it from the identity's fields.
pub uninterp spec fn identity_hash(ident: Seq<char>, kind: u8, location: Seq<char>) -> u64;

/// Relies on `std::collections::hash_map::DefaultHasher` (created with `new`, so
/// unseeded): the hash is a function of the identity's fields, written in the
/// order and form that a derived `Hash` writes them.
#[verifier::external_body]
fn hash_identity(ident: &str, kind: u8, location: &str) -> (r: u64)
    ensures
        r == identity_hash(ident@, kind, location@),
{
    let mut hasher = std::collections::hash_map::DefaultHasher::new();
    ident.hash(&mut hasher);
    (kind as isize).hash(&mut hasher);
    location.hash(&mut hasher);
    hasher.finish()
}

/// The identity of a code element.
#[derive(Debug, Eq, Hash)]
pub struct CodeElementID {
    pub ident: String,
    pub kind: ItemKind,
    pub location: String,
}

impl View for CodeElementID {
    type V = IdView;

    open spec fn view(&self) -> IdView {
        (self.ident@, self.kind, self.location@)
    }
}

impl PartialEq for CodeElementID {
    fn eq(&self, other: &CodeElementID) -> (r: bool) {
        self.ident == other.ident && self.kind == other.kind && self.location == other.location
    }
}

impl vstd::std_specs::cmp::PartialEqSpecImpl for CodeElementID {
    open spec fn obeys_eq_spec() -> bool {
        true
    }

    open spec fn eq_spec(&self, other: &CodeElementID) -> bool {
        self@ == other@
    }
}

impl Clone for CodeElementID {
    fn clone(&self) -> (r: Self)
        ensures
            r@ == self@,
    {
        CodeElementID {
            ident: self.ident.clone(),
            kind: self.kind,
            location: self.location.clone(),
        }
    }
}

/// The content hash of an identity.
pub open spec fn id_hash(id: IdView) -> u64 {
    identity_hash(id.0, kind_rank(id.1), id.2)
}

impl CodeElementID {
    pub fn new(ident: String, kind: ItemKind, location: String) -> (r: Self)
        ensures
            r.ident == ident,
            r.kind == kind,
            r.location == location,
    {
        CodeElementID { ident, kind, location }
    }

    /// The storage key of this identity: equal identities have equal keys.
    pub fn get_hash(&self) -> (r: u64)
        ensures
            r == id_hash(self@),
    {
        hash_identity(self.ident.as_str(), self.kind.rank(), self.location.as_str())
    }
}

/// The views of a sequence of identities.
pub open spec fn id_views(v: Seq<CodeElementID>) -> Seq<IdView> {
    v.map_values(|i: CodeElementID| i@)
}

/// One extracted declaration with its source text and graph edges.
#[derive(Debug)]
pub struct CodeElement {
    pub code_element_id: CodeElementID,
    pub code: String,
    pub line_start: Vec<usize>,
    pub imports: Vec<String>,
    pub children: Vec<CodeElementID>,
    pub dependencies: Vec<CodeElementID>,
    pub implementors: Vec<CodeElementID>,
}

/// The view of an element: every field by its view.
pub struct ElementView {
    pub id: IdView,
    pub code: Seq<char>,
    pub line_start: Seq<usize>,
    pub imports: Seq<Seq<char>>,
    pub children: Seq<IdView>,
    pub dependencies: Seq<IdView>,
    pub implementors: Seq<IdView>,
}

impl View for CodeElement {
    type V = ElementView;

    open spec fn view(&self) -> ElementView {
        ElementView {
            id: self.code_element_id@,
            code: self.code@,
            line_start: self.line_start@,
            imports: views(self.imports@),
            children: id_views(self.children@),
            dependencies: id_views(self.dependencies@),
            implementors: id_views(self.implementors@),
        }
    }
}

/// The views of a sequence of elements.
pub open spec fn element_views(v: Seq<CodeElement>) -> Seq<ElementView> {
    v.map_values(|e: CodeElement| e@)
}

pub fn clone_ids(v: &Vec<CodeElementID>) -> (r: Vec<CodeElementID>)
    ensures
        id_views(r@) == id_views(v@),
{
    let mut r: Vec<CodeElementID> = Vec::new();
    for i in 0..v.len()
        invariant
            r.len() == i,
            forall|j: int| 0 <= j < i ==> r@[j]@ == v@[j]@,
    {
        r.push(v[i].clone());
    }
    assert(id_views(r@) =~= id_views(v@));
    r
}

pub fn clone_strings(v: &Vec<String>) -> (r: Vec<String>)
    ensures
        views(r@) == views(v@),
{
    let mut r: Vec<String> = Vec::new();
    for i in 0..v.len()
        invariant
            r.len() == i,
            forall|j: int| 0 <= j < i ==> r@[j]@ == v@[j]@,
    {
        r.push(v[i].clone());
    }
    assert(views(r@) =~= views(v@));
    r
}

impl Clone for CodeElement {
    fn clone(&self) -> (r: Self)
        ensures
            r@ == self@,
    {
        CodeElement {
            code_element_id: self.code_element_id.clone(),
            code: self.code.clone(),
            line_start: self.line_start.clone(),
            imports: clone_strings(&self.imports),
            children: clone_ids(&self.children),
            dependencies: clone_ids(&self.dependencies),
            implementors: clone_ids(&self.implementors),
        }
    }
}

/// The elements extracted from one file.
#[derive(Debug)]
pub struct CodeFile {
    pub path: String,
    pub elements: Vec<CodeElement>,
}

/// Generated documentation for one element, keyed by identifier, kind name and location.
#[derive(Debug)]
pub struct DocumentedCodeElement {
    pub ident: String,
    pub kind: String,
    pub location: String,
    pub general_description: String,
    pub panic_possible: bool,
    pub panic_section: String,
    pub error_possible: bool,
    pub error_section: String,
    pub example_section: String,
    pub has_fields_or_variants: bool,
    pub fields_or_variants_descriptions: Option<Vec<String>>,
}

/// The answer of the language model to a question about a repository.
#[derive(Debug)]
pub struct UserQuestionResponse {
    pub response: String,
    pub suggested_questions: Vec<String>,
}


/// The total order of identities: by identifier, then kind, then location.
pub open spec fn id_lt(a: IdView, b: IdView) -> bool {
    chars_lt(a.0, b.0) || (a.0 == b.0 && (kind_rank(a.1) < kind_rank(b.1) || (a.1 == b.1
        && chars_lt(a.2, b.2))))
}

pub proof fn lemma_kind_rank_injective(a: ItemKind, b: ItemKind)
    ensures
        kind_rank(a) == kind_rank(b) ==> a == b,
{
}

pub proof fn lemma_id_lt_trichotomy(a: IdView, b: IdView)
    ensures
        !id_lt(a, a),
        a != b ==> (id_lt(a, b) <==> !id_lt(b, a)),
{
    lemma_chars_lt_trichotomy(a.0, b.0);
    lemma_chars_lt_trichotomy(a.2, b.2);
    lemma_chars_lt_trichotomy(a.0, a.0);
    lemma_chars_lt_trichotomy(a.2, a.2);
    lemma_kind_rank_injective(a.1, b.1);
}

pub proof fn lemma_id_lt_transitive(a: IdView, b: IdView, c: IdView)
    requires
        id_lt(a, b),
        id_lt(b, c),
    ensures
        id_lt(a, c),
{
    lemma_kind_rank_injective(a.1, b.1);
    lemma_kind_rank_injective(b.1, c.1);
    if chars_lt(a.0, b.0) && chars_lt(b.0, c.0) {
        lemma_chars_lt_transitive(a.0, b.0, c.0);
    }
    if chars_lt(a.2, b.2) && chars_lt(b.2, c.2) {
        lemma_chars_lt_transitive(a.2, b.2, c.2);
    }
}

/// Compares two identities in the order `id_lt`: negative, zero or positive.
pub fn compare_ids(a: &CodeElementID, b: &CodeElementID) -> (r: i8)
    ensures
        r < 0 <==> id_lt(a@, b@),
        r == 0 <==> a@ == b@,
        r > 0 <==> id_lt(b@, a@),
{
    proof {
        lemma_id_lt_trichotomy(a@, b@);
        lemma_id_lt_trichotomy(b@, a@);
        lemma_kind_rank_injective(a.kind, b.kind);
    }
    let c = compare_chars(chars_of(a.ident.as_str()).as_slice(), chars_of(b.ident.as_str()).as_slice());
    if c != 0 {
        return c;
    }
    let ka = a.kind.rank();
    let kb = b.kind.rank();
    if ka < kb {
        return -1;
    } else if ka > kb {
        return 1;
    }
    compare_chars(chars_of(a.location.as_str()).as_slice(), chars_of(b.location.as_str()).as_slice())
}

/// `v` is strictly increasing in the order of identities, so it holds no repeat.
pub open spec fn strictly_sorted(v: Seq<IdView>) -> bool {
    forall|i: int, j: int| 0 <= i < j < v.len() ==> id_lt(v[i], v[j])
}

/// Inserts `x` into the strictly sorted `v` unless an equal identity is there.
pub fn insert_sorted(v: &mut Vec<CodeElementID>, x: CodeElementID)
    requires
        strictly_sorted(id_views(old(v)@)),
    ensures
        strictly_sorted(id_views(final(v)@)),
        id_views(final(v)@).to_set() == id_views(old(v)@).to_set().insert(x@),
{
    let ghost old_v = id_views(v@);
    let mut i: usize = 0;
    let mut above = false;
    while i < v.len() && !above
        invariant
            v@ == old(v)@,
            old_v == id_views(v@),
            strictly_sorted(old_v),
            i <= v.len(),
            forall|j: int| 0 <= j < i ==> id_lt(old_v[j], x@),
            above ==> i < v.len() && id_lt(x@, old_v[i as int]),
        decreases v.len() - i + if above { 0int } else { 1int },
    {
        let c = compare_ids(&v[i], &x);
        if c == 0 {
            proof {
                assert(old_v[i as int] == x@);
                assert(old_v.to_set().insert(x@) =~= old_v.to_set());
            }
            return;
        }
        if c > 0 {
            above = true;
        } else {
            i = i + 1;
        }
    }
    proof {
        assert forall|j: int| i <= j < old_v.len() implies id_lt(x@, old_v[j]) by {
            if j > i {
                lemma_id_lt_transitive(x@, old_v[i as int], old_v[j]);
            }
        }
    }
    v.insert(i, x);
    proof {
        let nv = id_views(v@);
        assert(nv =~= old_v.insert(i as int, x@));
        assert forall|a: int, b: int| 0 <= a < b < nv.len() implies id_lt(nv[a], nv[b]) by {
            if b < i {
            } else if a < i && b == i {
            } else if a < i && b > i {
                assert(nv[b] == old_v[b - 1]);
            } else if a == i {
                assert(nv[b] == old_v[b - 1]);
            } else {
                assert(nv[a] == old_v[a - 1]);
                assert(nv[b] == old_v[b - 1]);
            }
        }
        assert forall|y: IdView| nv.to_set().contains(y) <==> old_v.to_set().insert(x@).contains(y) by {
            if nv.to_set().contains(y) {
                let k = choose|k: int| 0 <= k < nv.len() && nv[k] == y;
                if k < i {
                    assert(old_v[k] == y);
                } else if k > i {
                    assert(old_v[k - 1] == y);
                }
            }
            if old_v.to_set().contains(y) {
                let k = choose|k: int| 0 <= k < old_v.len() && old_v[k] == y;
                if k < i {
                    assert(nv[k] == y);
                } else {
                    assert(nv[k + 1] == y);
                }
            }
            if y == x@ {
                assert(nv[i as int] == y);
            }
        }
        assert(nv.to_set() =~= old_v.to_set().insert(x@));
    }
}

/// Sorts identities by their order and drops repeats.
pub fn sort_dedup(v: Vec<CodeElementID>) -> (r: Vec<CodeElementID>)
    ensures
        strictly_sorted(id_views(r@)),
        id_views(r@).to_set() == id_views(v@).to_set(),
{
    let mut r: Vec<CodeElementID> = Vec::new();
    let mut v = v;
    let ghost all = id_views(v@);
    let mut i: usize = 0;
    assert(id_views(r@).to_set() =~= Set::empty());
    while i < v.len()
        invariant
            all == id_views(v@),
            i <= v.len(),
            strictly_sorted(id_views(r@)),
            id_views(r@).to_set() == all.subrange(0, i as int).to_set(),
        decreases v.len() - i,
    {
        let x = v[i].clone();
        insert_sorted(&mut r, x);
        proof {
            assert(all.subrange(0, i + 1) =~= all.subrange(0, i as int).push(all[i as int]));
            all.subrange(0, i as int).lemma_push_to_set_commute(all[i as int]);
        }
        i = i + 1;
    }
    assert(all.subrange(0, i as int) =~= all);
    r
}

} // verus!
