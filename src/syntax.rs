//! The declarations of a parsed source file, as plain values: what extraction
//! reads of the syntax tree.

use vstd::prelude::*;

use crate::models::ItemKind;

verus! {

/// A `use` tree.
#[derive(Debug)]
pub enum UseTree {
    /// `segment :: rest`
    Path(String, Box<UseTree>),
    /// A final name.
    Name(String),
    /// `name as rename`
    Rename(String, String),
    /// `*`
    Glob,
    /// `{a, b, ...}`
    Group(Vec<UseTree>),
}

/// One declaration of a source file, with the declarations nested in it.
#[derive(Debug)]
pub struct Decl {
    pub kind: ItemKind,
    /// The declared name; for an implementation block, `impl_` followed by the
    /// name of the implementing type.
    pub ident: String,
    /// The first line of the declaration, its attributes included (1-based).
    pub first_line: usize,
    /// The last line of the declaration (1-based).
    pub last_line: usize,
    /// The first line of each named field or variant of a struct or enum.
    pub field_lines: Vec<usize>,
    /// The members of an implementation block or trait, or the items of an
    /// inline module.
    pub members: Vec<Decl>,
    /// The tree of a `use` declaration.
    pub use_tree: Option<UseTree>,
    /// The `use` statements inside a function body.
    pub scope_uses: Vec<UseTree>,
}

} // verus!
