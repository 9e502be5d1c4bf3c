//! The trusted boundary around the `syn` parser: a source text goes in, the
//! library's own declaration values come out. Everything that consumes the
//! result is verified against `spec_parsed_declarations`, a name for what
//! parsing a given text yields.

use vstd::prelude::*;
use crate::decl::{decls_view, Declaration, DeclarationView, ImportTree};

verus! {

#[verifier::external_type_specification]
#[verifier::external_body]
pub struct ExSynItem(syn::Item);

#[verifier::external_type_specification]
#[verifier::external_body]
pub struct ExSynUseTree(syn::UseTree);

/// The declarations that parsing a text yields, or nothing for a text that
/// does not parse. A name for the result of `syn::parse_file`, which depends
/// on the text alone.
pub uninterp spec fn spec_parsed_declarations(s: Seq<char>) -> Option<Seq<DeclarationView>>;

/// Relies on `syn::UseTree`: each variant of the parsed use-tree is carried
/// over one-for-one into the library's import-tree shape, identifiers
/// rendered as strings; for a rename both the defined identifier and the
/// alias are carried.
#[verifier::external_body]
fn import_tree_of(t: &syn::UseTree) -> ImportTree {
    match t {
        syn::UseTree::Path(p) => ImportTree::Path {
            segment: p.ident.to_string(),
            tree: Box::new(import_tree_of(&p.tree)),
        },
        syn::UseTree::Name(n) => ImportTree::Name { ident: n.ident.to_string() },
        syn::UseTree::Rename(r) => ImportTree::Rename {
            ident: r.ident.to_string(),
            alias: r.rename.to_string(),
        },
        syn::UseTree::Glob(_) => ImportTree::Glob,
        syn::UseTree::Group(g) => ImportTree::Group {
            trees: g.items.iter().map(import_tree_of).collect(),
        },
    }
}

/// Relies on `syn::Item`: a `use` item is carried over as an import, a
/// module declaration without a body as a module declaration under its
/// name, and every other item (an inline module among them) as `Other`.
#[verifier::external_body]
fn declaration_of(item: &syn::Item) -> Declaration {
    match item {
        syn::Item::Use(u) => Declaration::Import { tree: import_tree_of(&u.tree) },
        syn::Item::Mod(m) => match &m.content {
            None => Declaration::ModDecl { name: m.ident.to_string() },
            Some(_) => Declaration::Other,
        },
        _ => Declaration::Other,
    }
}

/// Relies on `syn::parse_file`: parsing is a function of the text alone; a
/// text that parses yields its top-level items in their order, a text that
/// does not parse yields nothing.
#[verifier::external_body]
pub fn parse_declarations(content: &str) -> (r: Option<Vec<Declaration>>)
    ensures
        match r {
            Some(ds) => spec_parsed_declarations(content@) == Some(decls_view(ds@)),
            None => spec_parsed_declarations(content@) is None,
        },
{
    match syn::parse_file(content) {
        Ok(file) => Some(file.items.iter().map(declaration_of).collect()),
        Err(_) => None,
    }
}

} // verus!
