//! Top-level declarations harvested from one source file: import trees and
//! module declarations, and the flattening of an import tree into the flat
//! (path-segments, glob) references that resolution works on.

use vstd::prelude::*;
use crate::chars::{chars_of_str, copy_range};
use crate::paths::views_of;

verus! {

/// The shape of one `use` item's tree: nested path segments, brace groups,
/// leaf names, renames and glob markers.
pub enum ImportTree {
    Path { segment: String, tree: Box<ImportTree> },
    Name { ident: String },
    Rename { ident: String, alias: String },
    Glob,
    Group { trees: Vec<ImportTree> },
}

/// One top-level declaration of a file. `Other` stands for every item that
/// takes no part in dependency analysis (functions, structs, inline modules
/// and the rest).
pub enum Declaration {
    Import { tree: ImportTree },
    ModDecl { name: String },
    Other,
}

/// The mathematical shape of an import tree.
pub ghost enum ImportTreeView {
    Path { segment: Seq<char>, tree: Box<ImportTreeView> },
    Name { ident: Seq<char> },
    Rename { ident: Seq<char>, alias: Seq<char> },
    Glob,
    Group { trees: Seq<ImportTreeView> },
}

/// The mathematical shape of a declaration.
pub ghost enum DeclarationView {
    Import { tree: ImportTreeView },
    ModDecl { name: Seq<char> },
    Other,
}

pub open spec fn import_tree_view(t: ImportTree) -> ImportTreeView
    decreases t,
{
    match t {
        ImportTree::Path { segment, tree } => ImportTreeView::Path {
            segment: segment@,
            tree: Box::new(import_tree_view(*tree)),
        },
        ImportTree::Name { ident } => ImportTreeView::Name { ident: ident@ },
        ImportTree::Rename { ident, alias } => ImportTreeView::Rename {
            ident: ident@,
            alias: alias@,
        },
        ImportTree::Glob => ImportTreeView::Glob,
        ImportTree::Group { trees } => ImportTreeView::Group { trees: import_trees_view(trees@) },
    }
}

pub open spec fn import_trees_view(ts: Seq<ImportTree>) -> Seq<ImportTreeView>
    decreases ts,
{
    if ts.len() == 0 {
        Seq::empty()
    } else {
        import_trees_view(ts.drop_last()).push(import_tree_view(ts.last()))
    }
}

pub proof fn lemma_import_trees_view(ts: Seq<ImportTree>)
    ensures
        import_trees_view(ts).len() == ts.len(),
        forall|i: int|
            0 <= i < ts.len() ==> #[trigger] import_trees_view(ts)[i] == import_tree_view(ts[i]),
    decreases ts.len(),
{
    if ts.len() > 0 {
        lemma_import_trees_view(ts.drop_last());
    }
}

pub open spec fn declaration_view(d: Declaration) -> DeclarationView {
    match d {
        Declaration::Import { tree } => DeclarationView::Import { tree: import_tree_view(tree) },
        Declaration::ModDecl { name } => DeclarationView::ModDecl { name: name@ },
        Declaration::Other => DeclarationView::Other,
    }
}

pub open spec fn decls_view(ds: Seq<Declaration>) -> Seq<DeclarationView> {
    ds.map_values(|d: Declaration| declaration_view(d))
}

/// One flat reference produced by an import tree: the full path segments as
/// written (for a named import the imported name is the last segment), and
/// whether the leaf was a glob.
pub struct ImportRef {
    pub segments: Vec<Vec<char>>,
    pub glob: bool,
}

/// The mathematical shape of a flat reference.
pub ghost struct ImportRefView {
    pub segments: Seq<Seq<char>>,
    pub glob: bool,
}

pub open spec fn ref_view(r: ImportRef) -> ImportRefView {
    ImportRefView { segments: views_of(r.segments@), glob: r.glob }
}

pub open spec fn refs_view(s: Seq<ImportRef>) -> Seq<ImportRefView> {
    s.map_values(|r: ImportRef| ref_view(r))
}

/// The flat references of an import tree under an accumulated segment
/// prefix: a path pushes its segment, a leaf name or rename records the
/// defined identifier as the final segment, a glob records the prefix
/// itself, and a group concatenates the references of its members in order.
pub open spec fn spec_flatten(t: ImportTreeView, prefix: Seq<Seq<char>>) -> Seq<ImportRefView>
    decreases t,
{
    match t {
        ImportTreeView::Path { segment, tree } => spec_flatten(*tree, prefix.push(segment)),
        ImportTreeView::Name { ident } => seq![
            ImportRefView { segments: prefix.push(ident), glob: false },
        ],
        ImportTreeView::Rename { ident, alias } => seq![
            ImportRefView { segments: prefix.push(ident), glob: false },
        ],
        ImportTreeView::Glob => seq![ImportRefView { segments: prefix, glob: true }],
        ImportTreeView::Group { trees } => spec_flatten_list(trees, prefix),
    }
}

pub open spec fn spec_flatten_list(ts: Seq<ImportTreeView>, prefix: Seq<Seq<char>>) -> Seq<
    ImportRefView,
>
    decreases ts,
{
    if ts.len() == 0 {
        Seq::empty()
    } else {
        spec_flatten_list(ts.drop_last(), prefix) + spec_flatten(ts.last(), prefix)
    }
}

/// A renamed import flattens to exactly what the same import without the
/// rename flattens to: the reference carries the defined identifier, and the
/// local alias plays no part.
pub proof fn lemma_rename_uses_defined_name(
    ident: Seq<char>,
    alias: Seq<char>,
    prefix: Seq<Seq<char>>,
)
    ensures
        spec_flatten(ImportTreeView::Rename { ident, alias }, prefix) == spec_flatten(
            ImportTreeView::Name { ident },
            prefix,
        ),
{
}

/// A fresh copy of a segment list.
pub fn copy_segments(v: &Vec<Vec<char>>) -> (r: Vec<Vec<char>>)
    ensures
        views_of(r@) == views_of(v@),
{
    let mut r: Vec<Vec<char>> = Vec::new();
    let mut i: usize = 0;
    while i < v.len()
        invariant
            i <= v@.len(),
            views_of(r@) == views_of(v@).subrange(0, i as int),
        decreases v@.len() - i,
    {
        let c = copy_range(&v[i], 0, v[i].len());
        let ghost old_r = r@;
        r.push(c);
        proof {
            assert(views_of(old_r).len() == old_r.len());
            assert(old_r.len() == i);
            assert(r@ == old_r.push(c));
            assert forall|j: int| 0 <= j < i + 1 implies views_of(r@)[j] == views_of(v@).subrange(
                0,
                i + 1,
            )[j] by {
                if j < i {
                    assert(r@[j] == old_r[j]);
                    assert(views_of(old_r)[j] == old_r[j]@);
                    assert(views_of(v@).subrange(0, i as int)[j] == views_of(v@)[j]);
                } else {
                    assert(r@[j]@ == v@[i as int]@);
                }
            }
            assert(views_of(r@) =~= views_of(v@).subrange(0, i + 1));
        }
        i = i + 1;
    }
    proof {
        assert(views_of(v@).subrange(0, v@.len() as int) =~= views_of(v@));
    }
    r
}

/// Flattens an import tree under the given prefix of already-seen segments.
pub fn flatten_import_tree(t: &ImportTree, prefix: &Vec<Vec<char>>) -> (out: Vec<ImportRef>)
    ensures
        refs_view(out@) == spec_flatten(import_tree_view(*t), views_of(prefix@)),
    decreases *t,
{
    match t {
        ImportTree::Path { segment, tree } => {
            let mut p2 = copy_segments(prefix);
            p2.push(chars_of_str(segment.as_str()));
            proof {
                assert(views_of(p2@) =~= views_of(prefix@).push(segment@));
            }
            flatten_import_tree(tree, &p2)
        },
        ImportTree::Name { ident } => {
            let mut segs = copy_segments(prefix);
            segs.push(chars_of_str(ident.as_str()));
            proof {
                assert(views_of(segs@) =~= views_of(prefix@).push(ident@));
            }
            let mut out: Vec<ImportRef> = Vec::new();
            out.push(ImportRef { segments: segs, glob: false });
            proof {
                assert(refs_view(out@) =~= seq![
                    ImportRefView { segments: views_of(prefix@).push(ident@), glob: false },
                ]);
            }
            out
        },
        ImportTree::Rename { ident, alias } => {
            let mut segs = copy_segments(prefix);
            segs.push(chars_of_str(ident.as_str()));
            proof {
                assert(views_of(segs@) =~= views_of(prefix@).push(ident@));
            }
            let mut out: Vec<ImportRef> = Vec::new();
            out.push(ImportRef { segments: segs, glob: false });
            proof {
                assert(refs_view(out@) =~= seq![
                    ImportRefView { segments: views_of(prefix@).push(ident@), glob: false },
                ]);
            }
            out
        },
        ImportTree::Glob => {
            let segs = copy_segments(prefix);
            let mut out: Vec<ImportRef> = Vec::new();
            out.push(ImportRef { segments: segs, glob: true });
            proof {
                assert(refs_view(out@) =~= seq![
                    ImportRefView { segments: views_of(prefix@), glob: true },
                ]);
            }
            out
        },
        ImportTree::Group { trees } => {
            let mut out: Vec<ImportRef> = Vec::new();
            let mut i: usize = 0;
            proof {
                lemma_import_trees_view(trees@);
            }
            while i < trees.len()
                invariant
                    i <= trees@.len(),
                    import_trees_view(trees@).len() == trees@.len(),
                    forall|j: int|
                        0 <= j < trees@.len() ==> #[trigger] import_trees_view(trees@)[j]
                            == import_tree_view(trees@[j]),
                    refs_view(out@) == spec_flatten_list(
                        import_trees_view(trees@).subrange(0, i as int),
                        views_of(prefix@),
                    ),
                    *t == (ImportTree::Group { trees: *trees }),
                decreases trees@.len() - i,
            {
                proof {
                    assert(decreases_to!(*t => t->Group_trees));
                    assert(decreases_to!(t->Group_trees => t->Group_trees@[i as int]));
                    assert(t->Group_trees@[i as int] == trees@[i as int]);
                    assert(decreases_to!(*t => trees@[i as int]));
                }
                let mut sub = flatten_import_tree(&trees[i], prefix);
                let ghost old_out = out@;
                let ghost sub_snapshot = sub@;
                out.append(&mut sub);
                proof {
                    let tv = import_trees_view(trees@);
                    assert(tv.subrange(0, i + 1).drop_last() =~= tv.subrange(0, i as int));
                    assert(tv.subrange(0, i + 1).last() == tv[i as int]);
                    assert(refs_view(out@) =~= refs_view(old_out) + refs_view(sub_snapshot));
                }
                i = i + 1;
            }
            proof {
                let tv = import_trees_view(trees@);
                assert(tv.subrange(0, tv.len() as int) =~= tv);
            }
            out
        },
    }
}

} // verus!
