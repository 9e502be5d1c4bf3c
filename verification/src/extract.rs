//! Per-file extraction: the declarations of one file, flattened and
//! resolved, become that file's direct targets with their interaction sets.

use vstd::prelude::*;
use crate::chars::{chars_of_str, copy_range};
use crate::decl::{
    decls_view, flatten_import_tree, refs_view, spec_flatten, Declaration, DeclarationView,
    ImportRefView,
};
use crate::inter::{
    insert_inter, inter_view, inters_view, spec_insert_inter, Inter, InteractionKind, InterView,
};
use crate::paths::views_of;
use crate::resolve::{
    resolve_import, resolve_mod_decl, spec_resolve_import, spec_resolve_mod, ResolutionView,
};

verus! {

/// One direct target of a file: the target's node index and the ordered
/// interaction set along the pair.
pub struct TargetInters {
    pub target: usize,
    pub inters: Vec<Inter>,
}

pub open spec fn ti_view(t: TargetInters) -> (int, Seq<InterView>) {
    (t.target as int, inters_view(t.inters@))
}

pub open spec fn tis_view(s: Seq<TargetInters>) -> Seq<(int, Seq<InterView>)> {
    s.map_values(|t: TargetInters| ti_view(t))
}

/// The running state of one file's extraction: the direct targets found so
/// far, in order of first appearance, and the diagnostics reported so far.
pub ghost struct ExtractState {
    pub targets: Seq<(int, Seq<InterView>)>,
    pub diags: Seq<crate::graph::DiagnosticView>,
}

/// The index of the first occurrence of `id` in the discovered-file list.
pub open spec fn spec_index_of(files: Seq<Seq<char>>, id: Seq<char>) -> int
    decreases files.len(),
{
    if files.len() == 0 {
        0
    } else if files[0] == id {
        0
    } else {
        1 + spec_index_of(files.drop_first(), id)
    }
}

pub proof fn lemma_index_of(files: Seq<Seq<char>>, id: Seq<char>)
    requires
        files.contains(id),
    ensures
        0 <= spec_index_of(files, id) < files.len(),
        files[spec_index_of(files, id)] == id,
    decreases files.len(),
{
    if files.len() > 0 && files[0] != id {
        let t = files.drop_first();
        assert(t.contains(id)) by {
            let j = choose|j: int| 0 <= j < files.len() && files[j] == id;
            assert(t[j - 1] == id);
        }
        lemma_index_of(t, id);
    }
}

/// Recording one interaction under a target index: merged into the
/// target's existing set, or opening a new entry at the end.
pub open spec fn spec_add_target(
    ts: Seq<(int, Seq<InterView>)>,
    t: int,
    x: InterView,
) -> Seq<(int, Seq<InterView>)>
    decreases ts.len(),
{
    if ts.len() == 0 {
        seq![(t, seq![x])]
    } else if ts[0].0 == t {
        seq![(ts[0].0, spec_insert_inter(ts[0].1, x))] + ts.drop_first()
    } else {
        seq![ts[0]] + spec_add_target(ts.drop_first(), t, x)
    }
}

/// One flat import reference applied to the state.
pub open spec fn spec_apply_ref(
    r: ImportRefView,
    cur: Seq<char>,
    files: Seq<Seq<char>>,
    st: ExtractState,
) -> ExtractState {
    match spec_resolve_import(r.segments, r.glob, cur, files) {
        ResolutionView::Resolved { target, name } => ExtractState {
            targets: spec_add_target(
                st.targets,
                spec_index_of(files, target),
                InterView { kind: InteractionKind::Import, name },
            ),
            diags: st.diags,
        },
        ResolutionView::Unresolved => st,
        ResolutionView::ParentAtRoot => ExtractState {
            targets: st.targets,
            diags: st.diags.push(crate::graph::DiagnosticView::ParentScopeAtRoot { file: cur }),
        },
    }
}

pub open spec fn spec_extract_refs(
    refs: Seq<ImportRefView>,
    cur: Seq<char>,
    files: Seq<Seq<char>>,
    st: ExtractState,
) -> ExtractState
    decreases refs.len(),
{
    if refs.len() == 0 {
        st
    } else {
        spec_extract_refs(refs.drop_first(), cur, files, spec_apply_ref(refs[0], cur, files, st))
    }
}

/// One module declaration applied to the state.
pub open spec fn spec_apply_mod(
    name: Seq<char>,
    cur: Seq<char>,
    files: Seq<Seq<char>>,
    st: ExtractState,
) -> ExtractState {
    match spec_resolve_mod(name, cur, files) {
        ResolutionView::Resolved { target, name: n } => ExtractState {
            targets: spec_add_target(
                st.targets,
                spec_index_of(files, target),
                InterView { kind: InteractionKind::ModuleDecl, name: n },
            ),
            diags: st.diags,
        },
        _ => st,
    }
}

/// One declaration applied to the state.
pub open spec fn spec_apply_decl(
    d: DeclarationView,
    cur: Seq<char>,
    files: Seq<Seq<char>>,
    st: ExtractState,
) -> ExtractState {
    match d {
        DeclarationView::Import { tree } => spec_extract_refs(
            spec_flatten(tree, Seq::empty()),
            cur,
            files,
            st,
        ),
        DeclarationView::ModDecl { name } => spec_apply_mod(name, cur, files, st),
        DeclarationView::Other => st,
    }
}

pub open spec fn spec_extract_decls(
    decls: Seq<DeclarationView>,
    cur: Seq<char>,
    files: Seq<Seq<char>>,
    st: ExtractState,
) -> ExtractState
    decreases decls.len(),
{
    if decls.len() == 0 {
        st
    } else {
        spec_extract_decls(
            decls.drop_first(),
            cur,
            files,
            spec_apply_decl(decls[0], cur, files, st),
        )
    }
}

/// The whole extraction of one file, from an empty state.
pub open spec fn spec_extract_file(
    decls: Seq<DeclarationView>,
    cur: Seq<char>,
    files: Seq<Seq<char>>,
) -> ExtractState {
    spec_extract_decls(
        decls,
        cur,
        files,
        ExtractState { targets: Seq::empty(), diags: Seq::empty() },
    )
}

/// A target resolution always names a discovered file.
pub proof fn lemma_resolved_import_target_in_files(
    segments: Seq<Seq<char>>,
    glob: bool,
    cur: Seq<char>,
    files: Seq<Seq<char>>,
)
    ensures
        (spec_resolve_import(segments, glob, cur, files) matches ResolutionView::Resolved {
            target,
            ..
        } ==> files.contains(target)),
{
}

pub proof fn lemma_resolved_mod_target_in_files(
    name: Seq<char>,
    cur: Seq<char>,
    files: Seq<Seq<char>>,
)
    ensures
        (spec_resolve_mod(name, cur, files) matches ResolutionView::Resolved { target, .. }
            ==> files.contains(target)),
{
}

/// Every target of the list is a file index, and every interaction set is
/// strictly ascending.
pub open spec fn spec_targets_ok(ts: Seq<(int, Seq<InterView>)>, n: int) -> bool {
    forall|i: int|
        0 <= i < ts.len() ==> 0 <= (#[trigger] ts[i]).0 < n && crate::inter::spec_sorted_inters(
            ts[i].1,
        )
}

pub proof fn lemma_add_target_ok(ts: Seq<(int, Seq<InterView>)>, t: int, x: InterView, n: int)
    requires
        spec_targets_ok(ts, n),
        0 <= t < n,
    ensures
        spec_targets_ok(spec_add_target(ts, t, x), n),
    decreases ts.len(),
{
    let r = spec_add_target(ts, t, x);
    if ts.len() == 0 {
        assert(crate::inter::spec_sorted_inters(seq![x]));
        assert(r[0] == (t, seq![x]));
    } else if ts[0].0 == t {
        crate::inter::lemma_insert_inter_sorted(ts[0].1, x);
        assert forall|i: int| 0 <= i < r.len() implies 0 <= (#[trigger] r[i]).0 < n
            && crate::inter::spec_sorted_inters(r[i].1) by {
            if i > 0 {
                assert(r[i] == ts.drop_first()[i - 1]);
                assert(ts.drop_first()[i - 1] == ts[i]);
            }
        }
    } else {
        let td = ts.drop_first();
        assert(forall|i: int| 0 <= i < td.len() ==> td[i] == ts[i + 1]);
        lemma_add_target_ok(td, t, x, n);
        assert forall|i: int| 0 <= i < r.len() implies 0 <= (#[trigger] r[i]).0 < n
            && crate::inter::spec_sorted_inters(r[i].1) by {
            if i > 0 {
                assert(r[i] == spec_add_target(td, t, x)[i - 1]);
            }
        }
    }
}

pub proof fn lemma_apply_ref_ok(
    r: ImportRefView,
    cur: Seq<char>,
    files: Seq<Seq<char>>,
    st: ExtractState,
)
    requires
        spec_targets_ok(st.targets, files.len() as int),
    ensures
        spec_targets_ok(spec_apply_ref(r, cur, files, st).targets, files.len() as int),
{
    match spec_resolve_import(r.segments, r.glob, cur, files) {
        ResolutionView::Resolved { target, name } => {
            lemma_resolved_import_target_in_files(r.segments, r.glob, cur, files);
            lemma_index_of(files, target);
            lemma_add_target_ok(
                st.targets,
                spec_index_of(files, target),
                InterView { kind: InteractionKind::Import, name },
                files.len() as int,
            );
        },
        _ => {},
    }
}

pub proof fn lemma_extract_refs_ok(
    refs: Seq<ImportRefView>,
    cur: Seq<char>,
    files: Seq<Seq<char>>,
    st: ExtractState,
)
    requires
        spec_targets_ok(st.targets, files.len() as int),
    ensures
        spec_targets_ok(spec_extract_refs(refs, cur, files, st).targets, files.len() as int),
    decreases refs.len(),
{
    if refs.len() > 0 {
        lemma_apply_ref_ok(refs[0], cur, files, st);
        lemma_extract_refs_ok(refs.drop_first(), cur, files, spec_apply_ref(refs[0], cur, files, st));
    }
}

pub proof fn lemma_apply_decl_ok(
    d: DeclarationView,
    cur: Seq<char>,
    files: Seq<Seq<char>>,
    st: ExtractState,
)
    requires
        spec_targets_ok(st.targets, files.len() as int),
    ensures
        spec_targets_ok(spec_apply_decl(d, cur, files, st).targets, files.len() as int),
{
    match d {
        DeclarationView::Import { tree } => {
            lemma_extract_refs_ok(spec_flatten(tree, Seq::empty()), cur, files, st);
        },
        DeclarationView::ModDecl { name } => {
            match spec_resolve_mod(name, cur, files) {
                ResolutionView::Resolved { target, name: n } => {
                    lemma_resolved_mod_target_in_files(name, cur, files);
                    lemma_index_of(files, target);
                    lemma_add_target_ok(
                        st.targets,
                        spec_index_of(files, target),
                        InterView { kind: InteractionKind::ModuleDecl, name: n },
                        files.len() as int,
                    );
                },
                _ => {},
            }
        },
        DeclarationView::Other => {},
    }
}

pub proof fn lemma_extract_decls_ok(
    decls: Seq<DeclarationView>,
    cur: Seq<char>,
    files: Seq<Seq<char>>,
    st: ExtractState,
)
    requires
        spec_targets_ok(st.targets, files.len() as int),
    ensures
        spec_targets_ok(spec_extract_decls(decls, cur, files, st).targets, files.len() as int),
    decreases decls.len(),
{
    if decls.len() > 0 {
        lemma_apply_decl_ok(decls[0], cur, files, st);
        lemma_extract_decls_ok(
            decls.drop_first(),
            cur,
            files,
            spec_apply_decl(decls[0], cur, files, st),
        );
    }
}

/// Everything one file's extraction records is a file index with a strictly
/// ascending interaction set.
pub proof fn lemma_extract_file_ok(decls: Seq<DeclarationView>, cur: Seq<char>, files: Seq<Seq<char>>)
    ensures
        spec_targets_ok(spec_extract_file(decls, cur, files).targets, files.len() as int),
{
    lemma_extract_decls_ok(
        decls,
        cur,
        files,
        ExtractState { targets: Seq::empty(), diags: Seq::empty() },
    );
}

/// The index of `id` in the discovered-file list.
fn index_of_id(files: &Vec<Vec<char>>, id: &Vec<char>) -> (k: usize)
    requires
        views_of(files@).contains(id@),
    ensures
        k as int == spec_index_of(views_of(files@), id@),
        k < files@.len(),
        views_of(files@)[k as int] == id@,
{
    let ghost fv = views_of(files@);
    proof {
        lemma_index_of(fv, id@);
        assert(fv.subrange(0, fv.len() as int) =~= fv);
    }
    let n = files.len();
    let mut i: usize = 0;
    while i < n
        invariant
            i <= n,
            n == files@.len(),
            fv == views_of(files@),
            fv.contains(id@),
            spec_index_of(fv, id@) == i + spec_index_of(fv.subrange(i as int, n as int), id@),
        decreases n - i,
    {
        let ghost suf = fv.subrange(i as int, n as int);
        proof {
            assert(suf[0] == fv[i as int]);
            assert(fv[i as int] == files@[i as int]@);
        }
        if crate::chars::chars_eq(&files[i], id) {
            proof {
                lemma_index_of(fv, id@);
            }
            return i;
        }
        proof {
            assert(suf.drop_first() =~= fv.subrange(i + 1, n as int));
        }
        i = i + 1;
    }
    proof {
        lemma_index_of(fv, id@);
        assert(false);
    }
    vstd::pervasive::unreached()
}

/// Records one interaction under a target index.
fn add_target(ts: &mut Vec<TargetInters>, t: usize, x: Inter)
    ensures
        tis_view(final(ts)@) == spec_add_target(tis_view(old(ts)@), t as int, inter_view(x)),
{
    let ghost s0 = tis_view(old(ts)@);
    let ghost xv = inter_view(x);
    let n = ts.len();
    let mut i: usize = 0;
    proof {
        assert(s0.subrange(0, 0) =~= Seq::<(int, Seq<InterView>)>::empty());
        assert(s0.subrange(0, n as int) =~= s0);
    }
    while i < n && ts[i].target != t
        invariant
            i <= n,
            n == ts@.len(),
            tis_view(ts@) == s0,
            xv == inter_view(x),
            spec_add_target(s0, t as int, xv) == s0.subrange(0, i as int) + spec_add_target(
                s0.subrange(i as int, n as int),
                t as int,
                xv,
            ),
        decreases n - i,
    {
        let ghost suf = s0.subrange(i as int, n as int);
        proof {
            assert(suf[0] == s0[i as int]);
            assert(tis_view(ts@)[i as int] == ti_view(ts@[i as int]));
            assert(suf[0].0 != t as int);
            assert(spec_add_target(suf, t as int, xv) == seq![suf[0]] + spec_add_target(
                suf.drop_first(),
                t as int,
                xv,
            ));
            assert(suf.drop_first() =~= s0.subrange(i + 1, n as int));
            assert(s0.subrange(0, i as int) + (seq![suf[0]] + spec_add_target(
                s0.subrange(i + 1, n as int),
                t as int,
                xv,
            )) =~= (s0.subrange(0, i as int) + seq![suf[0]]) + spec_add_target(
                s0.subrange(i + 1, n as int),
                t as int,
                xv,
            ));
            assert(s0.subrange(0, i as int) + seq![suf[0]] =~= s0.subrange(0, i + 1));
        }
        i = i + 1;
    }
    let ghost suf = s0.subrange(i as int, n as int);
    if i < n {
        proof {
            assert(suf[0] == s0[i as int]);
            assert(tis_view(ts@)[i as int] == ti_view(ts@[i as int]));
            assert(suf[0].0 == t as int);
            assert(spec_add_target(suf, t as int, xv) == seq![
                (suf[0].0, spec_insert_inter(suf[0].1, xv)),
            ] + suf.drop_first());
        }
        let mut e = ts.remove(i);
        insert_inter(&mut e.inters, x);
        let ghost ev = ti_view(e);
        ts.insert(i, e);
        proof {
            assert(ev.0 == t as int);
            assert(ev.1 == spec_insert_inter(suf[0].1, xv));
            assert forall|j: int| 0 <= j < ts@.len() implies tis_view(ts@)[j] == (s0.subrange(
                0,
                i as int,
            ) + (seq![(suf[0].0, spec_insert_inter(suf[0].1, xv))] + suf.drop_first()))[j] by {
                assert(tis_view(ts@)[j] == ti_view(ts@[j]));
                if j < i {
                    assert(ts@[j] == old(ts)@[j]);
                    assert(tis_view(old(ts)@)[j] == ti_view(old(ts)@[j]));
                } else if j == i {
                } else {
                    assert(ts@[j] == old(ts)@[j]);
                    assert(tis_view(old(ts)@)[j] == ti_view(old(ts)@[j]));
                    assert(suf.drop_first()[j - i - 1] == s0[j]);
                }
            }
            assert(tis_view(ts@) =~= s0.subrange(0, i as int) + (seq![
                (suf[0].0, spec_insert_inter(suf[0].1, xv)),
            ] + suf.drop_first()));
        }
    } else {
        proof {
            assert(suf.len() == 0);
            assert(spec_add_target(suf, t as int, xv) == seq![(t as int, seq![xv])]);
        }
        let mut inters: Vec<Inter> = Vec::new();
        inters.push(x);
        let e = TargetInters { target: t, inters };
        let ghost ev = ti_view(e);
        ts.push(e);
        proof {
            assert(ev.1 =~= seq![xv]);
            assert(tis_view(ts@) =~= tis_view(old(ts)@).push(ev));
            assert(s0.subrange(0, i as int) =~= s0);
            assert(s0 + seq![(t as int, seq![xv])] =~= s0.push((t as int, seq![xv])));
            assert(tis_view(old(ts)@).push(ev) =~= s0.push((t as int, seq![xv])));
        }
    }
}

/// Extracts one file's direct targets and diagnostics from its parsed
/// declarations.
pub fn extract_file(decls: &Vec<Declaration>, cur: &Vec<char>, files: &Vec<Vec<char>>) -> (r: (
    Vec<TargetInters>,
    Vec<crate::graph::Diagnostic>,
))
    ensures
        spec_extract_file(decls_view(decls@), cur@, views_of(files@)) == (ExtractState {
            targets: tis_view(r.0@),
            diags: crate::graph::diagnostics_view(r.1@),
        }),
{
    let ghost dv = decls_view(decls@);
    let ghost fv = views_of(files@);
    let mut targets: Vec<TargetInters> = Vec::new();
    let mut diags: Vec<crate::graph::Diagnostic> = Vec::new();
    let mut di: usize = 0;
    proof {
        assert(dv.subrange(0, dv.len() as int) =~= dv);
        assert(tis_view(targets@) =~= Seq::<(int, Seq<InterView>)>::empty());
        assert(crate::graph::diagnostics_view(diags@)
            =~= Seq::<crate::graph::DiagnosticView>::empty());
    }
    while di < decls.len()
        invariant
            di <= decls@.len(),
            dv == decls_view(decls@),
            fv == views_of(files@),
            spec_extract_file(dv, cur@, fv) == spec_extract_decls(
                dv.subrange(di as int, dv.len() as int),
                cur@,
                fv,
                ExtractState { targets: tis_view(targets@), diags: crate::graph::diagnostics_view(diags@) },
            ),
        decreases decls@.len() - di,
    {
        let ghost rem = dv.subrange(di as int, dv.len() as int);
        proof {
            assert(rem[0] == dv[di as int]);
            assert(dv[di as int] == crate::decl::declaration_view(decls@[di as int]));
            assert(rem.drop_first() =~= dv.subrange(di + 1, dv.len() as int));
        }
        let ghost st0 = ExtractState { targets: tis_view(targets@), diags: crate::graph::diagnostics_view(diags@) };
        match &decls[di] {
            Declaration::Import { tree } => {
                let prefix: Vec<Vec<char>> = Vec::new();
                proof {
                    assert(views_of(prefix@) =~= Seq::<Seq<char>>::empty());
                }
                let refs = flatten_import_tree(tree, &prefix);
                let ghost rv = refs_view(refs@);
                let mut ri: usize = 0;
                proof {
                    assert(rv.subrange(0, rv.len() as int) =~= rv);
                }
                while ri < refs.len()
                    invariant
                        ri <= refs@.len(),
                        rv == refs_view(refs@),
                        fv == views_of(files@),
                        spec_extract_refs(rv, cur@, fv, st0) == spec_extract_refs(
                            rv.subrange(ri as int, rv.len() as int),
                            cur@,
                            fv,
                            ExtractState { targets: tis_view(targets@), diags: crate::graph::diagnostics_view(diags@) },
                        ),
                    decreases refs@.len() - ri,
                {
                    let ghost rrem = rv.subrange(ri as int, rv.len() as int);
                    let ghost st_here = ExtractState {
                        targets: tis_view(targets@),
                        diags: crate::graph::diagnostics_view(diags@),
                    };
                    proof {
                        assert(rrem[0] == rv[ri as int]);
                        assert(rv[ri as int] == crate::decl::ref_view(refs@[ri as int]));
                        assert(rrem.drop_first() =~= rv.subrange(ri + 1, rv.len() as int));
                    }
                    let r = resolve_import(&refs[ri].segments, refs[ri].glob, cur, files);
                    proof {
                        lemma_resolved_import_target_in_files(
                            rrem[0].segments,
                            rrem[0].glob,
                            cur@,
                            fv,
                        );
                    }
                    match r {
                        crate::resolve::Resolution::Resolved { target, name } => {
                            let k = index_of_id(files, &target);
                            add_target(
                                &mut targets,
                                k,
                                Inter { kind: InteractionKind::Import, name },
                            );
                        },
                        crate::resolve::Resolution::Unresolved => {},
                        crate::resolve::Resolution::ParentAtRoot => {
                            let c = copy_range(cur, 0, cur.len());
                            proof {
                                assert(c@ =~= cur@);
                            }
                            let d = crate::graph::Diagnostic::ParentScopeAtRoot {
                                file: crate::chars::string_from_chars(&c),
                            };
                            let ghost old_d = diags@;
                            diags.push(d);
                            proof {
                                assert(crate::graph::diagnostics_view(diags@)
                                    =~= crate::graph::diagnostics_view(old_d).push(
                                    crate::graph::DiagnosticView::ParentScopeAtRoot {
                                        file: cur@,
                                    },
                                ));
                            }
                        },
                    }
                    proof {
                        assert(ExtractState {
                            targets: tis_view(targets@),
                            diags: crate::graph::diagnostics_view(diags@),
                        } == spec_apply_ref(rrem[0], cur@, fv, st_here));
                    }
                    ri = ri + 1;
                }
                proof {
                    assert(rv.subrange(rv.len() as int, rv.len() as int)
                        =~= Seq::<ImportRefView>::empty());
                    assert(spec_apply_decl(rem[0], cur@, fv, st0) == ExtractState {
                        targets: tis_view(targets@),
                        diags: crate::graph::diagnostics_view(diags@),
                    });
                }
                di = di + 1;
            },
            Declaration::ModDecl { name } => {
                let nm = chars_of_str(name.as_str());
                let r = resolve_mod_decl(&nm, cur, files);
                proof {
                    lemma_resolved_mod_target_in_files(nm@, cur@, fv);
                }
                match r {
                    crate::resolve::Resolution::Resolved { target, name: n } => {
                        let k = index_of_id(files, &target);
                        add_target(
                            &mut targets,
                            k,
                            Inter { kind: InteractionKind::ModuleDecl, name: n },
                        );
                    },
                    _ => {},
                }
                proof {
                    assert(spec_apply_decl(rem[0], cur@, fv, st0) == ExtractState {
                        targets: tis_view(targets@),
                        diags: crate::graph::diagnostics_view(diags@),
                    });
                }
                di = di + 1;
            },
            Declaration::Other => {
                proof {
                    assert(spec_apply_decl(rem[0], cur@, fv, st0) == st0);
                }
                di = di + 1;
            },
        }
    }
    proof {
        assert(dv.subrange(dv.len() as int, dv.len() as int) =~= Seq::<DeclarationView>::empty());
    }
    (targets, diags)
}

} // verus!
