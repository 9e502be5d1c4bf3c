//! The path-resolution engine: mapping one flat declaration reference,
//! together with the declaring file's id, to at most one discovered file id.

use vstd::prelude::*;
use crate::chars::{chars_eq, chars_of_str, copy_range, push_all};
use crate::paths::{
    dirname_of, file_name_of, file_stem_of, is_mod_chars, join_path, join_with, append_segments,
    spec_append_segments, spec_dirname, spec_file_name, spec_file_stem, spec_join_path,
    spec_join_with, views_of,
};
use crate::spec_is_mod_file;

verus! {

/// What resolving one reference yields: a target file with the interaction
/// name, nothing (the silent, expected case), or the diagnostic case of a
/// parent-scoped reference in a root-level file.
pub enum Resolution {
    Resolved { target: Vec<char>, name: Vec<char> },
    Unresolved,
    ParentAtRoot,
}

/// The mathematical shape of a resolution outcome.
pub ghost enum ResolutionView {
    Resolved { target: Seq<char>, name: Seq<char> },
    Unresolved,
    ParentAtRoot,
}

pub open spec fn resolution_view(r: Resolution) -> ResolutionView {
    match r {
        Resolution::Resolved { target, name } => ResolutionView::Resolved {
            target: target@,
            name: name@,
        },
        Resolution::Unresolved => ResolutionView::Unresolved,
        Resolution::ParentAtRoot => ResolutionView::ParentAtRoot,
    }
}

/// The directory a file stands for when a self-scoped path begins in it: a
/// directory-index file stands for its own directory, any other file for
/// the sibling directory that shares its stem.
pub open spec fn spec_self_dir(cur: Seq<char>) -> Seq<char> {
    if spec_is_mod_file(cur) {
        spec_dirname(cur)
    } else {
        spec_join_path(spec_dirname(cur), spec_file_stem(spec_file_name(cur)))
    }
}

/// The module path of a reference: for a glob all segments, for a named
/// import everything before the imported name.
pub open spec fn spec_module_path(segments: Seq<Seq<char>>, glob: bool) -> Seq<Seq<char>> {
    if glob {
        segments
    } else {
        segments.drop_last()
    }
}

/// The interaction name of a reference: the imported (pre-rename) name, or
/// for a glob the whole written path joined with `/` and marked `::*`.
pub open spec fn spec_import_name(segments: Seq<Seq<char>>, glob: bool) -> Seq<char> {
    if glob {
        spec_glob_name(segments)
    } else {
        segments.last()
    }
}

/// The synthetic name of a glob import.
pub open spec fn spec_glob_name(segments: Seq<Seq<char>>) -> Seq<char> {
    if segments.len() == 0 {
        "*"@
    } else {
        spec_join_with(segments, '/') + "::*"@
    }
}

/// The directory a module path resolves against, chosen by its first
/// segment: the source root for a crate marker, the parent of the declaring
/// file's directory for a parent marker, the directory the file stands for
/// for a self marker, and the file's own directory otherwise.
pub open spec fn spec_base_dir(ms: Seq<Seq<char>>, cur: Seq<char>) -> Seq<char> {
    if ms.len() == 0 {
        Seq::empty()
    } else if ms[0] == "crate"@ {
        Seq::empty()
    } else if ms[0] == "super"@ {
        spec_dirname(spec_dirname(cur))
    } else if ms[0] == "self"@ {
        spec_self_dir(cur)
    } else {
        spec_dirname(cur)
    }
}

/// The segments joined below the selected base: a leading marker segment is
/// consumed, any other first segment is kept.
pub open spec fn spec_rest_segments(ms: Seq<Seq<char>>) -> Seq<Seq<char>> {
    if ms.len() == 0 {
        ms
    } else if ms[0] == "crate"@ || ms[0] == "super"@ || ms[0] == "self"@ {
        ms.drop_first()
    } else {
        ms
    }
}

/// The two existence hypotheses, tried in order against the discovered-file
/// set: the flat file `<candidate>.rs` first, then the directory index
/// `<candidate>/mod.rs`. An empty candidate path falls back to the source
/// root's entry files where the reference was crate- or self-scoped. A
/// target equal to the declaring file itself is discarded.
pub open spec fn spec_lookup(
    candidate: Seq<char>,
    name: Seq<char>,
    cur: Seq<char>,
    files: Seq<Seq<char>>,
    fallback: bool,
) -> ResolutionView {
    if candidate.len() == 0 {
        if fallback {
            spec_entry_fallback(name, cur, files)
        } else {
            ResolutionView::Unresolved
        }
    } else {
        let flat = candidate + ".rs"@;
        let index = spec_join_path(candidate, "mod.rs"@);
        if files.contains(flat) {
            if flat == cur {
                ResolutionView::Unresolved
            } else {
                ResolutionView::Resolved { target: flat, name }
            }
        } else if files.contains(index) {
            if index == cur {
                ResolutionView::Unresolved
            } else {
                ResolutionView::Resolved { target: index, name }
            }
        } else {
            ResolutionView::Unresolved
        }
    }
}

/// A rootless crate- or self-scoped reference resolves against the source
/// root's entry files, `lib.rs` before `main.rs`; with neither present
/// there is no edge.
pub open spec fn spec_entry_fallback(
    name: Seq<char>,
    cur: Seq<char>,
    files: Seq<Seq<char>>,
) -> ResolutionView {
    if files.contains("lib.rs"@) {
        if "lib.rs"@ == cur {
            ResolutionView::Unresolved
        } else {
            ResolutionView::Resolved { target: "lib.rs"@, name }
        }
    } else if files.contains("main.rs"@) {
        if "main.rs"@ == cur {
            ResolutionView::Unresolved
        } else {
            ResolutionView::Resolved { target: "main.rs"@, name }
        }
    } else {
        ResolutionView::Unresolved
    }
}

/// Resolving one flat import reference from the declaring file `cur`
/// against the discovered-file set.
pub open spec fn spec_resolve_import(
    segments: Seq<Seq<char>>,
    glob: bool,
    cur: Seq<char>,
    files: Seq<Seq<char>>,
) -> ResolutionView {
    if !glob && segments.len() == 0 {
        ResolutionView::Unresolved
    } else {
        let ms = spec_module_path(segments, glob);
        let name = spec_import_name(segments, glob);
        if ms.len() > 0 && ms[0] == "super"@ && spec_dirname(cur).len() == 0 {
            ResolutionView::ParentAtRoot
        } else {
            let candidate = spec_append_segments(spec_base_dir(ms, cur), spec_rest_segments(ms));
            let fallback = !glob && ms.len() > 0 && (ms[0] == "crate"@ || ms[0] == "self"@);
            spec_lookup(candidate, name, cur, files, fallback)
        }
    }
}

/// Resolving a `mod name;` declaration: the same two hypotheses, rooted at
/// the declaring file's own directory, with the module name as the sole
/// segment.
pub open spec fn spec_resolve_mod(
    name: Seq<char>,
    cur: Seq<char>,
    files: Seq<Seq<char>>,
) -> ResolutionView {
    let candidate = spec_join_path(spec_dirname(cur), name);
    spec_lookup(candidate, name, cur, files, false)
}

/// The flat-file hypothesis wins over the directory index: when both forms
/// of a non-empty candidate path exist among the discovered files and the
/// flat form is not the declaring file itself, the flat file is the target.
pub proof fn lemma_flat_file_precedence(
    candidate: Seq<char>,
    name: Seq<char>,
    cur: Seq<char>,
    files: Seq<Seq<char>>,
    fallback: bool,
)
    requires
        candidate.len() > 0,
        files.contains(candidate + ".rs"@),
        files.contains(spec_join_path(candidate, "mod.rs"@)),
        candidate + ".rs"@ != cur,
    ensures
        spec_lookup(candidate, name, cur, files, fallback) == (ResolutionView::Resolved {
            target: candidate + ".rs"@,
            name,
        }),
{
}

/// An unresolvable reference is dropped silently: when neither hypothesis
/// of a non-empty candidate path names a discovered file, resolution yields
/// nothing — no edge, no error.
pub proof fn lemma_unresolved_is_silent(
    candidate: Seq<char>,
    name: Seq<char>,
    cur: Seq<char>,
    files: Seq<Seq<char>>,
    fallback: bool,
)
    requires
        candidate.len() > 0,
        !files.contains(candidate + ".rs"@),
        !files.contains(spec_join_path(candidate, "mod.rs"@)),
    ensures
        spec_lookup(candidate, name, cur, files, fallback) == ResolutionView::Unresolved,
{
}

/// A resolved glob import carries the synthetic `<path>::*` name, the
/// written path joined with `/`.
pub proof fn lemma_glob_name(
    segments: Seq<Seq<char>>,
    cur: Seq<char>,
    files: Seq<Seq<char>>,
    target: Seq<char>,
    name: Seq<char>,
)
    requires
        spec_resolve_import(segments, true, cur, files) == (ResolutionView::Resolved {
            target,
            name,
        }),
    ensures
        name == spec_glob_name(segments),
{
}

/// A named import resolves under the defined name: the interaction name of
/// any resolved non-glob reference is the reference's final segment (for a
/// renamed import the pre-rename identifier), never a local alias.
pub proof fn lemma_import_name_is_last_segment(
    segments: Seq<Seq<char>>,
    cur: Seq<char>,
    files: Seq<Seq<char>>,
    target: Seq<char>,
    name: Seq<char>,
)
    requires
        spec_resolve_import(segments, false, cur, files) == (ResolutionView::Resolved {
            target,
            name,
        }),
    ensures
        segments.len() > 0,
        name == segments.last(),
{
}

/// A parent-scoped reference in a root-level file resolves to the
/// diagnostic outcome: no edge, never a crash.
pub proof fn lemma_parent_scope_at_root(
    segments: Seq<Seq<char>>,
    glob: bool,
    cur: Seq<char>,
    files: Seq<Seq<char>>,
)
    requires
        spec_dirname(cur).len() == 0,
        spec_module_path(segments, glob).len() > 0,
        spec_module_path(segments, glob)[0] == "super"@,
        glob || segments.len() > 0,
    ensures
        spec_resolve_import(segments, glob, cur, files) == ResolutionView::ParentAtRoot,
{
}

/// Whether `id` is one of the discovered file ids.
pub fn contains_id(files: &Vec<Vec<char>>, id: &Vec<char>) -> (r: bool)
    ensures
        r == views_of(files@).contains(id@),
{
    let mut i: usize = 0;
    while i < files.len()
        invariant
            i <= files@.len(),
            forall|j: int| 0 <= j < i ==> views_of(files@)[j] != id@,
        decreases files@.len() - i,
    {
        proof {
            assert(views_of(files@)[i as int] == files@[i as int]@);
        }
        if chars_eq(&files[i], id) {
            proof {
                assert(views_of(files@)[i as int] == id@);
            }
            return true;
        }
        i = i + 1;
    }
    proof {
        if views_of(files@).contains(id@) {
            let j = choose|j: int| 0 <= j < views_of(files@).len() && views_of(files@)[j] == id@;
            assert(views_of(files@)[j] != id@);
        }
    }
    false
}

fn copy_segments_range(v: &Vec<Vec<char>>, from: usize, to: usize) -> (r: Vec<Vec<char>>)
    requires
        from <= to <= v@.len(),
    ensures
        views_of(r@) == views_of(v@).subrange(from as int, to as int),
{
    let mut r: Vec<Vec<char>> = Vec::new();
    let mut i: usize = from;
    while i < to
        invariant
            from <= i <= to <= v@.len(),
            views_of(r@) == views_of(v@).subrange(from as int, i as int),
        decreases to - i,
    {
        let c = copy_range(&v[i], 0, v[i].len());
        let ghost old_r = r@;
        r.push(c);
        proof {
            assert(views_of(old_r).len() == old_r.len());
            assert forall|j: int| 0 <= j < i + 1 - from implies views_of(r@)[j] == views_of(
                v@,
            ).subrange(from as int, i + 1)[j] by {
                if j < i - from {
                    assert(r@[j] == old_r[j]);
                    assert(views_of(old_r)[j] == old_r[j]@);
                    assert(views_of(v@).subrange(from as int, i as int)[j] == views_of(v@)[from
                        + j]);
                } else {
                    assert(r@[j]@ == v@[i as int]@);
                }
            }
            assert(views_of(r@) =~= views_of(v@).subrange(from as int, i + 1));
        }
        i = i + 1;
    }
    r
}

fn self_dir_of(cur: &Vec<char>) -> (r: Vec<char>)
    ensures
        r@ == spec_self_dir(cur@),
{
    if is_mod_chars(cur) {
        dirname_of(cur)
    } else {
        let d = dirname_of(cur);
        let fname = file_name_of(cur);
        let stem = file_stem_of(&fname);
        join_path(&d, &stem)
    }
}

/// Looks a candidate path up among the discovered files, flat form first.
fn lookup_candidate(
    candidate: &Vec<char>,
    name: Vec<char>,
    cur: &Vec<char>,
    files: &Vec<Vec<char>>,
    fallback: bool,
) -> (r: Resolution)
    ensures
        resolution_view(r) == spec_lookup(candidate@, name@, cur@, views_of(files@), fallback),
{
    if candidate.len() == 0 {
        if fallback {
            let lib = chars_of_str("lib.rs");
            if contains_id(files, &lib) {
                if chars_eq(&lib, cur) {
                    return Resolution::Unresolved;
                }
                return Resolution::Resolved { target: lib, name };
            }
            let main = chars_of_str("main.rs");
            if contains_id(files, &main) {
                if chars_eq(&main, cur) {
                    return Resolution::Unresolved;
                }
                return Resolution::Resolved { target: main, name };
            }
            return Resolution::Unresolved;
        }
        return Resolution::Unresolved;
    }
    let mut flat = copy_range(candidate, 0, candidate.len());
    let ext = chars_of_str(".rs");
    push_all(&mut flat, &ext);
    proof {
        assert(flat@ =~= candidate@ + ".rs"@);
    }
    if contains_id(files, &flat) {
        if chars_eq(&flat, cur) {
            return Resolution::Unresolved;
        }
        return Resolution::Resolved { target: flat, name };
    }
    let modname = chars_of_str("mod.rs");
    let index = join_path(candidate, &modname);
    if contains_id(files, &index) {
        if chars_eq(&index, cur) {
            return Resolution::Unresolved;
        }
        return Resolution::Resolved { target: index, name };
    }
    Resolution::Unresolved
}

/// Resolves one flat import reference against the discovered files.
pub fn resolve_import(
    segments: &Vec<Vec<char>>,
    glob: bool,
    cur: &Vec<char>,
    files: &Vec<Vec<char>>,
) -> (r: Resolution)
    ensures
        resolution_view(r) == spec_resolve_import(views_of(segments@), glob, cur@, views_of(files@)),
{
    let n = segments.len();
    if !glob && n == 0 {
        return Resolution::Unresolved;
    }
    let ghost segs = views_of(segments@);
    // The module path and the interaction name.
    let ms: Vec<Vec<char>> = if glob {
        copy_segments_range(segments, 0, n)
    } else {
        copy_segments_range(segments, 0, n - 1)
    };
    proof {
        if glob {
            assert(views_of(ms@) =~= spec_module_path(segs, glob));
        } else {
            assert(views_of(ms@) =~= segs.drop_last());
        }
    }
    let name: Vec<char> = if glob {
        if segments.len() == 0 {
            let star = chars_of_str("*");
            star
        } else {
            let mut g = join_with(segments, '/');
            let marker = chars_of_str("::*");
            push_all(&mut g, &marker);
            g
        }
    } else {
        proof {
            assert(views_of(segments@)[n - 1] == segments@[n - 1]@);
        }
        copy_range(&segments[n - 1], 0, segments[n - 1].len())
    };
    proof {
        assert(name@ == spec_import_name(segs, glob));
    }
    let kw_crate = chars_of_str("crate");
    let kw_super = chars_of_str("super");
    let kw_self = chars_of_str("self");
    proof {
        reveal_strlit("crate");
        reveal_strlit("super");
        reveal_strlit("self");
        assert("crate"@[0] != "super"@[0]);
        assert("crate"@ != "super"@);
        assert("self"@.len() != "super"@.len());
        assert("self"@ != "super"@);
        assert("crate"@.len() != "self"@.len());
        assert("crate"@ != "self"@);
    }
    let mut fallback = false;
    let base: Vec<char>;
    let rest: Vec<Vec<char>>;
    let ghost msv = views_of(ms@);
    if ms.len() == 0 {
        base = Vec::new();
        rest = Vec::new();
        proof {
            assert(base@ =~= spec_base_dir(msv, cur@));
            assert(views_of(rest@) =~= spec_rest_segments(msv));
        }
    } else {
        proof {
            assert(msv[0] == ms@[0]@);
        }
        if chars_eq(&ms[0], &kw_crate) {
            base = Vec::new();
            rest = copy_segments_range(&ms, 1, ms.len());
            fallback = !glob;
            proof {
                assert(base@ =~= spec_base_dir(msv, cur@));
                assert(views_of(rest@) =~= msv.drop_first());
            }
        } else if chars_eq(&ms[0], &kw_super) {
            let own_dir = dirname_of(cur);
            if own_dir.len() == 0 {
                return Resolution::ParentAtRoot;
            }
            base = dirname_of(&own_dir);
            rest = copy_segments_range(&ms, 1, ms.len());
            proof {
                assert(base@ == spec_base_dir(msv, cur@));
                assert(views_of(rest@) =~= msv.drop_first());
            }
        } else if chars_eq(&ms[0], &kw_self) {
            base = self_dir_of(cur);
            rest = copy_segments_range(&ms, 1, ms.len());
            fallback = !glob;
            proof {
                assert(base@ == spec_base_dir(msv, cur@));
                assert(views_of(rest@) =~= msv.drop_first());
            }
        } else {
            base = dirname_of(cur);
            rest = copy_segments_range(&ms, 0, ms.len());
            proof {
                assert(base@ == spec_base_dir(msv, cur@));
                assert(views_of(rest@) =~= msv);
            }
        }
    }
    let candidate = append_segments(&base, &rest);
    lookup_candidate(&candidate, name, cur, files, fallback)
}

/// Resolves a `mod name;` declaration against the discovered files.
pub fn resolve_mod_decl(name: &Vec<char>, cur: &Vec<char>, files: &Vec<Vec<char>>) -> (r:
    Resolution)
    ensures
        resolution_view(r) == spec_resolve_mod(name@, cur@, views_of(files@)),
{
    let d = dirname_of(cur);
    let candidate = join_path(&d, name);
    let name_copy = copy_range(name, 0, name.len());
    proof {
        assert(name_copy@ =~= name@);
    }
    lookup_candidate(&candidate, name_copy, cur, files, false)
}

} // verus!
