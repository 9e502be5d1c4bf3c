//! The analysis pipeline: locate the source root, index the source files,
//! extract and resolve each file's declarations, propagate through
//! directory-index files, and assemble the graph.

use vstd::prelude::*;
use crate::chars::{chars_eq, chars_of_str, copy_range, string_from_chars};
use crate::decl::{Declaration, DeclarationView};
use crate::extract::{extract_file, spec_extract_file, tis_view, ExtractState, TargetInters};
use crate::graph::{
    diagnostics_view, graph_view, AnalyzerError, Diagnostic, Edge, EdgeView, GraphView,
    ModuleGraph, Node, NodeView,
};
use crate::inter::{inter_view, Interaction, InterView};
use crate::lines::{count_code_lines, spec_count_code_lines};
use crate::parse::{parse_declarations, spec_parsed_declarations};
use crate::paths::{
    file_name_of, is_mod_chars, is_rust_source, spec_file_name, spec_is_rust_source,
    spec_strip_root, strip_root_chars, views_of,
};
use crate::propagate::{direct_views, effs_view, propagate, spec_direct_wf, spec_propagate};
use crate::spec_is_mod_file;

verus! {

/// One file handed to the analysis: its path and its text, or nothing for a
/// file that could not be read (the file then stays a node with no
/// declarations and a zero line count).
pub struct SourceInput {
    pub path: String,
    pub content: Option<String>,
}

/// The mathematical shape of one input file.
pub ghost struct SourceInputView {
    pub path: Seq<char>,
    pub content: Option<Seq<char>>,
}

pub open spec fn source_input_view(f: SourceInput) -> SourceInputView {
    SourceInputView {
        path: f.path@,
        content: match f.content {
            Option::Some(c) => Option::Some(c@),
            Option::None => Option::None,
        },
    }
}

pub open spec fn source_inputs_view(s: Seq<SourceInput>) -> Seq<SourceInputView> {
    s.map_values(|f: SourceInput| source_input_view(f))
}

/// One directory entry handed to the root locator.
pub struct WalkEntry {
    pub path: String,
    pub depth: usize,
    pub is_dir: bool,
}

/// The mathematical shape of one directory entry.
pub ghost struct WalkEntryView {
    pub path: Seq<char>,
    pub depth: nat,
    pub is_dir: bool,
}

pub open spec fn walk_entry_view(e: WalkEntry) -> WalkEntryView {
    WalkEntryView { path: e.path@, depth: e.depth as nat, is_dir: e.is_dir }
}

pub open spec fn walk_entries_view(s: Seq<WalkEntry>) -> Seq<WalkEntryView> {
    s.map_values(|e: WalkEntry| walk_entry_view(e))
}

/// An entry that can serve as the source root: a directory literally named
/// `src`, at depth at most 3.
pub open spec fn spec_is_src_dir(e: WalkEntryView) -> bool {
    e.is_dir && e.depth <= 3 && spec_file_name(e.path) == "src"@
}

/// The index of the breadth-first-earliest source-root entry among the
/// first `k` entries: the smallest depth wins, and among equal depths the
/// earliest entry.
pub open spec fn spec_best_root(entries: Seq<WalkEntryView>, k: int) -> Option<int>
    decreases k,
{
    if k <= 0 {
        Option::None
    } else {
        let prev = spec_best_root(entries, k - 1);
        let e = entries[k - 1];
        match prev {
            Option::None => if spec_is_src_dir(e) {
                Option::Some(k - 1)
            } else {
                Option::None
            },
            Option::Some(b) => if spec_is_src_dir(e) && e.depth < entries[b].depth {
                Option::Some(k - 1)
            } else {
                Option::Some(b)
            },
        }
    }
}

/// The chosen source-root entry for the whole walk.
pub open spec fn spec_locate_root(entries: Seq<WalkEntryView>) -> Option<int> {
    spec_best_root(entries, entries.len() as int)
}

/// Picks the source root out of a directory walk: the first directory named
/// `src` in breadth-first order (smallest depth, then walk order), within
/// depth 3. Fails when the walk holds none.
pub fn locate_source_root(project_path: &str, entries: &Vec<WalkEntry>) -> (r: Result<
    String,
    AnalyzerError,
>)
    ensures
        match r {
            Ok(p) => {
                &&& spec_locate_root(walk_entries_view(entries@)) matches Option::Some(i)
                &&& 0 <= i < entries@.len()
                &&& p@ == walk_entries_view(entries@)[i].path
            },
            Err(e) => {
                &&& spec_locate_root(walk_entries_view(entries@)) is None
                &&& e matches AnalyzerError::SrcDirNotFound(q) && q@ == project_path@
            },
        },
{
    let ghost ev = walk_entries_view(entries@);
    let srcname = chars_of_str("src");
    let mut best: Option<usize> = Option::None;
    let mut i: usize = 0;
    while i < entries.len()
        invariant
            i <= entries@.len(),
            ev == walk_entries_view(entries@),
            srcname@ == "src"@,
            match best {
                Option::Some(b) => b < i && spec_best_root(ev, i as int) == Option::Some(b as int),
                Option::None => spec_best_root(ev, i as int) is None,
            },
        decreases entries@.len() - i,
    {
        proof {
            assert(ev[i as int] == walk_entry_view(entries@[i as int]));
        }
        let e = &entries[i];
        let pv = chars_of_str(e.path.as_str());
        let fname = file_name_of(&pv);
        let found = e.is_dir && e.depth <= 3 && chars_eq(&fname, &srcname);
        proof {
            assert(found == spec_is_src_dir(ev[i as int]));
        }
        match best {
            Option::None => {
                if found {
                    best = Option::Some(i);
                }
            },
            Option::Some(b) => {
                proof {
                    assert(ev[b as int] == walk_entry_view(entries@[b as int]));
                }
                if found && entries[i].depth < entries[b].depth {
                    best = Option::Some(i);
                }
            },
        }
        i = i + 1;
    }
    match best {
        Option::Some(b) => {
            proof {
                assert(ev[b as int] == walk_entry_view(entries@[b as int]));
            }
            Ok(crate::chars::string_from_chars(&chars_of_str(entries[b].path.as_str())))
        },
        Option::None => Err(
            AnalyzerError::SrcDirNotFound(string_from_chars(&chars_of_str(project_path))),
        ),
    }
}

/// The root-relative id of a discovered file: the path with the root
/// stripped off the front, component-wise. Fails when the path does not lie
/// under the root.
pub fn to_relative_id(path: &str, base: &str) -> (r: Result<String, AnalyzerError>)
    ensures
        match r {
            Ok(id) => spec_strip_root(path@, base@) == Option::Some(id@),
            Err(e) => {
                &&& spec_strip_root(path@, base@) is None
                &&& e matches AnalyzerError::PathStripError { prefix, path: p }
                &&& prefix@ == base@
                &&& p@ == path@
            },
        },
{
    let pv = chars_of_str(path);
    let bv = chars_of_str(base);
    match strip_root_chars(&pv, &bv) {
        Option::Some(id) => Ok(string_from_chars(&id)),
        Option::None => Err(
            AnalyzerError::PathStripError {
                prefix: string_from_chars(&bv),
                path: string_from_chars(&pv),
            },
        ),
    }
}

/// One indexed file.
pub struct IndexedFile {
    pub id: Vec<char>,
    pub label: Vec<char>,
    pub line_count: Option<usize>,
    pub content: Option<String>,
}

/// The mathematical shape of one indexed file.
pub ghost struct IndexedView {
    pub id: Seq<char>,
    pub label: Seq<char>,
    pub line_count: Option<nat>,
    pub content: Option<Seq<char>>,
}

pub open spec fn indexed_view(f: IndexedFile) -> IndexedView {
    IndexedView {
        id: f.id@,
        label: f.label@,
        line_count: match f.line_count {
            Option::Some(c) => Option::Some(c as nat),
            Option::None => Option::None,
        },
        content: match f.content {
            Option::Some(c) => Option::Some(c@),
            Option::None => Option::None,
        },
    }
}

pub open spec fn indexed_views(s: Seq<IndexedFile>) -> Seq<IndexedView> {
    s.map_values(|f: IndexedFile| indexed_view(f))
}

/// Whether an id was indexed already.
pub open spec fn spec_has_id(acc: Seq<IndexedView>, id: Seq<char>) -> bool {
    exists|i: int| 0 <= i < acc.len() && (#[trigger] acc[i]).id == id
}

/// The line count of a file's text; an unreadable file counts zero lines.
pub open spec fn spec_line_count_of(content: Option<Seq<char>>) -> nat {
    match content {
        Option::Some(c) => spec_count_code_lines(c),
        Option::None => 0,
    }
}

/// Indexing the walked files: each Rust source file under the root becomes
/// one node, in discovery order, the first occurrence of an id winning; a
/// file whose path does not lie under the root aborts the run. Line counts
/// are display metadata and are computed only when asked for.
pub open spec fn spec_index_from(
    files: Seq<SourceInputView>,
    root: Seq<char>,
    count_lines: bool,
    acc: Seq<IndexedView>,
) -> Result<Seq<IndexedView>, Seq<char>>
    decreases files.len(),
{
    if files.len() == 0 {
        Result::Ok(acc)
    } else {
        let f = files[0];
        if !spec_is_rust_source(f.path) {
            spec_index_from(files.drop_first(), root, count_lines, acc)
        } else {
            match spec_strip_root(f.path, root) {
                Option::None => Result::Err(f.path),
                Option::Some(id) => if spec_has_id(acc, id) {
                    spec_index_from(files.drop_first(), root, count_lines, acc)
                } else {
                    spec_index_from(
                        files.drop_first(),
                        root,
                        count_lines,
                        acc.push(
                            IndexedView {
                                id,
                                label: spec_file_name(id),
                                line_count: if count_lines {
                                    Option::Some(spec_line_count_of(f.content))
                                } else {
                                    Option::None
                                },
                                content: f.content,
                            },
                        ),
                    )
                },
            }
        }
    }
}

/// The declarations a file's text yields, if it is readable and parses.
pub open spec fn spec_file_decls(content: Option<Seq<char>>) -> Option<Seq<DeclarationView>> {
    match content {
        Option::Some(c) => spec_parsed_declarations(c),
        Option::None => Option::None,
    }
}

/// One file's extraction outcome inside the pipeline: an unreadable file
/// contributes nothing, a file that does not parse contributes only the
/// diagnostic that says so, and a parsed file contributes its extraction.
pub open spec fn spec_file_state(
    idx: Seq<IndexedView>,
    ids: Seq<Seq<char>>,
    i: int,
) -> ExtractState {
    match idx[i].content {
        Option::None => ExtractState { targets: Seq::empty(), diags: Seq::empty() },
        Option::Some(c) => match spec_parsed_declarations(c) {
            Option::None => ExtractState {
                targets: Seq::empty(),
                diags: seq![
                    crate::graph::DiagnosticView::UnparsableFile { file: idx[i].id },
                ],
            },
            Option::Some(ds) => spec_extract_file(ds, idx[i].id, ids),
        },
    }
}

/// The direct-target table of the whole tree.
pub open spec fn spec_direct_table(idx: Seq<IndexedView>, ids: Seq<Seq<char>>) -> Seq<
    Seq<(int, Seq<InterView>)>,
> {
    Seq::new(idx.len(), |i: int| spec_file_state(idx, ids, i).targets)
}

/// All diagnostics, in file order.
pub open spec fn spec_diags_from(
    idx: Seq<IndexedView>,
    ids: Seq<Seq<char>>,
    i: int,
    acc: Seq<crate::graph::DiagnosticView>,
) -> Seq<crate::graph::DiagnosticView>
    decreases idx.len() - i,
{
    if i < 0 || i >= idx.len() {
        acc
    } else {
        spec_diags_from(idx, ids, i + 1, acc + spec_file_state(idx, ids, i).diags)
    }
}

/// The ids of the indexed files.
pub open spec fn spec_ids_of(idx: Seq<IndexedView>) -> Seq<Seq<char>> {
    Seq::new(idx.len(), |i: int| idx[i].id)
}

/// The index-file flags of the indexed files.
pub open spec fn spec_is_mod_flags(idx: Seq<IndexedView>) -> Seq<bool> {
    Seq::new(idx.len(), |i: int| spec_is_mod_file(idx[i].id))
}

/// The assembled graph: nodes in discovery order, edges from the
/// propagated triples.
pub open spec fn spec_assemble(
    idx: Seq<IndexedView>,
    ids: Seq<Seq<char>>,
    triples: Seq<(int, int, Seq<InterView>)>,
) -> GraphView {
    GraphView {
        nodes: Seq::new(
            idx.len(),
            |i: int|
                NodeView {
                    id: idx[i].id,
                    label: idx[i].label,
                    line_count: idx[i].line_count,
                },
        ),
        edges: Seq::new(
            triples.len(),
            |i: int|
                EdgeView {
                    source: ids[triples[i].0],
                    target: ids[triples[i].1],
                    interactions: triples[i].2,
                },
        ),
    }
}

/// The whole analysis of one walked tree.
pub open spec fn spec_analyze(
    files: Seq<SourceInputView>,
    root: Seq<char>,
    count_lines: bool,
) -> Result<(GraphView, Seq<crate::graph::DiagnosticView>), Seq<char>> {
    match spec_index_from(files, root, count_lines, Seq::empty()) {
        Result::Err(p) => Result::Err(p),
        Result::Ok(idx) => {
            let ids = spec_ids_of(idx);
            let triples = spec_propagate(spec_direct_table(idx, ids), spec_is_mod_flags(idx));
            Result::Ok(
                (
                    spec_assemble(idx, ids, triples),
                    spec_diags_from(idx, ids, 0, Seq::empty()),
                ),
            )
        },
    }
}

/// Whether an id is already among the indexed files.
fn has_id(acc: &Vec<IndexedFile>, id: &Vec<char>) -> (r: bool)
    ensures
        r == spec_has_id(indexed_views(acc@), id@),
{
    let ghost av = indexed_views(acc@);
    let mut i: usize = 0;
    while i < acc.len()
        invariant
            i <= acc@.len(),
            av == indexed_views(acc@),
            forall|j: int| 0 <= j < i ==> (#[trigger] av[j]).id != id@,
        decreases acc@.len() - i,
    {
        proof {
            assert(av[i as int] == indexed_view(acc@[i as int]));
        }
        if chars_eq(&acc[i].id, id) {
            proof {
                assert(av[i as int].id == id@);
            }
            return true;
        }
        i = i + 1;
    }
    proof {
        if spec_has_id(av, id@) {
            let j = choose|j: int| 0 <= j < av.len() && (#[trigger] av[j]).id == id@;
            assert(av[j].id != id@);
        }
    }
    false
}

/// Analyzes one walked source tree: the files become nodes, their
/// declarations are resolved and propagated, and the result is the graph
/// together with the run's diagnostics. `count_lines` toggles the
/// per-node line-count metadata.
pub fn analyze_project(root: &str, files: &Vec<SourceInput>, count_lines: bool) -> (r: Result<
    (ModuleGraph, Vec<Diagnostic>),
    AnalyzerError,
>)
    ensures
        match r {
            Ok(out) => spec_analyze(source_inputs_view(files@), root@, count_lines) == Result::<
                (GraphView, Seq<crate::graph::DiagnosticView>),
                Seq<char>,
            >::Ok((graph_view(out.0), diagnostics_view(out.1@))),
            Err(e) => {
                &&& e matches AnalyzerError::PathStripError { prefix, path }
                &&& prefix@ == root@
                &&& spec_analyze(source_inputs_view(files@), root@, count_lines) == Result::<
                    (GraphView, Seq<crate::graph::DiagnosticView>),
                    Seq<char>,
                >::Err(path@)
            },
        },
{
    let ghost fv = source_inputs_view(files@);
    let rootv = chars_of_str(root);
    // Indexing pass: discover the nodes.
    let mut indexed: Vec<IndexedFile> = Vec::new();
    let mut fi: usize = 0;
    proof {
        assert(fv.subrange(0, fv.len() as int) =~= fv);
        assert(indexed_views(indexed@) =~= Seq::<IndexedView>::empty());
    }
    while fi < files.len()
        invariant
            fi <= files@.len(),
            fv == source_inputs_view(files@),
            rootv@ == root@,
            spec_index_from(fv, root@, count_lines, Seq::empty()) == spec_index_from(
                fv.subrange(fi as int, fv.len() as int),
                root@,
                count_lines,
                indexed_views(indexed@),
            ),
        decreases files@.len() - fi,
    {
        let ghost frem = fv.subrange(fi as int, fv.len() as int);
        let ghost acc0 = indexed_views(indexed@);
        proof {
            assert(frem[0] == fv[fi as int]);
            assert(fv[fi as int] == source_input_view(files@[fi as int]));
            assert(frem.drop_first() =~= fv.subrange(fi + 1, fv.len() as int));
        }
        let f = &files[fi];
        if is_rust_source(f.path.as_str()) {
            let pv = chars_of_str(f.path.as_str());
            match strip_root_chars(&pv, &rootv) {
                Option::None => {
                    proof {
                        assert(spec_index_from(frem, root@, count_lines, acc0) == Result::<
                            Seq<IndexedView>,
                            Seq<char>,
                        >::Err(frem[0].path));
                    }
                    return Err(
                        AnalyzerError::PathStripError {
                            prefix: string_from_chars(&rootv),
                            path: string_from_chars(&pv),
                        },
                    );
                },
                Option::Some(id) => {
                    if !has_id(&indexed, &id) {
                        let label = file_name_of(&id);
                        let lc: Option<usize> = if count_lines {
                            Option::Some(
                                match &f.content {
                                    Option::Some(c) => count_code_lines(c.as_str()),
                                    Option::None => 0,
                                },
                            )
                        } else {
                            Option::None
                        };
                        let cc: Option<String> = match &f.content {
                            Option::Some(c) => Option::Some(c.clone()),
                            Option::None => Option::None,
                        };
                        let nf = IndexedFile { id, label, line_count: lc, content: cc };
                        let ghost nfv = indexed_view(nf);
                        indexed.push(nf);
                        proof {
                            assert(nfv.content == frem[0].content);
                            assert(indexed_views(indexed@) =~= acc0.push(nfv));
                        }
                    }
                },
            }
        }
        fi = fi + 1;
    }
    proof {
        assert(fv.subrange(fv.len() as int, fv.len() as int) =~= Seq::<SourceInputView>::empty());
    }
    let ghost idx = indexed_views(indexed@);
    proof {
        assert(spec_index_from(fv, root@, count_lines, Seq::empty()) == Result::<
            Seq<IndexedView>,
            Seq<char>,
        >::Ok(idx));
    }
    let m = indexed.len();
    let ghost idsv = spec_ids_of(idx);
    // The id list and the index-file flags.
    let mut ids: Vec<Vec<char>> = Vec::new();
    let mut i: usize = 0;
    proof {
        assert(views_of(ids@) =~= idsv.subrange(0, 0));
    }
    while i < m
        invariant
            i <= m,
            m == indexed@.len(),
            idx == indexed_views(indexed@),
            idsv == spec_ids_of(idx),
            views_of(ids@) == idsv.subrange(0, i as int),
        decreases m - i,
    {
        proof {
            assert(idx[i as int] == indexed_view(indexed@[i as int]));
        }
        let c = copy_range(&indexed[i].id, 0, indexed[i].id.len());
        proof {
            assert(c@ =~= indexed@[i as int].id@);
        }
        let ghost old_ids = ids@;
        ids.push(c);
        proof {
            assert(views_of(ids@) =~= views_of(old_ids).push(indexed@[i as int].id@));
            assert(views_of(old_ids).push(indexed@[i as int].id@) =~= idsv.subrange(0, i + 1));
        }
        i = i + 1;
    }
    proof {
        assert(idsv.subrange(0, m as int) =~= idsv);
        assert(views_of(ids@) == idsv);
    }
    let mut is_mod: Vec<bool> = Vec::new();
    let mut i2: usize = 0;
    proof {
        assert(is_mod@ =~= spec_is_mod_flags(idx).subrange(0, 0));
    }
    while i2 < m
        invariant
            i2 <= m,
            m == ids@.len(),
            idx == indexed_views(indexed@),
            views_of(ids@) == idsv,
            idsv == spec_ids_of(idx),
            m == indexed@.len(),
            is_mod@ == spec_is_mod_flags(idx).subrange(0, i2 as int),
        decreases m - i2,
    {
        proof {
            assert(views_of(ids@)[i2 as int] == ids@[i2 as int]@);
        }
        let b = is_mod_chars(&ids[i2]);
        let ghost old_b = is_mod@;
        is_mod.push(b);
        proof {
            assert(is_mod@ =~= old_b.push(spec_is_mod_file(idx[i2 as int].id)));
            assert(old_b.push(spec_is_mod_file(idx[i2 as int].id)) =~= spec_is_mod_flags(
                idx,
            ).subrange(0, i2 + 1));
        }
        i2 = i2 + 1;
    }
    proof {
        assert(spec_is_mod_flags(idx).subrange(0, m as int) =~= spec_is_mod_flags(idx));
        assert(is_mod@ == spec_is_mod_flags(idx));
    }
    // Extraction pass: each file's declarations become direct targets.
    let ghost table = spec_direct_table(idx, idsv);
    let mut direct: Vec<Vec<TargetInters>> = Vec::new();
    let mut diags: Vec<Diagnostic> = Vec::new();
    let mut i3: usize = 0;
    proof {
        assert(direct_views(direct@) =~= table.subrange(0, 0));
        assert(diagnostics_view(diags@) =~= Seq::<crate::graph::DiagnosticView>::empty());
    }
    while i3 < m
        invariant
            i3 <= m,
            m == indexed@.len(),
            m == ids@.len(),
            idx == indexed_views(indexed@),
            views_of(ids@) == idsv,
            idsv == spec_ids_of(idx),
            table == spec_direct_table(idx, idsv),
            direct_views(direct@) == table.subrange(0, i3 as int),
            spec_diags_from(idx, idsv, 0, Seq::empty()) == spec_diags_from(
                idx,
                idsv,
                i3 as int,
                diagnostics_view(diags@),
            ),
        decreases m - i3,
    {
        proof {
            assert(idx[i3 as int] == indexed_view(indexed@[i3 as int]));
            assert(views_of(ids@)[i3 as int] == ids@[i3 as int]@);
        }
        let ghost row = spec_file_state(idx, idsv, i3 as int);
        let mut ti: Vec<TargetInters> = Vec::new();
        let mut dg: Vec<Diagnostic> = Vec::new();
        match &indexed[i3].content {
            Option::Some(c) => {
                match parse_declarations(c.as_str()) {
                    Option::Some(ds) => {
                        let pair = extract_file(&ds, &ids[i3], &ids);
                        ti = pair.0;
                        dg = pair.1;
                        proof {
                            assert(row.targets == tis_view(ti@));
                            assert(row.diags == diagnostics_view(dg@));
                        }
                    },
                    Option::None => {
                        proof {
                            assert(views_of(ids@)[i3 as int] == ids@[i3 as int]@);
                        }
                        let bad = Diagnostic::UnparsableFile {
                            file: string_from_chars(&ids[i3]),
                        };
                        dg.push(bad);
                        proof {
                            assert(row.targets =~= tis_view(ti@));
                            assert(row.diags =~= diagnostics_view(dg@));
                        }
                    },
                }
            },
            Option::None => {
                proof {
                    assert(row.targets =~= tis_view(ti@));
                    assert(row.diags =~= diagnostics_view(dg@));
                }
            },
        }
        let ghost old_direct = direct_views(direct@);
        let ghost old_diags = diagnostics_view(diags@);
        let ghost dgv = diagnostics_view(dg@);
        direct.push(ti);
        diags.append(&mut dg);
        proof {
            assert(direct_views(direct@) =~= old_direct.push(row.targets));
            assert(old_direct.push(row.targets) =~= table.subrange(0, i3 + 1));
            assert(diagnostics_view(diags@) =~= old_diags + dgv);
        }
        i3 = i3 + 1;
    }
    proof {
        assert(table.subrange(0, m as int) =~= table);
        assert(direct_views(direct@) == table);
    }
    // Propagation pass.
    proof {
        assert forall|s: int|
            0 <= s < table.len() implies crate::extract::spec_targets_ok(
            #[trigger] table[s],
            table.len() as int,
        ) by {
            assert(table[s] == spec_file_state(idx, idsv, s).targets);
            match spec_file_decls(idx[s].content) {
                Option::None => {},
                Option::Some(ds) => {
                    crate::extract::lemma_extract_file_ok(ds, idx[s].id, idsv);
                },
            }
        }
        crate::propagate::lemma_table_ok_wf(table);
    }
    let effs = propagate(&direct, &is_mod);
    let ghost triples = spec_propagate(table, spec_is_mod_flags(idx));
    proof {
        crate::propagate::lemma_propagate_ok(table, spec_is_mod_flags(idx));
    }
    // Assembly.
    let ghost gspec = spec_assemble(idx, idsv, triples);
    let mut nodes: Vec<Node> = Vec::new();
    let mut i4: usize = 0;
    proof {
        assert(crate::graph::nodes_view(nodes@) =~= gspec.nodes.subrange(0, 0));
    }
    while i4 < m
        invariant
            i4 <= m,
            m == indexed@.len(),
            idx == indexed_views(indexed@),
            gspec == spec_assemble(idx, idsv, triples),
            idx.len() == m,
            crate::graph::nodes_view(nodes@) == gspec.nodes.subrange(0, i4 as int),
        decreases m - i4,
    {
        proof {
            assert(idx[i4 as int] == indexed_view(indexed@[i4 as int]));
        }
        let nid = string_from_chars(&indexed[i4].id);
        let nlabel = string_from_chars(&indexed[i4].label);
        let n = Node { id: nid, label: nlabel, line_count: indexed[i4].line_count };
        let ghost old_nodes = crate::graph::nodes_view(nodes@);
        nodes.push(n);
        proof {
            assert(crate::graph::nodes_view(nodes@) =~= old_nodes.push(
                crate::graph::node_view(n),
            ));
            assert(old_nodes.push(crate::graph::node_view(n)) =~= gspec.nodes.subrange(0, i4 + 1));
        }
        i4 = i4 + 1;
    }
    proof {
        assert(gspec.nodes.subrange(0, m as int) =~= gspec.nodes);
        assert(crate::graph::nodes_view(nodes@) == gspec.nodes);
    }
    let mut edges: Vec<Edge> = Vec::new();
    let mut e: usize = 0;
    proof {
        assert(effs_view(effs@) == triples);
        assert(crate::graph::edges_view(edges@) =~= gspec.edges.subrange(0, 0));
    }
    while e < effs.len()
        invariant
            e <= effs@.len(),
            m == ids@.len(),
            effs_view(effs@) == triples,
            views_of(ids@) == idsv,
            gspec == spec_assemble(idx, idsv, triples),
            crate::propagate::spec_triples_ok(triples, table, spec_is_mod_flags(idx)),
            table.len() == m,
            crate::graph::edges_view(edges@) == gspec.edges.subrange(0, e as int),
        decreases effs@.len() - e,
    {
        proof {
            assert(effs_view(effs@)[e as int] == crate::propagate::eff_view(effs@[e as int]));
            assert(triples[e as int].0 == effs@[e as int].source as int);
            assert(triples[e as int].1 == effs@[e as int].target as int);
        }
        let src = effs[e].source;
        let tgt = effs[e].target;
        assert(src < m && tgt < m);
        let mut inters: Vec<Interaction> = Vec::new();
        let xs = &effs[e].inters;
        let mut xi: usize = 0;
        proof {
            assert(crate::inter::interactions_view(inters@) =~= crate::inter::inters_view(
                xs@,
            ).subrange(0, 0));
        }
        while xi < xs.len()
            invariant
                xi <= xs@.len(),
                xs@ == effs@[e as int].inters@,
                e < effs@.len(),
                crate::inter::interactions_view(inters@) == crate::inter::inters_view(
                    xs@,
                ).subrange(0, xi as int),
            decreases xs@.len() - xi,
        {
            proof {
                assert(crate::inter::inters_view(xs@)[xi as int] == inter_view(xs@[xi as int]));
            }
            let nm = string_from_chars(&xs[xi].name);
            let it = Interaction { kind: xs[xi].kind, name: nm };
            let ghost old_i = crate::inter::interactions_view(inters@);
            inters.push(it);
            proof {
                assert(crate::inter::interactions_view(inters@) =~= old_i.push(
                    crate::inter::interaction_view(it),
                ));
                assert(old_i.push(crate::inter::interaction_view(it))
                    =~= crate::inter::inters_view(xs@).subrange(0, xi + 1));
            }
            xi = xi + 1;
        }
        proof {
            assert(crate::inter::inters_view(xs@).subrange(0, xs@.len() as int)
                =~= crate::inter::inters_view(xs@));
            assert(views_of(ids@)[src as int] == ids@[src as int]@);
            assert(views_of(ids@)[tgt as int] == ids@[tgt as int]@);
        }
        let es = string_from_chars(&ids[src]);
        let et = string_from_chars(&ids[tgt]);
        let edge = Edge { source: es, target: et, interactions: inters };
        let ghost old_edges = crate::graph::edges_view(edges@);
        edges.push(edge);
        proof {
            assert(crate::graph::edges_view(edges@) =~= old_edges.push(
                crate::graph::edge_view(edge),
            ));
            assert(crate::graph::edge_view(edge).interactions == triples[e as int].2);
            assert(old_edges.push(crate::graph::edge_view(edge)) =~= gspec.edges.subrange(
                0,
                e + 1,
            ));
        }
        e = e + 1;
    }
    proof {
        assert(gspec.edges.subrange(0, effs@.len() as int) =~= gspec.edges);
        assert(crate::graph::edges_view(edges@) == gspec.edges);
    }
    proof {
        assert(spec_diags_from(idx, idsv, m as int, diagnostics_view(diags@))
            == diagnostics_view(diags@));
    }
    let g = ModuleGraph { nodes, edges };
    proof {
        assert(graph_view(g) == gspec);
    }
    Ok((g, diags))
}

} // verus!
