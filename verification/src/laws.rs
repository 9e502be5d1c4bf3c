//! The laws of every assembled graph: referential integrity, the absence of
//! self-loops, the order and uniqueness of edge interactions, the
//! transparency of directory-index files, and the determinism of a rebuild.

use vstd::prelude::*;
use crate::analyze::{
    spec_analyze, spec_assemble, spec_diags_from, spec_direct_table, spec_file_decls,
    spec_file_state, spec_has_id, spec_ids_of, spec_index_from, spec_is_mod_flags, IndexedView,
    SourceInputView,
};
use crate::graph::{EdgeView, GraphView, NodeView};
use crate::inter::{spec_inter_lt, spec_sorted_inters, InterView};
use crate::paths::{spec_is_rust_source, spec_strip_root};
use crate::propagate::{lemma_propagate_ok, spec_propagate, spec_table_ok, spec_triples_ok};
use crate::spec_is_mod_file;

verus! {

/// No two indexed files share an id.
pub open spec fn spec_ids_unique(idx: Seq<IndexedView>) -> bool {
    forall|i: int, j: int|
        0 <= i < j < idx.len() ==> (#[trigger] idx[i]).id != (#[trigger] idx[j]).id
}

/// Indexing keeps ids unique: a path whose id was seen before adds no node.
pub proof fn lemma_index_unique(
    files: Seq<SourceInputView>,
    root: Seq<char>,
    count_lines: bool,
    acc: Seq<IndexedView>,
)
    requires
        spec_ids_unique(acc),
    ensures
        (spec_index_from(files, root, count_lines, acc) matches Result::Ok(idx)
            ==> spec_ids_unique(idx)),
    decreases files.len(),
{
    if files.len() > 0 {
        let f = files[0];
        if !spec_is_rust_source(f.path) {
            lemma_index_unique(files.drop_first(), root, count_lines, acc);
        } else {
            match spec_strip_root(f.path, root) {
                Option::None => {},
                Option::Some(id) => {
                    if spec_has_id(acc, id) {
                        lemma_index_unique(files.drop_first(), root, count_lines, acc);
                    } else {
                        let nf = IndexedView {
                            id,
                            label: crate::paths::spec_file_name(id),
                            line_count: if count_lines {
                                Option::Some(crate::analyze::spec_line_count_of(f.content))
                            } else {
                                Option::None
                            },
                            content: f.content,
                        };
                        let acc2 = acc.push(nf);
                        assert forall|i: int, j: int|
                            0 <= i < j < acc2.len() implies (#[trigger] acc2[i]).id != (
                        #[trigger] acc2[j]).id by {
                            if j == acc.len() {
                                assert(acc2[i] == acc[i]);
                                if acc[i].id == id {
                                    assert(spec_has_id(acc, id));
                                }
                            } else {
                                assert(acc2[i] == acc[i]);
                                assert(acc2[j] == acc[j]);
                            }
                        }
                        lemma_index_unique(files.drop_first(), root, count_lines, acc2);
                    }
                },
            }
        }
    }
}

/// The indexed files behind a successful analysis, with the facts every
/// law rests on: the analysis is the assembly of the propagated edges over
/// those files, the direct-target table is well formed, every propagated
/// triple meets the edge conditions, and the ids are unique.
proof fn analyze_ok_parts(
    files: Seq<SourceInputView>,
    root: Seq<char>,
    count_lines: bool,
) -> (idx: Seq<IndexedView>)
    requires
        spec_analyze(files, root, count_lines) is Ok,
    ensures
        spec_index_from(files, root, count_lines, Seq::empty()) == Result::<
            Seq<IndexedView>,
            Seq<char>,
        >::Ok(idx),
        spec_analyze(files, root, count_lines) == Result::<
            (GraphView, Seq<crate::graph::DiagnosticView>),
            Seq<char>,
        >::Ok(
            (
                spec_assemble(
                    idx,
                    spec_ids_of(idx),
                    spec_propagate(
                        spec_direct_table(idx, spec_ids_of(idx)),
                        spec_is_mod_flags(idx),
                    ),
                ),
                spec_diags_from(idx, spec_ids_of(idx), 0, Seq::empty()),
            ),
        ),
        spec_table_ok(spec_direct_table(idx, spec_ids_of(idx))),
        spec_triples_ok(
            spec_propagate(spec_direct_table(idx, spec_ids_of(idx)), spec_is_mod_flags(idx)),
            spec_direct_table(idx, spec_ids_of(idx)),
            spec_is_mod_flags(idx),
        ),
        spec_ids_unique(idx),
        spec_direct_table(idx, spec_ids_of(idx)).len() == idx.len(),
{
    let ir = spec_index_from(files, root, count_lines, Seq::empty());
    match ir {
        Result::Ok(idxv) => {
            let ids = spec_ids_of(idxv);
            let table = spec_direct_table(idxv, ids);
            assert forall|s: int|
                0 <= s < table.len() implies crate::extract::spec_targets_ok(
                #[trigger] table[s],
                table.len() as int,
            ) by {
                assert(table[s] == spec_file_state(idxv, ids, s).targets);
                match spec_file_decls(idxv[s].content) {
                    Option::None => {},
                    Option::Some(ds) => {
                        crate::extract::lemma_extract_file_ok(ds, idxv[s].id, ids);
                    },
                }
            }
            lemma_propagate_ok(table, spec_is_mod_flags(idxv));
            assert(spec_ids_unique(Seq::<IndexedView>::empty()));
            lemma_index_unique(files, root, count_lines, Seq::empty());
            idxv
        },
        Result::Err(_) => {
            assert(false);
            vstd::pervasive::arbitrary()
        },
    }
}

/// Some node of the graph carries this id.
pub open spec fn spec_has_node_with_id(g: GraphView, id: Seq<char>) -> bool {
    exists|i: int| 0 <= i < g.nodes.len() && (#[trigger] g.nodes[i]).id == id
}

/// Referential integrity: both endpoints of every edge are node ids of the
/// same graph.
pub proof fn lemma_referential_integrity(
    files: Seq<SourceInputView>,
    root: Seq<char>,
    count_lines: bool,
    g: GraphView,
    ds: Seq<crate::graph::DiagnosticView>,
)
    requires
        spec_analyze(files, root, count_lines) == Result::<
            (GraphView, Seq<crate::graph::DiagnosticView>),
            Seq<char>,
        >::Ok((g, ds)),
    ensures
        forall|e: int|
            0 <= e < g.edges.len() ==> spec_has_node_with_id(g, (#[trigger] g.edges[e]).source),
        forall|e: int|
            0 <= e < g.edges.len() ==> spec_has_node_with_id(g, (#[trigger] g.edges[e]).target),
{
    let idx = analyze_ok_parts(files, root, count_lines);
    let ids = spec_ids_of(idx);
    let triples = spec_propagate(spec_direct_table(idx, ids), spec_is_mod_flags(idx));
    assert forall|e: int|
        0 <= e < g.edges.len() implies spec_has_node_with_id(
        g,
        (#[trigger] g.edges[e]).source,
    ) && spec_has_node_with_id(g, g.edges[e].target) by {
        let t = triples[e];
        assert(g.edges[e].source == ids[t.0]);
        assert(0 <= t.0 < g.nodes.len() && g.nodes[t.0].id == idx[t.0].id);
        assert(g.nodes[t.0].id == g.edges[e].source);
        assert(spec_has_node_with_id(g, g.edges[e].source));
        assert(g.edges[e].target == ids[t.1]);
        assert(0 <= t.1 < g.nodes.len() && g.nodes[t.1].id == idx[t.1].id);
        assert(g.nodes[t.1].id == g.edges[e].target);
        assert(spec_has_node_with_id(g, g.edges[e].target));
    }
}

/// No self-loops survive: no edge joins a node to itself.
pub proof fn lemma_no_self_loops(
    files: Seq<SourceInputView>,
    root: Seq<char>,
    count_lines: bool,
    g: GraphView,
    ds: Seq<crate::graph::DiagnosticView>,
)
    requires
        spec_analyze(files, root, count_lines) == Result::<
            (GraphView, Seq<crate::graph::DiagnosticView>),
            Seq<char>,
        >::Ok((g, ds)),
    ensures
        forall|e: int|
            0 <= e < g.edges.len() ==> (#[trigger] g.edges[e]).source != g.edges[e].target,
{
    let idx = analyze_ok_parts(files, root, count_lines);
    let ids = spec_ids_of(idx);
    let triples = spec_propagate(spec_direct_table(idx, ids), spec_is_mod_flags(idx));
    assert forall|e: int|
        0 <= e < g.edges.len() implies (#[trigger] g.edges[e]).source != g.edges[e].target by {
        let t = triples[e];
        assert(g.edges[e].source == ids[t.0]);
        assert(g.edges[e].target == ids[t.1]);
        assert(ids[t.0] == idx[t.0].id);
        assert(ids[t.1] == idx[t.1].id);
        if t.0 < t.1 {
            assert(idx[t.0].id != idx[t.1].id);
        } else {
            assert(idx[t.1].id != idx[t.0].id);
        }
    }
}

/// Edge interactions are strictly ascending by (name, kind): sorted, with
/// no duplicate (kind, name) pair anywhere in one edge.
pub proof fn lemma_interactions_sorted(
    files: Seq<SourceInputView>,
    root: Seq<char>,
    count_lines: bool,
    g: GraphView,
    ds: Seq<crate::graph::DiagnosticView>,
)
    requires
        spec_analyze(files, root, count_lines) == Result::<
            (GraphView, Seq<crate::graph::DiagnosticView>),
            Seq<char>,
        >::Ok((g, ds)),
    ensures
        forall|e: int|
            0 <= e < g.edges.len() ==> spec_sorted_inters(
                (#[trigger] g.edges[e]).interactions,
            ),
        forall|e: int, i: int, j: int|
            #![trigger g.edges[e].interactions[i], g.edges[e].interactions[j]]
            0 <= e < g.edges.len() && 0 <= i < j < g.edges[e].interactions.len() ==> spec_inter_lt(
                g.edges[e].interactions[i],
                g.edges[e].interactions[j],
            ) && g.edges[e].interactions[i] != g.edges[e].interactions[j],
{
    let idx = analyze_ok_parts(files, root, count_lines);
    let ids = spec_ids_of(idx);
    let triples = spec_propagate(spec_direct_table(idx, ids), spec_is_mod_flags(idx));
    assert forall|e: int|
        0 <= e < g.edges.len() implies spec_sorted_inters(
        (#[trigger] g.edges[e]).interactions,
    ) by {
        let t = triples[e];
        assert(g.edges[e].interactions == t.2);
    }
    assert forall|e: int, i: int, j: int|
        #![trigger g.edges[e].interactions[i], g.edges[e].interactions[j]]
        0 <= e < g.edges.len() && 0 <= i < j < g.edges[e].interactions.len() implies spec_inter_lt(
        g.edges[e].interactions[i],
        g.edges[e].interactions[j],
    ) && g.edges[e].interactions[i] != g.edges[e].interactions[j] by {
        let t = triples[e];
        assert(g.edges[e].interactions == t.2);
        crate::inter::lemma_sorted_inters_strict(t.2);
    }
}

/// Directory-index files never appear as an edge source: their outgoing
/// dependencies are absorbed by the files that reach them.
pub proof fn lemma_index_file_never_source(
    files: Seq<SourceInputView>,
    root: Seq<char>,
    count_lines: bool,
    g: GraphView,
    ds: Seq<crate::graph::DiagnosticView>,
)
    requires
        spec_analyze(files, root, count_lines) == Result::<
            (GraphView, Seq<crate::graph::DiagnosticView>),
            Seq<char>,
        >::Ok((g, ds)),
    ensures
        forall|e: int|
            0 <= e < g.edges.len() ==> !spec_is_mod_file((#[trigger] g.edges[e]).source),
{
    let idx = analyze_ok_parts(files, root, count_lines);
    let ids = spec_ids_of(idx);
    let triples = spec_propagate(spec_direct_table(idx, ids), spec_is_mod_flags(idx));
    assert forall|e: int|
        0 <= e < g.edges.len() implies !spec_is_mod_file((#[trigger] g.edges[e]).source) by {
        let t = triples[e];
        assert(g.edges[e].source == ids[t.0]);
        assert(!spec_is_mod_flags(idx)[t.0]);
        assert(ids[t.0] == idx[t.0].id);
    }
}

/// Rebuilding from an unchanged tree is deterministic: the same inputs
/// always yield the same nodes, edges and diagnostics. Together with
/// `analyze_project`'s contract, two runs over one tree agree exactly.
pub proof fn lemma_rebuild_deterministic(
    files1: Seq<SourceInputView>,
    files2: Seq<SourceInputView>,
    root1: Seq<char>,
    root2: Seq<char>,
    count_lines: bool,
)
    requires
        files1 == files2,
        root1 == root2,
    ensures
        spec_analyze(files1, root1, count_lines) == spec_analyze(files2, root2, count_lines),
{
}

} // verus!
