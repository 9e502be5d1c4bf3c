use rust_doc_tool::analyze::{analyze_project, locate_source_root, SourceInput, WalkEntry};
use rust_doc_tool::graph::{AnalyzerError, Diagnostic};
use rust_doc_tool::inter::InteractionKind;

fn input(path: &str, content: &str) -> SourceInput {
    SourceInput { path: path.to_string(), content: Some(content.to_string()) }
}

#[test]
fn propagation_through_index_file() {
    // `a.rs` imports from module `b`, whose index file declares module `c`
    // and nothing else; the effective edge runs a -> c with the
    // interactions of both hops merged, and the index file is no source.
    let files = vec![
        input("src/a.rs", "use b::Item;\n"),
        input("src/b/mod.rs", "mod c;\n"),
        input("src/b/c.rs", "pub fn f() {}\n"),
    ];
    let (graph, diags) = analyze_project("src", &files, true).unwrap();
    assert_eq!(graph.nodes.len(), 3);
    assert_eq!(graph.edges.len(), 1);
    let e = &graph.edges[0];
    assert_eq!(e.source, "a.rs");
    assert_eq!(e.target, "b/c.rs");
    assert_eq!(e.interactions.len(), 2);
    assert_eq!(e.interactions[0].kind, InteractionKind::Import);
    assert_eq!(e.interactions[0].name, "Item");
    assert_eq!(e.interactions[1].kind, InteractionKind::ModuleDecl);
    assert_eq!(e.interactions[1].name, "c");
    assert!(diags.is_empty());
}

#[test]
fn two_runs_agree() {
    let files = vec![
        input("src/lib.rs", "mod a;\nmod b;\n"),
        input("src/a.rs", "use crate::b::Helper;\nuse b::Helper;\n"),
        input("src/b.rs", "pub struct Helper;\n"),
    ];
    let (g1, d1) = analyze_project("src", &files, true).unwrap();
    let (g2, d2) = analyze_project("src", &files, true).unwrap();
    assert_eq!(g1.nodes, g2.nodes);
    assert_eq!(g1.edges, g2.edges);
    assert_eq!(d1, d2);
}

#[test]
fn flat_file_wins_over_index() {
    let files = vec![
        input("src/a.rs", "use foo::Widget;\n"),
        input("src/foo.rs", "pub struct Widget;\n"),
        input("src/foo/mod.rs", "pub struct Widget;\n"),
    ];
    let (graph, _) = analyze_project("src", &files, true).unwrap();
    assert_eq!(graph.edges.len(), 1);
    assert_eq!(graph.edges[0].source, "a.rs");
    assert_eq!(graph.edges[0].target, "foo.rs");
}

#[test]
fn external_import_is_silent() {
    let files = vec![input("src/a.rs", "use serde::Serialize;\nuse std::fmt;\n")];
    let result = analyze_project("src", &files, true);
    let (graph, diags) = result.unwrap();
    assert_eq!(graph.nodes.len(), 1);
    assert!(graph.edges.is_empty());
    assert!(diags.is_empty());
}

#[test]
fn rename_keeps_defined_name() {
    let files = vec![
        input("src/a.rs", "use b::Widget as W;\n"),
        input("src/b.rs", "pub struct Widget;\n"),
    ];
    let (graph, _) = analyze_project("src", &files, true).unwrap();
    assert_eq!(graph.edges.len(), 1);
    assert_eq!(graph.edges[0].interactions.len(), 1);
    assert_eq!(graph.edges[0].interactions[0].name, "Widget");
    for e in &graph.edges {
        for i in &e.interactions {
            assert_ne!(i.name, "W");
        }
    }
}

#[test]
fn glob_import_name() {
    let files = vec![
        input("src/a.rs", "use b::c::*;\n"),
        input("src/b/c.rs", "pub fn f() {}\n"),
    ];
    let (graph, _) = analyze_project("src", &files, true).unwrap();
    assert_eq!(graph.edges.len(), 1);
    assert_eq!(graph.edges[0].target, "b/c.rs");
    assert_eq!(graph.edges[0].interactions.len(), 1);
    assert_eq!(graph.edges[0].interactions[0].name, "b/c::*");
    assert_eq!(graph.edges[0].interactions[0].kind, InteractionKind::Import);
}

#[test]
fn group_imports_flatten() {
    let files = vec![
        input("src/a.rs", "use b::{One, two::Three, sub::*};\n"),
        input("src/b.rs", "pub struct One;\n"),
        input("src/b/two.rs", "pub struct Three;\n"),
        input("src/b/sub.rs", "pub fn s() {}\n"),
    ];
    let (graph, _) = analyze_project("src", &files, true).unwrap();
    // One: path b -> flat file b.rs; b::two::Three -> b/two.rs; glob of
    // b::sub -> b/sub.rs under the synthetic name.
    assert_eq!(graph.edges.len(), 3);
    let one = graph.edges.iter().find(|e| e.target == "b.rs").unwrap();
    assert_eq!(one.interactions[0].name, "One");
    let three = graph.edges.iter().find(|e| e.target == "b/two.rs").unwrap();
    assert_eq!(three.interactions[0].name, "Three");
    let glob = graph.edges.iter().find(|e| e.target == "b/sub.rs").unwrap();
    assert_eq!(glob.interactions[0].name, "b/sub::*");
}

#[test]
fn interactions_are_sorted_and_deduplicated() {
    let files = vec![
        input(
            "src/a.rs",
            "use b::Thing;\nuse b::Thing;\nuse b::Alpha;\nmod b;\n",
        ),
        input("src/b.rs", "pub struct Thing;\npub struct Alpha;\n"),
    ];
    let (graph, _) = analyze_project("src", &files, true).unwrap();
    assert_eq!(graph.edges.len(), 1);
    let e = &graph.edges[0];
    // Deduplicated by (kind, name) and sorted by (name, kind).
    assert_eq!(e.interactions.len(), 3);
    assert_eq!(e.interactions[0].name, "Alpha");
    assert_eq!(e.interactions[0].kind, InteractionKind::Import);
    assert_eq!(e.interactions[1].name, "Thing");
    assert_eq!(e.interactions[1].kind, InteractionKind::Import);
    assert_eq!(e.interactions[2].name, "b");
    assert_eq!(e.interactions[2].kind, InteractionKind::ModuleDecl);
}

#[test]
fn parent_scope_in_root_file_is_diagnosed() {
    let files = vec![
        input("src/main.rs", "use super::helpers::Helper;\n"),
        input("src/helpers.rs", "pub struct Helper;\n"),
    ];
    let (graph, diags) = analyze_project("src", &files, true).unwrap();
    assert!(graph.edges.is_empty());
    assert_eq!(diags.len(), 1);
    match &diags[0] {
        Diagnostic::ParentScopeAtRoot { file } => assert_eq!(file, "main.rs"),
        other => panic!("unexpected diagnostic: {:?}", other),
    }
}

#[test]
fn crate_single_segment_resolves_to_entry_file() {
    let files = vec![
        input("src/a.rs", "use crate::Thing;\n"),
        input("src/lib.rs", "pub struct Thing;\nmod a;\n"),
    ];
    let (graph, _) = analyze_project("src", &files, true).unwrap();
    // a.rs -> lib.rs by the rootless fallback, lib.rs -> a.rs by `mod a;`.
    assert_eq!(graph.edges.len(), 2);
    let ab = graph
        .edges
        .iter()
        .find(|e| e.source == "a.rs")
        .expect("edge from a.rs");
    assert_eq!(ab.target, "lib.rs");
    assert_eq!(ab.interactions[0].name, "Thing");
}

#[test]
fn module_declaration_resolves_flat_then_index() {
    let files = vec![
        input("src/main.rs", "mod util;\nmod deep;\n"),
        input("src/util.rs", "pub fn u() {}\n"),
        input("src/deep/mod.rs", "mod inner;\n"),
        input("src/deep/inner.rs", "pub fn i() {}\n"),
    ];
    let (graph, _) = analyze_project("src", &files, true).unwrap();
    assert_eq!(graph.edges.len(), 2);
    let u = graph.edges.iter().find(|e| e.target == "util.rs").unwrap();
    assert_eq!(u.source, "main.rs");
    assert_eq!(u.interactions[0].kind, InteractionKind::ModuleDecl);
    assert_eq!(u.interactions[0].name, "util");
    // The declaration of `deep` reaches through the directory's index file
    // to the file it declares in turn.
    let d = graph.edges.iter().find(|e| e.target == "deep/inner.rs").unwrap();
    assert_eq!(d.source, "main.rs");
    assert_eq!(d.interactions.len(), 2);
    assert_eq!(d.interactions[0].name, "deep");
    assert_eq!(d.interactions[1].name, "inner");
}

#[test]
fn self_scope_resolves_to_sibling_directory() {
    let files = vec![
        input("src/gui.rs", "use self::widgets::draw;\n"),
        input("src/gui/widgets.rs", "pub fn draw() {}\n"),
    ];
    let (graph, _) = analyze_project("src", &files, true).unwrap();
    assert_eq!(graph.edges.len(), 1);
    assert_eq!(graph.edges[0].source, "gui.rs");
    assert_eq!(graph.edges[0].target, "gui/widgets.rs");
    assert_eq!(graph.edges[0].interactions[0].name, "draw");
}

#[test]
fn unparsable_file_keeps_its_node() {
    let files = vec![
        input("src/bad.rs", "fn {{{\n"),
        input("src/good.rs", "use bad::Thing;\n"),
    ];
    let (graph, diags) = analyze_project("src", &files, true).unwrap();
    assert_eq!(graph.nodes.len(), 2);
    assert_eq!(diags.len(), 1);
    match &diags[0] {
        Diagnostic::UnparsableFile { file } => assert_eq!(file, "bad.rs"),
        other => panic!("unexpected diagnostic: {:?}", other),
    }
    // The bad file contributes no outgoing edges; the good one still
    // resolves against it.
    assert_eq!(graph.edges.len(), 1);
    assert_eq!(graph.edges[0].source, "good.rs");
    assert_eq!(graph.edges[0].target, "bad.rs");
}

#[test]
fn unreadable_file_counts_zero_lines() {
    let files = vec![SourceInput { path: "src/gone.rs".to_string(), content: None }];
    let (graph, _) = analyze_project("src", &files, true).unwrap();
    assert_eq!(graph.nodes.len(), 1);
    assert_eq!(graph.nodes[0].id, "gone.rs");
    assert_eq!(graph.nodes[0].label, "gone.rs");
    assert_eq!(graph.nodes[0].line_count, Some(0));
}

#[test]
fn duplicate_paths_become_one_node() {
    let files = vec![
        input("src/a.rs", "pub fn one() {}\n"),
        input("src/a.rs", "pub fn two() {}\n"),
    ];
    let (graph, _) = analyze_project("src", &files, true).unwrap();
    assert_eq!(graph.nodes.len(), 1);
    assert_eq!(graph.nodes[0].line_count, Some(1));
}

#[test]
fn non_rust_files_are_ignored() {
    let files = vec![
        input("src/readme.md", "# hello\n"),
        input("src/a.rs", "pub fn f() {}\n"),
    ];
    let (graph, _) = analyze_project("src", &files, true).unwrap();
    assert_eq!(graph.nodes.len(), 1);
    assert_eq!(graph.nodes[0].id, "a.rs");
}

#[test]
fn path_outside_root_aborts() {
    let files = vec![input("elsewhere/a.rs", "pub fn f() {}\n")];
    let err = analyze_project("src", &files, true).unwrap_err();
    match err {
        AnalyzerError::PathStripError { prefix, path } => {
            assert_eq!(prefix, "src");
            assert_eq!(path, "elsewhere/a.rs");
        }
        other => panic!("unexpected error: {:?}", other),
    }
}

#[test]
fn mutually_reexporting_index_files_terminate() {
    let files = vec![
        input("src/a.rs", "use x::Item;\n"),
        input("src/x/mod.rs", "use super::y::Item;\n"),
        input("src/y/mod.rs", "use super::x::Item;\n"),
    ];
    // The per-traversal visited set must stop the walk between the two
    // mutually re-exporting index files.
    let (graph, _) = analyze_project("src", &files, true).unwrap();
    assert_eq!(graph.nodes.len(), 3);
    assert!(graph.edges.is_empty());
}

#[test]
fn nodes_keep_discovery_order_and_line_counts() {
    let files = vec![
        input("src/one.rs", "fn a() {}\nfn b() {}\n"),
        input("src/two.rs", "// only a comment\n"),
    ];
    let (graph, _) = analyze_project("src", &files, true).unwrap();
    assert_eq!(graph.nodes.len(), 2);
    assert_eq!(graph.nodes[0].id, "one.rs");
    assert_eq!(graph.nodes[0].label, "one.rs");
    assert_eq!(graph.nodes[0].line_count, Some(2));
    assert_eq!(graph.nodes[1].id, "two.rs");
    assert_eq!(graph.nodes[1].line_count, Some(0));
}

#[test]
fn line_counts_can_be_toggled_off() {
    let files = vec![input("src/a.rs", "pub fn f() {}\n")];
    let (graph, _) = analyze_project("src", &files, false).unwrap();
    assert_eq!(graph.nodes[0].line_count, None);
    let (graph_on, _) = analyze_project("src", &files, true).unwrap();
    assert_eq!(graph_on.nodes[0].line_count, Some(1));
}

#[test]
fn locate_root_prefers_smaller_depth() {
    let entries = vec![
        WalkEntry { path: "proj/deep/inner/src".to_string(), depth: 3, is_dir: true },
        WalkEntry { path: "proj/src".to_string(), depth: 1, is_dir: true },
    ];
    let root = locate_source_root("proj", &entries).unwrap();
    assert_eq!(root, "proj/src");
}

#[test]
fn locate_root_ignores_files_and_deep_matches() {
    let entries = vec![
        WalkEntry { path: "proj/src".to_string(), depth: 1, is_dir: false },
        WalkEntry { path: "proj/a/b/c/src".to_string(), depth: 4, is_dir: true },
    ];
    let err = locate_source_root("proj", &entries).unwrap_err();
    match err {
        AnalyzerError::SrcDirNotFound(p) => assert_eq!(p, "proj"),
        other => panic!("unexpected error: {:?}", other),
    }
}

#[test]
fn locate_root_first_at_equal_depth() {
    let entries = vec![
        WalkEntry { path: "proj/one/src".to_string(), depth: 2, is_dir: true },
        WalkEntry { path: "proj/two/src".to_string(), depth: 2, is_dir: true },
    ];
    let root = locate_source_root("proj", &entries).unwrap();
    assert_eq!(root, "proj/one/src");
}
