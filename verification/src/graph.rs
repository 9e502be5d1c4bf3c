//! The public data model: nodes, edges, the assembled graph, the analyzer's
//! structural errors, and the diagnostics the analysis reports.

use vstd::prelude::*;
use crate::inter::{interactions_view, Interaction, InterView};

verus! {

/// One discovered source file: its root-relative id, its file name as a
/// label, and its non-comment line count where the run asked for one (the
/// count is display metadata, toggled independently of the analysis).
#[derive(Debug, Clone, PartialEq, Eq)]
pub struct Node {
    pub id: String,
    pub label: String,
    pub line_count: Option<usize>,
}

/// A dependency of one file on another, with the deduplicated, ordered
/// interactions along it.
#[derive(Debug, Clone, PartialEq, Eq)]
pub struct Edge {
    pub source: String,
    pub target: String,
    pub interactions: Vec<Interaction>,
}

/// The assembled graph: the node list in discovery order and the effective
/// edge list.
#[derive(Debug)]
pub struct ModuleGraph {
    pub nodes: Vec<Node>,
    pub edges: Vec<Edge>,
}

impl Default for ModuleGraph {
    /// The empty graph.
    fn default() -> (r: ModuleGraph)
        ensures
            r.nodes@.len() == 0,
            r.edges@.len() == 0,
    {
        ModuleGraph { nodes: Vec::new(), edges: Vec::new() }
    }
}

/// The mathematical shape of a node.
pub ghost struct NodeView {
    pub id: Seq<char>,
    pub label: Seq<char>,
    pub line_count: Option<nat>,
}

/// The mathematical shape of an edge.
pub ghost struct EdgeView {
    pub source: Seq<char>,
    pub target: Seq<char>,
    pub interactions: Seq<InterView>,
}

/// The mathematical shape of a graph.
pub ghost struct GraphView {
    pub nodes: Seq<NodeView>,
    pub edges: Seq<EdgeView>,
}

pub open spec fn node_view(n: Node) -> NodeView {
    NodeView {
        id: n.id@,
        label: n.label@,
        line_count: match n.line_count {
            Option::Some(c) => Option::Some(c as nat),
            Option::None => Option::None,
        },
    }
}

pub open spec fn nodes_view(s: Seq<Node>) -> Seq<NodeView> {
    s.map_values(|n: Node| node_view(n))
}

pub open spec fn edge_view(e: Edge) -> EdgeView {
    EdgeView { source: e.source@, target: e.target@, interactions: interactions_view(e.interactions@) }
}

pub open spec fn edges_view(s: Seq<Edge>) -> Seq<EdgeView> {
    s.map_values(|e: Edge| edge_view(e))
}

pub open spec fn graph_view(g: ModuleGraph) -> GraphView {
    GraphView { nodes: nodes_view(g.nodes@), edges: edges_view(g.edges@) }
}

/// The structural failures of an analysis run. The per-file and
/// per-declaration failures are contained and never surface here.
#[derive(Debug)]
pub enum AnalyzerError {
    /// Reading the tree failed outside any one file.
    Io(String),
    /// A file's text could not be parsed. Contained during analysis; the
    /// variant stands for callers that surface one file's failure.
    Parse { path: String, message: String },
    /// Walking the tree failed.
    WalkDir(String),
    /// No conventional source root within the searched depth.
    SrcDirNotFound(String),
    /// A discovered file's path did not lie under the source root.
    PathStripError { prefix: String, path: String },
}

/// A diagnostic of one analysis run. Both cases are contained: the file
/// stays a node, and the run goes on.
#[derive(Debug, Clone, PartialEq, Eq)]
pub enum Diagnostic {
    /// A parent-scoped path in a file that sits at the root of the tree.
    ParentScopeAtRoot { file: String },
    /// A file whose text could not be parsed; its declarations are
    /// excluded.
    UnparsableFile { file: String },
}

/// The mathematical shape of a diagnostic.
pub ghost enum DiagnosticView {
    ParentScopeAtRoot { file: Seq<char> },
    UnparsableFile { file: Seq<char> },
}

pub open spec fn diagnostic_view(d: Diagnostic) -> DiagnosticView {
    match d {
        Diagnostic::ParentScopeAtRoot { file } => DiagnosticView::ParentScopeAtRoot {
            file: file@,
        },
        Diagnostic::UnparsableFile { file } => DiagnosticView::UnparsableFile { file: file@ },
    }
}

pub open spec fn diagnostics_view(s: Seq<Diagnostic>) -> Seq<DiagnosticView> {
    s.map_values(|d: Diagnostic| diagnostic_view(d))
}

} // verus!
