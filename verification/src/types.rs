//! Graph data structures for input to the graph view.

use vstd::prelude::*;

verus! {

/// A node in the graph.
#[derive(Clone, Debug)]
pub struct GraphNode {
    /// Unique identifier for this node, referenced by links.
    pub id: String,
    /// Optional display label; labeled nodes are rendered larger.
    pub label: Option<String>,
    /// Optional CSS color override (such as `#ff0000`). When absent the
    /// color derives from the cluster colors or the theme palette.
    pub color: Option<String>,
    /// Optional group name for cluster-based coloring.
    pub group: Option<String>,
}

/// A directed edge between two nodes, by their identifiers.
#[derive(Clone, Debug)]
pub struct GraphLink {
    /// Source node identifier.
    pub source: String,
    /// Target node identifier.
    pub target: String,
}

/// Complete graph data: nodes and links.
#[derive(Clone, Debug)]
pub struct GraphData {
    pub nodes: Vec<GraphNode>,
    pub links: Vec<GraphLink>,
}

impl Default for GraphData {
    /// The empty graph.
    fn default() -> (r: GraphData)
        ensures
            r.nodes.len() == 0,
            r.links.len() == 0,
    {
        GraphData { nodes: Vec::new(), links: Vec::new() }
    }
}

} // verus!
