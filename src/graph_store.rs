use std::collections::HashMap;
use vstd::prelude::*;
use petgraph::graph::{DiGraph, NodeIndex};
use petgraph::visit::{Bfs, EdgeRef};
use petgraph::Direction;
use crate::models::{EdgeType, GraphNode, ProductView};

verus! {

#[verifier::external_type_specification]
#[verifier::external_body]
#[verifier::reject_recursive_types(N)]
#[verifier::reject_recursive_types(E)]
#[verifier::reject_recursive_types(Ty)]
#[verifier::reject_recursive_types(Ix)]
pub struct ExGraph<N, E, Ty, Ix>(petgraph::graph::Graph<N, E, Ty, Ix>);

#[verifier::external_type_specification]
#[verifier::external_body]
pub struct ExDirected(petgraph::Directed);

/// The catalog graph: node weights are [`GraphNode`]s, edge weights [`EdgeType`]s.
pub type MegaStoreGraph = DiGraph<GraphNode, EdgeType>;

/// The node weights of a graph, by node index.
pub uninterp spec fn graph_nodes(g: DiGraph<GraphNode, EdgeType>) -> Seq<GraphNode>;

/// The edges of a graph as (source, target, weight), by edge index.
pub uninterp spec fn graph_edges(g: DiGraph<GraphNode, EdgeType>) -> Seq<(usize, usize, EdgeType)>;

/// Relies on petgraph's `Graph::new`: a new graph has no nodes and no edges.
#[verifier::external_body]
pub(crate) fn graph_new() -> (g: MegaStoreGraph)
    ensures
        graph_nodes(g) == Seq::<GraphNode>::empty(),
        graph_edges(g) == Seq::<(usize, usize, EdgeType)>::empty(),
{
    DiGraph::new()
}

/// Relies on petgraph's `Graph::add_node`: the weight is appended and its
/// position returned; it panics only when the u32 index space is full.
#[verifier::external_body]
pub(crate) fn graph_add_node(g: &mut MegaStoreGraph, n: GraphNode) -> (r: usize)
    requires
        graph_nodes(*old(g)).len() < u32::MAX,
    ensures
        r == graph_nodes(*old(g)).len(),
        graph_nodes(*final(g)) == graph_nodes(*old(g)).push(n),
        graph_edges(*final(g)) == graph_edges(*old(g)),
{
    g.add_node(n).index()
}

/// Relies on petgraph's `Graph::add_edge`: the edge is appended; it panics
/// when an endpoint is not a node or the u32 index space is full.
#[verifier::external_body]
pub(crate) fn graph_add_edge(g: &mut MegaStoreGraph, a: usize, b: usize, w: EdgeType)
    requires
        a < graph_nodes(*old(g)).len(),
        b < graph_nodes(*old(g)).len(),
        graph_edges(*old(g)).len() < u32::MAX,
    ensures
        graph_nodes(*final(g)) == graph_nodes(*old(g)),
        graph_edges(*final(g)) == graph_edges(*old(g)).push((a, b, w)),
{
    g.add_edge(NodeIndex::new(a), NodeIndex::new(b), w);
}

/// Relies on petgraph's `Graph::node_weight`: the weight at that index, if any.
#[verifier::external_body]
pub(crate) fn graph_node_weight(g: &MegaStoreGraph, i: usize) -> (r: Option<&GraphNode>)
    requires
        i < u32::MAX,
    ensures
        match r {
            Some(n) => i < graph_nodes(*g).len() && *n == graph_nodes(*g)[i as int],
            None => i >= graph_nodes(*g).len(),
        },
{
    g.node_weight(NodeIndex::new(i))
}

/// Relies on petgraph's `Graph::raw_edges`: the edge list in index order.
#[verifier::external_body]
pub(crate) fn graph_edge(g: &MegaStoreGraph, i: usize) -> (r: (usize, usize, EdgeType))
    requires
        i < graph_edges(*g).len(),
    ensures
        r == graph_edges(*g)[i as int],
{
    let e = &g.raw_edges()[i];
    (e.source().index(), e.target().index(), e.weight)
}

/// Relies on petgraph's `Graph::node_count`.
#[verifier::external_body]
pub(crate) fn graph_node_count(g: &MegaStoreGraph) -> (r: usize)
    ensures
        r == graph_nodes(*g).len(),
{
    g.node_count()
}

/// Relies on petgraph's `Graph::edge_count`.
#[verifier::external_body]
pub(crate) fn graph_edge_count(g: &MegaStoreGraph) -> (r: usize)
    ensures
        r == graph_edges(*g).len(),
{
    g.edge_count()
}

/// Some edge leads from node `a` to node `b`.
pub open spec fn linked(edges: Seq<(usize, usize, EdgeType)>, a: usize, b: usize) -> bool {
    exists|m: int| 0 <= m < edges.len() && #[trigger] edges[m].0 == a && edges[m].1 == b
}

/// `p` is a walk along edges from `p[0]` to its last node.
pub open spec fn is_walk(edges: Seq<(usize, usize, EdgeType)>, p: Seq<usize>) -> bool {
    &&& p.len() >= 1
    &&& forall|i: int| 0 <= i < p.len() - 1 ==> linked(edges, #[trigger] p[i], p[i + 1])
}

/// Node `b` is reachable from node `a` by following zero or more edges.
pub open spec fn reachable(edges: Seq<(usize, usize, EdgeType)>, a: usize, b: usize) -> bool {
    exists|p: Seq<usize>| #[trigger] is_walk(edges, p) && p[0] == a && p.last() == b
}

/// Relies on petgraph's `visit::Bfs`: started at `start`, `next` yields
/// each node reachable from it along outgoing edges, and only those.
#[verifier::external_body]
pub(crate) fn graph_bfs(g: &MegaStoreGraph, start: usize) -> (r: Vec<usize>)
    requires
        start < graph_nodes(*g).len() < u32::MAX,
    ensures
        forall|n: usize| r@.contains(n) <==> reachable(graph_edges(*g), start, n),
{
    let mut bfs = Bfs::new(g, NodeIndex::new(start));
    let mut out = Vec::new();
    while let Some(n) = bfs.next(g) {
        out.push(n.index());
    }
    out
}

/// Relies on petgraph's `Graph::edges_connecting`: it yields the edges from
/// `a` to `b`; their weights are kept.
#[verifier::external_body]
pub(crate) fn graph_weights_between(g: &MegaStoreGraph, a: usize, b: usize) -> (r: Vec<EdgeType>)
    requires
        a < u32::MAX,
        b < u32::MAX,
    ensures
        forall|w: EdgeType| r@.contains(w) <==> graph_edges(*g).contains((a, b, w)),
{
    g.edges_connecting(NodeIndex::new(a), NodeIndex::new(b)).map(|e| *e.weight()).collect()
}

/// Relies on petgraph's `Graph::edges_directed` with `Outgoing`: it yields
/// the edges whose source is `a`.
#[verifier::external_body]
pub(crate) fn graph_out_edges(g: &MegaStoreGraph, a: usize) -> (r: Vec<(usize, usize, EdgeType)>)
    requires
        a < u32::MAX,
    ensures
        forall|x: (usize, usize, EdgeType)| r@.contains(x) <==> (graph_edges(*g).contains(x) && x.0 == a),
{
    g.edges_directed(NodeIndex::new(a), Direction::Outgoing)
        .map(|e| (e.source().index(), e.target().index(), *e.weight()))
        .collect()
}

/// The built catalog: the graph and the id-to-node maps of products and users.
pub struct SearchSystem {
    pub graph: MegaStoreGraph,
    pub product_id_to_index: HashMap<u32, usize>,
    pub user_id_to_index: HashMap<u32, usize>,
}

impl SearchSystem {
    pub open spec fn nodes(&self) -> Seq<GraphNode> {
        graph_nodes(self.graph)
    }

    pub open spec fn edges(&self) -> Seq<(usize, usize, EdgeType)> {
        graph_edges(self.graph)
    }

    /// The node index of the product with this id.
    pub open spec fn product_index(&self, id: u32) -> Option<usize> {
        if self.product_id_to_index@.contains_key(id) {
            Some(self.product_id_to_index@[id])
        } else {
            None
        }
    }

    /// The node index of the user with this id.
    pub open spec fn user_index(&self, id: u32) -> Option<usize> {
        if self.user_id_to_index@.contains_key(id) {
            Some(self.user_id_to_index@[id])
        } else {
            None
        }
    }

    /// `p` is the content of the product node registered under its id.
    pub open spec fn holds_product(&self, p: ProductView) -> bool {
        match self.product_index(p.id) {
            Some(j) => j < self.nodes().len() && self.nodes()[j as int] is Product
                && self.nodes()[j as int]->Product_0@ == p,
            None => false,
        }
    }

    /// Edges join existing nodes; each product and each user node has exactly
    /// one entry in its id map, and each entry leads to such a node.
    pub open spec fn wf(&self) -> bool {
        &&& self.nodes().len() < u32::MAX
        &&& self.edges().len() < u32::MAX
        &&& forall|k: int| 0 <= k < self.edges().len() ==>
            (#[trigger] self.edges()[k]).0 < self.nodes().len()
                && self.edges()[k].1 < self.nodes().len()
        &&& forall|id: u32| #[trigger] self.product_id_to_index@.contains_key(id) ==>
            self.product_id_to_index@[id] < self.nodes().len()
                && self.nodes()[self.product_id_to_index@[id] as int].is_product_with(id)
        &&& forall|j: int| 0 <= j < self.nodes().len() && (#[trigger] self.nodes()[j]) is Product
            ==> self.product_id_to_index@.contains_key(self.nodes()[j]->Product_0.id)
                && self.product_id_to_index@[self.nodes()[j]->Product_0.id] == j
        &&& forall|id: u32| #[trigger] self.user_id_to_index@.contains_key(id) ==>
            self.user_id_to_index@[id] < self.nodes().len()
                && self.nodes()[self.user_id_to_index@[id] as int].is_user_with(id)
        &&& forall|j: int| 0 <= j < self.nodes().len() && (#[trigger] self.nodes()[j]) is User
            ==> self.user_id_to_index@.contains_key(self.nodes()[j]->User_0.id)
                && self.user_id_to_index@[self.nodes()[j]->User_0.id] == j
    }
}

} // verus!
