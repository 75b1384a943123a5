//! The package graph of one SBOM, held in a petgraph directed graph.
use crate::model::{Direction, GraphNode, Relationship};
use petgraph::graph::{Graph, NodeIndex};
use petgraph::visit::EdgeRef;
use vstd::prelude::*;

verus! {

#[verifier::external_type_specification]
#[verifier::external_body]
#[verifier::reject_recursive_types(N)]
#[verifier::reject_recursive_types(E)]
#[verifier::reject_recursive_types(Ty)]
#[verifier::reject_recursive_types(Ix)]
pub struct ExGraph<N, E, Ty, Ix>(Graph<N, E, Ty, Ix>);

#[verifier::external_type_specification]
#[verifier::external_body]
pub struct ExDirected(petgraph::Directed);

/// The node weights of a petgraph graph, by node index.
pub uninterp spec fn graph_nodes(g: Graph<GraphNode, Relationship>) -> Seq<GraphNode>;

/// The edges of a petgraph graph as (source, target, label), by edge index.
pub uninterp spec fn graph_edges(g: Graph<GraphNode, Relationship>) -> Seq<(usize, usize, Relationship)>;

/// Largest number of nodes, and of edges, that a graph with `u32` indices holds.
pub const INDEX_LIMIT: usize = 4294967295;

/// Whether edge `e` leaves node `n` (`Outgoing`) or enters it (`Incoming`).
pub open spec fn touches(e: (usize, usize, Relationship), n: usize, dir: Direction) -> bool {
    match dir {
        Direction::Outgoing => e.0 == n,
        Direction::Incoming => e.1 == n,
    }
}

/// The edges of `edges` at node `n` in direction `dir`, in insertion order.
pub open spec fn incident(
    edges: Seq<(usize, usize, Relationship)>,
    n: usize,
    dir: Direction,
) -> Seq<(usize, usize, Relationship)> {
    edges.filter(at_node(n, dir))
}

/// The edge is at node `n` in direction `dir`.
pub open spec fn at_node(n: usize, dir: Direction) -> spec_fn((usize, usize, Relationship)) -> bool {
    |e: (usize, usize, Relationship)| touches(e, n, dir)
}

/// Relies on petgraph's `Graph::new`: a directed graph without nodes or edges.
#[verifier::external_body]
fn pg_new() -> (g: Graph<GraphNode, Relationship>)
    ensures
        graph_nodes(g) == Seq::<GraphNode>::empty(),
        graph_edges(g) == Seq::<(usize, usize, Relationship)>::empty(),
{
    Graph::new()
}

/// Relies on petgraph's `Graph::add_node`: appends a node, whose index is the
/// former node count. It panics only when the `u32` index space is full.
#[verifier::external_body]
fn pg_add_node(g: &mut Graph<GraphNode, Relationship>, w: GraphNode) -> (i: usize)
    requires
        graph_nodes(*old(g)).len() < INDEX_LIMIT,
    ensures
        i == graph_nodes(*old(g)).len(),
        graph_nodes(*final(g)) == graph_nodes(*old(g)).push(w),
        graph_edges(*final(g)) == graph_edges(*old(g)),
{
    g.add_node(w).index()
}

/// Relies on petgraph's `Graph::add_edge`: appends an edge from `a` to `b`;
/// parallel edges are kept. It panics only on a missing node or a full index space.
#[verifier::external_body]
fn pg_add_edge(g: &mut Graph<GraphNode, Relationship>, a: usize, b: usize, r: Relationship)
    requires
        a < graph_nodes(*old(g)).len(),
        b < graph_nodes(*old(g)).len(),
        graph_edges(*old(g)).len() < INDEX_LIMIT,
    ensures
        graph_nodes(*final(g)) == graph_nodes(*old(g)),
        graph_edges(*final(g)) == graph_edges(*old(g)).push((a, b, r)),
{
    g.add_edge(NodeIndex::new(a), NodeIndex::new(b), r);
}

/// Relies on petgraph's `Graph::node_count`.
#[verifier::external_body]
fn pg_node_count(g: &Graph<GraphNode, Relationship>) -> (n: usize)
    ensures
        n == graph_nodes(*g).len(),
{
    g.node_count()
}

/// Relies on petgraph's `Graph::edge_count`.
#[verifier::external_body]
fn pg_edge_count(g: &Graph<GraphNode, Relationship>) -> (n: usize)
    ensures
        n == graph_edges(*g).len(),
{
    g.edge_count()
}

/// Relies on petgraph's `Index<NodeIndex>` for `Graph`: the weight of node `i`.
#[verifier::external_body]
fn pg_node<'a>(g: &'a Graph<GraphNode, Relationship>, i: usize) -> (w: &'a GraphNode)
    requires
        i < graph_nodes(*g).len(),
    ensures
        *w == graph_nodes(*g)[i as int],
{
    &g[NodeIndex::new(i)]
}

/// Relies on petgraph's `Graph::edges_directed`: for a directed graph, the
/// edges from `i` (`Outgoing`) or to `i` (`Incoming`), most recently added first.
#[verifier::external_body]
fn pg_edges_directed(g: &Graph<GraphNode, Relationship>, i: usize, dir: Direction) -> (r: Vec<(usize, usize, Relationship)>)
    requires
        i < graph_nodes(*g).len(),
    ensures
        r@ == incident(graph_edges(*g), i, dir).reverse(),
{
    let d = match dir {
        Direction::Incoming => petgraph::Direction::Incoming,
        Direction::Outgoing => petgraph::Direction::Outgoing,
    };
    g.edges_directed(NodeIndex::new(i), d).map(|e| (e.source().index(), e.target().index(), *e.weight())).collect()
}

/// `p` is a path of at least one step along `edges`.
pub open spec fn is_path(edges: Seq<(usize, usize, Relationship)>, p: Seq<usize>) -> bool {
    &&& p.len() >= 2
    &&& forall|k: int|
        #![trigger p[k]]
        0 <= k < p.len() - 1 ==> exists|e: int|
            0 <= e < edges.len() && edges[e].0 == p[k] && edges[e].1 == p[k + 1]
}

/// Some path along `edges` comes back to where it started.
pub open spec fn has_cycle(edges: Seq<(usize, usize, Relationship)>) -> bool {
    exists|p: Seq<usize>| is_path(edges, p) && p[0] == p[p.len() - 1]
}

/// Relies on petgraph's `algo::is_cyclic_directed`: `true` exactly when the
/// directed graph contains a cycle.
#[verifier::external_body]
fn pg_is_cyclic(g: &Graph<GraphNode, Relationship>) -> (r: bool)
    ensures
        r == has_cycle(graph_edges(*g)),
{
    petgraph::algo::is_cyclic_directed(g)
}

/// Every edge joins two nodes of a graph with `n` nodes.
pub open spec fn edges_in_range(edges: Seq<(usize, usize, Relationship)>, n: nat) -> bool {
    forall|e: int| #![trigger edges[e]] 0 <= e < edges.len() ==> edges[e].0 < n && edges[e].1 < n
}

/// A package graph under construction.
pub struct GraphBuilder {
    sbom_id: String,
    graph: Graph<GraphNode, Relationship>,
}

impl GraphBuilder {
    pub closed spec fn sbom(&self) -> Seq<char> {
        self.sbom_id@
    }

    pub closed spec fn nodes(&self) -> Seq<GraphNode> {
        graph_nodes(self.graph)
    }

    pub closed spec fn edges(&self) -> Seq<(usize, usize, Relationship)> {
        graph_edges(self.graph)
    }

    pub open spec fn wf(&self) -> bool {
        &&& self.nodes().len() <= INDEX_LIMIT
        &&& self.edges().len() <= INDEX_LIMIT
        &&& edges_in_range(self.edges(), self.nodes().len())
    }

    /// An empty graph for the SBOM `sbom_id`.
    pub fn new(sbom_id: String) -> (b: GraphBuilder)
        ensures
            b.wf(),
            b.sbom() == sbom_id@,
            b.nodes() == Seq::<GraphNode>::empty(),
            b.edges() == Seq::<(usize, usize, Relationship)>::empty(),
    {
        GraphBuilder { sbom_id, graph: pg_new() }
    }

    pub fn node_count(&self) -> (n: usize)
        ensures
            n == self.nodes().len(),
    {
        pg_node_count(&self.graph)
    }

    pub fn edge_count(&self) -> (n: usize)
        ensures
            n == self.edges().len(),
    {
        pg_edge_count(&self.graph)
    }

    pub fn node(&self, i: usize) -> (w: &GraphNode)
        requires
            i < self.nodes().len(),
        ensures
            *w == self.nodes()[i as int],
    {
        pg_node(&self.graph, i)
    }

    /// Appends a node; its index is the former node count.
    pub fn add_node(&mut self, w: GraphNode) -> (i: usize)
        requires
            old(self).wf(),
            old(self).nodes().len() < INDEX_LIMIT,
        ensures
            final(self).wf(),
            i == old(self).nodes().len(),
            final(self).sbom() == old(self).sbom(),
            final(self).nodes() == old(self).nodes().push(w),
            final(self).edges() == old(self).edges(),
    {
        pg_add_node(&mut self.graph, w)
    }

    /// Appends an edge from `a` to `b` labelled `r`.
    pub fn add_edge(&mut self, a: usize, b: usize, r: Relationship)
        requires
            old(self).wf(),
            a < old(self).nodes().len(),
            b < old(self).nodes().len(),
            old(self).edges().len() < INDEX_LIMIT,
        ensures
            final(self).wf(),
            final(self).sbom() == old(self).sbom(),
            final(self).nodes() == old(self).nodes(),
            final(self).edges() == old(self).edges().push((a, b, r)),
    {
        pg_add_edge(&mut self.graph, a, b, r);
    }

    /// Seals the graph, checking it once for cycles.
    pub fn build(self) -> (g: PackageGraph)
        requires
            self.wf(),
        ensures
            g.wf(),
            g.sbom() == self.sbom(),
            g.nodes() == self.nodes(),
            g.edges() == self.edges(),
    {
        let cyclic = pg_is_cyclic(&self.graph);
        PackageGraph { sbom_id: self.sbom_id, graph: self.graph, cyclic }
    }
}

/// The immutable package graph of one SBOM, with its cycle check memoized.
pub struct PackageGraph {
    sbom_id: String,
    graph: Graph<GraphNode, Relationship>,
    cyclic: bool,
}

impl PackageGraph {
    pub closed spec fn sbom(&self) -> Seq<char> {
        self.sbom_id@
    }

    pub closed spec fn nodes(&self) -> Seq<GraphNode> {
        graph_nodes(self.graph)
    }

    pub closed spec fn edges(&self) -> Seq<(usize, usize, Relationship)> {
        graph_edges(self.graph)
    }

    pub closed spec fn cyclic_flag(&self) -> bool {
        self.cyclic
    }

    pub open spec fn wf(&self) -> bool {
        &&& self.nodes().len() <= INDEX_LIMIT
        &&& self.edges().len() <= INDEX_LIMIT
        &&& edges_in_range(self.edges(), self.nodes().len())
        &&& self.cyclic_flag() == has_cycle(self.edges())
    }

    pub fn sbom_id(&self) -> (s: &String)
        ensures
            s@ == self.sbom(),
    {
        &self.sbom_id
    }

    /// Whether the graph contains a cycle.
    pub fn is_cyclic(&self) -> (r: bool)
        ensures
            r == self.cyclic_flag(),
            self.wf() ==> r == has_cycle(self.edges()),
    {
        self.cyclic
    }

    pub fn node_count(&self) -> (n: usize)
        ensures
            n == self.nodes().len(),
    {
        pg_node_count(&self.graph)
    }

    pub fn edge_count(&self) -> (n: usize)
        ensures
            n == self.edges().len(),
    {
        pg_edge_count(&self.graph)
    }

    pub fn node(&self, i: usize) -> (w: &GraphNode)
        requires
            i < self.nodes().len(),
        ensures
            *w == self.nodes()[i as int],
    {
        pg_node(&self.graph, i)
    }

    /// The edges at node `i` in direction `dir`, in insertion order.
    pub fn edges_at(&self, i: usize, dir: Direction) -> (r: Vec<(usize, usize, Relationship)>)
        requires
            self.wf(),
            i < self.nodes().len(),
        ensures
            r@ == incident(self.edges(), i, dir),
            edges_in_range(r@, self.nodes().len()),
    {
        let rev = pg_edges_directed(&self.graph, i, dir);
        let ghost want = incident(self.edges(), i, dir);
        let mut r: Vec<(usize, usize, Relationship)> = Vec::new();
        let mut k: usize = rev.len();
        proof {
            assert(rev@.len() == want.len());
        }
        while k > 0
            invariant
                k <= rev@.len(),
                rev@ == want.reverse(),
                r@ == want.subrange(0, rev@.len() - k),
            decreases k,
        {
            k = k - 1;
            r.push(rev[k]);
            proof {
                assert(r@ =~= want.subrange(0, rev@.len() - k));
            }
        }
        proof {
            assert(r@ =~= want);
            assert forall|e: int| #![trigger r@[e]] 0 <= e < r@.len() implies r@[e].0 < self.nodes().len() && r@[e].1 < self.nodes().len() by {
                assert(want[e] == r@[e]);
                assert(want.contains(want[e]));
                self.edges().lemma_filter_contains_rev(at_node(i, dir), want[e]);
            }
        }
        r
    }
}

} // verus!
