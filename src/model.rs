//! Data types shared by the graph, the query filter and the traversal.
use vstd::prelude::*;

verus! {

/// Label of an edge between two nodes of one SBOM.
#[derive(Clone, Copy, Debug, PartialEq, Eq, Hash, Structural)]
pub enum Relationship {
    ContainedBy,
    DependsOn,
    DevDependencyOf,
    OptionalDependencyOf,
    ProvidedDependencyOf,
    TestDependencyOf,
    RuntimeDependencyOf,
    Example,
    Generates,
    GeneratedFrom,
    AncestorOf,
    DescendantOf,
    VariantOf,
    BuildToolOf,
    DevToolOf,
    DescribedBy,
    PackageOf,
}

/// Direction of a walk: `Incoming` follows edges backwards (ancestors),
/// `Outgoing` follows them forwards (descendants).
#[derive(Clone, Copy, Debug, PartialEq, Eq, Hash, Structural)]
pub enum Direction {
    Incoming,
    Outgoing,
}

/// What kind of node a graph node is, with the fields of that kind.
#[derive(Debug)]
pub enum NodeKind {
    /// A package, with its version, publication time (seconds since the
    /// epoch) and its package URLs and CPEs.
    Package { version: String, published: Option<i64>, purl: Vec<String>, cpe: Vec<String> },
    /// A stub naming a node of another SBOM.
    External { external_document_reference: String, external_node_id: String },
    /// A referenced node with no package row.
    Unknown,
}

/// A node of a package graph.
#[derive(Debug)]
pub struct GraphNode {
    pub sbom_id: String,
    pub node_id: String,
    pub name: String,
    pub kind: NodeKind,
}

/// The summary of a graph node that a result record carries.
#[derive(Debug)]
pub struct BaseSummary {
    pub sbom_id: String,
    pub node_id: String,
    pub name: String,
    pub version: String,
    pub published: Option<i64>,
    pub purl: Vec<String>,
    pub cpe: Vec<String>,
}

/// The summary carries the node's identity and name; a package's version,
/// publication time, package URLs and CPEs; empty values for other nodes.
pub open spec fn summarizes(b: BaseSummary, n: GraphNode) -> bool {
    &&& b.sbom_id@ == n.sbom_id@
    &&& b.node_id@ == n.node_id@
    &&& b.name@ == n.name@
    &&& match n.kind {
        NodeKind::Package { version, published, purl, cpe } => {
            &&& b.version@ == version@
            &&& b.published == published
            &&& b.purl@ == purl@
            &&& b.cpe@ == cpe@
        },
        _ => {
            &&& b.version@.len() == 0
            &&& b.published is None
            &&& b.purl@.len() == 0
            &&& b.cpe@.len() == 0
        },
    }
}

/// The content of a node kind, as character sequences.
pub enum KindModel {
    Package { version: Seq<char>, published: Option<i64>, purl: Seq<Seq<char>>, cpe: Seq<Seq<char>> },
    External { reference: Seq<char>, node: Seq<char> },
    Unknown,
}

/// The content of a graph node, as character sequences.
pub struct NodeModel {
    pub sbom_id: Seq<char>,
    pub node_id: Seq<char>,
    pub name: Seq<char>,
    pub kind: KindModel,
}

/// The characters of each string.
pub open spec fn strings_model(v: Seq<String>) -> Seq<Seq<char>> {
    v.map_values(|s: String| s@)
}

/// The content of a node kind.
pub open spec fn kind_model(k: NodeKind) -> KindModel {
    match k {
        NodeKind::Package { version, published, purl, cpe } => KindModel::Package {
            version: version@,
            published,
            purl: strings_model(purl@),
            cpe: strings_model(cpe@),
        },
        NodeKind::External { external_document_reference, external_node_id } => KindModel::External {
            reference: external_document_reference@,
            node: external_node_id@,
        },
        NodeKind::Unknown => KindModel::Unknown,
    }
}

/// The content of node `n`.
pub open spec fn model_of(n: GraphNode) -> NodeModel {
    NodeModel { sbom_id: n.sbom_id@, node_id: n.node_id@, name: n.name@, kind: kind_model(n.kind) }
}

/// The content of each node.
pub open spec fn models_of(ns: Seq<GraphNode>) -> Seq<NodeModel> {
    ns.map_values(|n: GraphNode| model_of(n))
}

/// A copy of a list of strings.
pub fn clone_strings(v: &Vec<String>) -> (r: Vec<String>)
    ensures
        r@ == v@,
{
    let mut r: Vec<String> = Vec::new();
    let mut i: usize = 0;
    while i < v.len()
        invariant
            i <= v@.len(),
            r@ == v@.subrange(0, i as int),
        decreases v@.len() - i,
    {
        r.push(v[i].clone());
        i = i + 1;
        proof {
            assert(r@ =~= v@.subrange(0, i as int));
        }
    }
    proof {
        assert(r@ =~= v@);
    }
    r
}

/// The summary of a graph node.
pub fn summary(n: &GraphNode) -> (b: BaseSummary)
    ensures
        summarizes(b, *n),
{
    match &n.kind {
        NodeKind::Package { version, published, purl, cpe } => BaseSummary {
            sbom_id: n.sbom_id.clone(),
            node_id: n.node_id.clone(),
            name: n.name.clone(),
            version: version.clone(),
            published: *published,
            purl: clone_strings(purl),
            cpe: clone_strings(cpe),
        },
        _ => BaseSummary {
            sbom_id: n.sbom_id.clone(),
            node_id: n.node_id.clone(),
            name: n.name.clone(),
            version: String::new(),
            published: None,
            purl: Vec::new(),
            cpe: Vec::new(),
        },
    }
}

/// One record of a result tree: the node reached, the label of the edge that
/// led to it (`None` at a root), and the walks made from it. A walk is `None`
/// when it was not performed and `Some` of the (possibly empty) children
/// otherwise. `origin` is the graph position and node index the record
/// stands for.
pub struct Node {
    pub base: BaseSummary,
    pub relationship: Option<Relationship>,
    pub ancestors: Option<Vec<Node>>,
    pub descendants: Option<Vec<Node>>,
    pub origin: Ghost<(int, int)>,
}

} // verus!
