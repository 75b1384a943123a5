//! Construction of a package graph from the stored rows of one SBOM.
use crate::graph::{GraphBuilder, PackageGraph, INDEX_LIMIT};
use crate::model::{kind_model, model_of, models_of, strings_model, GraphNode, KindModel, NodeKind, NodeModel, Relationship};
use crate::service::AnalysisError;
use crate::resolve::ExternalNodeRow;
use crate::walk::{first_index, lemma_first_index};
use vstd::prelude::*;

verus! {

/// A stored node of the SBOM, with its name.
pub struct NodeRow {
    pub node_id: String,
    pub name: String,
}

/// The package data of a node.
pub struct PackageRow {
    pub node_id: String,
    pub version: String,
    pub published: Option<i64>,
}

/// A package URL or a CPE of a node.
pub struct IdentifierRow {
    pub node_id: String,
    pub value: String,
}

/// A stored relationship: `left_node_id` relates to `right_node_id`.
pub struct RelationRow {
    pub left_node_id: String,
    pub right_node_id: String,
    pub relationship: Relationship,
}

/// The stored rows of one SBOM.
pub struct SbomRows {
    pub sbom_id: String,
    pub nodes: Vec<NodeRow>,
    pub packages: Vec<PackageRow>,
    pub purls: Vec<IdentifierRow>,
    pub cpes: Vec<IdentifierRow>,
    pub externals: Vec<ExternalNodeRow>,
    pub relations: Vec<RelationRow>,
}

/// The values of the rows for node `id`, in row order.
pub open spec fn values_for(rows: Seq<IdentifierRow>, id: Seq<char>) -> Seq<Seq<char>>
    decreases rows.len(),
{
    if rows.len() == 0 {
        Seq::empty()
    } else {
        let prev = values_for(rows.drop_last(), id);
        if rows.last().node_id@ == id {
            prev.push(rows.last().value@)
        } else {
            prev
        }
    }
}

/// The package row is the one of node `id`.
pub open spec fn package_for(id: Seq<char>) -> spec_fn(PackageRow) -> bool {
    |r: PackageRow| r.node_id@ == id
}

/// The external row is the one of node `id`.
pub open spec fn external_for(id: Seq<char>) -> spec_fn(ExternalNodeRow) -> bool {
    |r: ExternalNodeRow| r.node_id@ == id
}

/// The kind of node `id`: a package where a package row names it, with its
/// package URLs and CPEs; else an external node where an external row names
/// it; else unknown.
pub open spec fn kind_for(rows: SbomRows, id: Seq<char>) -> KindModel {
    match first_index(rows.packages@, package_for(id)) {
        Some(p) => KindModel::Package {
            version: rows.packages@[p].version@,
            published: rows.packages@[p].published,
            purl: values_for(rows.purls@, id),
            cpe: values_for(rows.cpes@, id),
        },
        None => match first_index(rows.externals@, external_for(id)) {
            Some(e) => KindModel::External {
                reference: rows.externals@[e].external_doc_ref@,
                node: rows.externals@[e].external_node_ref@,
            },
            None => KindModel::Unknown,
        },
    }
}

/// The node is `id`.
pub open spec fn model_for(id: Seq<char>) -> spec_fn(NodeModel) -> bool {
    |n: NodeModel| n.node_id == id
}

/// The nodes of the first `k` node rows; a row repeating an earlier node is skipped.
pub open spec fn row_nodes(rows: SbomRows, k: nat) -> Seq<NodeModel>
    decreases k,
{
    if k == 0 {
        Seq::empty()
    } else {
        let prev = row_nodes(rows, (k - 1) as nat);
        let r = rows.nodes@[k - 1];
        if first_index(prev, model_for(r.node_id@)) is Some {
            prev
        } else {
            prev.push(NodeModel { sbom_id: rows.sbom_id@, node_id: r.node_id@, name: r.name@, kind: kind_for(rows, r.node_id@) })
        }
    }
}

/// The index of node `id` in `ns`, adding an unknown node for it at the end
/// where it is missing.
pub open spec fn endpoint(ns: Seq<NodeModel>, sbom: Seq<char>, id: Seq<char>) -> (Seq<NodeModel>, int) {
    match first_index(ns, model_for(id)) {
        Some(i) => (ns, i),
        None => (ns.push(NodeModel { sbom_id: sbom, node_id: id, name: Seq::empty(), kind: KindModel::Unknown }), ns.len() as int),
    }
}

/// The nodes and edges after the node rows and the first `k` relationship
/// rows: each relationship is an edge from its left node to its right node.
pub open spec fn loaded(rows: SbomRows, k: nat) -> (Seq<NodeModel>, Seq<(usize, usize, Relationship)>)
    decreases k,
{
    if k == 0 {
        (row_nodes(rows, rows.nodes@.len()), Seq::empty())
    } else {
        let prev = loaded(rows, (k - 1) as nat);
        let rel = rows.relations@[k - 1];
        let a = endpoint(prev.0, rows.sbom_id@, rel.left_node_id@);
        let b = endpoint(a.0, rows.sbom_id@, rel.right_node_id@);
        (b.0, prev.1.push((a.1 as usize, b.1 as usize, rel.relationship)))
    }
}

/// The rows are too many for the graph's index space.
pub open spec fn too_large(rows: SbomRows) -> bool {
    rows.nodes@.len() + 2 * rows.relations@.len() >= INDEX_LIMIT
}

/// The values of the rows for node `id`, in row order.
fn values_of(rows: &Vec<IdentifierRow>, id: &String) -> (r: Vec<String>)
    ensures
        strings_model(r@) == values_for(rows@, id@),
{
    let mut r: Vec<String> = Vec::new();
    let mut i: usize = 0;
    while i < rows.len()
        invariant
            i <= rows@.len(),
            strings_model(r@) == values_for(rows@.subrange(0, i as int), id@),
        decreases rows@.len() - i,
    {
        proof {
            assert(rows@.subrange(0, i + 1).drop_last() =~= rows@.subrange(0, i as int));
        }
        if rows[i].node_id == *id {
            let ghost before = r@;
            r.push(rows[i].value.clone());
            proof {
                assert(strings_model(r@) =~= strings_model(before).push(rows@[i as int].value@));
            }
        }
        i = i + 1;
    }
    proof {
        assert(rows@.subrange(0, rows@.len() as int) =~= rows@);
    }
    r
}

/// The kind of node `id` by the rows.
fn node_kind(rows: &SbomRows, id: &String) -> (k: NodeKind)
    ensures
        kind_model(k) == kind_for(*rows, id@),
{
    let ghost p = package_for(id@);
    let mut i: usize = 0;
    while i < rows.packages.len()
        invariant
            i <= rows.packages@.len(),
            p == package_for(id@),
            forall|j: int| 0 <= j < i ==> !p(#[trigger] rows.packages@[j]),
        decreases rows.packages@.len() - i,
    {
        if rows.packages[i].node_id == *id {
            proof {
                lemma_first_index(rows.packages@, p, i as int);
            }
            let pkg = &rows.packages[i];
            return NodeKind::Package {
                version: pkg.version.clone(),
                published: pkg.published,
                purl: values_of(&rows.purls, id),
                cpe: values_of(&rows.cpes, id),
            };
        }
        i = i + 1;
    }
    let ghost q = external_for(id@);
    let mut j: usize = 0;
    while j < rows.externals.len()
        invariant
            j <= rows.externals@.len(),
            q == external_for(id@),
            first_index(rows.packages@, package_for(id@)) is None,
            forall|k: int| 0 <= k < j ==> !q(#[trigger] rows.externals@[k]),
        decreases rows.externals@.len() - j,
    {
        if rows.externals[j].node_id == *id {
            proof {
                lemma_first_index(rows.externals@, q, j as int);
            }
            let ext = &rows.externals[j];
            return NodeKind::External {
                external_document_reference: ext.external_doc_ref.clone(),
                external_node_id: ext.external_node_ref.clone(),
            };
        }
        j = j + 1;
    }
    NodeKind::Unknown
}

/// Where node `id` stands among the nodes built so far.
fn find_built(b: &GraphBuilder, id: &String) -> (r: Option<usize>)
    ensures
        r matches Some(i) ==> first_index(models_of(b.nodes()), model_for(id@)) == Some(i as int) && i < b.nodes().len(),
        r is None ==> first_index(models_of(b.nodes()), model_for(id@)) is None,
{
    let ghost p = model_for(id@);
    let ghost ms = models_of(b.nodes());
    let count = b.node_count();
    let mut i: usize = 0;
    while i < count
        invariant
            count == b.nodes().len(),
            ms == models_of(b.nodes()),
            i <= count,
            p == model_for(id@),
            forall|j: int| 0 <= j < i ==> !p(#[trigger] ms[j]),
        decreases count - i,
    {
        if b.node(i).node_id == *id {
            proof {
                lemma_first_index(ms, p, i as int);
            }
            return Some(i);
        }
        i = i + 1;
    }
    None
}

/// The index of node `id`, adding an unknown node for it where it is missing.
fn endpoint_of(b: &mut GraphBuilder, sbom_id: &String, id: &String) -> (i: usize)
    requires
        old(b).wf(),
        old(b).nodes().len() < INDEX_LIMIT,
    ensures
        final(b).wf(),
        final(b).sbom() == old(b).sbom(),
        final(b).edges() == old(b).edges(),
        (models_of(final(b).nodes()), i as int) == endpoint(models_of(old(b).nodes()), sbom_id@, id@),
        i < final(b).nodes().len(),
        final(b).nodes().len() <= old(b).nodes().len() + 1,
{
    match find_built(b, id) {
        Some(i) => i,
        None => {
            let w = GraphNode { sbom_id: sbom_id.clone(), node_id: id.clone(), name: String::new(), kind: NodeKind::Unknown };
            let ghost before = b.nodes();
            let i = b.add_node(w);
            proof {
                assert(models_of(b.nodes()) =~= models_of(before).push(model_of(w)));
            }
            i
        },
    }
}

/// Builds the package graph of one SBOM from its rows: a node for each node
/// row (the first row of a node counts), a package where a package row names
/// it, else an external node where an external row names it, else an
/// unknown one; then an edge for each relationship row, from its left node
/// to its right node, adding an unknown node for an identifier no row
/// names. Fails only where the rows are too many for the graph's index space.
pub fn load_graph(rows: &SbomRows) -> (r: Result<PackageGraph, AnalysisError>)
    ensures
        too_large(*rows) <==> r is Err,
        r matches Err(e) ==> e is Internal,
        r matches Ok(g) ==> {
            &&& g.wf()
            &&& g.sbom() == rows.sbom_id@
            &&& models_of(g.nodes()) == loaded(*rows, rows.relations@.len()).0
            &&& g.edges() == loaded(*rows, rows.relations@.len()).1
        },
{
    if rows.nodes.len() as u128 + 2 * (rows.relations.len() as u128) >= INDEX_LIMIT as u128 {
        return Err(AnalysisError::Internal(String::from_str("too many nodes for one graph")));
    }
    let mut b = GraphBuilder::new(rows.sbom_id.clone());
    let mut i: usize = 0;
    while i < rows.nodes.len()
        invariant
            !too_large(*rows),
            b.wf(),
            b.sbom() == rows.sbom_id@,
            i <= rows.nodes@.len(),
            b.nodes().len() <= i,
            b.edges().len() == 0,
            models_of(b.nodes()) == row_nodes(*rows, i as nat),
        decreases rows.nodes@.len() - i,
    {
        let row = &rows.nodes[i];
        match find_built(&b, &row.node_id) {
            Some(_) => {},
            None => {
                let w = GraphNode {
                    sbom_id: rows.sbom_id.clone(),
                    node_id: row.node_id.clone(),
                    name: row.name.clone(),
                    kind: node_kind(rows, &row.node_id),
                };
                let ghost before = b.nodes();
                b.add_node(w);
                proof {
                    assert(models_of(b.nodes()) =~= models_of(before).push(model_of(w)));
                }
            },
        }
        i = i + 1;
    }
    let mut k: usize = 0;
    while k < rows.relations.len()
        invariant
            !too_large(*rows),
            b.wf(),
            b.sbom() == rows.sbom_id@,
            k <= rows.relations@.len(),
            b.nodes().len() <= rows.nodes@.len() + 2 * k,
            b.edges().len() == k,
            models_of(b.nodes()) == loaded(*rows, k as nat).0,
            b.edges() == loaded(*rows, k as nat).1,
        decreases rows.relations@.len() - k,
    {
        let rel = &rows.relations[k];
        let a = endpoint_of(&mut b, &rows.sbom_id, &rel.left_node_id);
        let c = endpoint_of(&mut b, &rows.sbom_id, &rel.right_node_id);
        b.add_edge(a, c, rel.relationship);
        k = k + 1;
    }
    Ok(b.build())
}

} // verus!
