//! Depth-bounded walks towards ancestors or descendants, sharing one set of
//! discovered nodes across directions, seeds and graphs, and hopping into
//! another SBOM's graph at external nodes.
use crate::graph::{edges_in_range, incident, PackageGraph};
use crate::model::{summarizes, summary, Direction, GraphNode, Node, NodeKind, Relationship};
use fixedbitset::FixedBitSet;
use std::sync::Arc;
use vstd::prelude::*;

verus! {

broadcast use {vstd::std_specs::vec::axiom_vec_decreases_to_view, vstd::seq::axiom_seq_index_decreases};

#[verifier::external_type_specification]
#[verifier::external_body]
pub struct ExFixedBitSet(FixedBitSet);

/// The bits that are set in a bit set.
pub uninterp spec fn bit_set(b: FixedBitSet) -> Set<usize>;

/// The number of bits a bit set was made with.
pub uninterp spec fn bit_len(b: FixedBitSet) -> nat;

/// Relies on fixedbitset's `FixedBitSet::with_capacity`: `n` bits, all clear.
#[verifier::external_body]
fn bits_new(n: usize) -> (b: FixedBitSet)
    ensures
        bit_set(b) == Set::<usize>::empty(),
        bit_len(b) == n,
{
    FixedBitSet::with_capacity(n)
}

/// Relies on fixedbitset's `FixedBitSet::put`: sets bit `i` and returns
/// whether it was set before; it panics only when `i` is out of range.
#[verifier::external_body]
fn bits_put(b: &mut FixedBitSet, i: usize) -> (was: bool)
    requires
        i < bit_len(*old(b)),
    ensures
        was == bit_set(*old(b)).contains(i),
        bit_set(*final(b)) == bit_set(*old(b)).insert(i),
        bit_len(*final(b)) == bit_len(*old(b)),
{
    b.put(i)
}

/// Where an external node leads: the node `node_id` of the SBOM `sbom_id`.
pub struct ExternalLink {
    pub external_node_ref: String,
    pub sbom_id: String,
    pub node_id: String,
}

/// The first index at which `p` holds, if any.
pub open spec fn first_index<A>(s: Seq<A>, p: spec_fn(A) -> bool) -> Option<int> {
    if exists|i: int| 0 <= i < s.len() && p(s[i]) {
        Some(choose|i: int| 0 <= i < s.len() && p(s[i]) && forall|j: int| 0 <= j < i ==> !p(s[j]))
    } else {
        None
    }
}

/// The index of the first graph of `graphs` for SBOM `sbom`.
pub open spec fn graph_of(graphs: Seq<Arc<PackageGraph>>, sbom: Seq<char>) -> Option<int> {
    first_index(graphs, for_sbom(sbom))
}

/// The graph is the one of SBOM `sbom`.
pub open spec fn for_sbom(sbom: Seq<char>) -> spec_fn(Arc<PackageGraph>) -> bool {
    |g: Arc<PackageGraph>| g.sbom() == sbom
}

/// The index of the first node of `nodes` with identifier `node_id`.
pub open spec fn node_of(nodes: Seq<GraphNode>, node_id: Seq<char>) -> Option<int> {
    first_index(nodes, with_node_id(node_id))
}

/// The node has identifier `node_id`.
pub open spec fn with_node_id(node_id: Seq<char>) -> spec_fn(GraphNode) -> bool {
    |n: GraphNode| n.node_id@ == node_id
}

/// The index of the first link for the external node `key`.
pub open spec fn link_of(links: Seq<ExternalLink>, key: Seq<char>) -> Option<int> {
    first_index(links, for_ref(key))
}

/// The link is the one of the external node `key`.
pub open spec fn for_ref(key: Seq<char>) -> spec_fn(ExternalLink) -> bool {
    |l: ExternalLink| l.external_node_ref@ == key
}

/// Where the external node with identifier `key` leads: the graph and node
/// its link names, when that graph is loaded, free of cycles, and holds
/// that node.
pub open spec fn hop_target(graphs: Seq<Arc<PackageGraph>>, links: Seq<ExternalLink>, key: Seq<char>) -> Option<(int, int)> {
    match link_of(links, key) {
        None => None,
        Some(l) => match graph_of(graphs, links[l].sbom_id@) {
            None => None,
            Some(g) => if graphs[g].cyclic_flag() {
                None
            } else {
                match node_of(graphs[g].nodes(), links[l].node_id@) {
                    None => None,
                    Some(n) => Some((g, n)),
                }
            },
        },
    }
}

/// An edge label passes the filter: the filter is empty or names it.
pub open spec fn allowed(rels: Seq<Relationship>, r: Relationship) -> bool {
    rels.len() == 0 || rels.contains(r)
}

/// The node an edge leads to when walked in direction `dir`.
pub open spec fn neighbor(e: (usize, usize, Relationship), dir: Direction) -> int {
    match dir {
        Direction::Incoming => e.0 as int,
        Direction::Outgoing => e.1 as int,
    }
}

/// What a walk yields: a record for node `index` of graph `graph`, reached
/// by an edge labelled `relationship`, with the walk made from it.
pub struct Walked {
    pub graph: int,
    pub index: int,
    pub relationship: Relationship,
    pub children: Option<Seq<Walked>>,
}

/// The fixed inputs of a walk.
pub struct Walk {
    pub graphs: Seq<Arc<PackageGraph>>,
    pub links: Seq<ExternalLink>,
    pub rels: Seq<Relationship>,
    pub dir: Direction,
}

/// A walk from node `n` of graph `g` with `depth` steps left, given the
/// discovered sets `vis` (one per graph): its result and the discovered sets
/// after it. `None` means the walk was not performed: no depth left, the
/// node was discovered before, or an external node leads nowhere.
pub open spec fn walk_node(w: Walk, g: int, n: int, depth: nat, vis: Seq<Set<usize>>) -> (Option<Seq<Walked>>, Seq<Set<usize>>)
    decreases depth, 1nat, 0nat,
{
    if depth == 0 || vis[g].contains(n as usize) {
        (None, vis)
    } else {
        let vis1 = vis.update(g, vis[g].insert(n as usize));
        let node = w.graphs[g].nodes()[n];
        match node.kind {
            NodeKind::External { .. } => match hop_target(w.graphs, w.links, node.node_id@) {
                Some((g2, n2)) => {
                    let r = walk_edges(w, g2, incident(w.graphs[g2].edges(), n2 as usize, w.dir), depth, vis1);
                    (Some(r.0), r.1)
                },
                None => (None, vis1),
            },
            _ => {
                let r = walk_edges(w, g, incident(w.graphs[g].edges(), n as usize, w.dir), depth, vis1);
                (Some(r.0), r.1)
            },
        }
    }
}

/// The records for the edges `es` of graph `g`, taken in order: an edge whose
/// label passes the filter yields a record of its neighbor, walked with one
/// step less.
pub open spec fn walk_edges(w: Walk, g: int, es: Seq<(usize, usize, Relationship)>, depth: nat, vis: Seq<Set<usize>>) -> (Seq<Walked>, Seq<Set<usize>>)
    decreases depth, 0nat, es.len(),
{
    if depth == 0 || es.len() == 0 {
        (Seq::empty(), vis)
    } else {
        let prev = walk_edges(w, g, es.drop_last(), depth, vis);
        let e = es.last();
        if !allowed(w.rels, e.2) {
            prev
        } else {
            let m = neighbor(e, w.dir);
            let sub = walk_node(w, g, m, (depth - 1) as nat, prev.1);
            (prev.0.push(Walked { graph: g, index: m, relationship: e.2, children: sub.0 }), sub.1)
        }
    }
}

/// The result record `n` stands for `x`: same node, summarized, same label,
/// the walk in direction `dir` as `x` says, and no walk the other way.
pub open spec fn forest_is(ns: Seq<Node>, xs: Seq<Walked>, graphs: Seq<Arc<PackageGraph>>, dir: Direction) -> bool
    decreases ns,
{
    &&& ns.len() == xs.len()
    &&& forall|i: int|
        #![trigger ns[i]]
        0 <= i < ns.len() ==> {
            &&& ns[i].origin@ == (xs[i].graph, xs[i].index)
            &&& 0 <= xs[i].graph < graphs.len()
            &&& 0 <= xs[i].index < graphs[xs[i].graph].nodes().len()
            &&& summarizes(ns[i].base, graphs[xs[i].graph].nodes()[xs[i].index])
            &&& ns[i].relationship == Some(xs[i].relationship)
            &&& match dir {
                Direction::Incoming => {
                    &&& ns[i].descendants is None
                    &&& match (ns[i].ancestors, xs[i].children) {
                        (Some(v), Some(c)) => forest_is(v@, c, graphs, dir),
                        (None, None) => true,
                        _ => false,
                    }
                },
                Direction::Outgoing => {
                    &&& ns[i].ancestors is None
                    &&& match (ns[i].descendants, xs[i].children) {
                        (Some(v), Some(c)) => forest_is(v@, c, graphs, dir),
                        (None, None) => true,
                        _ => false,
                    }
                },
            }
        }
}

/// `r` is the result `x` of a walk in direction `dir`.
pub open spec fn result_is(r: Option<Vec<Node>>, x: Option<Seq<Walked>>, graphs: Seq<Arc<PackageGraph>>, dir: Direction) -> bool {
    match (r, x) {
        (Some(v), Some(c)) => forest_is(v@, c, graphs, dir),
        (None, None) => true,
        _ => false,
    }
}

/// The set of discovered nodes of one retrieve call, one bit set per graph.
pub struct Discovered {
    sets: Vec<FixedBitSet>,
}

impl Discovered {
    pub closed spec fn view(&self) -> Seq<Set<usize>> {
        self.sets@.map_values(|b: FixedBitSet| bit_set(b))
    }

    /// One bit set per graph, as long as that graph has nodes.
    pub closed spec fn fits(&self, graphs: Seq<Arc<PackageGraph>>) -> bool {
        &&& self.sets@.len() == graphs.len()
        &&& forall|g: int| 0 <= g < graphs.len() ==> bit_len(#[trigger] self.sets@[g]) == graphs[g].nodes().len()
    }

    /// Nothing discovered yet in any of `graphs`.
    pub fn new(graphs: &Vec<Arc<PackageGraph>>) -> (d: Discovered)
        ensures
            d.fits(graphs@),
            d.view().len() == graphs@.len(),
            forall|g: int| 0 <= g < graphs@.len() ==> #[trigger] d.view()[g] == Set::<usize>::empty(),
    {
        let mut sets: Vec<FixedBitSet> = Vec::new();
        let mut i: usize = 0;
        while i < graphs.len()
            invariant
                i <= graphs@.len(),
                sets@.len() == i,
                forall|g: int| 0 <= g < i ==> bit_len(#[trigger] sets@[g]) == graphs@[g].nodes().len(),
                forall|g: int| 0 <= g < i ==> bit_set(#[trigger] sets@[g]) == Set::<usize>::empty(),
            decreases graphs@.len() - i,
        {
            sets.push(bits_new(graphs[i].node_count()));
            i = i + 1;
        }
        Discovered { sets }
    }

    /// Marks node `n` of graph `g` discovered; `true` when it was not before.
    pub fn visit(&mut self, graphs: &Vec<Arc<PackageGraph>>, g: usize, n: usize) -> (fresh: bool)
        requires
            old(self).fits(graphs@),
            g < graphs@.len(),
            n < graphs@[g as int].nodes().len(),
        ensures
            final(self).fits(graphs@),
            fresh == !old(self).view()[g as int].contains(n),
            final(self).view() == old(self).view().update(g as int, old(self).view()[g as int].insert(n)),
    {
        let mut b = bits_new(0);
        std::mem::swap(&mut b, &mut self.sets[g]);
        let was = bits_put(&mut b, n);
        std::mem::swap(&mut b, &mut self.sets[g]);
        proof {
            assert(self.view() =~= old(self).view().update(g as int, old(self).view()[g as int].insert(n)));
        }
        !was
    }
}

proof fn lemma_least_index<A>(s: Seq<A>, p: spec_fn(A) -> bool, w: int)
    requires
        0 <= w < s.len(),
        p(s[w]),
    ensures
        exists|i: int| 0 <= i < s.len() && p(s[i]) && forall|j: int| 0 <= j < i ==> !p(#[trigger] s[j]),
    decreases w,
{
    if exists|j: int| 0 <= j < w && p(s[j]) {
        let j = choose|j: int| 0 <= j < w && p(s[j]);
        lemma_least_index(s, p, j);
    } else {
        assert(forall|j: int| 0 <= j < w ==> !p(#[trigger] s[j]));
    }
}

/// The first index, where there is one, is in range, `p` holds there and
/// nowhere before; where there is none, `p` holds nowhere.
pub proof fn lemma_first_index_props<A>(s: Seq<A>, p: spec_fn(A) -> bool)
    ensures
        first_index(s, p) matches Some(i) ==> 0 <= i < s.len() && p(s[i]) && forall|j: int| 0 <= j < i ==> !p(#[trigger] s[j]),
        first_index(s, p) is None ==> forall|j: int| 0 <= j < s.len() ==> !p(#[trigger] s[j]),
{
    if exists|i: int| 0 <= i < s.len() && p(s[i]) {
        let w = choose|i: int| 0 <= i < s.len() && p(s[i]);
        lemma_least_index(s, p, w);
    }
}

/// The first index is `i` when `p` holds there and nowhere before.
pub proof fn lemma_first_index<A>(s: Seq<A>, p: spec_fn(A) -> bool, i: int)
    requires
        0 <= i < s.len(),
        p(s[i]),
        forall|j: int| 0 <= j < i ==> !p(#[trigger] s[j]),
    ensures
        first_index(s, p) == Some(i),
{
    let c = choose|c: int| 0 <= c < s.len() && p(s[c]) && forall|j: int| 0 <= j < c ==> !p(s[j]);
    assert(0 <= c < s.len() && p(s[c]) && forall|j: int| 0 <= j < c ==> !p(s[j]));
    if c < i {
        assert(!p(s[c]));
    } else if c > i {
        assert(!p(s[i]));
    }
}

/// The graph of `graphs` for SBOM `sbom`, searched from the front.
pub fn find_graph(graphs: &Vec<Arc<PackageGraph>>, sbom: &String) -> (r: Option<usize>)
    ensures
        r matches Some(i) ==> graph_of(graphs@, sbom@) == Some(i as int) && i < graphs@.len(),
        r is None ==> graph_of(graphs@, sbom@) is None,
{
    let ghost p = for_sbom(sbom@);
    let mut i: usize = 0;
    while i < graphs.len()
        invariant
            i <= graphs@.len(),
            p == for_sbom(sbom@),
            forall|j: int| 0 <= j < i ==> !p(#[trigger] graphs@[j]),
        decreases graphs@.len() - i,
    {
        if *graphs[i].sbom_id() == *sbom {
            proof {
                lemma_first_index(graphs@, p, i as int);
            }
            return Some(i);
        }
        i = i + 1;
    }
    None
}

/// The node of graph `graph` with identifier `node_id`, searched from the front.
pub fn find_node(graph: &PackageGraph, node_id: &String) -> (r: Option<usize>)
    ensures
        r matches Some(i) ==> node_of(graph.nodes(), node_id@) == Some(i as int) && i < graph.nodes().len(),
        r is None ==> node_of(graph.nodes(), node_id@) is None,
{
    let ghost p = with_node_id(node_id@);
    let mut i: usize = 0;
    let count = graph.node_count();
    while i < count
        invariant
            i <= count,
            count == graph.nodes().len(),
            p == with_node_id(node_id@),
            forall|j: int| 0 <= j < i ==> !p(#[trigger] graph.nodes()[j]),
        decreases count - i,
    {
        if graph.node(i).node_id == *node_id {
            proof {
                lemma_first_index(graph.nodes(), p, i as int);
            }
            return Some(i);
        }
        i = i + 1;
    }
    None
}

/// The link for the external node `key`, searched from the front.
pub fn find_link(links: &Vec<ExternalLink>, key: &String) -> (r: Option<usize>)
    ensures
        r matches Some(i) ==> link_of(links@, key@) == Some(i as int) && i < links@.len(),
        r is None ==> link_of(links@, key@) is None,
{
    let ghost p = for_ref(key@);
    let mut i: usize = 0;
    while i < links.len()
        invariant
            i <= links@.len(),
            p == for_ref(key@),
            forall|j: int| 0 <= j < i ==> !p(#[trigger] links@[j]),
        decreases links@.len() - i,
    {
        if links[i].external_node_ref == *key {
            proof {
                lemma_first_index(links@, p, i as int);
            }
            return Some(i);
        }
        i = i + 1;
    }
    None
}

/// Where the external node with identifier `key` leads, if anywhere.
pub fn find_hop(graphs: &Vec<Arc<PackageGraph>>, links: &Vec<ExternalLink>, key: &String) -> (r: Option<(usize, usize)>)
    requires
        forall|g: int| 0 <= g < graphs@.len() ==> (#[trigger] graphs@[g]).wf(),
    ensures
        r matches Some((g, n)) ==> hop_target(graphs@, links@, key@) == Some((g as int, n as int)) && g < graphs@.len()
            && n < graphs@[g as int].nodes().len(),
        r is None ==> hop_target(graphs@, links@, key@) is None,
{
    let l = match find_link(links, key) {
        Some(l) => l,
        None => return None,
    };
    let g = match find_graph(graphs, &links[l].sbom_id) {
        Some(g) => g,
        None => return None,
    };
    if graphs[g].is_cyclic() {
        return None;
    }
    match find_node(&graphs[g], &links[l].node_id) {
        Some(n) => Some((g, n)),
        None => None,
    }
}

/// Whether an edge label passes the filter `rels`.
pub fn is_allowed(rels: &Vec<Relationship>, r: Relationship) -> (b: bool)
    ensures
        b == allowed(rels@, r),
{
    if rels.len() == 0 {
        return true;
    }
    let mut i: usize = 0;
    while i < rels.len()
        invariant
            i <= rels@.len(),
            forall|j: int| 0 <= j < i ==> #[trigger] rels@[j] != r,
        decreases rels@.len() - i,
    {
        if rels[i] == r {
            return true;
        }
        i = i + 1;
    }
    false
}

/// The inputs of a walk are fit to walk: every graph is well formed.
pub open spec fn graphs_wf(graphs: Seq<Arc<PackageGraph>>) -> bool {
    forall|g: int| 0 <= g < graphs.len() ==> (#[trigger] graphs[g]).wf()
}

/// Walks from node `n` of graph `g` in direction `dir`, with `depth` steps left.
pub fn collect(
    graphs: &Vec<Arc<PackageGraph>>,
    links: &Vec<ExternalLink>,
    rels: &Vec<Relationship>,
    dir: Direction,
    g: usize,
    n: usize,
    depth: u64,
    disc: &mut Discovered,
) -> (r: Option<Vec<Node>>)
    requires
        graphs_wf(graphs@),
        old(disc).fits(graphs@),
        g < graphs@.len(),
        n < graphs@[g as int].nodes().len(),
    ensures
        final(disc).fits(graphs@),
        ({
            let x = walk_node(Walk { graphs: graphs@, links: links@, rels: rels@, dir }, g as int, n as int, depth as nat, old(disc).view());
            result_is(r, x.0, graphs@, dir) && final(disc).view() == x.1
        }),
    decreases depth, 1nat, 0nat,
{
    if depth == 0 {
        return None;
    }
    if !disc.visit(graphs, g, n) {
        proof {
            assert(old(disc).view()[g as int].insert(n) =~= old(disc).view()[g as int]);
            assert(disc.view() =~= old(disc).view());
        }
        return None;
    }
    let node = graphs[g].node(n);
    match &node.kind {
        NodeKind::External { .. } => match find_hop(graphs, links, &node.node_id) {
            Some((g2, n2)) => Some(collect_edges(graphs, links, rels, dir, g2, n2, depth, disc)),
            None => None,
        },
        _ => Some(collect_edges(graphs, links, rels, dir, g, n, depth, disc)),
    }
}

/// The records for the edges at node `n` of graph `g` in direction `dir`.
pub fn collect_edges(
    graphs: &Vec<Arc<PackageGraph>>,
    links: &Vec<ExternalLink>,
    rels: &Vec<Relationship>,
    dir: Direction,
    g: usize,
    n: usize,
    depth: u64,
    disc: &mut Discovered,
) -> (r: Vec<Node>)
    requires
        graphs_wf(graphs@),
        old(disc).fits(graphs@),
        g < graphs@.len(),
        n < graphs@[g as int].nodes().len(),
        depth > 0,
    ensures
        final(disc).fits(graphs@),
        ({
            let x = walk_edges(Walk { graphs: graphs@, links: links@, rels: rels@, dir }, g as int, incident(graphs@[g as int].edges(), n, dir), depth as nat, old(disc).view());
            forest_is(r@, x.0, graphs@, dir) && final(disc).view() == x.1
        }),
    decreases depth, 0nat, 0nat,
{
    let ghost w = Walk { graphs: graphs@, links: links@, rels: rels@, dir };
    let ghost vis0 = disc.view();
    let es = graphs[g].edges_at(n, dir);
    let mut result: Vec<Node> = Vec::new();
    let mut i: usize = 0;
    proof {
        assert(es@.take(0) =~= Seq::<(usize, usize, Relationship)>::empty());
    }
    while i < es.len()
        invariant
            graphs_wf(graphs@),
            g < graphs@.len(),
            depth > 0,
            i <= es@.len(),
            edges_in_range(es@, graphs@[g as int].nodes().len()),
            es@ == incident(graphs@[g as int].edges(), n, dir),
            disc.fits(graphs@),
            w == (Walk { graphs: graphs@, links: links@, rels: rels@, dir }),
            ({
                let x = walk_edges(w, g as int, es@.take(i as int), depth as nat, vis0);
                forest_is(result@, x.0, graphs@, dir) && disc.view() == x.1
            }),
        decreases es@.len() - i,
    {
        let e = es[i];
        let ghost prev = walk_edges(w, g as int, es@.take(i as int), depth as nat, vis0);
        proof {
            assert(es@.take(i + 1).drop_last() =~= es@.take(i as int));
            assert(es@.take(i + 1).last() == e);
            assert(e.0 < graphs@[g as int].nodes().len() && e.1 < graphs@[g as int].nodes().len());
        }
        if is_allowed(rels, e.2) {
            let m = match dir {
                Direction::Incoming => e.0,
                Direction::Outgoing => e.1,
            };
            let sub = collect(graphs, links, rels, dir, g, m, depth - 1, disc);
            let base = summary(graphs[g].node(m));
            let rec = match dir {
                Direction::Incoming => Node {
                    base,
                    relationship: Some(e.2),
                    ancestors: sub,
                    descendants: None,
                    origin: Ghost((g as int, m as int)),
                },
                Direction::Outgoing => Node {
                    base,
                    relationship: Some(e.2),
                    ancestors: None,
                    descendants: sub,
                    origin: Ghost((g as int, m as int)),
                },
            };
            let ghost subx = walk_node(w, g as int, m as int, (depth - 1) as nat, prev.1);
            let ghost x = Walked { graph: g as int, index: m as int, relationship: e.2, children: subx.0 };
            let ghost before = result@;
            result.push(rec);
            proof {
                assert(walk_edges(w, g as int, es@.take(i + 1), depth as nat, vis0) == (prev.0.push(x), subx.1));
                assert(forest_is(result@, prev.0.push(x), graphs@, dir)) by {
                    assert forall|k: int| #![trigger result@[k]] 0 <= k < result@.len() - 1 implies result@[k] == before[k] by {}
                }
            }
        }
        i = i + 1;
    }
    proof {
        assert(es@.take(es@.len() as int) =~= es@);
    }
    result
}

} // verus!
