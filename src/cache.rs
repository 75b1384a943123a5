//! A cache of package graphs by SBOM identifier, bounded by the estimated
//! bytes of the graphs it retains and evicting the least recently used.
use crate::graph::PackageGraph;
use crate::model::{GraphNode, NodeKind};
use crate::walk::{first_index, lemma_first_index};
use std::sync::Arc;
use vstd::prelude::*;

verus! {

/// Fixed cost of one graph.
pub const GRAPH_OVERHEAD: u64 = 64;

/// Cost of one node, besides the bytes of its strings.
pub const NODE_OVERHEAD: u64 = 128;

/// Cost of one edge.
pub const EDGE_OVERHEAD: u64 = 16;

/// The largest `u64`.
pub const SIZE_LIMIT: u64 = 18446744073709551615;

/// `x`, or the largest `u64` where `x` exceeds it.
pub open spec fn capped(x: int) -> int {
    if x > SIZE_LIMIT as int {
        SIZE_LIMIT as int
    } else {
        x
    }
}

/// The UTF-8 length of a string.
pub open spec fn byte_len(s: Seq<char>) -> int {
    (vstd::utf8::encode_utf8(s).len() as usize) as int
}

/// The UTF-8 length of each string of `v`, added up.
pub open spec fn bytes_of_all(v: Seq<String>) -> int
    decreases v.len(),
{
    if v.len() == 0 {
        0
    } else {
        bytes_of_all(v.drop_last()) + byte_len(v.last()@)
    }
}

/// The estimated size of one node: a fixed cost and the bytes of its strings.
pub open spec fn node_size(n: GraphNode) -> int {
    NODE_OVERHEAD as int + byte_len(n.sbom_id@) + byte_len(n.node_id@) + byte_len(n.name@) + match n.kind {
        NodeKind::Package { version, purl, cpe, .. } => byte_len(version@) + bytes_of_all(purl@) + bytes_of_all(cpe@),
        NodeKind::External { external_document_reference, external_node_id } => byte_len(
            external_document_reference@,
        ) + byte_len(external_node_id@),
        NodeKind::Unknown => 0,
    }
}

/// The estimated sizes of the nodes of `ns`, added up.
pub open spec fn nodes_size(ns: Seq<GraphNode>) -> int
    decreases ns.len(),
{
    if ns.len() == 0 {
        0
    } else {
        nodes_size(ns.drop_last()) + node_size(ns.last())
    }
}

/// The estimated size of a graph with nodes `ns` and `e` edges.
pub open spec fn graph_size(ns: Seq<GraphNode>, e: int) -> int {
    GRAPH_OVERHEAD as int + nodes_size(ns) + e * EDGE_OVERHEAD as int
}

proof fn lemma_capped_add(x: int, y: int)
    requires
        x >= 0,
        y >= 0,
    ensures
        capped(capped(x) + y) == capped(x + y),
{
}

proof fn lemma_bytes_nonneg(v: Seq<String>)
    ensures
        bytes_of_all(v) >= 0,
    decreases v.len(),
{
    if v.len() > 0 {
        lemma_bytes_nonneg(v.drop_last());
    }
}

/// `a + b`, or the largest `u64` where the sum exceeds it.
fn add_capped(a: u64, b: u64) -> (r: u64)
    ensures
        r == capped(a + b),
{
    a.saturating_add(b)
}

/// The UTF-8 length of `s`.
fn bytes(s: &String) -> (r: u64)
    ensures
        r == byte_len(s@),
{
    s.as_str().len() as u64
}

/// The UTF-8 lengths of the strings of `v`, added up and capped.
fn bytes_all(v: &Vec<String>) -> (r: u64)
    ensures
        r == capped(bytes_of_all(v@)),
{
    let mut total: u64 = 0;
    let mut i: usize = 0;
    while i < v.len()
        invariant
            i <= v@.len(),
            total == capped(bytes_of_all(v@.subrange(0, i as int))),
        decreases v@.len() - i,
    {
        let b = bytes(&v[i]);
        proof {
            let s = v@.subrange(0, i + 1);
            assert(s.drop_last() =~= v@.subrange(0, i as int));
            lemma_bytes_nonneg(v@.subrange(0, i as int));
            lemma_capped_add(bytes_of_all(v@.subrange(0, i as int)), b as int);
        }
        total = add_capped(total, b);
        i = i + 1;
    }
    proof {
        assert(v@.subrange(0, v@.len() as int) =~= v@);
    }
    total
}

/// The estimated size of one node, capped.
fn node_bytes(n: &GraphNode) -> (r: u64)
    ensures
        r == capped(node_size(*n)),
{
    proof {
        lemma_capped_add(NODE_OVERHEAD as int, byte_len(n.sbom_id@));
        lemma_capped_add(NODE_OVERHEAD as int + byte_len(n.sbom_id@), byte_len(n.node_id@));
        lemma_capped_add(NODE_OVERHEAD as int + byte_len(n.sbom_id@) + byte_len(n.node_id@), byte_len(n.name@));
    }
    let mut total = add_capped(NODE_OVERHEAD, bytes(&n.sbom_id));
    total = add_capped(total, bytes(&n.node_id));
    total = add_capped(total, bytes(&n.name));
    let ghost head = NODE_OVERHEAD as int + byte_len(n.sbom_id@) + byte_len(n.node_id@) + byte_len(n.name@);
    match &n.kind {
        NodeKind::Package { version, purl, cpe, .. } => {
            proof {
                lemma_bytes_nonneg(purl@);
                lemma_bytes_nonneg(cpe@);
                lemma_capped_add(head, byte_len(version@));
                lemma_capped_add(head + byte_len(version@), bytes_of_all(purl@));
                lemma_capped_add(head + byte_len(version@) + bytes_of_all(purl@), bytes_of_all(cpe@));
                lemma_capped_add(bytes_of_all(purl@), 0);
            }
            total = add_capped(total, bytes(version));
            let p = bytes_all(purl);
            let c = bytes_all(cpe);
            if p == SIZE_LIMIT || c == SIZE_LIMIT {
                return SIZE_LIMIT;
            }
            total = add_capped(total, p);
            total = add_capped(total, c);
        },
        NodeKind::External { external_document_reference, external_node_id } => {
            proof {
                lemma_capped_add(head, byte_len(external_document_reference@));
                lemma_capped_add(head + byte_len(external_document_reference@), byte_len(external_node_id@));
            }
            total = add_capped(total, bytes(external_document_reference));
            total = add_capped(total, bytes(external_node_id));
        },
        NodeKind::Unknown => {},
    }
    total
}

/// The estimated size of a graph, capped: a fixed cost, each node's cost
/// and the bytes of its strings, and each edge's cost.
pub fn estimate_size(g: &PackageGraph) -> (r: u64)
    requires
        g.wf(),
    ensures
        r == capped(graph_size(g.nodes(), g.edges().len() as int)),
{
    let count = g.node_count();
    let mut total: u64 = GRAPH_OVERHEAD;
    let mut i: usize = 0;
    while i < count
        invariant
            count == g.nodes().len(),
            i <= count,
            total == capped(GRAPH_OVERHEAD as int + nodes_size(g.nodes().subrange(0, i as int))),
        decreases count - i,
    {
        let b = node_bytes(g.node(i));
        proof {
            let s = g.nodes().subrange(0, i + 1);
            assert(s.drop_last() =~= g.nodes().subrange(0, i as int));
            lemma_nodes_size_nonneg(g.nodes().subrange(0, i as int));
            lemma_node_size_nonneg(g.nodes()[i as int]);
            lemma_capped_add(GRAPH_OVERHEAD as int + nodes_size(g.nodes().subrange(0, i as int)), node_size(g.nodes()[i as int]));
            lemma_capped_add(node_size(g.nodes()[i as int]), 0);
        }
        if b == SIZE_LIMIT {
            proof {
                lemma_nodes_size_prefix(g.nodes(), i as int + 1);
                lemma_capped_add(GRAPH_OVERHEAD as int + nodes_size(g.nodes()), g.edges().len() * EDGE_OVERHEAD as int);
            }
            return SIZE_LIMIT;
        }
        total = add_capped(total, b);
        i = i + 1;
    }
    proof {
        assert(g.nodes().subrange(0, count as int) =~= g.nodes());
        lemma_nodes_size_nonneg(g.nodes());
        lemma_capped_add(GRAPH_OVERHEAD as int + nodes_size(g.nodes()), g.edges().len() * EDGE_OVERHEAD as int);
    }
    let e = g.edge_count() as u64;
    proof {
        assert(e * EDGE_OVERHEAD <= 4294967295u64 * 16) by (nonlinear_arith)
            requires e <= 4294967295u64;
    }
    add_capped(total, e * EDGE_OVERHEAD)
}

proof fn lemma_node_size_nonneg(n: GraphNode)
    ensures
        node_size(n) >= NODE_OVERHEAD,
{
    match n.kind {
        NodeKind::Package { purl, cpe, .. } => {
            lemma_bytes_nonneg(purl@);
            lemma_bytes_nonneg(cpe@);
        },
        _ => {},
    }
}

proof fn lemma_nodes_size_nonneg(ns: Seq<GraphNode>)
    ensures
        nodes_size(ns) >= 0,
    decreases ns.len(),
{
    if ns.len() > 0 {
        lemma_nodes_size_nonneg(ns.drop_last());
        lemma_node_size_nonneg(ns.last());
    }
}

/// The size of a sequence of nodes is at least that of any prefix of it.
proof fn lemma_nodes_size_prefix(ns: Seq<GraphNode>, k: int)
    requires
        0 <= k <= ns.len(),
    ensures
        nodes_size(ns) >= nodes_size(ns.subrange(0, k)),
    decreases ns.len(),
{
    if k < ns.len() {
        lemma_nodes_size_prefix(ns.drop_last(), k);
        assert(ns.drop_last().subrange(0, k) =~= ns.subrange(0, k));
        lemma_node_size_nonneg(ns.last());
    } else {
        assert(ns.subrange(0, k) =~= ns);
    }
}

/// One retained graph, with the size estimated when it was stored.
pub struct CacheEntry {
    pub sbom_id: String,
    pub graph: Arc<PackageGraph>,
    pub size: u64,
}

/// The sizes of the entries, added up.
pub open spec fn total(s: Seq<CacheEntry>) -> int
    decreases s.len(),
{
    if s.len() == 0 {
        0
    } else {
        total(s.drop_last()) + s.last().size
    }
}

/// The entry is the one of SBOM `id`.
pub open spec fn entry_for(id: Seq<char>) -> spec_fn(CacheEntry) -> bool {
    |e: CacheEntry| e.sbom_id@ == id
}

/// The position of the entry of SBOM `id`.
pub open spec fn position(s: Seq<CacheEntry>, id: Seq<char>) -> Option<int> {
    first_index(s, entry_for(id))
}

/// The entries without the one of SBOM `id`.
pub open spec fn without(s: Seq<CacheEntry>, id: Seq<char>) -> Seq<CacheEntry> {
    match position(s, id) {
        Some(i) => s.remove(i),
        None => s,
    }
}

/// The entries left after evicting the least recently used ones, oldest
/// first, until an entry of `size` bytes fits within `max`.
pub open spec fn evict(s: Seq<CacheEntry>, size: int, max: int) -> Seq<CacheEntry>
    decreases s.len(),
{
    if s.len() == 0 || total(s) + size <= max {
        s
    } else {
        evict(s.drop_first(), size, max)
    }
}

proof fn lemma_total_nonneg(s: Seq<CacheEntry>)
    ensures
        total(s) >= 0,
    decreases s.len(),
{
    if s.len() > 0 {
        lemma_total_nonneg(s.drop_last());
    }
}

proof fn lemma_total_remove(s: Seq<CacheEntry>, i: int)
    requires
        0 <= i < s.len(),
    ensures
        total(s.remove(i)) == total(s) - s[i].size,
    decreases s.len(),
{
    if i == s.len() - 1 {
        assert(s.remove(i) =~= s.drop_last());
    } else {
        lemma_total_remove(s.drop_last(), i);
        assert(s.remove(i).drop_last() =~= s.drop_last().remove(i));
        assert(s.remove(i).last() == s.last());
    }
}

/// No two entries are for the same SBOM.
pub open spec fn unique_ids(s: Seq<CacheEntry>) -> bool {
    forall|i: int, j: int| 0 <= i < s.len() && 0 <= j < s.len() && i != j ==> #[trigger] s[i].sbom_id@ != #[trigger] s[j].sbom_id@
}

/// Every retained graph is well formed.
pub open spec fn graphs_fit(s: Seq<CacheEntry>) -> bool {
    forall|i: int| 0 <= i < s.len() ==> (#[trigger] s[i]).graph.wf()
}

/// No entry is for SBOM `id`.
pub open spec fn absent(s: Seq<CacheEntry>, id: Seq<char>) -> bool {
    forall|i: int| 0 <= i < s.len() ==> #[trigger] s[i].sbom_id@ != id
}

pub proof fn lemma_remove_keeps(s: Seq<CacheEntry>, i: int, id: Seq<char>)
    requires
        0 <= i < s.len(),
        unique_ids(s),
    ensures
        unique_ids(s.remove(i)),
        graphs_fit(s) ==> graphs_fit(s.remove(i)),
        absent(s, id) ==> absent(s.remove(i), id),
        s[i].sbom_id@ == id ==> absent(s.remove(i), id),
{
    let r = s.remove(i);
    assert forall|k: int| 0 <= k < r.len() implies #[trigger] r[k] == (if k < i { s[k] } else { s[k + 1] }) by {}
}

pub proof fn lemma_push_unique(s: Seq<CacheEntry>, e: CacheEntry)
    requires
        unique_ids(s),
        absent(s, e.sbom_id@),
    ensures
        unique_ids(s.push(e)),
        graphs_fit(s) && e.graph.wf() ==> graphs_fit(s.push(e)),
{
    let r = s.push(e);
    assert forall|k: int| 0 <= k < s.len() implies #[trigger] r[k] == s[k] by {}
}

pub proof fn lemma_evict_keeps(s: Seq<CacheEntry>, size: int, max: int, id: Seq<char>)
    requires
        unique_ids(s),
        absent(s, id),
    ensures
        unique_ids(evict(s, size, max)),
        graphs_fit(s) ==> graphs_fit(evict(s, size, max)),
        absent(evict(s, size, max), id),
    decreases s.len(),
{
    if s.len() == 0 || total(s) + size <= max {
    } else {
        assert(s.remove(0) =~= s.drop_first());
        lemma_remove_keeps(s, 0, id);
        lemma_evict_keeps(s.drop_first(), size, max, id);
    }
}

/// Graphs by SBOM identifier, least recently used first.
pub struct GraphCache {
    entries: Vec<CacheEntry>,
    used: u64,
    max: u64,
}

impl GraphCache {
    /// The entries, least recently used first.
    pub closed spec fn view(&self) -> Seq<CacheEntry> {
        self.entries@
    }

    /// The bound on the retained bytes.
    pub closed spec fn max_size(&self) -> int {
        self.max as int
    }

    pub closed spec fn wf(&self) -> bool {
        &&& self.used == total(self.entries@)
        &&& self.used <= self.max
        &&& unique_ids(self.entries@)
        &&& graphs_fit(self.entries@)
    }

    /// A well-formed cache holds at most one entry per SBOM.
    pub proof fn lemma_unique(&self)
        requires
            self.wf(),
        ensures
            unique_ids(self@),
    {
    }

    /// An empty cache that retains at most `max` bytes.
    pub fn new(max: u64) -> (c: GraphCache)
        ensures
            c.wf(),
            c@ == Seq::<CacheEntry>::empty(),
            c.max_size() == max,
    {
        GraphCache { entries: Vec::new(), used: 0, max }
    }

    /// The bytes retained.
    pub fn size_used(&self) -> (r: u64)
        requires
            self.wf(),
        ensures
            r == total(self@),
            r <= self.max_size(),
    {
        self.used
    }

    /// The number of graphs retained.
    pub fn entry_count(&self) -> (r: usize)
        ensures
            r == self@.len(),
    {
        self.entries.len()
    }

    /// The number of graphs retained.
    pub fn len(&self) -> (r: u64)
        ensures
            r == self@.len(),
    {
        self.entries.len() as u64
    }

    /// The bound on the retained bytes.
    pub fn max(&self) -> (r: u64)
        ensures
            r == self.max_size(),
    {
        self.max
    }

    /// The graph of the entry at `i`.
    pub fn entry_graph(&self, i: usize) -> (g: &Arc<PackageGraph>)
        requires
            i < self@.len(),
        ensures
            *g == self@[i as int].graph,
    {
        &self.entries[i].graph
    }

    /// Drops every entry.
    pub fn clear(&mut self)
        ensures
            final(self).wf(),
            final(self)@ == Seq::<CacheEntry>::empty(),
            final(self).max_size() == old(self).max_size(),
    {
        self.entries = Vec::new();
        self.used = 0;
    }

    /// Where the entry of SBOM `id` stands.
    fn find(&self, id: &String) -> (r: Option<usize>)
        ensures
            r matches Some(i) ==> position(self@, id@) == Some(i as int) && i < self@.len(),
            r is None ==> position(self@, id@) is None,
    {
        let ghost p = entry_for(id@);
        let mut i: usize = 0;
        while i < self.entries.len()
            invariant
                i <= self@.len(),
                p == entry_for(id@),
                forall|j: int| 0 <= j < i ==> !p(#[trigger] self@[j]),
            decreases self@.len() - i,
        {
            if self.entries[i].sbom_id == *id {
                proof {
                    lemma_first_index(self@, p, i as int);
                }
                return Some(i);
            }
            i = i + 1;
        }
        None
    }

    /// The graph of SBOM `id`, if retained; a hit makes it the most recently used.
    pub fn get(&mut self, id: &String) -> (r: Option<Arc<PackageGraph>>)
        requires
            old(self).wf(),
        ensures
            final(self).wf(),
            r matches Some(g) ==> g.wf(),
            final(self).max_size() == old(self).max_size(),
            match position(old(self)@, id@) {
                None => r is None && final(self)@ == old(self)@,
                Some(i) => r == Some(old(self)@[i].graph) && final(self)@ == old(self)@.remove(i).push(
                    old(self)@[i],
                ),
            },
    {
        match self.find(id) {
            None => None,
            Some(i) => {
                let e = self.entries.remove(i);
                let g = share(&e.graph);
                proof {
                    lemma_total_remove(old(self)@, i as int);
                }
                proof {
                    lemma_remove_keeps(old(self)@, i as int, e.sbom_id@);
                    lemma_push_unique(old(self)@.remove(i as int), e);
                }
                self.entries.push(e);
                proof {
                    assert(self@.drop_last() =~= old(self)@.remove(i as int));
                }
                Some(g)
            },
        }
    }

    /// Drops the entry at `i`.
    fn remove_at(&mut self, i: usize)
        requires
            old(self).wf(),
            i < old(self)@.len(),
        ensures
            final(self).wf(),
            final(self).max_size() == old(self).max_size(),
            final(self)@ == old(self)@.remove(i as int),
    {
        proof {
            lemma_total_remove(self@, i as int);
            lemma_total_nonneg(self@.remove(i as int));
            lemma_remove_keeps(self@, i as int, self@[i as int].sbom_id@);
        }
        let e = self.entries.remove(i);
        self.used = self.used - e.size;
    }

    /// Evicts the least recently used entries until `size` more bytes fit.
    fn make_room(&mut self, size: u64)
        requires
            old(self).wf(),
            size <= old(self).max_size(),
        ensures
            final(self).wf(),
            final(self).max_size() == old(self).max_size(),
            final(self)@ == evict(old(self)@, size as int, old(self).max_size()),
            total(final(self)@) + size <= final(self).max_size(),
    {
        while self.used > self.max - size
            invariant
                self.wf(),
                size <= self.max,
                self.max == old(self).max,
                evict(self@, size as int, self.max as int) == evict(old(self)@, size as int, self.max as int),
            decreases self@.len(),
        {
            proof {
                lemma_total_nonneg(self@);
                assert(self@.remove(0) =~= self@.drop_first());
            }
            self.remove_at(0);
        }
    }

    /// Retains the graph of SBOM `id`, of `size` bytes, as the most recently
    /// used, evicting the least recently used entries until it fits. A graph
    /// larger than the whole bound is not retained.
    pub fn insert(&mut self, id: String, graph: Arc<PackageGraph>, size: u64)
        requires
            old(self).wf(),
            graph.wf(),
        ensures
            final(self).wf(),
            final(self).max_size() == old(self).max_size(),
            size > old(self).max_size() ==> final(self)@ == old(self)@,
            size <= old(self).max_size() ==> final(self)@ == evict(without(old(self)@, id@), size as int, old(self).max_size()).push(
                CacheEntry { sbom_id: id, graph, size },
            ),
    {
        if size > self.max {
            return;
        }
        proof {
            self.lemma_unique();
        }
        match self.find(&id) {
            Some(i) => {
                proof {
                    crate::walk::lemma_first_index_props(self@, entry_for(id@));
                    lemma_remove_keeps(self@, i as int, id@);
                }
                self.remove_at(i);
            },
            None => {
                proof {
                    crate::walk::lemma_first_index_props(self@, entry_for(id@));
                    assert forall|k: int| 0 <= k < self@.len() implies #[trigger] self@[k].sbom_id@ != id@ by {
                        assert(!entry_for(id@)(self@[k]));
                    }
                }
            },
        }
        proof {
            lemma_evict_keeps(self@, size as int, self.max as int, id@);
        }
        self.make_room(size);
        let ghost before = self@;
        proof {
            lemma_push_unique(before, CacheEntry { sbom_id: id, graph, size });
        }
        self.used = self.used + size;
        self.entries.push(CacheEntry { sbom_id: id, graph, size });
        proof {
            assert(self@.drop_last() =~= before);
        }
    }
}

/// Relies on `Arc::clone`: another pointer to the same graph.
#[verifier::external_body]
pub(crate) fn share(g: &Arc<PackageGraph>) -> (r: Arc<PackageGraph>)
    ensures
        r == *g,
{
    Arc::clone(g)
}

/// Whatever sequence of calls built a cache, the bytes it retains stay
/// within its bound: a graph larger than the bound is never retained.
pub proof fn size_bound(c: GraphCache)
    requires
        c.wf(),
    ensures
        total(c@) <= c.max_size(),
{
}

} // verus!
