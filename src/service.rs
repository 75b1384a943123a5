//! The analysis service: the graph cache, and queries run over loaded graphs.
use crate::cache::{estimate_size, graph_size, capped, share, total, CacheEntry, GraphCache, position};
use crate::filter::{filter, selects, GraphQuery};
use crate::graph::PackageGraph;
use crate::model::{summarizes, summary, Direction, Node, Relationship};
use crate::walk::{collect, graphs_wf, result_is, walk_node, Discovered, ExternalLink, Walk, Walked};
use std::sync::Arc;
use vstd::prelude::*;

verus! {

/// How far to walk from each selected node, and along which edges.
pub struct QueryOptions {
    /// Steps towards ancestors: 0 walks none, `u64::MAX` is unbounded.
    pub ancestors: u64,
    /// Steps towards descendants, in the same way.
    pub descendants: u64,
    /// The edge labels to follow; empty follows all.
    pub relationships: Vec<Relationship>,
}

/// The result for one selected node: its graph and index, and the two walks from it.
pub struct Seeded {
    pub graph: int,
    pub index: int,
    pub ancestors: Option<Seq<Walked>>,
    pub descendants: Option<Seq<Walked>>,
}

/// The fixed inputs of a query run.
pub struct Run {
    pub graphs: Seq<Arc<PackageGraph>>,
    pub links: Seq<ExternalLink>,
    pub query: GraphQuery,
    pub ancestors: nat,
    pub descendants: nat,
    pub rels: Seq<Relationship>,
}

/// The run of `query` with `options` over `graphs` and `links`.
pub open spec fn run_of(query: &GraphQuery, options: &QueryOptions, graphs: &Vec<Arc<PackageGraph>>, links: &Vec<ExternalLink>) -> Run {
    Run {
        graphs: graphs@,
        links: links@,
        query: *query,
        ancestors: options.ancestors as nat,
        descendants: options.descendants as nat,
        rels: options.relationships@,
    }
}

/// The walk inputs of a run in direction `dir`.
pub open spec fn walk_of(r: Run, dir: Direction) -> Walk {
    Walk { graphs: r.graphs, links: r.links, rels: r.rels, dir }
}

/// Node `i` of graph `g` as a seed, given the discovered sets `vis`: not
/// selected, or its ancestor walk followed by its descendant walk.
pub open spec fn run_node(r: Run, g: int, i: int, vis: Seq<Set<usize>>) -> (Option<Seeded>, Seq<Set<usize>>) {
    if !selects(r.query, r.graphs[g].nodes()[i]) {
        (None, vis)
    } else {
        let a = walk_node(walk_of(r, Direction::Incoming), g, i, r.ancestors, vis);
        let d = walk_node(walk_of(r, Direction::Outgoing), g, i, r.descendants, a.1);
        (Some(Seeded { graph: g, index: i, ancestors: a.0, descendants: d.0 }), d.1)
    }
}

/// The seeds among the first `k` nodes of graph `g`, in node order.
pub open spec fn run_nodes(r: Run, g: int, k: nat, vis: Seq<Set<usize>>) -> (Seq<Seeded>, Seq<Set<usize>>)
    decreases k,
{
    if k == 0 {
        (Seq::empty(), vis)
    } else {
        let prev = run_nodes(r, g, (k - 1) as nat, vis);
        let one = run_node(r, g, k - 1, prev.1);
        match one.0 {
            Some(s) => (prev.0.push(s), one.1),
            None => (prev.0, one.1),
        }
    }
}

/// The seeds of the first `k` graphs, skipping graphs with a cycle.
pub open spec fn run_graphs(r: Run, k: nat, vis: Seq<Set<usize>>) -> (Seq<Seeded>, Seq<Set<usize>>)
    decreases k,
{
    if k == 0 {
        (Seq::empty(), vis)
    } else {
        let prev = run_graphs(r, (k - 1) as nat, vis);
        if r.graphs[k - 1].cyclic_flag() {
            prev
        } else {
            let here = run_nodes(r, k - 1, r.graphs[k - 1].nodes().len(), prev.1);
            (prev.0 + here.0, here.1)
        }
    }
}

/// Nothing discovered in any of `n` graphs.
pub open spec fn none_discovered(n: nat) -> Seq<Set<usize>> {
    Seq::new(n, |i: int| Set::<usize>::empty())
}

/// The seeds of a whole run, with one discovered set for the whole call.
pub open spec fn run_query(r: Run) -> Seq<Seeded> {
    run_graphs(r, r.graphs.len(), none_discovered(r.graphs.len())).0
}

/// The result records `ns` stand for the seeds `ss`.
pub open spec fn seeds_are(ns: Seq<Node>, ss: Seq<Seeded>, graphs: Seq<Arc<PackageGraph>>) -> bool {
    &&& ns.len() == ss.len()
    &&& forall|k: int|
        #![trigger ns[k]]
        0 <= k < ns.len() ==> {
            &&& ns[k].origin@ == (ss[k].graph, ss[k].index)
            &&& 0 <= ss[k].graph < graphs.len()
            &&& 0 <= ss[k].index < graphs[ss[k].graph].nodes().len()
            &&& summarizes(ns[k].base, graphs[ss[k].graph].nodes()[ss[k].index])
            &&& ns[k].relationship is None
            &&& result_is(ns[k].ancestors, ss[k].ancestors, graphs, Direction::Incoming)
            &&& result_is(ns[k].descendants, ss[k].descendants, graphs, Direction::Outgoing)
        }
}

/// The result for node `i` of graph `g`, if the query selects it.
fn seed_node(
    graphs: &Vec<Arc<PackageGraph>>,
    links: &Vec<ExternalLink>,
    query: &GraphQuery,
    options: &QueryOptions,
    g: usize,
    i: usize,
    disc: &mut Discovered,
) -> (r: Option<Node>)
    requires
        graphs_wf(graphs@),
        old(disc).fits(graphs@),
        g < graphs@.len(),
        i < graphs@[g as int].nodes().len(),
    ensures
        final(disc).fits(graphs@),
        ({
            let run = Run {
                graphs: graphs@,
                links: links@,
                query: *query,
                ancestors: options.ancestors as nat,
                descendants: options.descendants as nat,
                rels: options.relationships@,
            };
            let x = run_node(run, g as int, i as int, old(disc).view());
            &&& final(disc).view() == x.1
            &&& match (r, x.0) {
                (None, None) => true,
                (Some(n), Some(s)) => seeds_are(seq![n], seq![s], graphs@),
                _ => false,
            }
        }),
{
    let node = graphs[g].node(i);
    if !filter(query, node) {
        return None;
    }
    let ancestors = collect(graphs, links, &options.relationships, Direction::Incoming, g, i, options.ancestors, disc);
    let descendants = collect(graphs, links, &options.relationships, Direction::Outgoing, g, i, options.descendants, disc);
    let n = Node {
        base: summary(node),
        relationship: None,
        ancestors,
        descendants,
        origin: Ghost((g as int, i as int)),
    };
    Some(n)
}

/// The results for the nodes of graph `g` that the query selects, appended to `out`.
fn seed_graph(
    graphs: &Vec<Arc<PackageGraph>>,
    links: &Vec<ExternalLink>,
    query: &GraphQuery,
    options: &QueryOptions,
    g: usize,
    disc: &mut Discovered,
    out: &mut Vec<Node>,
)
    requires
        graphs_wf(graphs@),
        old(disc).fits(graphs@),
        g < graphs@.len(),
    ensures
        final(disc).fits(graphs@),
        ({
            let run = Run {
                graphs: graphs@,
                links: links@,
                query: *query,
                ancestors: options.ancestors as nat,
                descendants: options.descendants as nat,
                rels: options.relationships@,
            };
            let x = run_nodes(run, g as int, graphs@[g as int].nodes().len(), old(disc).view());
            &&& final(disc).view() == x.1
            &&& old(out)@.len() <= final(out)@.len()
            &&& final(out)@.subrange(0, old(out)@.len() as int) == old(out)@
            &&& seeds_are(final(out)@.subrange(old(out)@.len() as int, final(out)@.len() as int), x.0, graphs@)
        }),
{
    let ghost run = Run {
        graphs: graphs@,
        links: links@,
        query: *query,
        ancestors: options.ancestors as nat,
        descendants: options.descendants as nat,
        rels: options.relationships@,
    };
    let ghost start = out@.len();
    let ghost vis0 = disc.view();
    let count = graphs[g].node_count();
    let mut i: usize = 0;
    while i < count
        invariant
            graphs_wf(graphs@),
            g < graphs@.len(),
            count == graphs@[g as int].nodes().len(),
            i <= count,
            disc.fits(graphs@),
            start <= out@.len(),
            run == (Run {
                graphs: graphs@,
                links: links@,
                query: *query,
                ancestors: options.ancestors as nat,
                descendants: options.descendants as nat,
                rels: options.relationships@,
            }),
            out@.subrange(0, start as int) == old(out)@,
            start == old(out)@.len(),
            ({
                let x = run_nodes(run, g as int, i as nat, vis0);
                &&& disc.view() == x.1
                &&& seeds_are(out@.subrange(start as int, out@.len() as int), x.0, graphs@)
            }),
        decreases count - i,
    {
        let ghost prev = run_nodes(run, g as int, i as nat, vis0);
        let ghost before = out@;
        let r = seed_node(graphs, links, query, options, g, i, disc);
        let ghost one = run_node(run, g as int, i as int, prev.1);
        proof {
            assert(run_nodes(run, g as int, (i + 1) as nat, vis0) == match one.0 {
                Some(s) => (prev.0.push(s), one.1),
                None => (prev.0, one.1),
            });
        }
        match r {
            Some(n) => {
                out.push(n);
                proof {
                    let s = one.0.unwrap();
                    assert(seeds_are(seq![n], seq![s], graphs@));
                    assert(seq![n][0] == n);
                    assert(seq![s][0] == s);
                    assert(out@.subrange(0, start as int) =~= before.subrange(0, start as int));
                    let ns = out@.subrange(start as int, out@.len() as int);
                    assert(ns.drop_last() =~= before.subrange(start as int, before.len() as int));
                    assert(ns.last() == out@.last());
                    assert(forall|k: int| 0 <= k < ns.len() - 1 ==> #[trigger] ns[k] == ns.drop_last()[k]);
                    assert(seeds_are(ns, prev.0.push(s), graphs@));
                }
            },
            None => {},
        }
        i = i + 1;
    }
}

proof fn lemma_seeds_concat(a: Seq<Node>, b: Seq<Node>, x: Seq<Seeded>, y: Seq<Seeded>, graphs: Seq<Arc<PackageGraph>>)
    requires
        seeds_are(a, x, graphs),
        seeds_are(b, y, graphs),
    ensures
        seeds_are(a + b, x + y, graphs),
{
    let ns = a + b;
    assert forall|k: int| #![trigger ns[k]] a.len() <= k < ns.len() implies ns[k] == b[k - a.len()] && (x + y)[k] == y[k - a.len()] by {}
    assert forall|k: int| #![trigger ns[k]] 0 <= k < a.len() implies ns[k] == a[k] && (x + y)[k] == x[k] by {}
}

/// Runs `query` over `graphs`, skipping graphs with a cycle: for each graph
/// in order, each selected node in node order, a record with its ancestor
/// and descendant walks. One discovered set is shared by the whole run.
fn run_over(
    query: &GraphQuery,
    options: &QueryOptions,
    graphs: &Vec<Arc<PackageGraph>>,
    links: &Vec<ExternalLink>,
) -> (r: Vec<Node>)
    requires
        graphs_wf(graphs@),
    ensures
        seeds_are(
            r@,
            run_query(
                Run {
                    graphs: graphs@,
                    links: links@,
                    query: *query,
                    ancestors: options.ancestors as nat,
                    descendants: options.descendants as nat,
                    rels: options.relationships@,
                },
            ),
            graphs@,
        ),
{
    let ghost run = Run {
        graphs: graphs@,
        links: links@,
        query: *query,
        ancestors: options.ancestors as nat,
        descendants: options.descendants as nat,
        rels: options.relationships@,
    };
    let mut disc = Discovered::new(graphs);
    let ghost vis0 = disc.view();
    proof {
        assert(vis0 =~= none_discovered(graphs@.len()));
    }
    let mut out: Vec<Node> = Vec::new();
    let mut k: usize = 0;
    while k < graphs.len()
        invariant
            graphs_wf(graphs@),
            k <= graphs@.len(),
            disc.fits(graphs@),
            vis0 == none_discovered(graphs@.len()),
            run == (Run {
                graphs: graphs@,
                links: links@,
                query: *query,
                ancestors: options.ancestors as nat,
                descendants: options.descendants as nat,
                rels: options.relationships@,
            }),
            ({
                let x = run_graphs(run, k as nat, vis0);
                &&& disc.view() == x.1
                &&& seeds_are(out@, x.0, graphs@)
            }),
        decreases graphs@.len() - k,
    {
        if !graphs[k].is_cyclic() {
            let ghost before = out@;
            let ghost prev = run_graphs(run, k as nat, vis0);
            seed_graph(graphs, links, query, options, k, &mut disc, &mut out);
            proof {
                let here = run_nodes(run, k as int, graphs@[k as int].nodes().len(), prev.1);
                let added = out@.subrange(before.len() as int, out@.len() as int);
                lemma_seeds_concat(before, added, prev.0, here.0, graphs@);
                assert(out@.subrange(0, before.len() as int) == before);
                assert(before + added =~= out@);
            }
        }
        k = k + 1;
    }
    out
}

/// An offset and a limit on result items; a limit of 0 takes all.
pub struct Paginated {
    pub offset: u64,
    pub limit: u64,
}

/// A page of results and the number of results before paging.
pub struct PaginatedResults {
    pub items: Vec<Node>,
    pub total: u64,
}

/// The items that page `p` takes from `len` results: from the offset, at
/// most `limit` of them (all when the limit is 0).
pub open spec fn page_bounds(p: Paginated, len: int) -> (int, int) {
    let start = if p.offset as int > len { len } else { p.offset as int };
    let end = if p.limit == 0 || start + p.limit as int > len { len } else { start + p.limit as int };
    (start, end)
}

/// Takes page `p` of `items`.
pub fn paginate(p: &Paginated, items: Vec<Node>) -> (r: PaginatedResults)
    ensures
        r.total == items@.len(),
        r.items@ == items@.subrange(page_bounds(*p, items@.len() as int).0, page_bounds(*p, items@.len() as int).1),
{
    let total = items.len() as u64;
    let len = items.len();
    let start: usize = if p.offset as u128 > len as u128 { len } else { p.offset as usize };
    let mut rest = items;
    let mut page = rest.split_off(start);
    if p.limit != 0 && (p.limit as u128) < (len - start) as u128 {
        page.truncate(p.limit as usize);
    }
    proof {
        assert(page@ =~= items@.subrange(page_bounds(*p, items@.len() as int).0, page_bounds(*p, items@.len() as int).1));
    }
    PaginatedResults { items: page, total }
}

/// SBOMs in storage, and graphs loaded without a cycle.
pub struct AnalysisStatus {
    pub sbom_count: u32,
    pub graph_count: u32,
}

/// The entries whose graph has no cycle.
pub open spec fn acyclic_count(s: Seq<CacheEntry>) -> int
    decreases s.len(),
{
    if s.len() == 0 {
        0
    } else {
        acyclic_count(s.drop_last()) + if s.last().graph.cyclic_flag() {
            0int
        } else {
            1int
        }
    }
}

/// Why a call of the service failed.
pub enum AnalysisError {
    /// Storage could not be read.
    StorageUnavailable,
    /// No SBOM with this identifier.
    NotFound(String),
    /// A malformed package URL, CPE or query.
    InvalidReference(String),
    /// A stored graph breaks an invariant.
    Internal(String),
}

/// How the service is set up.
pub struct AnalysisConfig {
    /// The bound on the estimated bytes of the cached graphs.
    pub max_cache_size: u64,
}

/// The analysis service: a cache of package graphs, and queries over them.
pub struct AnalysisService {
    graph_cache: GraphCache,
}

impl AnalysisService {
    /// The cached entries, least recently used first.
    pub closed spec fn cached(&self) -> Seq<CacheEntry> {
        self.graph_cache@
    }

    /// The bound on the cached bytes.
    pub closed spec fn max_cache_size(&self) -> int {
        self.graph_cache.max_size()
    }

    pub closed spec fn wf(&self) -> bool {
        self.graph_cache.wf()
    }

    /// A service with an empty cache that retains at most
    /// `config.max_cache_size` bytes.
    pub fn new(config: AnalysisConfig) -> (s: AnalysisService)
        ensures
            s.wf(),
            s.cached() == Seq::<CacheEntry>::empty(),
            s.max_cache_size() == config.max_cache_size,
    {
        AnalysisService { graph_cache: GraphCache::new(config.max_cache_size) }
    }

    /// The bytes the cache retains.
    pub fn cache_size_used(&self) -> (r: u64)
        requires
            self.wf(),
        ensures
            r == total(self.cached()),
            r <= self.max_cache_size(),
    {
        self.graph_cache.size_used()
    }

    /// The number of graphs the cache retains.
    pub fn cache_len(&self) -> (r: u64)
        ensures
            r == self.cached().len(),
    {
        self.graph_cache.len()
    }

    /// Empties the cache.
    pub fn clear_all_graphs(&mut self) -> (r: Result<(), AnalysisError>)
        requires
            old(self).wf(),
        ensures
            r is Ok,
            final(self).wf(),
            final(self).cached() == Seq::<CacheEntry>::empty(),
            final(self).max_cache_size() == old(self).max_cache_size(),
    {
        self.graph_cache.clear();
        Ok(())
    }

    /// The cached graph of SBOM `sbom_id`, if any; a hit counts as a use.
    pub fn cached_graph(&mut self, sbom_id: &String) -> (r: Option<Arc<PackageGraph>>)
        requires
            old(self).wf(),
        ensures
            final(self).wf(),
            r matches Some(g) ==> g.wf(),
            final(self).max_cache_size() == old(self).max_cache_size(),
            match position(old(self).cached(), sbom_id@) {
                None => r is None && final(self).cached() == old(self).cached(),
                Some(i) => r == Some(old(self).cached()[i].graph) && final(self).cached() == old(
                    self,
                ).cached().remove(i).push(old(self).cached()[i]),
            },
    {
        self.graph_cache.get(sbom_id)
    }

    /// Stores a freshly loaded graph of SBOM `sbom_id` with its estimated
    /// size, and hands it back; a graph larger than the whole cache is handed
    /// back without being retained.
    pub fn store_graph(&mut self, sbom_id: String, graph: PackageGraph) -> (r: Arc<PackageGraph>)
        requires
            old(self).wf(),
            graph.wf(),
        ensures
            final(self).wf(),
            *r == graph,
            r.wf(),
            final(self).max_cache_size() == old(self).max_cache_size(),
            ({
                let size = capped(graph_size(graph.nodes(), graph.edges().len() as int));
                &&& size > old(self).max_cache_size() ==> final(self).cached() == old(self).cached()
                &&& size <= old(self).max_cache_size() ==> final(self).cached() == crate::cache::evict(
                    crate::cache::without(old(self).cached(), sbom_id@),
                    size,
                    old(self).max_cache_size(),
                ).push(CacheEntry { sbom_id, graph: r, size: size as u64 })
            }),
    {
        let size = estimate_size(&graph);
        let g = Arc::new(graph);
        let kept = share(&g);
        self.graph_cache.insert(sbom_id, kept, size);
        g
    }

    /// Runs `query` over `graphs`, skipping graphs with a cycle: for each
    /// graph in order, each selected node in node order, a record with its
    /// ancestor and descendant walks. One discovered set is shared by the
    /// whole run.
    pub fn run_graph_query(
        &self,
        query: &GraphQuery,
        options: &QueryOptions,
        graphs: &Vec<Arc<PackageGraph>>,
        links: &Vec<ExternalLink>,
    ) -> (r: Vec<Node>)
        requires
            graphs_wf(graphs@),
        ensures
            seeds_are(r@, run_query(run_of(query, options, graphs, links)), graphs@),
    {
        run_over(query, options, graphs, links)
    }

    /// The page `paginated` of the results of `query` over the loaded `graphs`.
    pub fn retrieve(
        &self,
        query: &GraphQuery,
        options: &QueryOptions,
        paginated: &Paginated,
        graphs: &Vec<Arc<PackageGraph>>,
        links: &Vec<ExternalLink>,
    ) -> (r: PaginatedResults)
        requires
            graphs_wf(graphs@),
        ensures
            ({
                let all = run_query(run_of(query, options, graphs, links));
                let (start, end) = page_bounds(*paginated, all.len() as int);
                &&& r.total == all.len()
                &&& seeds_are(r.items@, all.subrange(start, end), graphs@)
            }),
    {
        let all = run_over(query, options, graphs, links);
        let ghost xs = run_query(run_of(query, options, graphs, links));
        let page = paginate(paginated, all);
        proof {
            let (start, end) = page_bounds(*paginated, all@.len() as int);
            assert forall|k: int| #![trigger page.items@[k]] 0 <= k < page.items@.len() implies page.items@[k] == all@[start + k]
                && xs.subrange(start, end)[k] == xs[start + k] by {}
        }
        page
    }

    /// As `retrieve`, over the graph of one SBOM; `NotFound` where that SBOM
    /// has no loaded graph.
    pub fn retrieve_single(
        &self,
        sbom_id: &String,
        query: &GraphQuery,
        options: &QueryOptions,
        paginated: &Paginated,
        graph: Option<Arc<PackageGraph>>,
        links: &Vec<ExternalLink>,
    ) -> (r: Result<PaginatedResults, AnalysisError>)
        requires
            graph matches Some(g) ==> g.wf(),
        ensures
            graph is None ==> (r matches Err(AnalysisError::NotFound(id)) && id@ == sbom_id@),
            graph matches Some(g) ==> (r matches Ok(page) && ({
                let graphs = seq![g];
                let all = run_query(
                    Run {
                        graphs,
                        links: links@,
                        query: *query,
                        ancestors: options.ancestors as nat,
                        descendants: options.descendants as nat,
                        rels: options.relationships@,
                    },
                );
                let (start, end) = page_bounds(*paginated, all.len() as int);
                &&& page.total == all.len()
                &&& seeds_are(page.items@, all.subrange(start, end), graphs)
            })),
    {
        match graph {
            None => Err(AnalysisError::NotFound(sbom_id.clone())),
            Some(g) => {
                let mut graphs: Vec<Arc<PackageGraph>> = Vec::new();
                graphs.push(g);
                proof {
                    assert(graphs@ =~= seq![g]);
                }
                Ok(self.retrieve(query, options, paginated, &graphs, links))
            },
        }
    }

    /// The counts of SBOMs in storage (`sbom_count`, as read by the caller)
    /// and of cached graphs without a cycle.
    pub fn status(&self, sbom_count: u32) -> (r: AnalysisStatus)
        ensures
            r.sbom_count == sbom_count,
            r.graph_count == if acyclic_count(self.cached()) > u32::MAX as int { u32::MAX as int } else { acyclic_count(self.cached()) },
    {
        let n = self.graph_cache.entry_count();
        let mut count: u32 = 0;
        let mut i: usize = 0;
        let ghost es = self.cached();
        while i < n
            invariant
                n == es.len(),
                es == self.cached(),
                i <= n,
                count == if acyclic_count(es.subrange(0, i as int)) > u32::MAX as int { u32::MAX as int } else { acyclic_count(es.subrange(0, i as int)) },
            decreases n - i,
        {
            proof {
                assert(es.subrange(0, i + 1).drop_last() =~= es.subrange(0, i as int));
                lemma_acyclic_count_nonneg(es.subrange(0, i as int));
            }
            if !self.graph_cache.entry_graph(i).is_cyclic() {
                count = count.saturating_add(1);
            }
            i = i + 1;
        }
        proof {
            assert(es.subrange(0, n as int) =~= es);
        }
        AnalysisStatus { sbom_count, graph_count: count }
    }
}

proof fn lemma_acyclic_count_nonneg(s: Seq<CacheEntry>)
    ensures
        acyclic_count(s) >= 0,
    decreases s.len(),
{
    if s.len() > 0 {
        lemma_acyclic_count_nonneg(s.drop_last());
    }
}

} // verus!
