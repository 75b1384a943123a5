//! Properties of queries, walks and the cache, proved over their specifications.
use crate::cache::{absent, entry_for, evict, lemma_evict_keeps, lemma_push_unique, lemma_remove_keeps, position, unique_ids, without, CacheEntry};
use crate::graph::{incident, PackageGraph};
use crate::model::{Direction, NodeKind, Relationship};
use crate::service::{run_graphs, run_node, run_nodes, run_query, walk_of, Run, Seeded};
use crate::walk::{allowed, hop_target, walk_edges, walk_node, Walk, Walked};
use std::sync::Arc;
use vstd::prelude::*;

verus! {

broadcast use {vstd::seq::axiom_seq_index_decreases, vstd::seq::axiom_seq_subrange_decreases};

/// Every record of the forest `ws`, at any depth, satisfies `p`.
pub open spec fn every_record(ws: Seq<Walked>, p: spec_fn(Walked) -> bool) -> bool
    decreases ws,
{
    forall|i: int|
        #![trigger ws[i]]
        0 <= i < ws.len() ==> {
            &&& p(ws[i])
            &&& match ws[i].children {
                Some(c) => every_record(c, p),
                None => true,
            }
        }
}

/// The record was reached by an edge whose label passes the filter `rels`.
pub open spec fn label_allowed(rels: Seq<Relationship>) -> spec_fn(Walked) -> bool {
    |x: Walked| allowed(rels, x.relationship)
}

proof fn lemma_every_push(ws: Seq<Walked>, x: Walked, p: spec_fn(Walked) -> bool)
    requires
        every_record(ws, p),
        p(x),
        x.children matches Some(c) ==> every_record(c, p),
    ensures
        every_record(ws.push(x), p),
{
    let s = ws.push(x);
    assert forall|i: int| #![trigger s[i]] 0 <= i < s.len() - 1 implies s[i] == ws[i] by {}
    assert(s[s.len() - 1] == x);
}

proof fn lemma_node_allowed(w: Walk, g: int, n: int, depth: nat, vis: Seq<Set<usize>>)
    ensures
        walk_node(w, g, n, depth, vis).0 matches Some(c) ==> every_record(c, label_allowed(w.rels)),
    decreases depth, 1nat, 0nat,
{
    if depth == 0 || vis[g].contains(n as usize) {
    } else {
        let vis1 = vis.update(g, vis[g].insert(n as usize));
        let node = w.graphs[g].nodes()[n];
        match node.kind {
            NodeKind::External { .. } => match hop_target(w.graphs, w.links, node.node_id@) {
                Some((g2, n2)) => lemma_edges_allowed(w, g2, incident(w.graphs[g2].edges(), n2 as usize, w.dir), depth, vis1),
                None => {},
            },
            _ => lemma_edges_allowed(w, g, incident(w.graphs[g].edges(), n as usize, w.dir), depth, vis1),
        }
    }
}

proof fn lemma_edges_allowed(w: Walk, g: int, es: Seq<(usize, usize, Relationship)>, depth: nat, vis: Seq<Set<usize>>)
    ensures
        every_record(walk_edges(w, g, es, depth, vis).0, label_allowed(w.rels)),
    decreases depth, 0nat, es.len(),
{
    if depth == 0 || es.len() == 0 {
    } else {
        let prev = walk_edges(w, g, es.drop_last(), depth, vis);
        lemma_edges_allowed(w, g, es.drop_last(), depth, vis);
        let e = es.last();
        if allowed(w.rels, e.2) {
            let m = crate::walk::neighbor(e, w.dir);
            let sub = walk_node(w, g, m, (depth - 1) as nat, prev.1);
            lemma_node_allowed(w, g, m, (depth - 1) as nat, prev.1);
            lemma_every_push(prev.0, Walked { graph: g, index: m, relationship: e.2, children: sub.0 }, label_allowed(w.rels));
        }
    }
}

/// Each seed's walks, in both directions, satisfy `p` at every record.
pub open spec fn seeds_every(ss: Seq<Seeded>, p: spec_fn(Walked) -> bool) -> bool {
    forall|k: int|
        #![trigger ss[k]]
        0 <= k < ss.len() ==> {
            &&& (ss[k].ancestors matches Some(c) ==> every_record(c, p))
            &&& (ss[k].descendants matches Some(c) ==> every_record(c, p))
        }
}

proof fn lemma_nodes_allowed(r: Run, g: int, k: nat, vis: Seq<Set<usize>>)
    ensures
        seeds_every(run_nodes(r, g, k, vis).0, label_allowed(r.rels)),
    decreases k,
{
    if k > 0 {
        let prev = run_nodes(r, g, (k - 1) as nat, vis);
        lemma_nodes_allowed(r, g, (k - 1) as nat, vis);
        let one = run_node(r, g, k - 1, prev.1);
        if one.0 is Some {
            let a = walk_node(walk_of(r, Direction::Incoming), g, k - 1, r.ancestors, prev.1);
            lemma_node_allowed(walk_of(r, Direction::Incoming), g, k - 1, r.ancestors, prev.1);
            lemma_node_allowed(walk_of(r, Direction::Outgoing), g, k - 1, r.descendants, a.1);
            let s = prev.0.push(one.0.unwrap());
            assert forall|j: int| #![trigger s[j]] 0 <= j < s.len() - 1 implies s[j] == prev.0[j] by {}
        }
    }
}

proof fn lemma_graphs_allowed(r: Run, k: nat, vis: Seq<Set<usize>>)
    ensures
        seeds_every(run_graphs(r, k, vis).0, label_allowed(r.rels)),
    decreases k,
{
    if k > 0 {
        let prev = run_graphs(r, (k - 1) as nat, vis);
        lemma_graphs_allowed(r, (k - 1) as nat, vis);
        if !r.graphs[k - 1].cyclic_flag() {
            let here = run_nodes(r, k - 1, r.graphs[k - 1].nodes().len(), prev.1);
            lemma_nodes_allowed(r, k - 1, r.graphs[k - 1].nodes().len(), prev.1);
            let s = prev.0 + here.0;
            assert forall|j: int| #![trigger s[j]] 0 <= j < s.len() implies (j < prev.0.len() ==> s[j] == prev.0[j]) && (
            j >= prev.0.len() ==> s[j] == here.0[j - prev.0.len()]) by {}
        }
    }
}

/// With a relationship filter, every edge in a query's result carries one of
/// the filter's labels: each record, at any depth of either walk of any
/// seed, was reached by an edge whose label the filter names (any label
/// when the filter is empty).
pub proof fn relationship_filter_exact(r: Run)
    ensures
        seeds_every(run_query(r), label_allowed(r.rels)),
{
    lemma_graphs_allowed(r, r.graphs.len(), crate::service::none_discovered(r.graphs.len()));
}

/// The record stands in a graph of `graphs` without a cycle.
pub open spec fn in_acyclic(graphs: Seq<Arc<PackageGraph>>) -> spec_fn(Walked) -> bool {
    |x: Walked| 0 <= x.graph < graphs.len() && !graphs[x.graph].cyclic_flag()
}

proof fn lemma_hop_acyclic(graphs: Seq<Arc<PackageGraph>>, links: Seq<crate::walk::ExternalLink>, key: Seq<char>)
    ensures
        hop_target(graphs, links, key) matches Some((g2, n2)) ==> 0 <= g2 < graphs.len() && !graphs[g2].cyclic_flag(),
{
    match crate::walk::link_of(links, key) {
        None => {},
        Some(l) => match crate::walk::graph_of(graphs, links[l].sbom_id@) {
            None => {},
            Some(g) => {
                crate::walk::lemma_first_index_props(graphs, crate::walk::for_sbom(links[l].sbom_id@));
            },
        },
    }
}

proof fn lemma_node_acyclic(w: Walk, g: int, n: int, depth: nat, vis: Seq<Set<usize>>)
    requires
        0 <= g < w.graphs.len(),
        !w.graphs[g].cyclic_flag(),
    ensures
        walk_node(w, g, n, depth, vis).0 matches Some(c) ==> every_record(c, in_acyclic(w.graphs)),
    decreases depth, 1nat, 0nat,
{
    if depth == 0 || vis[g].contains(n as usize) {
    } else {
        let vis1 = vis.update(g, vis[g].insert(n as usize));
        let node = w.graphs[g].nodes()[n];
        match node.kind {
            NodeKind::External { .. } => {
                lemma_hop_acyclic(w.graphs, w.links, node.node_id@);
                match hop_target(w.graphs, w.links, node.node_id@) {
                    Some((g2, n2)) => lemma_edges_acyclic(w, g2, incident(w.graphs[g2].edges(), n2 as usize, w.dir), depth, vis1),
                    None => {},
                }
            },
            _ => lemma_edges_acyclic(w, g, incident(w.graphs[g].edges(), n as usize, w.dir), depth, vis1),
        }
    }
}

proof fn lemma_edges_acyclic(w: Walk, g: int, es: Seq<(usize, usize, Relationship)>, depth: nat, vis: Seq<Set<usize>>)
    requires
        0 <= g < w.graphs.len(),
        !w.graphs[g].cyclic_flag(),
    ensures
        every_record(walk_edges(w, g, es, depth, vis).0, in_acyclic(w.graphs)),
    decreases depth, 0nat, es.len(),
{
    if depth == 0 || es.len() == 0 {
    } else {
        let prev = walk_edges(w, g, es.drop_last(), depth, vis);
        lemma_edges_acyclic(w, g, es.drop_last(), depth, vis);
        let e = es.last();
        if allowed(w.rels, e.2) {
            let m = crate::walk::neighbor(e, w.dir);
            let sub = walk_node(w, g, m, (depth - 1) as nat, prev.1);
            lemma_node_acyclic(w, g, m, (depth - 1) as nat, prev.1);
            lemma_every_push(prev.0, Walked { graph: g, index: m, relationship: e.2, children: sub.0 }, in_acyclic(w.graphs));
        }
    }
}

/// Every seed stands in a graph without a cycle, and so does every record of its walks.
pub open spec fn seeds_acyclic(ss: Seq<Seeded>, graphs: Seq<Arc<PackageGraph>>) -> bool {
    &&& forall|k: int| #![trigger ss[k]] 0 <= k < ss.len() ==> 0 <= ss[k].graph < graphs.len() && !graphs[ss[k].graph].cyclic_flag()
    &&& seeds_every(ss, in_acyclic(graphs))
}

proof fn lemma_nodes_acyclic(r: Run, g: int, k: nat, vis: Seq<Set<usize>>)
    requires
        0 <= g < r.graphs.len(),
        !r.graphs[g].cyclic_flag(),
    ensures
        seeds_acyclic(run_nodes(r, g, k, vis).0, r.graphs),
    decreases k,
{
    if k > 0 {
        let prev = run_nodes(r, g, (k - 1) as nat, vis);
        lemma_nodes_acyclic(r, g, (k - 1) as nat, vis);
        let one = run_node(r, g, k - 1, prev.1);
        if one.0 is Some {
            let a = walk_node(walk_of(r, Direction::Incoming), g, k - 1, r.ancestors, prev.1);
            lemma_node_acyclic(walk_of(r, Direction::Incoming), g, k - 1, r.ancestors, prev.1);
            lemma_node_acyclic(walk_of(r, Direction::Outgoing), g, k - 1, r.descendants, a.1);
            let s = prev.0.push(one.0.unwrap());
            assert forall|j: int| #![trigger s[j]] 0 <= j < s.len() - 1 implies s[j] == prev.0[j] by {}
        }
    }
}

proof fn lemma_graphs_acyclic(r: Run, k: nat, vis: Seq<Set<usize>>)
    requires
        k <= r.graphs.len(),
    ensures
        seeds_acyclic(run_graphs(r, k, vis).0, r.graphs),
        (forall|g: int| 0 <= g < k ==> #[trigger] r.graphs[g].cyclic_flag()) ==> run_graphs(r, k, vis).0.len() == 0,
    decreases k,
{
    if k > 0 {
        let prev = run_graphs(r, (k - 1) as nat, vis);
        lemma_graphs_acyclic(r, (k - 1) as nat, vis);
        if !r.graphs[k - 1].cyclic_flag() {
            let here = run_nodes(r, k - 1, r.graphs[k - 1].nodes().len(), prev.1);
            lemma_nodes_acyclic(r, k - 1, r.graphs[k - 1].nodes().len(), prev.1);
            let s = prev.0 + here.0;
            assert forall|j: int| #![trigger s[j]] 0 <= j < s.len() implies (j < prev.0.len() ==> s[j] == prev.0[j]) && (
            j >= prev.0.len() ==> s[j] == here.0[j - prev.0.len()]) by {}
        }
    }
}

/// Graphs with a cycle take no part in a query: no seed and no record of any
/// walk stands in one, so where every loaded graph has a cycle the result is
/// empty.
pub proof fn cycle_isolation(r: Run)
    ensures
        seeds_acyclic(run_query(r), r.graphs),
        (forall|g: int| 0 <= g < r.graphs.len() ==> #[trigger] r.graphs[g].cyclic_flag()) ==> run_query(r).len() == 0,
{
    lemma_graphs_acyclic(r, r.graphs.len(), crate::service::none_discovered(r.graphs.len()));
}

/// The nodes, as (graph, index), of the records of `ws` at any depth whose
/// own walk was performed, in preorder.
pub open spec fn expanded(ws: Seq<Walked>) -> Seq<(int, int)>
    decreases ws,
{
    if ws.len() == 0 {
        Seq::empty()
    } else {
        expanded(ws.drop_last()) + match ws.last().children {
            Some(c) => seq![(ws.last().graph, ws.last().index)] + expanded(c),
            None => Seq::empty(),
        }
    }
}

/// Node `x` was discovered between the discovered sets `before` and `after`.
pub open spec fn fresh(x: (int, int), before: Seq<Set<usize>>, after: Seq<Set<usize>>) -> bool {
    &&& 0 <= x.0 < before.len()
    &&& 0 <= x.1
    &&& after[x.0].contains(x.1 as usize)
    &&& !before[x.0].contains(x.1 as usize)
}

/// The discovered sets only grow from `before` to `after`.
pub open spec fn grows(before: Seq<Set<usize>>, after: Seq<Set<usize>>) -> bool {
    &&& after.len() == before.len()
    &&& forall|g: int| 0 <= g < before.len() ==> #[trigger] before[g].subset_of(after[g])
}

proof fn lemma_grows_trans(a: Seq<Set<usize>>, b: Seq<Set<usize>>, c: Seq<Set<usize>>)
    requires
        grows(a, b),
        grows(b, c),
    ensures
        grows(a, c),
{
    assert forall|g: int| 0 <= g < a.len() implies #[trigger] a[g].subset_of(c[g]) by {
        assert(a[g].subset_of(b[g]));
        assert(b[g].subset_of(c[g]));
    }
}

proof fn lemma_discover_grows(v: Seq<Set<usize>>, g: int, n: int)
    requires
        0 <= g < v.len(),
    ensures
        grows(v, discover(v, g, n)),
        discover(v, g, n)[g].contains(n as usize),
{
    let d = discover(v, g, n);
    assert forall|h: int| 0 <= h < v.len() implies #[trigger] v[h].subset_of(d[h]) by {
        if h == g {
            assert forall|x: usize| v[h].contains(x) implies d[h].contains(x) by {}
        } else {
            assert(d[h] == v[h]);
        }
    }
}

/// Discovering a node that a later state holds keeps the later state above.
proof fn lemma_discover_below(v1: Seq<Set<usize>>, v2: Seq<Set<usize>>, g: int, m: int)
    requires
        grows(v1, v2),
        0 <= g < v1.len(),
        v2[g].contains(m as usize),
    ensures
        grows(discover(v1, g, m), v2),
{
    let d = discover(v1, g, m);
    assert forall|h: int| 0 <= h < d.len() implies #[trigger] d[h].subset_of(v2[h]) by {
        assert(v1[h].subset_of(v2[h]));
        if h == g {
            assert forall|x: usize| d[h].contains(x) implies v2[h].contains(x) by {
                if x != m as usize {
                    assert(v1[h].contains(x));
                }
            }
        } else {
            assert(d[h] == v1[h]);
        }
    }
}

/// Every node of `xs` is distinct and discovered between `before` and `after`.
pub open spec fn fresh_distinct(xs: Seq<(int, int)>, before: Seq<Set<usize>>, after: Seq<Set<usize>>) -> bool {
    &&& xs.no_duplicates()
    &&& forall|k: int| 0 <= k < xs.len() ==> fresh(#[trigger] xs[k], before, after)
}

proof fn lemma_concat_fresh(
    a: Seq<(int, int)>,
    b: Seq<(int, int)>,
    v0: Seq<Set<usize>>,
    v1: Seq<Set<usize>>,
    v2: Seq<Set<usize>>,
)
    requires
        grows(v0, v1),
        grows(v1, v2),
        fresh_distinct(a, v0, v1),
        fresh_distinct(b, v1, v2),
    ensures
        fresh_distinct(a + b, v0, v2),
{
    let s = a + b;
    assert forall|k: int| 0 <= k < s.len() implies fresh(#[trigger] s[k], v0, v2) by {
        if k < a.len() {
            assert(s[k] == a[k]);
            assert(fresh(a[k], v0, v1));
            assert(v1[a[k].0].subset_of(v2[a[k].0]));
        } else {
            assert(s[k] == b[k - a.len()]);
            assert(fresh(b[k - a.len()], v1, v2));
            assert(v0[b[k - a.len()].0].subset_of(v1[b[k - a.len()].0]));
        }
    }
    assert forall|i: int, j: int| 0 <= i < s.len() && 0 <= j < s.len() && i != j implies s[i] != s[j] by {
        if i < a.len() && j >= a.len() {
            assert(fresh(a[i], v0, v1));
            assert(fresh(b[j - a.len()], v1, v2));
        } else if j < a.len() && i >= a.len() {
            assert(fresh(a[j], v0, v1));
            assert(fresh(b[i - a.len()], v1, v2));
        } else if i < a.len() {
            assert(s[i] == a[i] && s[j] == a[j]);
        } else {
            assert(s[i] == b[i - a.len()] && s[j] == b[j - a.len()]);
        }
    }
}

/// The discovered sets with node `n` of graph `g` added.
pub open spec fn discover(vis: Seq<Set<usize>>, g: int, n: int) -> Seq<Set<usize>> {
    vis.update(g, vis[g].insert(n as usize))
}

proof fn lemma_node_fresh(w: Walk, g: int, n: int, depth: nat, vis: Seq<Set<usize>>)
    requires
        vis.len() == w.graphs.len(),
        0 <= g < vis.len(),
        0 <= n,
    ensures
        grows(vis, walk_node(w, g, n, depth, vis).1),
        walk_node(w, g, n, depth, vis).0 matches Some(c) ==> {
            &&& fresh((g, n), vis, walk_node(w, g, n, depth, vis).1)
            &&& fresh_distinct(expanded(c), discover(vis, g, n), walk_node(w, g, n, depth, vis).1)
        },
    decreases depth, 1nat, 0nat,
{
    if depth == 0 || vis[g].contains(n as usize) {
    } else {
        let vis1 = discover(vis, g, n);
        let node = w.graphs[g].nodes()[n];
        let out = walk_node(w, g, n, depth, vis).1;
        match node.kind {
            NodeKind::External { .. } => {
                lemma_hop_acyclic(w.graphs, w.links, node.node_id@);
                match hop_target(w.graphs, w.links, node.node_id@) {
                    Some((g2, n2)) => lemma_edges_fresh(w, g2, incident(w.graphs[g2].edges(), n2 as usize, w.dir), depth, vis1),
                    None => {},
                }
            },
            _ => lemma_edges_fresh(w, g, incident(w.graphs[g].edges(), n as usize, w.dir), depth, vis1),
        }
        lemma_discover_grows(vis, g, n);
        lemma_grows_trans(vis, vis1, out);
        assert(vis1[g].subset_of(out[g]));
    }
}

proof fn lemma_edges_fresh(w: Walk, g: int, es: Seq<(usize, usize, Relationship)>, depth: nat, vis: Seq<Set<usize>>)
    requires
        vis.len() == w.graphs.len(),
        0 <= g < vis.len(),
    ensures
        grows(vis, walk_edges(w, g, es, depth, vis).1),
        fresh_distinct(expanded(walk_edges(w, g, es, depth, vis).0), vis, walk_edges(w, g, es, depth, vis).1),
    decreases depth, 0nat, es.len(),
{
    if depth == 0 || es.len() == 0 {
        assert(grows(vis, vis));
    } else {
        let prev = walk_edges(w, g, es.drop_last(), depth, vis);
        lemma_edges_fresh(w, g, es.drop_last(), depth, vis);
        let e = es.last();
        if allowed(w.rels, e.2) {
            let m = crate::walk::neighbor(e, w.dir);
            let sub = walk_node(w, g, m, (depth - 1) as nat, prev.1);
            lemma_node_fresh(w, g, m, (depth - 1) as nat, prev.1);
            lemma_grows_trans(vis, prev.1, sub.1);
            let x = Walked { graph: g, index: m, relationship: e.2, children: sub.0 };
            let rs = prev.0.push(x);
            assert(rs.drop_last() =~= prev.0);
            let tail = match sub.0 {
                Some(c) => seq![(g, m)] + expanded(c),
                None => Seq::<(int, int)>::empty(),
            };
            assert(expanded(rs) == expanded(prev.0) + tail);
            match sub.0 {
                Some(c) => {
                    let v1 = prev.1;
                    let v2 = sub.1;
                    let d1 = discover(v1, g, m);
                    lemma_discover_grows(v1, g, m);
                    assert(fresh_distinct(seq![(g, m)], v1, d1));
                    lemma_discover_below(v1, v2, g, m);
                    lemma_concat_fresh(seq![(g, m)], expanded(c), v1, d1, v2);
                    lemma_concat_fresh(expanded(prev.0), tail, vis, v1, v2);
                },
                None => {
                    assert(tail =~= Seq::<(int, int)>::empty());
                    assert(fresh_distinct(tail, prev.1, sub.1));
                    lemma_concat_fresh(expanded(prev.0), tail, vis, prev.1, sub.1);
                },
            }
        }
    }
}

/// Within one walk, no node is expanded twice: the records whose own walk
/// was performed name pairwise distinct nodes, none of them the node the
/// walk started from, and all of them newly discovered by this walk.
pub proof fn walk_expands_each_node_once(w: Walk, g: int, n: int, depth: nat, vis: Seq<Set<usize>>)
    requires
        vis.len() == w.graphs.len(),
        0 <= g < vis.len(),
        0 <= n,
    ensures
        grows(vis, walk_node(w, g, n, depth, vis).1),
        walk_node(w, g, n, depth, vis).0 matches Some(c) ==> {
            &&& fresh_distinct(expanded(c), vis, walk_node(w, g, n, depth, vis).1)
            &&& !expanded(c).contains((g, n))
        },
{
    lemma_node_fresh(w, g, n, depth, vis);
    if let Some(c) = walk_node(w, g, n, depth, vis).0 {
        let d = discover(vis, g, n);
        let out = walk_node(w, g, n, depth, vis).1;
        assert forall|k: int| 0 <= k < expanded(c).len() implies fresh(#[trigger] expanded(c)[k], vis, out) by {
            assert(fresh(expanded(c)[k], d, out));
            let x = expanded(c)[k];
            if x.0 == g {
                assert(vis[g].subset_of(d[g]));
            } else {
                assert(d[x.0] == vis[x.0]);
            }
        }
        if expanded(c).contains((g, n)) {
            let k = choose|k: int| 0 <= k < expanded(c).len() && expanded(c)[k] == (g, n);
            assert(fresh(expanded(c)[k], d, out));
        }
    }
}

/// The expanded nodes of a walk result, none where the walk was not performed.
pub open spec fn expanded_opt(r: Option<Seq<Walked>>) -> Seq<(int, int)> {
    match r {
        Some(c) => expanded(c),
        None => Seq::empty(),
    }
}

/// From one seed, the ancestor walk and the descendant walk share one
/// discovered set, so taken together they expand no node twice and never
/// expand the seed itself.
pub proof fn seed_expands_each_node_once(r: Run, g: int, i: int, vis: Seq<Set<usize>>)
    requires
        vis.len() == r.graphs.len(),
        0 <= g < vis.len(),
        0 <= i,
    ensures
        run_node(r, g, i, vis).0 matches Some(s) ==> {
            let both = expanded_opt(s.ancestors) + expanded_opt(s.descendants);
            &&& both.no_duplicates()
            &&& !both.contains((g, i))
        },
{
    if run_node(r, g, i, vis).0 is Some {
        let wa = walk_of(r, Direction::Incoming);
        let wd = walk_of(r, Direction::Outgoing);
        let a = walk_node(wa, g, i, r.ancestors, vis);
        let d = walk_node(wd, g, i, r.descendants, a.1);
        walk_expands_each_node_once(wa, g, i, r.ancestors, vis);
        walk_expands_each_node_once(wd, g, i, r.descendants, a.1);
        let ea = expanded_opt(a.0);
        let ed = expanded_opt(d.0);
        assert(fresh_distinct(ea, vis, a.1));
        assert(fresh_distinct(ed, a.1, d.1));
        lemma_concat_fresh(ea, ed, vis, a.1, d.1);
        let both = ea + ed;
        if both.contains((g, i)) {
            let k = choose|k: int| 0 <= k < both.len() && both[k] == (g, i);
            if k < ea.len() {
                assert(ea[k] == (g, i));
            } else {
                assert(ed[k - ea.len()] == (g, i));
            }
        }
    }
}

/// A graph stored for an SBOM, and not larger than the cache, is what a
/// lookup of that SBOM finds next: after the insertion its entry is the only
/// one for the SBOM, it stands last (most recently used), and it holds that
/// very graph. A query over graphs served from the cache therefore sees the
/// same graphs, and gives the same result, as one over freshly loaded graphs.
pub proof fn cache_serves_stored_graph(before: Seq<CacheEntry>, id: String, graph: Arc<PackageGraph>, size: u64, max: int)
    requires
        unique_ids(before),
        size <= max,
    ensures
        ({
            let after = evict(without(before, id@), size as int, max).push(CacheEntry { sbom_id: id, graph, size });
            &&& unique_ids(after)
            &&& position(after, id@) == Some(after.len() - 1)
            &&& after[after.len() - 1].graph == graph
        }),
{
    crate::walk::lemma_first_index_props(before, entry_for(id@));
    match position(before, id@) {
        Some(i) => lemma_remove_keeps(before, i, id@),
        None => {
            assert forall|k: int| 0 <= k < before.len() implies #[trigger] before[k].sbom_id@ != id@ by {
                assert(!entry_for(id@)(before[k]));
            }
        },
    }
    let base = without(before, id@);
    lemma_evict_keeps(base, size as int, max, id@);
    let kept = evict(base, size as int, max);
    let e = CacheEntry { sbom_id: id, graph, size };
    lemma_push_unique(kept, e);
    let after = kept.push(e);
    assert forall|j: int| 0 <= j < after.len() - 1 implies !entry_for(id@)(#[trigger] after[j]) by {
        assert(after[j] == kept[j]);
    }
    crate::walk::lemma_first_index(after, entry_for(id@), after.len() - 1);
}

proof fn lemma_edges_in_graph(w: Walk, g: int, es: Seq<(usize, usize, Relationship)>, depth: nat, vis: Seq<Set<usize>>)
    ensures
        forall|k: int| 0 <= k < walk_edges(w, g, es, depth, vis).0.len() ==> (#[trigger] walk_edges(w, g, es, depth, vis).0[k]).graph == g,
    decreases es.len(),
{
    if depth > 0 && es.len() > 0 {
        lemma_edges_in_graph(w, g, es.drop_last(), depth, vis);
        let prev = walk_edges(w, g, es.drop_last(), depth, vis);
        let r = walk_edges(w, g, es, depth, vis).0;
        assert forall|k: int| 0 <= k < r.len() implies (#[trigger] r[k]).graph == g by {
            if k < prev.0.len() {
                assert(r[k] == prev.0[k]);
            }
        }
    }
}

/// At an external node a walk hops into the graph its link names, without
/// spending a step: where that SBOM is loaded, free of cycles, and holds the
/// named node, the walk yields the records of that node's edges there, all
/// of them nodes of that SBOM's graph; otherwise it ends at the external node.
pub proof fn external_hop(w: Walk, g: int, n: int, depth: nat, vis: Seq<Set<usize>>)
    requires
        0 <= g < w.graphs.len(),
        0 <= n < w.graphs[g].nodes().len(),
        w.graphs[g].nodes()[n].kind is External,
        depth > 0,
        !vis[g].contains(n as usize),
    ensures
        match hop_target(w.graphs, w.links, w.graphs[g].nodes()[n].node_id@) {
            Some((g2, n2)) => {
                let r = walk_edges(w, g2, incident(w.graphs[g2].edges(), n2 as usize, w.dir), depth, discover(vis, g, n));
                &&& walk_node(w, g, n, depth, vis).0 == Some(r.0)
                &&& forall|k: int| 0 <= k < r.0.len() ==> (#[trigger] r.0[k]).graph == g2
            },
            None => walk_node(w, g, n, depth, vis).0 is None,
        },
{
    match hop_target(w.graphs, w.links, w.graphs[g].nodes()[n].node_id@) {
        Some((g2, n2)) => lemma_edges_in_graph(w, g2, incident(w.graphs[g2].edges(), n2 as usize, w.dir), depth, discover(vis, g, n)),
        None => {},
    }
}

} // verus!
