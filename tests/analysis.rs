use sbom_analysis::cache::GraphCache;
use sbom_analysis::filter::{parse_query, ComponentReference, GraphQuery, Operator};
use sbom_analysis::graph::PackageGraph;
use sbom_analysis::loader::{load_graph, IdentifierRow, NodeRow, PackageRow, RelationRow, SbomRows};
use sbom_analysis::model::{Node, NodeKind, Relationship};
use sbom_analysis::resolve::{link_for, plan_external, DiscriminatorType, ExternalNodeRow, ExternalType, Lookup};
use sbom_analysis::service::{paginate, AnalysisConfig, AnalysisError, AnalysisService, Paginated, QueryOptions};
use sbom_analysis::walk::ExternalLink;
use std::sync::Arc;

fn s(v: &str) -> String {
    v.to_string()
}

fn node(id: &str, name: &str) -> NodeRow {
    NodeRow { node_id: s(id), name: s(name) }
}

fn package(id: &str, version: &str) -> PackageRow {
    PackageRow { node_id: s(id), version: s(version), published: None }
}

fn ident(id: &str, value: &str) -> IdentifierRow {
    IdentifierRow { node_id: s(id), value: s(value) }
}

fn rel(left: &str, right: &str, r: Relationship) -> RelationRow {
    RelationRow { left_node_id: s(left), right_node_id: s(right), relationship: r }
}

fn empty_rows(sbom_id: &str) -> SbomRows {
    SbomRows {
        sbom_id: s(sbom_id),
        nodes: vec![],
        packages: vec![],
        purls: vec![],
        cpes: vec![],
        externals: vec![],
        relations: vec![],
    }
}

/// DOCUMENT describes A; A contains B and EE; AA contains BB; DD stands alone.
fn simple_rows(sbom_id: &str) -> SbomRows {
    let mut rows = empty_rows(sbom_id);
    for (id, name) in [
        ("SPDXRef-DOCUMENT", "simple"),
        ("SPDXRef-A", "A"),
        ("SPDXRef-AA", "AA"),
        ("SPDXRef-B", "B"),
        ("SPDXRef-BB", "BB"),
        ("SPDXRef-EE", "EE"),
        ("SPDXRef-DD", "DD"),
    ] {
        rows.nodes.push(node(id, name));
    }
    for id in ["SPDXRef-A", "SPDXRef-AA", "SPDXRef-B", "SPDXRef-BB", "SPDXRef-EE", "SPDXRef-DD"] {
        rows.packages.push(package(id, "0.0.0"));
    }
    rows.purls.push(ident("SPDXRef-A", "pkg:rpm/redhat/A@0.0.0?arch=src"));
    rows.purls.push(ident("SPDXRef-AA", "pkg:rpm/redhat/AA@0.0.0?arch=src"));
    rows.purls.push(ident("SPDXRef-B", "pkg:rpm/redhat/B@0.0.0"));
    rows.purls.push(ident("SPDXRef-BB", "pkg:rpm/redhat/BB@0.0.0"));
    rows.purls.push(ident("SPDXRef-EE", "pkg:rpm/redhat/EE@0.0.0?arch=src"));
    rows.purls.push(ident("SPDXRef-DD", "pkg:rpm/redhat/DD@0.0.0"));
    rows.cpes.push(ident("SPDXRef-A", "cpe:/a:redhat:simple:1:*:el9:*"));
    rows.relations.push(rel("SPDXRef-A", "SPDXRef-B", Relationship::ContainedBy));
    rows.relations.push(rel("SPDXRef-AA", "SPDXRef-BB", Relationship::ContainedBy));
    rows.relations.push(rel("SPDXRef-A", "SPDXRef-EE", Relationship::ContainedBy));
    rows.relations.push(rel("SPDXRef-DOCUMENT", "SPDXRef-A", Relationship::DescribedBy));
    rows
}

fn graph(rows: &SbomRows) -> Arc<PackageGraph> {
    match load_graph(rows) {
        Ok(g) => Arc::new(g),
        Err(_) => panic!("the rows must load"),
    }
}

fn run_graph_query(q: &GraphQuery, o: &QueryOptions, graphs: &Vec<Arc<PackageGraph>>, links: &Vec<ExternalLink>) -> Vec<Node> {
    AnalysisService::new(AnalysisConfig { max_cache_size: 0 }).run_graph_query(q, o, graphs, links)
}

fn options(ancestors: u64, descendants: u64, relationships: Vec<Relationship>) -> QueryOptions {
    QueryOptions { ancestors, descendants, relationships }
}

fn name(n: &str) -> GraphQuery {
    GraphQuery::Component(ComponentReference::Name(s(n)))
}

fn kids(n: &Node) -> &Vec<Node> {
    n.ancestors.as_ref().expect("ancestors were walked")
}

fn deps(n: &Node) -> &Vec<Node> {
    n.descendants.as_ref().expect("descendants were walked")
}

#[test]
fn simple_ancestors_by_name() {
    let graphs = vec![graph(&simple_rows("s1"))];
    let r = run_graph_query(&name("B"), &options(u64::MAX, 0, vec![]), &graphs, &vec![]);
    assert_eq!(r.len(), 1);
    assert_eq!(r[0].base.name, "B");
    assert!(r[0].relationship.is_none());
    assert!(r[0].descendants.is_none());
    let up = kids(&r[0]);
    assert_eq!(up.len(), 1);
    assert_eq!(up[0].base.node_id, "SPDXRef-A");
    assert_eq!(up[0].relationship, Some(Relationship::ContainedBy));
    let top = kids(&up[0]);
    assert_eq!(top.len(), 1);
    assert_eq!(top[0].base.node_id, "SPDXRef-DOCUMENT");
    assert_eq!(top[0].relationship, Some(Relationship::DescribedBy));
    assert_eq!(kids(&top[0]).len(), 0);
}

#[test]
fn relationship_filter_drops_other_labels() {
    let graphs = vec![graph(&simple_rows("s1"))];
    let r = run_graph_query(&name("B"), &options(u64::MAX, 0, vec![Relationship::ContainedBy]), &graphs, &vec![]);
    assert_eq!(r.len(), 1);
    let up = kids(&r[0]);
    assert_eq!(up.len(), 1);
    assert_eq!(up[0].base.name, "A");
    assert_eq!(kids(&up[0]).len(), 0);
}

#[test]
fn purl_substring_selects_package() {
    let graphs = vec![graph(&simple_rows("s1"))];
    let q = GraphQuery::Component(ComponentReference::Purl(s("pkg:rpm/redhat/BB")));
    let r = run_graph_query(&q, &options(u64::MAX, 0, vec![]), &graphs, &vec![]);
    assert_eq!(r.len(), 1);
    assert_eq!(r[0].base.purl, vec![s("pkg:rpm/redhat/BB@0.0.0")]);
    let up = kids(&r[0]);
    assert_eq!(up.len(), 1);
    assert_eq!(up[0].base.name, "AA");
    assert_eq!(up[0].base.purl, vec![s("pkg:rpm/redhat/AA@0.0.0?arch=src")]);
}

#[test]
fn cpe_substring_selects_package() {
    let graphs = vec![graph(&simple_rows("s1"))];
    let q = GraphQuery::Component(ComponentReference::Cpe(s("cpe:/a:redhat:simple")));
    let r = run_graph_query(&q, &options(0, 0, vec![]), &graphs, &vec![]);
    assert_eq!(r.len(), 1);
    assert_eq!(r[0].base.name, "A");
    assert_eq!(r[0].base.cpe, vec![s("cpe:/a:redhat:simple:1:*:el9:*")]);
    assert!(r[0].ancestors.is_none());
    let q = GraphQuery::Component(ComponentReference::Cpe(s("cpe:/a:other")));
    assert_eq!(run_graph_query(&q, &options(0, 0, vec![]), &graphs, &vec![]).len(), 0);
}

#[test]
fn descendants_in_insertion_order() {
    let graphs = vec![graph(&simple_rows("s1"))];
    let r = run_graph_query(&name("A"), &options(0, u64::MAX, vec![]), &graphs, &vec![]);
    assert_eq!(r.len(), 1);
    let down = deps(&r[0]);
    assert_eq!(down.len(), 2);
    assert_eq!(down[0].base.purl, vec![s("pkg:rpm/redhat/B@0.0.0")]);
    assert_eq!(down[1].base.purl, vec![s("pkg:rpm/redhat/EE@0.0.0?arch=src")]);
    assert!(down[0].ancestors.is_none());
    assert_eq!(deps(&down[0]).len(), 0);
}

#[test]
fn depth_limits_the_walk() {
    let graphs = vec![graph(&simple_rows("s1"))];
    let r = run_graph_query(&name("B"), &options(1, 0, vec![]), &graphs, &vec![]);
    let up = kids(&r[0]);
    assert_eq!(up.len(), 1);
    assert_eq!(up[0].base.name, "A");
    assert!(up[0].ancestors.is_none());
}

#[test]
fn id_query_and_unknown_id() {
    let graphs = vec![graph(&simple_rows("s1"))];
    let q = GraphQuery::Component(ComponentReference::Id(s("SPDXRef-EE")));
    let r = run_graph_query(&q, &options(u64::MAX, 0, vec![]), &graphs, &vec![]);
    assert_eq!(r.len(), 1);
    assert_eq!(kids(&r[0])[0].base.name, "A");
    let q = GraphQuery::Component(ComponentReference::Id(s("SPDXRef-none")));
    assert_eq!(run_graph_query(&q, &options(u64::MAX, 0, vec![]), &graphs, &vec![]).len(), 0);
}

#[test]
fn constraint_query_selects_by_context() {
    let graphs = vec![graph(&simple_rows("s1"))];
    let q = GraphQuery::Query(parse_query(&s("node_id=SPDXRef-B&name=B")).ok().expect("parses"));
    assert_eq!(run_graph_query(&q, &options(0, 0, vec![]), &graphs, &vec![]).len(), 1);
    let q = GraphQuery::Query(parse_query(&s("node_id=SPDXRef-B&name=A")).ok().expect("parses"));
    assert_eq!(run_graph_query(&q, &options(0, 0, vec![]), &graphs, &vec![]).len(), 0);
    let q = GraphQuery::Query(parse_query(&s("sbom_id=s1")).ok().expect("parses"));
    assert_eq!(run_graph_query(&q, &options(0, 0, vec![]), &graphs, &vec![]).len(), 7);
    let q = GraphQuery::Query(parse_query(&s("name~B")).ok().expect("parses"));
    assert_eq!(run_graph_query(&q, &options(0, 0, vec![]), &graphs, &vec![]).len(), 2);
    let q = GraphQuery::Query(parse_query(&s("version=0.0.0&nosuchkey~x")).ok().expect("parses"));
    assert_eq!(run_graph_query(&q, &options(0, 0, vec![]), &graphs, &vec![]).len(), 0);
}

#[test]
fn query_text_parses_into_constraints() {
    let cs = parse_query(&s("node_id=SPDXRef-B&name~B=x")).ok().expect("parses");
    assert_eq!(cs.len(), 2);
    assert_eq!(cs[0].key, "node_id");
    assert_eq!(cs[0].operator, Operator::Equals);
    assert_eq!(cs[0].value, "SPDXRef-B");
    assert_eq!(cs[1].key, "name");
    assert_eq!(cs[1].operator, Operator::Contains);
    assert_eq!(cs[1].value, "B=x");
}

#[test]
fn query_text_without_operator_is_invalid() {
    assert!(matches!(parse_query(&s("B")), Err(AnalysisError::InvalidReference(_))));
    assert!(matches!(parse_query(&s("name=B&")), Err(AnalysisError::InvalidReference(_))));
}

#[test]
fn cyclic_sbom_yields_nothing() {
    let mut rows = empty_rows("cyc");
    for id in ["A", "B", "C"] {
        rows.nodes.push(node(id, id));
        rows.packages.push(package(id, "1"));
    }
    rows.relations.push(rel("A", "B", Relationship::DependsOn));
    rows.relations.push(rel("B", "C", Relationship::DependsOn));
    rows.relations.push(rel("C", "A", Relationship::DependsOn));
    let cyclic = graph(&rows);
    assert!(cyclic.is_cyclic());
    let simple = graph(&simple_rows("s1"));
    assert!(!simple.is_cyclic());
    let graphs = vec![cyclic, simple];
    let r = run_graph_query(&name("A"), &options(u64::MAX, u64::MAX, vec![]), &graphs, &vec![]);
    assert_eq!(r.len(), 1);
    assert_eq!(r[0].base.sbom_id, "s1");
    let page = paginate(&Paginated { offset: 0, limit: 0 }, run_graph_query(&name("C"), &options(1, 1, vec![]), &graphs, &vec![]));
    assert_eq!(page.total, 0);
}

#[test]
fn status_counts_only_acyclic_graphs() {
    let mut rows = empty_rows("cyc");
    rows.nodes.push(node("A", "A"));
    rows.relations.push(rel("A", "A", Relationship::DependsOn));
    let mut service = AnalysisService::new(AnalysisConfig { max_cache_size: 1 << 30 });
    let c = load_graph(&rows).ok().expect("loads");
    let g = load_graph(&simple_rows("s1")).ok().expect("loads");
    service.store_graph(s("cyc"), c);
    service.store_graph(s("s1"), g);
    assert_eq!(service.cache_len(), 2);
    let st = service.status(2);
    assert_eq!(st.sbom_count, 2);
    assert_eq!(st.graph_count, 1);
}

#[test]
fn unknown_nodes_fill_missing_references() {
    let mut rows = empty_rows("u");
    rows.nodes.push(node("A", "A"));
    rows.nodes.push(node("A", "again"));
    rows.relations.push(rel("A", "X", Relationship::DependsOn));
    rows.relations.push(rel("A", "X", Relationship::BuildToolOf));
    let g = graph(&rows);
    assert_eq!(g.node_count(), 2);
    assert_eq!(g.edge_count(), 2);
    assert_eq!(g.node(0).name, "A");
    assert!(matches!(g.node(0).kind, NodeKind::Unknown));
    assert_eq!(g.node(1).node_id, "X");
    assert_eq!(g.node(1).name, "");
    let graphs = vec![g];
    let r = run_graph_query(&name("A"), &options(0, 5, vec![]), &graphs, &vec![]);
    let down = deps(&r[0]);
    assert_eq!(down.len(), 2);
    assert_eq!(down[0].relationship, Some(Relationship::DependsOn));
    assert_eq!(down[1].relationship, Some(Relationship::BuildToolOf));
    assert_eq!(deps(&down[0]).len(), 0);
    assert!(down[1].descendants.is_none());
}

#[test]
fn external_kind_from_rows() {
    let mut rows = empty_rows("a");
    rows.nodes.push(node("ext", "ext"));
    rows.externals.push(ExternalNodeRow {
        sbom_id: s("a"),
        node_id: s("ext"),
        external_node_ref: s("b"),
        external_doc_ref: s("doc"),
        external_type: ExternalType::CycloneDx,
        discriminator_type: None,
        discriminator_value: Some(s("2")),
    });
    let g = graph(&rows);
    match &g.node(0).kind {
        NodeKind::External { external_document_reference, external_node_id } => {
            assert_eq!(external_document_reference, "doc");
            assert_eq!(external_node_id, "b");
        }
        _ => panic!("an external node"),
    }
}

#[test]
fn shared_discovered_set_expands_each_node_once() {
    let mut rows = empty_rows("d");
    for id in ["A", "B", "C", "D"] {
        rows.nodes.push(node(id, id));
    }
    rows.relations.push(rel("A", "B", Relationship::DependsOn));
    rows.relations.push(rel("A", "C", Relationship::DependsOn));
    rows.relations.push(rel("B", "D", Relationship::DependsOn));
    rows.relations.push(rel("C", "D", Relationship::DependsOn));
    let graphs = vec![graph(&rows)];
    let r = run_graph_query(&name("A"), &options(0, u64::MAX, vec![]), &graphs, &vec![]);
    let down = deps(&r[0]);
    assert_eq!(down.len(), 2);
    let via_b = deps(&down[0]);
    let via_c = deps(&down[1]);
    assert_eq!(via_b[0].base.name, "D");
    assert_eq!(via_c[0].base.name, "D");
    assert!(via_b[0].descendants.is_some());
    assert!(via_c[0].descendants.is_none());
}

#[test]
fn seed_discovered_by_ancestor_walk_is_not_walked_down() {
    let graphs = vec![graph(&simple_rows("s1"))];
    let r = run_graph_query(&name("A"), &options(u64::MAX, u64::MAX, vec![]), &graphs, &vec![]);
    assert_eq!(r.len(), 1);
    assert_eq!(kids(&r[0]).len(), 1);
    assert!(r[0].descendants.is_none());
}

fn external_rows() -> (SbomRows, SbomRows) {
    let mut a = empty_rows("sbom-a");
    a.nodes.push(node("root", "root"));
    a.nodes.push(node("ext", "ext"));
    a.packages.push(package("root", "1"));
    a.externals.push(ExternalNodeRow {
        sbom_id: s("sbom-a"),
        node_id: s("ext"),
        external_node_ref: s("b"),
        external_doc_ref: s("a4f16b62-fea9-42c1-8365-d72d3cef37d1"),
        external_type: ExternalType::CycloneDx,
        discriminator_type: None,
        discriminator_value: Some(s("2")),
    });
    a.relations.push(rel("root", "ext", Relationship::DependsOn));
    let mut b = empty_rows("sbom-b");
    b.nodes.push(node("b", "b"));
    b.nodes.push(node("leaf", "leaf"));
    b.packages.push(package("leaf", "2"));
    b.relations.push(rel("b", "leaf", Relationship::DependsOn));
    (a, b)
}

#[test]
fn external_hop_reaches_loaded_sbom() {
    let (a, b) = external_rows();
    let graphs = vec![graph(&a), graph(&b)];
    let links = vec![ExternalLink { external_node_ref: s("ext"), sbom_id: s("sbom-b"), node_id: s("b") }];
    let r = run_graph_query(&name("root"), &options(0, u64::MAX, vec![]), &graphs, &links);
    let down = deps(&r[0]);
    assert_eq!(down.len(), 1);
    assert_eq!(down[0].base.node_id, "ext");
    let hop = deps(&down[0]);
    assert_eq!(hop.len(), 1);
    assert_eq!(hop[0].base.sbom_id, "sbom-b");
    assert_eq!(hop[0].base.name, "leaf");
}

#[test]
fn external_hop_dead_ends_without_target() {
    let (a, _) = external_rows();
    let graphs = vec![graph(&a)];
    let links = vec![ExternalLink { external_node_ref: s("ext"), sbom_id: s("sbom-b"), node_id: s("b") }];
    let r = run_graph_query(&name("root"), &options(0, u64::MAX, vec![]), &graphs, &links);
    let down = deps(&r[0]);
    assert_eq!(down.len(), 1);
    assert_eq!(down[0].base.node_id, "ext");
    assert!(down[0].descendants.is_none());
    let r = run_graph_query(&name("root"), &options(0, u64::MAX, vec![]), &graphs, &vec![]);
    assert!(deps(&r[0])[0].descendants.is_none());
}

#[test]
fn cyclonedx_reference_resolves_by_document_id() {
    let row = ExternalNodeRow {
        sbom_id: s("sbom-a"),
        node_id: s("urn:cdx:a4f16b62-fea9-42c1-8365-d72d3cef37d1/2#b"),
        external_node_ref: s("b"),
        external_doc_ref: s("a4f16b62-fea9-42c1-8365-d72d3cef37d1"),
        external_type: ExternalType::CycloneDx,
        discriminator_type: None,
        discriminator_value: Some(s("2")),
    };
    let lookup = plan_external(&row).expect("a lookup");
    match &lookup {
        Lookup::SbomByDocumentId { document_id, node_id } => {
            assert_eq!(document_id, "urn:cdx:a4f16b62-fea9-42c1-8365-d72d3cef37d1/2");
            assert_eq!(node_id, "b");
        }
        _ => panic!("a document lookup"),
    }
    assert!(link_for(&row.node_id, &lookup, None).is_none());
    let link = link_for(&row.node_id, &lookup, Some((s("sbom-b"), s("ignored")))).expect("a link");
    assert_eq!(link.sbom_id, "sbom-b");
    assert_eq!(link.node_id, "b");
    assert_eq!(link.external_node_ref, "urn:cdx:a4f16b62-fea9-42c1-8365-d72d3cef37d1/2#b");
}

#[test]
fn spdx_reference_needs_sha256() {
    let mut row = ExternalNodeRow {
        sbom_id: s("a"),
        node_id: s("DocumentRef-ext-b:SPDXRef-A"),
        external_node_ref: s("SPDXRef-A"),
        external_doc_ref: s("DocumentRef-ext-b"),
        external_type: ExternalType::Spdx,
        discriminator_type: Some(DiscriminatorType::Sha256),
        discriminator_value: Some(s("abc123")),
    };
    match plan_external(&row) {
        Some(Lookup::SbomBySha256 { sha256, node_id }) => {
            assert_eq!(sha256, "abc123");
            assert_eq!(node_id, "SPDXRef-A");
        }
        _ => panic!("a digest lookup"),
    }
    row.discriminator_type = Some(DiscriminatorType::Sha512);
    assert!(plan_external(&row).is_none());
    row.discriminator_type = Some(DiscriminatorType::Sha256);
    row.discriminator_value = Some(s(""));
    assert!(plan_external(&row).is_none());
    row.external_type = ExternalType::CycloneDx;
    assert!(plan_external(&row).is_none());
}

#[test]
fn red_hat_reference_goes_through_checksum() {
    let row = ExternalNodeRow {
        sbom_id: s("a"),
        node_id: s("SPDXRef-RHEL-9.2-EUS:SPDXRef-openssl-3.0.7-18.el9-2"),
        external_node_ref: s("SPDXRef-openssl-3.0.7-18.el9-2"),
        external_doc_ref: s("SPDXRef-RHEL-9.2-EUS"),
        external_type: ExternalType::RedHatProductComponent,
        discriminator_type: None,
        discriminator_value: None,
    };
    let lookup = plan_external(&row).expect("a lookup");
    match &lookup {
        Lookup::ChecksumOfNode { node_id } => assert_eq!(node_id, "SPDXRef-openssl-3.0.7-18.el9-2"),
        _ => panic!("a checksum lookup"),
    }
    let link = link_for(&row.node_id, &lookup, Some((s("sbom-o"), s("SPDXRef-SRPM")))).expect("a link");
    assert_eq!(link.sbom_id, "sbom-o");
    assert_eq!(link.node_id, "SPDXRef-SRPM");
}

#[test]
fn size_estimate_of_small_graph() {
    let mut rows = empty_rows("s");
    rows.nodes.push(node("n", ""));
    let g = graph(&rows);
    assert_eq!(sbom_analysis::cache::estimate_size(&g), 64 + 128 + 2);
    let mut rows = empty_rows("s");
    rows.nodes.push(node("n", "é"));
    rows.packages.push(package("n", "1"));
    rows.purls.push(ident("n", "pq"));
    rows.relations.push(rel("n", "n", Relationship::Example));
    let g = graph(&rows);
    assert_eq!(sbom_analysis::cache::estimate_size(&g), 64 + 128 + 1 + 1 + 2 + 1 + 2 + 16);
}

#[test]
fn large_graph_is_returned_but_not_retained() {
    let small = load_graph(&simple_rows("small")).ok().expect("loads");
    let small_size = sbom_analysis::cache::estimate_size(&small);
    let mut big_rows = empty_rows("large");
    for i in 0..200 {
        big_rows.nodes.push(node(&format!("node-{i}"), &format!("component-{i}")));
    }
    let big = load_graph(&big_rows).ok().expect("loads");
    assert!(sbom_analysis::cache::estimate_size(&big) > 2 * small_size);
    let mut service = AnalysisService::new(AnalysisConfig { max_cache_size: 2 * small_size });
    service.store_graph(s("small"), small);
    let g = service.store_graph(s("large"), big);
    assert_eq!(g.node_count(), 200);
    assert_eq!(service.cache_len(), 1);
    assert_eq!(service.cache_size_used(), small_size);
    assert!(service.cached_graph(&s("large")).is_none());
    let hit = service.cached_graph(&s("small")).expect("retained");
    assert_eq!(hit.node_count(), 7);
}

#[test]
fn least_recently_used_is_evicted() {
    let a = load_graph(&simple_rows("a")).ok().expect("loads");
    let size = sbom_analysis::cache::estimate_size(&a);
    let mut cache = GraphCache::new(2 * size);
    cache.insert(s("a"), Arc::new(a), size);
    cache.insert(s("b"), Arc::new(load_graph(&simple_rows("b")).ok().expect("loads")), size);
    assert!(cache.get(&s("a")).is_some());
    cache.insert(s("c"), Arc::new(load_graph(&simple_rows("c")).ok().expect("loads")), size);
    assert_eq!(cache.len(), 2);
    assert!(cache.get(&s("b")).is_none());
    assert!(cache.get(&s("a")).is_some());
    assert!(cache.get(&s("c")).is_some());
    assert_eq!(cache.size_used(), 2 * size);
    cache.insert(s("c"), Arc::new(load_graph(&simple_rows("c")).ok().expect("loads")), size);
    assert_eq!(cache.len(), 2);
    assert_eq!(cache.size_used(), 2 * size);
}

#[test]
fn clear_empties_cache() {
    let mut service = AnalysisService::new(AnalysisConfig { max_cache_size: 1 << 20 });
    service.store_graph(s("s1"), load_graph(&simple_rows("s1")).ok().expect("loads"));
    assert_eq!(service.cache_len(), 1);
    assert!(service.cache_size_used() > 0);
    assert!(service.clear_all_graphs().is_ok());
    assert_eq!(service.cache_len(), 0);
    assert_eq!(service.cache_size_used(), 0);
}

#[test]
fn warm_and_cold_cache_give_same_results() {
    let mut service = AnalysisService::new(AnalysisConfig { max_cache_size: 1 << 20 });
    let cold = vec![service.store_graph(s("s1"), load_graph(&simple_rows("s1")).ok().expect("loads"))];
    let first = run_graph_query(&name("B"), &options(u64::MAX, 0, vec![]), &cold, &vec![]);
    let warm = vec![service.cached_graph(&s("s1")).expect("cached")];
    let second = run_graph_query(&name("B"), &options(u64::MAX, 0, vec![]), &warm, &vec![]);
    assert_eq!(first.len(), second.len());
    assert_eq!(kids(&first[0])[0].base.node_id, kids(&second[0])[0].base.node_id);
    assert_eq!(kids(&kids(&first[0])[0])[0].base.node_id, kids(&kids(&second[0])[0])[0].base.node_id);
}

#[test]
fn pagination_takes_offset_and_limit() {
    let graphs = vec![graph(&simple_rows("s1"))];
    let all = || run_graph_query(&GraphQuery::Query(parse_query(&s("sbom_id=s1")).ok().expect("parses")), &options(0, 0, vec![]), &graphs, &vec![]);
    let page = paginate(&Paginated { offset: 2, limit: 3 }, all());
    assert_eq!(page.total, 7);
    assert_eq!(page.items.len(), 3);
    assert_eq!(page.items[0].base.name, "AA");
    let page = paginate(&Paginated { offset: 5, limit: 0 }, all());
    assert_eq!(page.items.len(), 2);
    let page = paginate(&Paginated { offset: 9, limit: 1 }, all());
    assert_eq!(page.total, 7);
    assert_eq!(page.items.len(), 0);
}

#[test]
fn retrieve_pages_results() {
    let graphs = vec![graph(&simple_rows("s1"))];
    let service = AnalysisService::new(AnalysisConfig { max_cache_size: 0 });
    let q = GraphQuery::Query(parse_query(&s("sbom_id=s1")).ok().expect("parses"));
    let page = service.retrieve(&q, &options(0, 0, vec![]), &Paginated { offset: 1, limit: 2 }, &graphs, &vec![]);
    assert_eq!(page.total, 7);
    assert_eq!(page.items.len(), 2);
    assert_eq!(page.items[0].base.name, "A");
    assert_eq!(page.items[1].base.name, "AA");
}

#[test]
fn retrieve_single_needs_a_loaded_graph() {
    let service = AnalysisService::new(AnalysisConfig { max_cache_size: 0 });
    let all = Paginated { offset: 0, limit: 0 };
    match service.retrieve_single(&s("s9"), &name("B"), &options(u64::MAX, 0, vec![]), &all, None, &vec![]) {
        Err(AnalysisError::NotFound(id)) => assert_eq!(id, "s9"),
        _ => panic!("not found"),
    }
    let g = graph(&simple_rows("s1"));
    let page = service
        .retrieve_single(&s("s1"), &name("B"), &options(u64::MAX, 0, vec![]), &all, Some(g), &vec![])
        .ok()
        .expect("found");
    assert_eq!(page.total, 1);
    assert_eq!(kids(&page.items[0])[0].base.name, "A");
}
