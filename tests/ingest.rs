use sbom_analysis::loader::{NodeRow, SbomRows};
use sbom_analysis::model::Relationship;
use sbom_analysis::package::{PackageStatusRow, QualifiedPackageAdvisory, QualifiedPackageStatus};
use sbom_analysis::refs::{ReferenceSource, References, RelationshipCreator};
use sbom_analysis::service::AnalysisError;

fn s(v: &str) -> String {
    v.to_string()
}

#[test]
fn references_collect_sources() {
    let ids = vec![s("a"), s("b")];
    let rows = SbomRows {
        sbom_id: s("x"),
        nodes: vec![NodeRow { node_id: s("c"), name: s("C") }],
        packages: vec![],
        purls: vec![],
        cpes: vec![],
        externals: vec![],
        relations: vec![],
    };
    assert_eq!(rows.references(), vec![s("c")]);
    let refs = References::new().add_source(&ids).add_source(&rows);
    assert!(refs.contains(&s("a")));
    assert!(refs.contains(&s("c")));
    assert!(!refs.contains(&s("d")));
}

#[test]
fn validate_accepts_known_nodes() {
    let mut creator = RelationshipCreator::new(s("sbom"));
    creator.relate(s("a"), Relationship::DependsOn, s("b"));
    let ids = vec![s("a"), s("b")];
    assert!(creator.validate(References::new().add_source(&ids)).is_ok());
}

#[test]
fn validate_names_first_unknown_node() {
    let mut creator = RelationshipCreator::with_capacity(s("sbom"), 4);
    creator.relate(s("a"), Relationship::DependsOn, s("b"));
    creator.relate(s("z"), Relationship::DependsOn, s("y"));
    creator.relate(s("a"), Relationship::DependsOn, s("q"));
    let ids = vec![s("a"), s("b"), s("z")];
    match creator.validate(References::new().add_source(&ids)) {
        Err(AnalysisError::InvalidReference(id)) => assert_eq!(id, "y"),
        _ => panic!("an invalid reference"),
    }
    assert!(creator.validate(References::new()).is_err());
}

#[test]
fn status_without_slug_is_unknown() {
    let st = QualifiedPackageStatus::from_entity(&s("CVE-1"), &None);
    assert_eq!(st.vulnerability, "CVE-1");
    assert_eq!(st.status, "unknown");
    let st = QualifiedPackageStatus::from_entity(&s("CVE-1"), &Some(s("affected")));
    assert_eq!(st.status, "affected");
}

#[test]
fn statuses_grouped_by_advisory() {
    let row = |a: Option<&str>, v: Option<&str>, st: Option<&str>| PackageStatusRow {
        advisory_id: a.map(s),
        vulnerability: v.map(s),
        status: st.map(s),
    };
    let rows = vec![
        row(Some("adv-1"), Some("CVE-1"), Some("affected")),
        row(Some("adv-2"), Some("CVE-2"), None),
        row(None, Some("CVE-3"), Some("fixed")),
        row(Some("adv-1"), Some("CVE-4"), Some("fixed")),
        row(Some("adv-2"), None, Some("fixed")),
    ];
    let groups = QualifiedPackageAdvisory::from_entities(&rows);
    assert_eq!(groups.len(), 2);
    assert_eq!(groups[0].advisory_id, "adv-1");
    assert_eq!(groups[0].status.len(), 2);
    assert_eq!(groups[0].status[1].vulnerability, "CVE-4");
    assert_eq!(groups[1].advisory_id, "adv-2");
    assert_eq!(groups[1].status.len(), 1);
    assert_eq!(groups[1].status[0].status, "unknown");
}
