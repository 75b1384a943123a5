//! Advisory statuses of a qualified package, grouped by advisory.
use crate::walk::{first_index, lemma_first_index};
use vstd::prelude::*;

verus! {

/// The status of a package for one vulnerability.
pub struct QualifiedPackageStatus {
    pub vulnerability: String,
    pub status: String,
}

/// An advisory and the statuses it gives the package, in stored order.
pub struct QualifiedPackageAdvisory {
    pub advisory_id: String,
    pub status: Vec<QualifiedPackageStatus>,
}

/// A stored package status with the advisory and vulnerability it belongs
/// to, where those were found, and its status slug, where that was found.
pub struct PackageStatusRow {
    pub advisory_id: Option<String>,
    pub vulnerability: Option<String>,
    pub status: Option<String>,
}

/// A status as characters: vulnerability and status.
pub open spec fn status_model(s: QualifiedPackageStatus) -> (Seq<char>, Seq<char>) {
    (s.vulnerability@, s.status@)
}

/// An advisory as characters: its identifier and its statuses.
pub open spec fn advisory_model(a: QualifiedPackageAdvisory) -> (Seq<char>, Seq<(Seq<char>, Seq<char>)>) {
    (a.advisory_id@, a.status@.map_values(|s: QualifiedPackageStatus| status_model(s)))
}

/// The status slug, or `unknown` where none was found.
pub open spec fn slug_or_unknown(status: Option<String>) -> Seq<char> {
    match status {
        Some(s) => s@,
        None => "unknown"@,
    }
}

/// The group is the one of advisory `id`.
pub open spec fn group_for(id: Seq<char>) -> spec_fn((Seq<char>, Seq<(Seq<char>, Seq<char>)>)) -> bool {
    |g: (Seq<char>, Seq<(Seq<char>, Seq<char>)>)| g.0 == id
}

/// The statuses of `rows` grouped by advisory, advisories in order of first
/// appearance, statuses in row order; a row without advisory or
/// vulnerability is left out.
pub open spec fn grouped(rows: Seq<PackageStatusRow>) -> Seq<(Seq<char>, Seq<(Seq<char>, Seq<char>)>)>
    decreases rows.len(),
{
    if rows.len() == 0 {
        Seq::empty()
    } else {
        let prev = grouped(rows.drop_last());
        let r = rows.last();
        match (r.advisory_id, r.vulnerability) {
            (Some(a), Some(v)) => {
                let st = (v@, slug_or_unknown(r.status));
                match first_index(prev, group_for(a@)) {
                    Some(i) => prev.update(i, (prev[i].0, prev[i].1.push(st))),
                    None => prev.push((a@, seq![st])),
                }
            },
            _ => prev,
        }
    }
}

impl QualifiedPackageStatus {
    /// The status for `vulnerability`, with the status slug, or `unknown`
    /// where none was found.
    pub fn from_entity(vulnerability: &String, status: &Option<String>) -> (r: QualifiedPackageStatus)
        ensures
            r.vulnerability@ == vulnerability@,
            r.status@ == slug_or_unknown(*status),
    {
        let status = match status {
            Some(s) => s.clone(),
            None => String::from_str("unknown"),
        };
        proof {
            reveal_strlit("unknown");
        }
        QualifiedPackageStatus { vulnerability: vulnerability.clone(), status }
    }
}

/// Where the group of advisory `a` stands.
fn find_group(results: &Vec<QualifiedPackageAdvisory>, a: &String) -> (r: Option<usize>)
    ensures
        r matches Some(i) ==> i < results@.len() && first_index(
            results@.map_values(|x: QualifiedPackageAdvisory| advisory_model(x)),
            group_for(a@),
        ) == Some(i as int),
        r is None ==> first_index(results@.map_values(|x: QualifiedPackageAdvisory| advisory_model(x)), group_for(a@)) is None,
{
    let ghost p = group_for(a@);
    let ghost ms = results@.map_values(|x: QualifiedPackageAdvisory| advisory_model(x));
    let mut i: usize = 0;
    while i < results.len()
        invariant
            i <= results@.len(),
            ms == results@.map_values(|x: QualifiedPackageAdvisory| advisory_model(x)),
            p == group_for(a@),
            forall|j: int| 0 <= j < i ==> !p(#[trigger] ms[j]),
        decreases results@.len() - i,
    {
        if results[i].advisory_id == *a {
            proof {
                lemma_first_index(ms, p, i as int);
            }
            return Some(i);
        }
        i = i + 1;
    }
    None
}

impl QualifiedPackageAdvisory {
    /// Groups the statuses of `rows` by advisory.
    pub fn from_entities(rows: &Vec<PackageStatusRow>) -> (r: Vec<QualifiedPackageAdvisory>)
        ensures
            r@.map_values(|a: QualifiedPackageAdvisory| advisory_model(a)) == grouped(rows@),
    {
        let mut results: Vec<QualifiedPackageAdvisory> = Vec::new();
        let mut k: usize = 0;
        while k < rows.len()
            invariant
                k <= rows@.len(),
                results@.map_values(|a: QualifiedPackageAdvisory| advisory_model(a)) == grouped(rows@.subrange(0, k as int)),
            decreases rows@.len() - k,
        {
            let ghost prev = grouped(rows@.subrange(0, k as int));
            proof {
                assert(rows@.subrange(0, k + 1).drop_last() =~= rows@.subrange(0, k as int));
            }
            let row = &rows[k];
            match (&row.advisory_id, &row.vulnerability) {
                (Some(a), Some(v)) => {
                    let st = QualifiedPackageStatus::from_entity(v, &row.status);
                    let found = find_group(&results, a);
                    if let Some(i) = found {
                        let ghost before = results@;
                        let mut group = results.remove(i);
                        let ghost gs = group.status@;
                        group.status.push(st);
                        results.insert(i, group);
                        proof {
                            assert(group.status@.map_values(|s: QualifiedPackageStatus| status_model(s)) =~= gs.map_values(
                                |s: QualifiedPackageStatus| status_model(s),
                            ).push(status_model(st)));
                            assert(results@ =~= before.update(i as int, group));
                            assert(results@.map_values(|x: QualifiedPackageAdvisory| advisory_model(x)) =~= prev.update(
                                i as int,
                                (prev[i as int].0, prev[i as int].1.push(status_model(st))),
                            ));
                        }
                    } else {
                        let ghost before = results@;
                        let mut status: Vec<QualifiedPackageStatus> = Vec::new();
                        status.push(st);
                        results.push(QualifiedPackageAdvisory { advisory_id: a.clone(), status });
                        proof {
                            assert(status@.map_values(|s: QualifiedPackageStatus| status_model(s)) =~= seq![status_model(st)]);
                            assert(results@.map_values(|x: QualifiedPackageAdvisory| advisory_model(x)) =~= prev.push(
                                (a@, seq![status_model(st)]),
                            ));
                        }
                    }
                },
                _ => {},
            }
            k = k + 1;
        }
        proof {
            assert(rows@.subrange(0, rows@.len() as int) =~= rows@);
        }
        results
    }
}

} // verus!
