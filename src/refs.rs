//! Pre-flight validation of relationships: every node a relationship names
//! must be one of the known node references.
use crate::loader::{RelationRow, SbomRows};
use crate::model::{clone_strings, strings_model, Relationship};
use crate::service::AnalysisError;
use vstd::prelude::*;

verus! {

/// A source of node references to validate relationships against.
pub trait ReferenceSource {
    /// The references this source holds.
    spec fn reference_ids(&self) -> Seq<Seq<char>>;

    /// The references this source holds.
    fn references(&self) -> (r: Vec<String>)
        ensures
            strings_model(r@) == self.reference_ids(),
    ;
}

impl ReferenceSource for Vec<String> {
    open spec fn reference_ids(&self) -> Seq<Seq<char>> {
        strings_model(self@)
    }

    fn references(&self) -> (r: Vec<String>) {
        clone_strings(self)
    }
}

impl ReferenceSource for SbomRows {
    /// The identifiers of the node rows.
    open spec fn reference_ids(&self) -> Seq<Seq<char>> {
        self.nodes@.map_values(|n: crate::loader::NodeRow| n.node_id@)
    }

    fn references(&self) -> (r: Vec<String>) {
        let mut r: Vec<String> = Vec::new();
        let mut i: usize = 0;
        while i < self.nodes.len()
            invariant
                i <= self.nodes@.len(),
                strings_model(r@) == self.nodes@.subrange(0, i as int).map_values(|n: crate::loader::NodeRow| n.node_id@),
            decreases self.nodes@.len() - i,
        {
            let ghost before = r@;
            let id = self.nodes[i].node_id.clone();
            r.push(id);
            proof {
                assert(strings_model(r@) =~= strings_model(before).push(id@));
                assert(self.nodes@.subrange(0, i + 1).map_values(|n: crate::loader::NodeRow| n.node_id@) =~= self.nodes@.subrange(
                    0,
                    i as int,
                ).map_values(|n: crate::loader::NodeRow| n.node_id@).push(self.nodes@[i as int].node_id@));
            }
            i = i + 1;
        }
        proof {
            assert(self.nodes@.subrange(0, i as int) =~= self.nodes@);
        }
        r
    }
}

/// A collection of known node references.
pub struct References {
    pub refs: Vec<String>,
}

impl References {
    /// The references known.
    pub open spec fn ids(&self) -> Set<Seq<char>> {
        strings_model(self.refs@).to_set()
    }

    /// No references.
    pub fn new() -> (r: References)
        ensures
            r.ids() == Set::<Seq<char>>::empty(),
    {
        let r = References { refs: Vec::new() };
        proof {
            assert(r.ids() =~= Set::<Seq<char>>::empty());
        }
        r
    }

    /// These references and those of `source`.
    pub fn add_source<S: ReferenceSource>(self, source: &S) -> (r: References)
        ensures
            r.ids() == self.ids() + source.reference_ids().to_set(),
    {
        let mut refs = self.refs;
        let more = source.references();
        let ghost start = refs@;
        let mut i: usize = 0;
        while i < more.len()
            invariant
                i <= more@.len(),
                strings_model(refs@) == strings_model(start) + strings_model(more@.subrange(0, i as int)),
            decreases more@.len() - i,
        {
            let ghost before = refs@;
            let id = more[i].clone();
            refs.push(id);
            proof {
                assert(strings_model(refs@) =~= strings_model(before).push(id@));
                assert(strings_model(more@.subrange(0, i + 1)) =~= strings_model(more@.subrange(0, i as int)).push(more@[i as int]@));
            }
            i = i + 1;
        }
        proof {
            assert(more@.subrange(0, i as int) =~= more@);
            let a = strings_model(start);
            let b = strings_model(more@);
            assert((a + b).to_set() =~= a.to_set() + b.to_set()) by {
                assert forall|x: Seq<char>| (a + b).to_set().contains(x) implies (a.to_set() + b.to_set()).contains(x) by {
                    let k = choose|k: int| 0 <= k < (a + b).len() && (a + b)[k] == x;
                    if k < a.len() {
                        assert(a[k] == x);
                    } else {
                        assert(b[k - a.len()] == x);
                    }
                }
                assert forall|x: Seq<char>| (a.to_set() + b.to_set()).contains(x) implies (a + b).to_set().contains(x) by {
                    if a.to_set().contains(x) {
                        let k = choose|k: int| 0 <= k < a.len() && a[k] == x;
                        assert((a + b)[k] == x);
                    } else {
                        let k = choose|k: int| 0 <= k < b.len() && b[k] == x;
                        assert((a + b)[k + a.len()] == x);
                    }
                }
            }
        }
        References { refs }
    }

    /// Whether `id` is a known reference.
    pub fn contains(&self, id: &String) -> (r: bool)
        ensures
            r == self.ids().contains(id@),
    {
        let mut i: usize = 0;
        while i < self.refs.len()
            invariant
                i <= self.refs@.len(),
                forall|j: int| 0 <= j < i ==> #[trigger] self.refs@[j]@ != id@,
            decreases self.refs@.len() - i,
        {
            if self.refs[i] == *id {
                proof {
                    assert(strings_model(self.refs@)[i as int] == id@);
                }
                return true;
            }
            i = i + 1;
        }
        proof {
            if self.ids().contains(id@) {
                let k = choose|k: int| 0 <= k < self.refs@.len() && strings_model(self.refs@)[k] == id@;
                assert(self.refs@[k]@ == id@);
            }
        }
        false
    }
}

/// Relationships of one SBOM, collected before they are stored.
pub struct RelationshipCreator {
    pub sbom_id: String,
    pub rels: Vec<RelationRow>,
}

/// Both nodes of every relationship before position `k` are known.
pub open spec fn known_before(rels: Seq<RelationRow>, ids: Set<Seq<char>>, k: int) -> bool {
    forall|j: int| 0 <= j < k ==> ids.contains(#[trigger] rels[j].left_node_id@) && ids.contains(rels[j].right_node_id@)
}

impl RelationshipCreator {
    /// No relationships yet, for SBOM `sbom_id`.
    pub fn new(sbom_id: String) -> (c: RelationshipCreator)
        ensures
            c.sbom_id == sbom_id,
            c.rels@.len() == 0,
    {
        RelationshipCreator { sbom_id, rels: Vec::new() }
    }

    /// As `new`, with room reserved for `capacity_rel` relationships.
    pub fn with_capacity(sbom_id: String, capacity_rel: usize) -> (c: RelationshipCreator)
        ensures
            c.sbom_id == sbom_id,
            c.rels@.len() == 0,
    {
        RelationshipCreator { sbom_id, rels: Vec::with_capacity(capacity_rel) }
    }

    /// Adds the relationship `left` `rel` `right`.
    pub fn relate(&mut self, left: String, rel: Relationship, right: String)
        ensures
            final(self).sbom_id == old(self).sbom_id,
            final(self).rels@ == old(self).rels@.push(
                RelationRow { left_node_id: left, right_node_id: right, relationship: rel },
            ),
    {
        self.rels.push(RelationRow { left_node_id: left, right_node_id: right, relationship: rel });
    }

    /// Checks that every relationship names known nodes only. The error names
    /// the first unknown node, left before right, in relationship order.
    pub fn validate(&self, sources: References) -> (r: Result<(), AnalysisError>)
        ensures
            r is Ok <==> known_before(self.rels@, sources.ids(), self.rels@.len() as int),
            r matches Err(e) ==> e matches AnalysisError::InvalidReference(id) && exists|i: int|
                0 <= i < self.rels@.len() && known_before(self.rels@, sources.ids(), i) && (if sources.ids().contains(
                    self.rels@[i].left_node_id@,
                ) {
                    id@ == self.rels@[i].right_node_id@ && !sources.ids().contains(id@)
                } else {
                    id@ == self.rels@[i].left_node_id@
                }),
    {
        let mut i: usize = 0;
        while i < self.rels.len()
            invariant
                i <= self.rels@.len(),
                known_before(self.rels@, sources.ids(), i as int),
            decreases self.rels@.len() - i,
        {
            let rel = &self.rels[i];
            if !sources.contains(&rel.left_node_id) {
                return Err(AnalysisError::InvalidReference(rel.left_node_id.clone()));
            }
            if !sources.contains(&rel.right_node_id) {
                return Err(AnalysisError::InvalidReference(rel.right_node_id.clone()));
            }
            i = i + 1;
        }
        Ok(())
    }
}

} // verus!
