//! Resolution of external nodes: what to look up in storage for a stored
//! external reference, by the kind of document it names.
use crate::walk::ExternalLink;
use vstd::prelude::*;
use vstd::string::StringExecFns;

verus! {

/// The format of the document an external reference names.
#[derive(Clone, Copy, Debug, PartialEq, Eq, Structural)]
pub enum ExternalType {
    Spdx,
    CycloneDx,
    RedHatProductComponent,
}

/// The kind of the discriminator of an external reference.
#[derive(Clone, Copy, Debug, PartialEq, Eq, Structural)]
pub enum DiscriminatorType {
    Sha256,
    Sha384,
    Sha512,
}

/// A stored external reference: the external node `node_id` of SBOM
/// `sbom_id` names node `external_node_ref` of the document `external_doc_ref`.
pub struct ExternalNodeRow {
    pub sbom_id: String,
    pub node_id: String,
    pub external_node_ref: String,
    pub external_doc_ref: String,
    pub external_type: ExternalType,
    pub discriminator_type: Option<DiscriminatorType>,
    pub discriminator_value: Option<String>,
}

/// What to look up next to resolve an external reference.
pub enum Lookup {
    /// The SBOM whose source document has this SHA-256 digest; the target
    /// node is `node_id`.
    SbomBySha256 { sha256: String, node_id: String },
    /// The SBOM with this document identifier; the target node is `node_id`.
    SbomByDocumentId { document_id: String, node_id: String },
    /// The checksum recorded for node `node_id`; the target is another
    /// SBOM's node with the same checksum.
    ChecksumOfNode { node_id: String },
}

/// The discriminator value is present and not empty.
pub open spec fn has_discriminator(row: ExternalNodeRow) -> bool {
    row.discriminator_value matches Some(v) && v@.len() > 0
}

/// The document identifier of a CycloneDX document `urn:cdx:{doc}/{version}`.
pub open spec fn cdx_document_id(doc: Seq<char>, version: Seq<char>) -> Seq<char> {
    "urn:cdx:"@ + doc + "/"@ + version
}

/// The first lookup for an external reference, or `None` when the stored
/// data cannot lead anywhere. SPDX needs a non-empty SHA-256 discriminator
/// and names the SBOM by its source document's digest; CycloneDX needs a
/// non-empty discriminator, the document version, and names the SBOM by its
/// document identifier; a Red Hat product component is found through the
/// checksum of the referenced node.
pub fn plan_external(row: &ExternalNodeRow) -> (r: Option<Lookup>)
    ensures
        match row.external_type {
            ExternalType::Spdx => if has_discriminator(*row) && row.discriminator_type == Some(DiscriminatorType::Sha256) {
                r matches Some(Lookup::SbomBySha256 { sha256, node_id }) && sha256@ == row.discriminator_value.unwrap()@
                    && node_id@ == row.external_node_ref@
            } else {
                r is None
            },
            ExternalType::CycloneDx => if has_discriminator(*row) {
                r matches Some(Lookup::SbomByDocumentId { document_id, node_id }) && document_id@ == cdx_document_id(
                    row.external_doc_ref@,
                    row.discriminator_value.unwrap()@,
                ) && node_id@ == row.external_node_ref@
            } else {
                r is None
            },
            ExternalType::RedHatProductComponent => r matches Some(Lookup::ChecksumOfNode { node_id }) && node_id@
                == row.external_node_ref@,
        },
{
    match row.external_type {
        ExternalType::Spdx => match &row.discriminator_value {
            Some(v) => if v.as_str().is_empty() {
                None
            } else {
                match row.discriminator_type {
                    Some(DiscriminatorType::Sha256) => Some(
                        Lookup::SbomBySha256 { sha256: v.clone(), node_id: row.external_node_ref.clone() },
                    ),
                    _ => None,
                }
            },
            None => None,
        },
        ExternalType::CycloneDx => match &row.discriminator_value {
            Some(v) => if v.as_str().is_empty() {
                None
            } else {
                let mut document_id = String::from_str("urn:cdx:");
                document_id.append(row.external_doc_ref.as_str());
                document_id.append("/");
                document_id.append(v.as_str());
                proof {
                    reveal_strlit("urn:cdx:");
                    reveal_strlit("/");
                }
                Some(Lookup::SbomByDocumentId { document_id, node_id: row.external_node_ref.clone() })
            },
            None => None,
        },
        ExternalType::RedHatProductComponent => Some(Lookup::ChecksumOfNode { node_id: row.external_node_ref.clone() }),
    }
}

/// Where an external node leads once `lookup` was answered with `found`:
/// for a lookup of an SBOM, the SBOM found (its first field) and the
/// lookup's node; for a checksum, the SBOM and node of the other node found
/// with the same checksum. Nothing found leads nowhere.
pub fn link_for(key: &String, lookup: &Lookup, found: Option<(String, String)>) -> (r: Option<ExternalLink>)
    ensures
        match found {
            None => r is None,
            Some((sbom, node)) => r matches Some(l) && l.external_node_ref@ == key@ && l.sbom_id@ == sbom@ && match *lookup {
                Lookup::SbomBySha256 { node_id, .. } => l.node_id@ == node_id@,
                Lookup::SbomByDocumentId { node_id, .. } => l.node_id@ == node_id@,
                Lookup::ChecksumOfNode { .. } => l.node_id@ == node@,
            },
        },
{
    match found {
        None => None,
        Some((sbom, node)) => {
            let node_id = match lookup {
                Lookup::SbomBySha256 { node_id, .. } => node_id.clone(),
                Lookup::SbomByDocumentId { node_id, .. } => node_id.clone(),
                Lookup::ChecksumOfNode { .. } => node,
            };
            Some(ExternalLink { external_node_ref: key.clone(), sbom_id: sbom, node_id })
        },
    }
}

} // verus!
