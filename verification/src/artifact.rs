//! Artifacts and their content addresses.

use crate::digest::{blake3_digest, digest, hex_chars, hex_text};
use crate::label::Label;
use vstd::prelude::*;

verus! {

/// A content address: `blake3:` and the digest in hexadecimal notation.
pub type ArtifactId = String;

/// The content address of bytes.
pub open spec fn address(bytes: Seq<u8>) -> Seq<char> {
    "blake3:"@ + hex_chars(blake3_digest(bytes))
}

/// The content address of bytes.
pub fn id_for_bytes(bytes: &[u8]) -> (id: ArtifactId)
    ensures
        id@ == address(bytes@),
        blake3_digest(bytes@).len() == 32,
{
    let mut id: String = "blake3:".to_owned();
    let d: [u8; 32] = digest(bytes);
    id.append(hex_text(&d).as_str());
    id
}

/// What is known of an artifact.
#[derive(Debug)]
pub struct ArtifactMeta {
    pub id: ArtifactId,
    /// The media type, such as `text/plain`.
    pub media_type: String,
    pub size: u64,
    pub labels: Label,
    /// The producer.
    pub origin: String,
    /// Seconds since the epoch.
    pub created_at: u64,
    pub ttl_secs: Option<u64>,
}

} // verus!
