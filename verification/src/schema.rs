//! The schema revision this crate packages and its fail-closed release policy.
use vstd::prelude::*;

verus! {

/// Logical schema revision packaged by this crate.
pub const SCHEMA_REVISION: &'static str = "declmig-0002";

/// Versioned peer-authority evidence required before packaging a schema release.
pub const PEER_AUTHORITY_CERTIFICATION_FORMAT: &'static str = "declmig.peer-authority-certification/v1";

/// A schema release is ineligible without all-pass peer comparison evidence.
pub const SCHEMA_RELEASE_REQUIRES_PEER_PARITY: bool = true;

/// This crate never elects a contract source or ORM when peers disagree.
pub const AUTOMATIC_AUTHORITY_WINNER_ALLOWED: bool = false;

/// Fail-closed policy consumed by schema-release packaging and validation code.
#[derive(Clone, Copy, Debug, PartialEq, Eq)]
pub struct SchemaReleasePolicy {
    pub peer_authority_certification_format: &'static str,
    pub requires_peer_parity: bool,
    pub automatic_authority_winner_allowed: bool,
}

/// Returns the immutable policy for the current schema-release format: peer
/// parity is required and no authority is ever elected automatically.
#[must_use]
pub fn schema_release_policy() -> (p: SchemaReleasePolicy)
    ensures
        p.peer_authority_certification_format@ == PEER_AUTHORITY_CERTIFICATION_FORMAT@,
        p.requires_peer_parity == SCHEMA_RELEASE_REQUIRES_PEER_PARITY,
        p.automatic_authority_winner_allowed == AUTOMATIC_AUTHORITY_WINNER_ALLOWED,
        p.requires_peer_parity,
        !p.automatic_authority_winner_allowed,
{
    SchemaReleasePolicy {
        peer_authority_certification_format: PEER_AUTHORITY_CERTIFICATION_FORMAT,
        requires_peer_parity: SCHEMA_RELEASE_REQUIRES_PEER_PARITY,
        automatic_authority_winner_allowed: AUTOMATIC_AUTHORITY_WINNER_ALLOWED,
    }
}

} // verus!
