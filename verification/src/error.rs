//! Errors of configuration and connection policy.
use vstd::prelude::*;

verus! {

/// Why a configuration or a connection request was refused.
#[derive(Clone, Debug, PartialEq, Eq)]
pub enum CoreError {
    /// The database URL is missing or is not a `postgres://` / `postgresql://` URL.
    InvalidDatabaseUrl,
    /// The database holds another schema revision than this crate packages.
    SchemaRevision { required: String, found: String },
    /// The pool is read-only.
    WritesDisabled,
}

} // verus!
