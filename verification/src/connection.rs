//! The connection policy: schema revision checks and the write guard.
use vstd::prelude::*;

use crate::config::CoreConfig;
use crate::error::CoreError;
use crate::flavor::DatabaseFlavor;
use crate::schema::SCHEMA_REVISION;
use crate::text::{chars_of, is_lit};

verus! {

/// A handle on the configured database.
#[derive(Clone, Debug)]
pub struct CorePool {
    pub flavor: DatabaseFlavor,
    read_only: bool,
}

impl CorePool {
    /// The flavor of the database behind the pool: the value of the public
    /// field `flavor`.  (The pool keeps its read-only flag private, so a
    /// contract outside this module cannot name the field itself.)
    pub closed spec fn pool_flavor(&self) -> DatabaseFlavor {
        self.flavor
    }

    /// Whether writes through this pool are disabled.
    pub closed spec fn writes_disabled(&self) -> bool {
        self.read_only
    }

    /// A pool for the configured database, read-only as the configuration says.
    pub fn connect(config: &CoreConfig) -> (r: Result<Self, CoreError>)
        ensures
            r matches Ok(p) && p.pool_flavor() == config.flavor && p.writes_disabled()
                == config.read_only,
    {
        Ok(CorePool { flavor: config.flavor, read_only: config.read_only })
    }

    /// Succeeds exactly when the database holds the schema revision this
    /// crate packages; otherwise names both revisions.
    pub fn assert_schema(&self, found: &str) -> (r: Result<(), CoreError>)
        ensures
            found@ == SCHEMA_REVISION@ ==> r is Ok,
            found@ != SCHEMA_REVISION@ ==> (r matches Err(CoreError::SchemaRevision { required, found: f })
                && required@ == SCHEMA_REVISION@ && f@ == found@),
    {
        let f = chars_of(found);
        if is_lit(f.as_slice(), SCHEMA_REVISION) {
            Ok(())
        } else {
            Err(
                CoreError::SchemaRevision {
                    required: SCHEMA_REVISION.to_owned(),
                    found: found.to_owned(),
                },
            )
        }
    }

    /// Refuses when the pool is read-only; this crate never applies
    /// migrations itself.
    pub fn migrate(&self) -> (r: Result<(), CoreError>)
        ensures
            r == (if self.writes_disabled() {
                Err(CoreError::WritesDisabled)
            } else {
                Ok(())
            }),
    {
        if self.read_only {
            Err(CoreError::WritesDisabled)
        } else {
            Ok(())
        }
    }
}

} // verus!
