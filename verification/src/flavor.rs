//! The database product a configuration targets.
use vstd::prelude::*;

verus! {

/// The PostgreSQL-compatible engine behind a database URL.
#[derive(Clone, Copy, Debug, PartialEq, Eq, Structural)]
pub enum DatabaseFlavor {
    PostgreSql,
    CockroachDb,
}

} // verus!
