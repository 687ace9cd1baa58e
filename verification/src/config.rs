//! Database configuration.
use vstd::prelude::*;

use crate::error::CoreError;
use crate::flavor::DatabaseFlavor;
use crate::text::{chars_of, contains, contains_exec, is_lit, starts_with, starts_with_exec};

verus! {

/// Where the database is and whether this process may write to it.
#[derive(Clone, Debug, PartialEq, Eq)]
pub struct CoreConfig {
    pub database_url: String,
    pub flavor: DatabaseFlavor,
    pub read_only: bool,
}

/// Whether a URL names a PostgreSQL-protocol database.
pub open spec fn is_postgres_url(url: Seq<char>) -> bool {
    starts_with(url, "postgres://"@) || starts_with(url, "postgresql://"@)
}

/// The flavor a URL names: CockroachDB when the URL mentions `cockroach`.
pub open spec fn flavor_of(url: Seq<char>) -> DatabaseFlavor {
    if contains(url, "cockroach"@) {
        DatabaseFlavor::CockroachDb
    } else {
        DatabaseFlavor::PostgreSql
    }
}

/// Writes are disabled unless the read-only flag is exactly `0`.
pub open spec fn read_only_of(flag: Option<Seq<char>>) -> bool {
    flag != Some("0"@)
}

impl CoreConfig {
    /// The configuration given a database URL and a read-only flag (the
    /// values of `DECLMIG_DATABASE_URL` and `DECLMIG_DB_READ_ONLY`, `None`
    /// when unset).  A missing or non-PostgreSQL URL is refused; writes are
    /// disabled unless the flag is exactly `0`.
    pub fn from_settings(database_url: Option<String>, read_only_flag: Option<String>) -> (r: Result<
        Self,
        CoreError,
    >)
        ensures
            match database_url {
                None => r == Err::<CoreConfig, CoreError>(CoreError::InvalidDatabaseUrl),
                Some(url) => if is_postgres_url(url@) {
                    r matches Ok(c) && c.database_url@ == url@ && c.flavor == flavor_of(url@)
                        && c.read_only == read_only_of(
                        match read_only_flag {
                            Some(f) => Some(f@),
                            None => None,
                        },
                    )
                } else {
                    r == Err::<CoreConfig, CoreError>(CoreError::InvalidDatabaseUrl)
                },
            },
    {
        let url = match database_url {
            Some(u) => u,
            None => return Err(CoreError::InvalidDatabaseUrl),
        };
        let chars = chars_of(url.as_str());
        if !(starts_with_exec(chars.as_slice(), chars_of("postgres://").as_slice())
            || starts_with_exec(chars.as_slice(), chars_of("postgresql://").as_slice())) {
            return Err(CoreError::InvalidDatabaseUrl);
        }
        let flavor = if contains_exec(chars.as_slice(), chars_of("cockroach").as_slice()) {
            DatabaseFlavor::CockroachDb
        } else {
            DatabaseFlavor::PostgreSql
        };
        let read_only = match &read_only_flag {
            Some(f) => !is_lit(chars_of(f.as_str()).as_slice(), "0"),
            None => true,
        };
        Ok(CoreConfig { database_url: url, flavor, read_only })
    }
}

} // verus!
