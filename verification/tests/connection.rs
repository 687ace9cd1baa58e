use declmig_lib_core::{CoreConfig, CoreError, CorePool, DatabaseFlavor, SCHEMA_REVISION};

fn pool(read_only: bool) -> CorePool {
    CorePool::connect(&CoreConfig {
        database_url: "postgres://localhost/db".into(),
        flavor: DatabaseFlavor::PostgreSql,
        read_only,
    })
    .expect("connect")
}

#[test]
fn schema_and_migrate_use_exhaustive_matches() {
    let read_only = pool(true);
    assert!(read_only.assert_schema(SCHEMA_REVISION).is_ok());
    assert!(read_only.assert_schema("other").is_err());
    assert!(read_only.migrate().is_err());
    assert!(pool(false).migrate().is_ok());
}

#[test]
fn connect_keeps_the_configured_flavor() {
    let pool = CorePool::connect(&CoreConfig {
        database_url: "postgresql://cockroach.example/db".into(),
        flavor: DatabaseFlavor::CockroachDb,
        read_only: false,
    })
    .expect("connect");
    assert_eq!(pool.flavor, DatabaseFlavor::CockroachDb);
    assert!(pool.migrate().is_ok());
}

#[test]
fn schema_mismatch_names_both_revisions() {
    assert_eq!(
        pool(false).assert_schema("declmig-0001"),
        Err(CoreError::SchemaRevision {
            required: "declmig-0002".to_owned(),
            found: "declmig-0001".to_owned(),
        })
    );
    assert_eq!(pool(true).migrate(), Err(CoreError::WritesDisabled));
}
