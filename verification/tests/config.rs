use declmig_lib_core::{CoreConfig, CoreError, DatabaseFlavor};

#[test]
fn from_env_classifies_url_and_read_only_flag() {
    let config = CoreConfig::from_settings(Some("postgres://localhost/app".to_owned()), None)
        .expect("postgres url");
    assert_eq!(config.flavor, DatabaseFlavor::PostgreSql);
    assert_eq!(config.database_url, "postgres://localhost/app");
    assert!(config.read_only);

    let config = CoreConfig::from_settings(
        Some("postgresql://cockroach.example/db".to_owned()),
        Some("0".to_owned()),
    )
    .expect("cockroach url");
    assert_eq!(config.flavor, DatabaseFlavor::CockroachDb);
    assert!(!config.read_only);

    assert!(CoreConfig::from_settings(Some("mysql://localhost/db".to_owned()), Some("0".to_owned())).is_err());
}

#[test]
fn missing_url_is_refused() {
    assert_eq!(CoreConfig::from_settings(None, None), Err(CoreError::InvalidDatabaseUrl));
    assert_eq!(
        CoreConfig::from_settings(Some("Postgres://localhost/db".to_owned()), None),
        Err(CoreError::InvalidDatabaseUrl)
    );
}

#[test]
fn only_zero_enables_writes() {
    for flag in ["1", "false", "", " 0", "00"] {
        let config = CoreConfig::from_settings(Some("postgres://db".to_owned()), Some(flag.to_owned()))
            .expect("postgres url");
        assert!(config.read_only, "{flag:?}");
    }
}
