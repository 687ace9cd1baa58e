use declmig_lib_core::schema_parity::{
    normalize_type_family, ColumnProjection, DatabaseEngine, DatabaseIdentity, GeneratorIdentity,
    ParityError, ProjectionSource, SchemaProjection, TableProjection, PARITY_SCHEMA_VERSION,
};

fn column(name: &str, ordinal: u32, type_family: &str, nullable: bool) -> ColumnProjection {
    ColumnProjection {
        name: name.to_owned(),
        ordinal,
        type_family: type_family.to_owned(),
        nullable,
        native_type: None,
    }
}

fn table(schema: &str, name: &str, primary_key: &[&str], columns: Vec<ColumnProjection>) -> TableProjection {
    TableProjection {
        schema: schema.to_owned(),
        name: name.to_owned(),
        primary_key: primary_key.iter().map(|key| (*key).to_owned()).collect(),
        columns,
    }
}

fn projection(tables: Vec<TableProjection>) -> SchemaProjection {
    SchemaProjection {
        schema_version: PARITY_SCHEMA_VERSION,
        source: ProjectionSource::Catalog,
        generator: GeneratorIdentity {
            name: "catalog-export".to_owned(),
            version: "1.0".to_owned(),
        },
        database: DatabaseIdentity {
            engine: DatabaseEngine::PostgreSql,
            schema: "public".to_owned(),
        },
        tables,
    }
}

fn users() -> TableProjection {
    table(
        "public",
        "users",
        &["id"],
        vec![column("id", 1, "uuid", false), column("email", 2, "text", false)],
    )
}

#[test]
fn type_families_have_canonical_names() {
    let cases = [
        ("BIGINT", "int8"),
        ("  Double Precision ", "float8"),
        ("rust_decimal::Decimal", "numeric"),
        ("character varying", "varchar"),
        ("Timestamp With Time Zone", "timestamptz"),
        ("NaiveDateTime", "timestamp"),
        ("vec_u8", "bytea"),
        ("Vec<u8>", "custom(vec<u8>)"),
        ("bool", "bool"),
        ("i16", "int2"),
        ("Array<Int4>", "array<int4>"),
        ("array<array<text>>", "array<array<text>>"),
        ("Vector(1536)", "vector"),
        ("custom(geometry)", "custom(geometry)"),
        ("Geometry", "custom(geometry)"),
        ("ltree", "custom(ltree)"),
    ];
    for (input, family) in cases {
        assert_eq!(normalize_type_family(input), Ok(family.to_owned()), "{input}");
    }
}

#[test]
fn empty_type_family_is_refused() {
    assert_eq!(normalize_type_family(""), Err(ParityError::InvalidTypeFamily));
    assert_eq!(normalize_type_family("   "), Err(ParityError::InvalidTypeFamily));
    assert_eq!(normalize_type_family("_"), Err(ParityError::InvalidTypeFamily));
    assert_eq!(normalize_type_family("Array<>"), Err(ParityError::InvalidTypeFamily));
}

#[test]
fn engines_parse_by_exact_name() {
    assert_eq!(DatabaseEngine::parse("postgresql"), Ok(DatabaseEngine::PostgreSql));
    assert_eq!(DatabaseEngine::parse("cockroachdb"), Ok(DatabaseEngine::CockroachDb));
    assert_eq!(DatabaseEngine::parse("PostgreSQL"), Err(ParityError::InvalidEngine));
    assert_eq!(DatabaseEngine::parse(""), Err(ParityError::InvalidEngine));
}

#[test]
fn normalize_trims_maps_and_orders() {
    let raw = projection(vec![
        table(
            " public ",
            " users ",
            &[" id "],
            vec![
                column(" email ", 2, "TEXT", false),
                ColumnProjection {
                    native_type: Some(" uuid ".to_owned()),
                    ..column(" id ", 1, "Uuid", false)
                },
            ],
        ),
        table("audit", "events", &["id"], vec![column("id", 1, "bigint", false)]),
    ]);
    let normal = raw.normalize().expect("valid projection");
    assert_eq!(normal.tables.len(), 2);
    assert_eq!(normal.tables[0].schema, "audit");
    assert_eq!(normal.tables[0].columns[0].type_family, "int8");
    let users = &normal.tables[1];
    assert_eq!((users.schema.as_str(), users.name.as_str()), ("public", "users"));
    assert_eq!(users.primary_key, ["id"]);
    assert_eq!(users.columns[0].name, "id");
    assert_eq!(users.columns[0].type_family, "uuid");
    assert_eq!(users.columns[0].native_type.as_deref(), Some("uuid"));
    assert_eq!(users.columns[1].name, "email");
    assert_eq!(users.columns[1].type_family, "text");
}

#[test]
fn normalizing_twice_changes_nothing() {
    let raw = projection(vec![
        table("public", "b", &["id"], vec![column("x", 2, "Text", true), column("id", 1, "i64", false)]),
        table("public", "a", &["id"], vec![column("id", 1, "Integer", false)]),
    ]);
    let once = raw.normalize().expect("valid");
    let twice = once.clone().normalize().expect("still valid");
    assert_eq!(once, twice);
}

#[test]
fn blank_or_control_text_is_refused() {
    let mut p = projection(vec![users()]);
    p.generator.name = "  ".to_owned();
    assert_eq!(p.normalize(), Err(ParityError::InvalidText));

    let mut p = projection(vec![users()]);
    p.database.schema = "pub\u{7}lic".to_owned();
    assert_eq!(p.normalize(), Err(ParityError::InvalidText));

    let mut p = projection(vec![users()]);
    p.tables[0].columns[0].native_type = Some(String::new());
    assert_eq!(p.normalize(), Err(ParityError::InvalidText));
}

#[test]
fn bad_type_family_is_refused() {
    let mut p = projection(vec![users()]);
    p.tables[0].columns[1].type_family = " ".to_owned();
    assert_eq!(p.normalize(), Err(ParityError::InvalidTypeFamily));
}

#[test]
fn duplicate_table_is_refused() {
    let mut twin = users();
    twin.name = " users".to_owned();
    assert_eq!(projection(vec![users(), twin]).normalize(), Err(ParityError::DuplicateTable));
}

#[test]
fn duplicate_column_is_refused() {
    let mut p = projection(vec![users()]);
    p.tables[0].columns[1].name = "id".to_owned();
    assert_eq!(p.normalize(), Err(ParityError::DuplicateColumn));
}

#[test]
fn zero_or_repeated_ordinal_is_refused() {
    let mut p = projection(vec![users()]);
    p.tables[0].columns[0].ordinal = 0;
    assert_eq!(p.normalize(), Err(ParityError::InvalidOrdinal));

    let mut p = projection(vec![users()]);
    p.tables[0].columns[1].ordinal = 1;
    assert_eq!(p.normalize(), Err(ParityError::InvalidOrdinal));
}

#[test]
fn table_without_columns_is_refused() {
    let p = projection(vec![table("public", "empty", &[], vec![])]);
    assert_eq!(p.normalize(), Err(ParityError::EmptyTable));
}

#[test]
fn primary_key_must_name_distinct_columns() {
    let mut p = projection(vec![users()]);
    p.tables[0].primary_key = vec!["missing".to_owned()];
    assert_eq!(p.normalize(), Err(ParityError::UnknownPrimaryKeyColumn));

    let mut p = projection(vec![users()]);
    p.tables[0].primary_key = vec!["id".to_owned(), " id".to_owned()];
    assert_eq!(p.normalize(), Err(ParityError::DuplicatePrimaryKeyColumn));
}

#[test]
fn other_schema_version_is_refused() {
    let mut p = projection(vec![users()]);
    p.schema_version = 2;
    assert_eq!(p.normalize(), Err(ParityError::UnsupportedSchemaVersion));
}

#[test]
fn projection_without_tables_is_refused() {
    assert_eq!(projection(vec![]).normalize(), Err(ParityError::EmptyProjection));
}

#[test]
fn table_errors_come_before_version_errors() {
    let mut p = projection(vec![table("public", "empty", &[], vec![])]);
    p.schema_version = 7;
    assert_eq!(p.normalize(), Err(ParityError::EmptyTable));
}

#[test]
fn table_map_is_ordered_by_key_with_last_table_kept() {
    let first = table("public", "users", &["id"], vec![column("id", 1, "uuid", false)]);
    let second = table("public", "users", &["id"], vec![column("id", 1, "int8", false)]);
    let audit = table("audit", "events", &["id"], vec![column("id", 1, "int8", false)]);
    let p = projection(vec![first, audit.clone(), second.clone()]);
    let map = p.table_map();
    assert_eq!(map.len(), 2);
    assert_eq!((map[0].0, map[0].1), ("audit", "events"));
    assert_eq!(map[0].2, &audit);
    assert_eq!((map[1].0, map[1].1), ("public", "users"));
    assert_eq!(map[1].2, &second);
}

#[test]
fn type_families_are_their_own_families() {
    for input in ["BIGINT", "Array<Array<Double Precision>>", "foo::Bar_Baz", "custom(x)", "Vector(3)", "weird type"] {
        let family = normalize_type_family(input).expect("valid type");
        assert_eq!(normalize_type_family(&family), Ok(family.clone()), "{input}");
    }
}

#[test]
fn table_map_of_a_normal_projection_lists_its_tables() {
    let normal = projection(vec![
        users(),
        table("audit", "events", &["id"], vec![column("id", 1, "int8", false)]),
    ])
    .normalize()
    .expect("valid");
    let map = normal.table_map();
    assert_eq!(map.len(), normal.tables.len());
    for (entry, table) in map.iter().zip(normal.tables.iter()) {
        assert_eq!((entry.0, entry.1), (table.schema.as_str(), table.name.as_str()));
        assert_eq!(entry.2, table);
    }
}
