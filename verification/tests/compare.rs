use declmig_lib_core::schema_parity::{
    compare, ColumnProjection, DatabaseEngine, DatabaseIdentity, Difference, DifferenceCode,
    GeneratorIdentity, ParityError, ProjectionSource, SchemaProjection, TableProjection,
    PARITY_SCHEMA_VERSION,
};

fn column(name: &str, ordinal: u32, type_family: &str, nullable: bool) -> ColumnProjection {
    ColumnProjection {
        name: name.to_owned(),
        ordinal,
        type_family: type_family.to_owned(),
        nullable,
        native_type: None,
    }
}

fn table(name: &str, primary_key: &[&str], columns: Vec<ColumnProjection>) -> TableProjection {
    TableProjection {
        schema: "public".to_owned(),
        name: name.to_owned(),
        primary_key: primary_key.iter().map(|key| (*key).to_owned()).collect(),
        columns,
    }
}

fn projection(source: ProjectionSource, tables: Vec<TableProjection>) -> SchemaProjection {
    SchemaProjection {
        schema_version: PARITY_SCHEMA_VERSION,
        source,
        generator: GeneratorIdentity {
            name: "generator".to_owned(),
            version: "1".to_owned(),
        },
        database: DatabaseIdentity {
            engine: DatabaseEngine::PostgreSql,
            schema: "public".to_owned(),
        },
        tables,
    }
}

fn users() -> TableProjection {
    table(
        "users",
        &["id"],
        vec![
            column("id", 1, "uuid", false),
            column("email", 2, "text", false),
            column("age", 3, "int4", true),
        ],
    )
}

fn difference(
    code: DifferenceCode,
    table: &str,
    column: Option<&str>,
    expected: &str,
    actual: &str,
) -> Difference {
    Difference {
        code,
        table: table.to_owned(),
        column: column.map(str::to_owned),
        expected: Some(expected.to_owned()),
        actual: Some(actual.to_owned()),
    }
}

#[test]
fn a_projection_is_compatible_with_itself() {
    let p = projection(ProjectionSource::Catalog, vec![users()]);
    let report = compare(p.clone(), p).expect("valid");
    assert!(report.compatible);
    assert!(report.differences.is_empty());
    assert_eq!(report.schema_version, PARITY_SCHEMA_VERSION);
}

#[test]
fn sources_are_reported_as_given() {
    let expected = projection(ProjectionSource::DieselSchema, vec![users()]);
    let actual = projection(ProjectionSource::SeaOrmEntity, vec![users()]);
    let report = compare(expected, actual).expect("valid");
    assert_eq!(report.expected_source, ProjectionSource::DieselSchema);
    assert_eq!(report.actual_source, ProjectionSource::SeaOrmEntity);
}

#[test]
fn compatibility_is_symmetric_and_means_no_differences() {
    let x = projection(ProjectionSource::Catalog, vec![users()]);
    let mut changed = users();
    changed.columns[2].nullable = false;
    let y = projection(ProjectionSource::Catalog, vec![changed]);
    let forward = compare(x.clone(), y.clone()).expect("valid");
    let backward = compare(y, x).expect("valid");
    assert_eq!(forward.compatible, backward.compatible);
    assert!(!forward.compatible);
    assert_eq!(forward.compatible, forward.differences.is_empty());
    assert_eq!(backward.compatible, backward.differences.is_empty());
}

#[test]
fn engine_and_schema_mismatches_are_reported_for_the_whole_database() {
    let expected = projection(ProjectionSource::Catalog, vec![users()]);
    let mut actual = expected.clone();
    actual.database.engine = DatabaseEngine::CockroachDb;
    actual.database.schema = "app".to_owned();
    let report = compare(expected, actual).expect("valid");
    assert_eq!(
        report.differences,
        vec![
            difference(DifferenceCode::DatabaseEngineMismatch, "*", None, "PostgreSql", "CockroachDb"),
            difference(DifferenceCode::DatabaseSchemaMismatch, "*", None, "public", "app"),
        ]
    );
}

#[test]
fn missing_and_extra_tables_are_reported() {
    let orders = table("orders", &["id"], vec![column("id", 1, "int8", false)]);
    let audit = table("audit", &["id"], vec![column("id", 1, "int8", false)]);
    let expected = projection(ProjectionSource::Catalog, vec![users(), orders]);
    let actual = projection(ProjectionSource::Catalog, vec![users(), audit]);
    let report = compare(expected, actual).expect("valid");
    assert!(!report.compatible);
    assert_eq!(
        report.differences,
        vec![
            difference(DifferenceCode::ExtraTable, "public.audit", None, "missing", "present"),
            difference(DifferenceCode::MissingTable, "public.orders", None, "present", "missing"),
        ]
    );
}

#[test]
fn column_differences_carry_both_values_in_order() {
    let expected = projection(ProjectionSource::Catalog, vec![users()]);
    let actual_table = table(
        "users",
        &["id", "email"],
        vec![
            column("id", 1, "uuid", false),
            column("email", 3, "varchar", true),
            column("nickname", 2, "text", true),
        ],
    );
    let actual = projection(ProjectionSource::Catalog, vec![actual_table]);
    let report = compare(expected, actual).expect("valid");
    assert_eq!(
        report.differences,
        vec![
            difference(DifferenceCode::PrimaryKeyMismatch, "public.users", None, "id", "id,email"),
            difference(DifferenceCode::MissingColumn, "public.users", Some("age"), "present", "missing"),
            difference(DifferenceCode::ColumnOrdinalMismatch, "public.users", Some("email"), "2", "3"),
            difference(DifferenceCode::NullabilityMismatch, "public.users", Some("email"), "false", "true"),
            difference(DifferenceCode::TypeFamilyMismatch, "public.users", Some("email"), "text", "varchar"),
            difference(DifferenceCode::ExtraColumn, "public.users", Some("nickname"), "missing", "present"),
        ]
    );
}

#[test]
fn large_ordinals_are_written_in_decimal() {
    let expected = projection(
        ProjectionSource::Catalog,
        vec![table("t", &["id"], vec![column("id", 4_294_967_295, "int8", false)])],
    );
    let actual = projection(
        ProjectionSource::Catalog,
        vec![table("t", &["id"], vec![column("id", 10, "int8", false)])],
    );
    let report = compare(expected, actual).expect("valid");
    assert_eq!(
        report.differences,
        vec![difference(DifferenceCode::ColumnOrdinalMismatch, "public.t", Some("id"), "4294967295", "10")]
    );
}

#[test]
fn standard_warnings_are_always_given() {
    let p = projection(ProjectionSource::Catalog, vec![users()]);
    let report = compare(p.clone(), p).expect("valid");
    let codes: Vec<&str> = report.warnings.iter().map(|warning| warning.code.as_str()).collect();
    assert_eq!(
        codes,
        ["constraints-not-proven", "defaults-not-proven", "indexes-not-proven", "row-security-not-proven"]
    );
    assert_eq!(
        report.warnings[0].detail,
        "Generated ORM projections do not prove CHECK constraints or exclusion constraints."
    );
}

#[test]
fn vector_columns_add_a_dimension_warning() {
    let expected = projection(ProjectionSource::Catalog, vec![users()]);
    let mut with_vector = users();
    with_vector.columns.push(column("embedding", 4, "Vector(3)", true));
    let actual = projection(ProjectionSource::Catalog, vec![with_vector]);
    let report = compare(expected, actual).expect("valid");
    assert_eq!(report.warnings.len(), 5);
    assert_eq!(report.warnings[4].code, "vector-dimensions-not-proven");
    assert!(report.warnings[4].detail.starts_with("Rust ORM projections usually preserve"));
}

#[test]
fn invalid_projections_are_not_compared() {
    let good = projection(ProjectionSource::Catalog, vec![users()]);
    let bad = projection(ProjectionSource::Catalog, vec![]);
    assert_eq!(compare(good.clone(), bad.clone()), Err(ParityError::EmptyProjection));
    assert_eq!(compare(bad, good), Err(ParityError::EmptyProjection));
}

#[test]
fn comparing_normal_forms_gives_the_same_report() {
    let mut messy = users();
    messy.name = "  users ".to_owned();
    messy.columns[1].type_family = "TEXT".to_owned();
    let expected = projection(ProjectionSource::Catalog, vec![messy]);
    let mut other = users();
    other.columns[2].type_family = "bigint".to_owned();
    let actual = projection(ProjectionSource::DieselSchema, vec![other]);
    let direct = compare(expected.clone(), actual.clone()).expect("valid");
    let normal = compare(
        expected.normalize().expect("valid"),
        actual.normalize().expect("valid"),
    )
    .expect("valid");
    assert_eq!(direct, normal);
    assert_eq!(direct.differences.len(), 1);
    assert_eq!(direct.differences[0].expected.as_deref(), Some("int4"));
    assert_eq!(direct.differences[0].actual.as_deref(), Some("int8"));
}

#[test]
fn the_verdict_ignores_generators_and_sources() {
    let expected = projection(ProjectionSource::Catalog, vec![users()]);
    let mut changed = users();
    changed.columns[0].type_family = "text".to_owned();
    let actual = projection(ProjectionSource::DieselSchema, vec![changed]);
    let first = compare(expected.clone(), actual.clone()).expect("valid");

    let mut expected2 = expected;
    expected2.source = ProjectionSource::SeaOrmEntity;
    expected2.generator.name = "sea-orm-cli-generate-entity".to_owned();
    let mut actual2 = actual;
    actual2.source = ProjectionSource::DieselRoundTrip;
    actual2.generator.version = "9.9.9".to_owned();
    let second = compare(expected2, actual2).expect("valid");

    assert_eq!(first.compatible, second.compatible);
    assert_eq!(first.differences, second.differences);
    assert_eq!(first.warnings, second.warnings);
    assert_eq!(second.expected_source, ProjectionSource::SeaOrmEntity);
}

fn mirrored(d: &Difference) -> Difference {
    let code = match d.code {
        DifferenceCode::MissingColumn => DifferenceCode::ExtraColumn,
        DifferenceCode::ExtraColumn => DifferenceCode::MissingColumn,
        DifferenceCode::MissingTable => DifferenceCode::ExtraTable,
        DifferenceCode::ExtraTable => DifferenceCode::MissingTable,
        other => other,
    };
    Difference {
        code,
        table: d.table.clone(),
        column: d.column.clone(),
        expected: d.actual.clone(),
        actual: d.expected.clone(),
    }
}

#[test]
fn swapping_sides_mirrors_every_difference() {
    let orders = table("orders", &["id"], vec![column("id", 1, "int8", false)]);
    let x = projection(ProjectionSource::Catalog, vec![users(), orders]);
    let mut changed = users();
    changed.primary_key = vec!["id".to_owned(), "email".to_owned()];
    changed.columns[1].nullable = true;
    changed.columns.push(column("nickname", 4, "text", true));
    let mut y = projection(ProjectionSource::Catalog, vec![changed]);
    y.database.engine = DatabaseEngine::CockroachDb;
    let forward = compare(x.clone(), y.clone()).expect("valid");
    let backward = compare(y, x).expect("valid");
    assert_eq!(forward.differences.len(), 5);
    assert_eq!(forward.differences.len(), backward.differences.len());
    for difference in &forward.differences {
        assert!(backward.differences.contains(&mirrored(difference)), "{difference:?}");
    }
    for difference in &backward.differences {
        assert!(forward.differences.contains(&mirrored(difference)), "{difference:?}");
    }
}

#[test]
fn order_and_native_types_are_not_drift() {
    let orders = table("orders", &["id"], vec![column("id", 1, "int8", false)]);
    let mut typed = users();
    typed.columns[0].native_type = Some("uuid".to_owned());
    let expected = projection(ProjectionSource::Catalog, vec![typed, orders.clone()]);
    let mut shuffled = users();
    shuffled.columns.reverse();
    shuffled.columns[2].native_type = Some("Uuid".to_owned());
    let mut actual = projection(ProjectionSource::SeaOrmEntity, vec![orders, shuffled]);
    actual.generator.name = "sea-orm-cli-generate-entity".to_owned();
    let report = compare(expected, actual).expect("valid");
    assert!(report.compatible);
    assert!(report.differences.is_empty());
    assert_eq!(report.expected_source, ProjectionSource::Catalog);
    assert_eq!(report.actual_source, ProjectionSource::SeaOrmEntity);
}

#[test]
fn reversed_comparison_keeps_verdict_and_warnings() {
    let mut with_vector = users();
    with_vector.columns.push(column("embedding", 4, "vector", true));
    let x = projection(ProjectionSource::DieselSchema, vec![with_vector]);
    let y = projection(ProjectionSource::SeaOrmEntity, vec![users()]);
    let forward = compare(x.clone(), y.clone()).expect("valid");
    let backward = compare(y, x).expect("valid");
    assert_eq!(forward.compatible, backward.compatible);
    assert_eq!(forward.warnings, backward.warnings);
    assert_eq!(forward.expected_source, backward.actual_source);
    assert_eq!(forward.actual_source, backward.expected_source);
}

#[test]
fn reversed_differences_are_a_mirrored_permutation() {
    let mut dotted_schema = table("c", &["id"], vec![column("id", 1, "int8", false)]);
    dotted_schema.schema = "a.b".to_owned();
    let mut dotted_name = table("b.c", &["id"], vec![column("id", 1, "int8", false)]);
    dotted_name.schema = "a".to_owned();
    let x = projection(ProjectionSource::Catalog, vec![users(), dotted_schema, dotted_name]);
    let mut changed = users();
    changed.columns[2].type_family = "int8".to_owned();
    let y = projection(ProjectionSource::Catalog, vec![changed]);
    let forward = compare(x.clone(), y.clone()).expect("valid");
    let backward = compare(y, x).expect("valid");
    assert_eq!(forward.differences.len(), 3);
    let mut mirrored_forward: Vec<String> =
        forward.differences.iter().map(|d| format!("{:?}", mirrored(d))).collect();
    let mut reversed: Vec<String> = backward.differences.iter().map(|d| format!("{d:?}")).collect();
    mirrored_forward.sort();
    reversed.sort();
    assert_eq!(mirrored_forward, reversed);
}
