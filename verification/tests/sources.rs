use declmig_lib_core::schema_parity::{
    parse_diesel_schema, parse_seaorm_entity, parse_seaorm_sources, DatabaseEngine, ParityError,
    ProjectionSource,
};

const USERS: &str = r#"
#[derive(Clone, Debug, PartialEq, DeriveEntityModel)]
#[sea_orm(table_name = "users")]
pub struct Model {
    #[sea_orm(primary_key)]
    pub id: i64,
    pub r#type: Option<String>,
    pub avatar: Vec<u8>,
    pub tags: Vec<Option<chrono::NaiveDate>>,
}
"#;

const AUDIT: &str = r#"
#[sea_orm(table_name = "events", schema_name = "audit")]
pub struct Model {
    #[sea_orm(
        primary_key,
        column_name = "event_id"
    )]
    pub id: uuid::Uuid,
}
"#;

#[test]
fn seaorm_fields_map_to_columns() {
    let table = parse_seaorm_entity(USERS, "public").expect("parse").expect("entity");
    assert_eq!((table.schema.as_str(), table.name.as_str()), ("public", "users"));
    assert_eq!(table.primary_key, ["id"]);
    let names: Vec<&str> = table.columns.iter().map(|column| column.name.as_str()).collect();
    assert_eq!(names, ["id", "type", "avatar", "tags"]);
    let families: Vec<&str> = table.columns.iter().map(|column| column.type_family.as_str()).collect();
    assert_eq!(families, ["int8", "varchar", "bytea", "array<date>"]);
    assert!(table.columns[1].nullable);
    assert!(!table.columns[2].nullable);
    assert_eq!(table.columns[1].native_type.as_deref(), Some("Option<String>"));
    assert_eq!(table.columns[0].ordinal, 1);
    assert_eq!(table.columns[3].ordinal, 4);
}

#[test]
fn multi_line_attributes_are_joined() {
    let table = parse_seaorm_entity(AUDIT, "public").expect("parse").expect("entity");
    assert_eq!((table.schema.as_str(), table.name.as_str()), ("audit", "events"));
    assert_eq!(table.primary_key, ["event_id"]);
    assert_eq!(table.columns[0].name, "event_id");
    assert_eq!(table.columns[0].type_family, "uuid");
}

#[test]
fn model_without_table_name_is_not_an_entity() {
    assert_eq!(parse_seaorm_entity("pub struct Model {\n}\n", "public"), Ok(None));
}

#[test]
fn unterminated_entities_are_refused() {
    assert_eq!(
        parse_seaorm_entity("#[sea_orm(table_name = \"t\")]\npub struct Model {\n    pub id: i32,\n", "public"),
        Err(ParityError::InvalidGeneratedSource)
    );
    assert_eq!(
        parse_seaorm_entity("#[sea_orm(table_name = \"t\"\n", "public"),
        Err(ParityError::InvalidGeneratedSource)
    );
    assert_eq!(
        parse_seaorm_entity("#[sea_orm(table_name = \"t\")]\npub struct Model {\n    id: i32,\n}\n", "public"),
        Err(ParityError::InvalidGeneratedSource)
    );
}

#[test]
fn entity_sources_form_one_projection() {
    let sources = vec![Ok(USERS.to_owned()), Ok("pub fn helper() {}".to_owned()), Ok(AUDIT.to_owned())];
    let projection =
        parse_seaorm_sources(sources, DatabaseEngine::CockroachDb, "public", "2.0.2").expect("valid");
    assert_eq!(projection.source, ProjectionSource::SeaOrmEntity);
    assert_eq!(projection.generator.name, "sea-orm-cli-generate-entity");
    assert_eq!(projection.generator.version, "2.0.2");
    assert_eq!(projection.database.engine, DatabaseEngine::CockroachDb);
    assert_eq!(projection.database.schema, "public");
    let keys: Vec<(&str, &str)> =
        projection.tables.iter().map(|table| (table.schema.as_str(), table.name.as_str())).collect();
    assert_eq!(keys, [("audit", "events"), ("public", "users")]);
}

#[test]
fn unreadable_or_empty_sources_are_refused() {
    assert_eq!(
        parse_seaorm_sources(vec![Ok(USERS.to_owned()), Err(ParityError::Io)], DatabaseEngine::PostgreSql, "public", "1"),
        Err(ParityError::Io)
    );
    assert_eq!(
        parse_seaorm_sources(vec![Ok("pub fn helper() {}".to_owned())], DatabaseEngine::PostgreSql, "public", "1"),
        Err(ParityError::EmptyProjection)
    );
    assert_eq!(
        parse_seaorm_sources(vec![Ok(String::new()); 10_001], DatabaseEngine::PostgreSql, "public", "1"),
        Err(ParityError::InvalidGeneratedSource)
    );
}

#[test]
fn diesel_tables_use_sql_names_and_raw_identifiers() {
    let source = r#"
diesel::table! {
    #[sql_name = "Accounts"]
    accounts (r#ref) {
        r#ref -> Int4,
        #[sql_name = "e-mail"]
        email -> Nullable<Varchar>,
        created -> Timestamptz,
    }
}

diesel::table! {
    audit.events (id) {
        id -> Int8,
    }
}
"#;
    let projection = parse_diesel_schema(source, DatabaseEngine::PostgreSql, "app", "2.3.12").expect("valid");
    assert_eq!(projection.source, ProjectionSource::DieselSchema);
    assert_eq!(projection.generator.name, "diesel-print-schema");
    assert_eq!(projection.tables.len(), 2);
    let accounts = &projection.tables[0];
    assert_eq!((accounts.schema.as_str(), accounts.name.as_str()), ("app", "Accounts"));
    assert_eq!(accounts.primary_key, ["ref"]);
    assert_eq!(accounts.columns[1].name, "e-mail");
    assert_eq!(accounts.columns[1].type_family, "varchar");
    assert!(accounts.columns[1].nullable);
    assert_eq!(accounts.columns[1].native_type.as_deref(), Some("Nullable<Varchar>"));
    assert_eq!(accounts.columns[2].type_family, "timestamptz");
    assert_eq!(projection.tables[1].schema, "audit");
}

#[test]
fn diesel_primary_key_must_name_a_column() {
    let source = "diesel::table! {\n    t (missing) {\n        id -> Int4,\n    }\n}\n";
    assert_eq!(
        parse_diesel_schema(source, DatabaseEngine::PostgreSql, "public", "1"),
        Err(ParityError::UnknownPrimaryKeyColumn)
    );
}

#[test]
fn diesel_source_without_tables_is_empty() {
    assert_eq!(
        parse_diesel_schema("// nothing here\n", DatabaseEngine::PostgreSql, "public", "1"),
        Err(ParityError::EmptyProjection)
    );
}

#[test]
fn parsed_projections_are_already_normal() {
    let diesel = parse_diesel_schema(
        "diesel::table! {\n    b (id) {\n        id -> BigInt,\n    }\n}\ndiesel::table! {\n    a (id) {\n        id -> Int4,\n    }\n}\n",
        DatabaseEngine::PostgreSql,
        "public",
        "2.3.12",
    )
    .expect("valid");
    assert_eq!(diesel.clone().normalize(), Ok(diesel.clone()));
    assert_eq!(diesel.tables[0].name, "a");

    let seaorm = parse_seaorm_sources(vec![Ok(USERS.to_owned()), Ok(AUDIT.to_owned())], DatabaseEngine::PostgreSql, "public", "2.0.2")
        .expect("valid");
    assert_eq!(seaorm.clone().normalize(), Ok(seaorm));
}

#[test]
fn each_table_macro_gives_one_table() {
    let source = "diesel::table! {\n    a (id) {\n        id -> Int4,\n    }\n}\n// table! { not a macro }\ndiesel::table! {\n    b (id) {\n        id -> Int4,\n    }\n}\ndiesel::table! {\n    c (id) {\n        id -> Int4,\n    }\n}\n";
    let projection = parse_diesel_schema(source, DatabaseEngine::CockroachDb, " app ", " 2.3.12 ").expect("valid");
    assert_eq!(projection.tables.len(), 3);
    assert_eq!(projection.generator.name, "diesel-print-schema");
    assert_eq!(projection.generator.version, "2.3.12");
    assert_eq!(projection.database.schema, "app");
    assert_eq!(projection.database.engine, DatabaseEngine::CockroachDb);
}
