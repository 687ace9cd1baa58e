use declmig_lib_core::schema_parity::{
    compare, parse_diesel_schema, parse_seaorm_entity, DatabaseEngine, DifferenceCode,
    ParityError, ProjectionSource,
};

const DIESEL: &str = r#"
diesel::table! {
    use diesel::sql_types::*;

    public.bug_reports (tenant_id, id) {
        tenant_id -> Uuid,
        id -> Uuid,
        title -> Text,
        affected_users -> Int8,
        severity -> Nullable<Float8>,
        evidence -> Jsonb,
        embedding -> Vector,
    }
}
"#;

const SEAORM: &str = r#"
use sea_orm::entity::prelude::*;

#[derive(Clone, Debug, PartialEq, DeriveEntityModel)]
#[sea_orm(table_name = "bug_reports", schema_name = "public")]
pub struct Model {
    #[sea_orm(primary_key, auto_increment = false)]
    pub tenant_id: Uuid,
    #[sea_orm(primary_key, auto_increment = false)]
    pub id: Uuid,
    #[sea_orm(column_type = "Text")]
    pub title: String,
    pub affected_users: i64,
    pub severity: Option<f64>,
    #[sea_orm(column_type = "JsonBinary")]
    pub evidence: Json,
    #[sea_orm(column_type = "Custom(\"vector\".into())")]
    pub embedding: Vec<f32>,
}
"#;

#[test]
fn diesel_and_seaorm_structural_projections_match() {
    let diesel = parse_diesel_schema(DIESEL, DatabaseEngine::PostgreSql, "public", "2.3.12")
        .expect("Diesel fixture");
    let table = parse_seaorm_entity(SEAORM, "public")
        .expect("SeaORM parse")
        .expect("SeaORM entity");
    let mut seaorm = diesel.clone();
    seaorm.source = ProjectionSource::SeaOrmEntity;
    seaorm.generator.name = "sea-orm-cli-generate-entity".to_owned();
    seaorm.generator.version = "2.0.2".to_owned();
    seaorm.tables = vec![table];

    let report = compare(diesel, seaorm).expect("comparison");
    assert!(report.compatible, "{:#?}", report.differences);
    assert!(report.warnings.iter().any(|warning| warning.code == "vector-dimensions-not-proven"));
}

#[test]
fn nullability_and_type_drift_are_deterministic_failures() {
    let diesel = parse_diesel_schema(DIESEL, DatabaseEngine::PostgreSql, "public", "2.3.12")
        .expect("Diesel fixture");
    let table = parse_seaorm_entity(SEAORM, "public")
        .expect("SeaORM parse")
        .expect("SeaORM entity");
    let mut seaorm = diesel.clone();
    seaorm.source = ProjectionSource::SeaOrmEntity;
    seaorm.tables = vec![table];
    seaorm.tables[0].columns[2].nullable = true;
    seaorm.tables[0].columns[3].type_family = "int4".to_owned();

    let report = compare(diesel, seaorm).expect("comparison");
    assert!(!report.compatible);
    let codes = report
        .differences
        .iter()
        .map(|difference| difference.code)
        .collect::<std::collections::BTreeSet<_>>();
    assert_eq!(
        codes,
        [DifferenceCode::NullabilityMismatch, DifferenceCode::TypeFamilyMismatch]
            .into_iter()
            .collect()
    );
}

#[test]
fn parses_diesel_tables_attributes_arrays_and_nullability() {
    let source = r#"
            diesel::table! {
                use diesel::sql_types::*;

                public.embedding_models (tenant_id, id) {
                    tenant_id -> Uuid,
                    id -> Uuid,
                    #[sql_name = "type"]
                    type_ -> Text,
                    dimensions -> Int4,
                    aliases -> Array<Nullable<Text>>,
                    notes -> Nullable<Text>,
                }
            }
        "#;
    let parsed = parse_diesel_schema(source, DatabaseEngine::PostgreSql, "public", "2.3.12")
        .expect("valid Diesel projection");
    assert_eq!(parsed.tables.len(), 1);
    let table = &parsed.tables[0];
    assert_eq!(table.primary_key, ["tenant_id", "id"]);
    assert_eq!(table.columns[2].name, "type");
    assert_eq!(table.columns[4].type_family, "array<text>");
    assert!(table.columns[5].nullable);
}

#[test]
fn refuses_incomplete_macro() {
    assert_eq!(
        parse_diesel_schema(
            "diesel::table! { users (id) { id -> Int4,",
            DatabaseEngine::PostgreSql,
            "public",
            "2.3.12"
        ),
        Err(ParityError::InvalidGeneratedSource)
    );
}

#[test]
fn parses_compact_entity_with_schema_names_and_types() {
    let source = r#"
            use sea_orm::entity::prelude::*;

            #[derive(Clone, Debug, PartialEq, DeriveEntityModel, Eq)]
            #[sea_orm(table_name = "embedding_models", schema_name = "public")]
            pub struct Model {
                #[sea_orm(primary_key, auto_increment = false)]
                pub tenant_id: Uuid,
                #[sea_orm(primary_key, auto_increment = false)]
                pub id: Uuid,
                #[sea_orm(column_name = "type", column_type = "Text")]
                pub type_: String,
                pub dimensions: i32,
                #[sea_orm(column_type = "Array(String(None))")]
                pub aliases: Vec<Option<String>>,
                #[sea_orm(column_type = "Text", nullable)]
                pub notes: Option<String>,
            }
        "#;
    let table = parse_seaorm_entity(source, "public")
        .expect("parse")
        .expect("entity");
    assert_eq!(table.name, "embedding_models");
    assert_eq!(table.primary_key, ["tenant_id", "id"]);
    assert_eq!(table.columns[2].name, "type");
    assert_eq!(table.columns[2].type_family, "text");
    assert_eq!(table.columns[4].type_family, "array<varchar>");
    assert!(table.columns[5].nullable);
}

#[test]
fn ignores_non_entity_source() {
    assert_eq!(
        parse_seaorm_entity("pub fn helper() {}", "public"),
        Ok(None)
    );
}
