//! Structural parity between ORM projections of one database schema.
mod compare;
mod diesel;
mod error;
mod fixpoint;
pub mod laws;
mod lexical;
mod mirror;
mod model;
mod normalize;
mod seaorm;

pub use compare::{compare, Difference, DifferenceCode, ParityReport, ParityWarning};
pub use diesel::parse_diesel_schema;
pub use error::ParityError;
pub use model::{
    normalize_type_family, ColumnProjection, DatabaseEngine, DatabaseIdentity, GeneratorIdentity,
    ProjectionSource, SchemaProjection, TableProjection, PARITY_SCHEMA_VERSION,
};
pub use seaorm::{parse_seaorm_entity, parse_seaorm_sources};
