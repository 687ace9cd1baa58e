//! The projection model: what an ORM or a catalog says a database holds.
//!
//! Each executable type has a view made of mathematical values; the
//! contracts of normalization, parsing and comparison are stated over views.
use vstd::prelude::*;

use super::ParityError;
use crate::text::{
    cat3, chars_of, ends_with, ends_with_exec, is_control, is_control_char, is_lit, is_ws,
    is_ws_char, lemma_trim_len, slice_of, starts_with, starts_with_exec, string_of, text_of, trim,
    trim_exec,
};

verus! {

/// The version of the projection format this crate reads and writes.
pub const PARITY_SCHEMA_VERSION: u32 = 1;

/// The database engine a projection describes.
#[derive(Clone, Copy, Debug, PartialEq, Eq, PartialOrd, Ord, Structural)]
pub enum DatabaseEngine {
    PostgreSql,
    CockroachDb,
}

impl DatabaseEngine {
    /// The engine named `value` (`postgresql` or `cockroachdb`).
    pub fn parse(value: &str) -> (r: Result<Self, ParityError>)
        ensures
            r == (if value@ == "postgresql"@ {
                Ok(DatabaseEngine::PostgreSql)
            } else if value@ == "cockroachdb"@ {
                Ok(DatabaseEngine::CockroachDb)
            } else {
                Err(ParityError::InvalidEngine)
            }),
    {
        let v = chars_of(value);
        if is_lit(&v, "postgresql") {
            Ok(DatabaseEngine::PostgreSql)
        } else if is_lit(&v, "cockroachdb") {
            Ok(DatabaseEngine::CockroachDb)
        } else {
            Err(ParityError::InvalidEngine)
        }
    }
}

/// Where a projection came from.
#[derive(Clone, Copy, Debug, PartialEq, Eq, PartialOrd, Ord, Structural)]
pub enum ProjectionSource {
    Catalog,
    DieselSchema,
    SeaOrmEntity,
    DieselRoundTrip,
}

/// The tool that produced a projection.
#[derive(Clone, Debug, PartialEq, Eq)]
pub struct GeneratorIdentity {
    pub name: String,
    pub version: String,
}

/// The database a projection describes.
#[derive(Clone, Debug, PartialEq, Eq)]
pub struct DatabaseIdentity {
    pub engine: DatabaseEngine,
    pub schema: String,
}

/// One column of a table.
#[derive(Clone, Debug, PartialEq, Eq)]
pub struct ColumnProjection {
    pub name: String,
    pub ordinal: u32,
    pub type_family: String,
    pub nullable: bool,
    pub native_type: Option<String>,
}

/// One table of a projection.
#[derive(Clone, Debug, PartialEq, Eq)]
pub struct TableProjection {
    pub schema: String,
    pub name: String,
    pub primary_key: Vec<String>,
    pub columns: Vec<ColumnProjection>,
}

/// What one generator says a database schema holds.
#[derive(Clone, Debug, PartialEq, Eq)]
pub struct SchemaProjection {
    pub schema_version: u32,
    pub source: ProjectionSource,
    pub generator: GeneratorIdentity,
    pub database: DatabaseIdentity,
    pub tables: Vec<TableProjection>,
}

// ---------------------------------------------------------------------
// Views
// ---------------------------------------------------------------------

pub struct ColumnView {
    pub name: Seq<char>,
    pub ordinal: u32,
    pub type_family: Seq<char>,
    pub nullable: bool,
    pub native_type: Option<Seq<char>>,
}

pub struct TableView {
    pub schema: Seq<char>,
    pub name: Seq<char>,
    pub primary_key: Seq<Seq<char>>,
    pub columns: Seq<ColumnView>,
}

pub struct ProjectionView {
    pub schema_version: u32,
    pub source: ProjectionSource,
    pub generator_name: Seq<char>,
    pub generator_version: Seq<char>,
    pub engine: DatabaseEngine,
    pub database_schema: Seq<char>,
    pub tables: Seq<TableView>,
}

pub open spec fn opt_text(o: Option<String>) -> Option<Seq<char>> {
    match o {
        Some(s) => Some(s@),
        None => None,
    }
}

pub open spec fn texts(v: Seq<String>) -> Seq<Seq<char>> {
    v.map_values(|s: String| s@)
}

pub open spec fn columns_view(v: Seq<ColumnProjection>) -> Seq<ColumnView> {
    v.map_values(|c: ColumnProjection| c@)
}

pub open spec fn tables_view(v: Seq<TableProjection>) -> Seq<TableView> {
    v.map_values(|t: TableProjection| t@)
}

impl View for ColumnProjection {
    type V = ColumnView;

    open spec fn view(&self) -> ColumnView {
        ColumnView {
            name: self.name@,
            ordinal: self.ordinal,
            type_family: self.type_family@,
            nullable: self.nullable,
            native_type: opt_text(self.native_type),
        }
    }
}

impl View for TableProjection {
    type V = TableView;

    open spec fn view(&self) -> TableView {
        TableView {
            schema: self.schema@,
            name: self.name@,
            primary_key: texts(self.primary_key@),
            columns: columns_view(self.columns@),
        }
    }
}

impl View for SchemaProjection {
    type V = ProjectionView;

    open spec fn view(&self) -> ProjectionView {
        ProjectionView {
            schema_version: self.schema_version,
            source: self.source,
            generator_name: self.generator.name@,
            generator_version: self.generator.version@,
            engine: self.database.engine,
            database_schema: self.database.schema@,
            tables: tables_view(self.tables@),
        }
    }
}

/// The view of a result.
pub open spec fn res_view<T: View>(r: Result<T, ParityError>) -> Result<T::V, ParityError> {
    match r {
        Ok(t) => Ok(t@),
        Err(e) => Err(e),
    }
}

// ---------------------------------------------------------------------
// Text and type families
// ---------------------------------------------------------------------

/// Text that a projection requires: trimmed, not empty, no control character.
pub open spec fn required_text_spec(s: Seq<char>) -> Result<Seq<char>, ParityError> {
    let t = trim(s);
    if t.len() == 0 || (exists|i: int| 0 <= i < t.len() && is_control(t[i])) {
        Err(ParityError::InvalidText)
    } else {
        Ok(t)
    }
}

/// ASCII upper-case letters to lower case; every other character unchanged.
pub open spec fn ascii_lower(c: char) -> char {
    if 65 <= (c as u32) <= 90 {
        ((c as u32) + 32) as char
    } else {
        c
    }
}

/// `s` in ASCII lower case with white space and `_` removed.
pub open spec fn squeeze(s: Seq<char>) -> Seq<char>
    decreases s.len(),
{
    if s.len() == 0 {
        s
    } else if is_ws(s.last()) || s.last() == '_' {
        squeeze(s.drop_last())
    } else {
        squeeze(s.drop_last()).push(ascii_lower(s.last()))
    }
}

/// `s` with every `::` removed, left to right (`str::replace("::", "")`).
pub open spec fn drop_double_colons(s: Seq<char>) -> Seq<char>
    decreases s.len(),
{
    if s.len() == 0 {
        s
    } else if s.len() >= 2 && s[0] == ':' && s[1] == ':' {
        drop_double_colons(s.subrange(2, s.len() as int))
    } else {
        seq![s[0]] + drop_double_colons(s.drop_first())
    }
}

/// The form in which a type name is looked up.
pub open spec fn compact_type(s: Seq<char>) -> Seq<char> {
    drop_double_colons(squeeze(trim(s)))
}

/// The canonical family of the names that have one.
pub open spec fn type_alias(c: Seq<char>) -> Option<Seq<char>> {
    if c == "bool"@ || c == "boolean"@ {
        Some("bool"@)
    } else if c == "int2"@ || c == "smallint"@ || c == "i16"@ {
        Some("int2"@)
    } else if c == "int4"@ || c == "integer"@ || c == "i32"@ {
        Some("int4"@)
    } else if c == "int8"@ || c == "bigint"@ || c == "i64"@ {
        Some("int8"@)
    } else if c == "float4"@ || c == "real"@ || c == "f32"@ {
        Some("float4"@)
    } else if c == "float8"@ || c == "double"@ || c == "doubleprecision"@ || c == "f64"@ {
        Some("float8"@)
    } else if c == "numeric"@ || c == "decimal"@ || c == "bigdecimal"@ || c
        == "rustdecimaldecimal"@ {
        Some("numeric"@)
    } else if c == "text"@ {
        Some("text"@)
    } else if c == "varchar"@ || c == "charactervarying"@ || c == "string"@ {
        Some("varchar"@)
    } else if c == "bpchar"@ || c == "character"@ || c == "char"@ {
        Some("char"@)
    } else if c == "uuid"@ {
        Some("uuid"@)
    } else if c == "json"@ {
        Some("json"@)
    } else if c == "jsonb"@ || c == "jsonbinary"@ {
        Some("jsonb"@)
    } else if c == "bytea"@ || c == "binary"@ || c == "varbinary"@ || c == "vecu8"@ {
        Some("bytea"@)
    } else if c == "date"@ || c == "naivedate"@ {
        Some("date"@)
    } else if c == "time"@ || c == "naivetime"@ {
        Some("time"@)
    } else if c == "timestamp"@ || c == "datetime"@ || c == "naivedatetime"@ || c
        == "timestampwithouttimezone"@ {
        Some("timestamp"@)
    } else if c == "timestamptz"@ || c == "datetimewithtimezone"@ || c
        == "timestampwithtimezone"@ {
        Some("timestamptz"@)
    } else if c == "inet"@ || c == "ipnetwork"@ {
        Some("inet"@)
    } else if c == "cidr"@ {
        Some("cidr"@)
    } else if c == "tsvector"@ {
        Some("tsvector"@)
    } else {
        None
    }
}

pub proof fn lemma_squeeze_len(s: Seq<char>)
    ensures
        squeeze(s).len() <= s.len(),
    decreases s.len(),
{
    if s.len() > 0 {
        lemma_squeeze_len(s.drop_last());
    }
}

pub proof fn lemma_drop_double_colons_len(s: Seq<char>)
    ensures
        drop_double_colons(s).len() <= s.len(),
    decreases s.len(),
{
    if s.len() >= 2 && s[0] == ':' && s[1] == ':' {
        lemma_drop_double_colons_len(s.subrange(2, s.len() as int));
    } else if s.len() > 0 {
        lemma_drop_double_colons_len(s.drop_first());
    }
}

pub proof fn lemma_compact_type_len(s: Seq<char>)
    ensures
        compact_type(s).len() <= s.len(),
{
    lemma_trim_len(s);
    lemma_squeeze_len(trim(s));
    lemma_drop_double_colons_len(squeeze(trim(s)));
}

/// The canonical type family of a type name (`normalize_type_family`).
pub open spec fn type_family_spec(s: Seq<char>) -> Result<Seq<char>, ParityError>
    decreases s.len(),
{
    let c = compact_type(s);
    match type_alias(c) {
        Some(f) => Ok(f),
        None => if starts_with(c, "array<"@) && ends_with(c, ">"@) && "array<"@.len() < c.len() {
            let inner = c.subrange("array<"@.len() as int, c.len() - 1);
            proof {
                lemma_compact_type_len(s);
            }
            match type_family_spec(inner) {
                Ok(f) => Ok("array<"@ + f + ">"@),
                Err(e) => Err(e),
            }
        } else if starts_with(c, "vector"@) {
            Ok("vector"@)
        } else if starts_with(c, "custom("@) {
            Ok(c)
        } else if c.len() > 0 {
            Ok("custom("@ + c + ")"@)
        } else {
            Err(ParityError::InvalidTypeFamily)
        },
    }
}

// ---------------------------------------------------------------------
// Executable text and type families
// ---------------------------------------------------------------------

/// `value` trimmed, if it is neither empty nor holds a control character.
pub fn required_text(value: String) -> (r: Result<String, ParityError>)
    ensures
        res_view(r) == required_text_spec(value@),
{
    let v = text_of(&value);
    let t = trim_exec(v.as_slice());
    if t.len() == 0 {
        return Err(ParityError::InvalidText);
    }
    let mut i: usize = 0;
    while i < t.len()
        invariant
            i <= t@.len(),
            t@ == trim(value@),
            forall|k: int| 0 <= k < i ==> !is_control(t@[k]),
        decreases t.len() - i,
    {
        if is_control_char(t[i]) {
            assert(is_control(t@[i as int]));
            return Err(ParityError::InvalidText);
        }
        i = i + 1;
    }
    Ok(string_of(t.as_slice()))
}

fn ascii_lower_exec(c: char) -> (r: char)
    ensures
        r == ascii_lower(c),
{
    let x = c as u32;
    if 65 <= x && x <= 90 {
        let y: u8 = (x + 32) as u8;
        assert(y as u32 == x + 32);
        y as char
    } else {
        c
    }
}

fn squeeze_exec(v: &[char]) -> (r: Vec<char>)
    ensures
        r@ == squeeze(v@),
{
    let mut r: Vec<char> = Vec::new();
    let mut i: usize = 0;
    while i < v.len()
        invariant
            i <= v@.len(),
            r@ == squeeze(v@.subrange(0, i as int)),
        decreases v.len() - i,
    {
        assert(v@.subrange(0, i + 1).drop_last() =~= v@.subrange(0, i as int));
        let c = v[i];
        if !(is_ws_char(c) || c == '_') {
            r.push(ascii_lower_exec(c));
        }
        i = i + 1;
    }
    assert(v@.subrange(0, v@.len() as int) =~= v@);
    r
}

fn drop_double_colons_exec(v: &[char]) -> (r: Vec<char>)
    ensures
        r@ == drop_double_colons(v@),
{
    let mut r: Vec<char> = Vec::new();
    let mut i: usize = 0;
    assert(v@.subrange(0, v@.len() as int) =~= v@);
    while i < v.len()
        invariant
            i <= v@.len(),
            drop_double_colons(v@) == r@ + drop_double_colons(
                v@.subrange(i as int, v@.len() as int),
            ),
        decreases v.len() - i,
    {
        let ghost rest = v@.subrange(i as int, v@.len() as int);
        if i + 1 < v.len() && v[i] == ':' && v[i + 1] == ':' {
            assert(rest.subrange(2, rest.len() as int) =~= v@.subrange(i + 2, v@.len() as int));
            i = i + 2;
        } else {
            assert(rest.drop_first() =~= v@.subrange(i + 1, v@.len() as int));
            let ghost old_r = r@;
            r.push(v[i]);
            assert(r@ + drop_double_colons(v@.subrange(i + 1, v@.len() as int)) =~= old_r + (seq![
                v@[i as int],
            ] + drop_double_colons(v@.subrange(i + 1, v@.len() as int))));
            i = i + 1;
        }
    }
    assert(drop_double_colons(v@.subrange(v@.len() as int, v@.len() as int)) =~= Seq::<
        char,
    >::empty());
    assert(r@ + Seq::<char>::empty() =~= r@);
    r
}

/// The form in which a type name is looked up.
pub fn compact_type_exec(v: &[char]) -> (r: Vec<char>)
    ensures
        r@ == compact_type(v@),
{
    let t = trim_exec(v);
    let s = squeeze_exec(t.as_slice());
    drop_double_colons_exec(s.as_slice())
}

fn type_alias_exec(c: &[char]) -> (r: Option<Vec<char>>)
    ensures
        match r {
            Some(f) => type_alias(c@) == Some(f@),
            None => type_alias(c@) is None,
        },
{
    if is_lit(c, "bool") || is_lit(c, "boolean") {
        Some(chars_of("bool"))
    } else if is_lit(c, "int2") || is_lit(c, "smallint") || is_lit(c, "i16") {
        Some(chars_of("int2"))
    } else if is_lit(c, "int4") || is_lit(c, "integer") || is_lit(c, "i32") {
        Some(chars_of("int4"))
    } else if is_lit(c, "int8") || is_lit(c, "bigint") || is_lit(c, "i64") {
        Some(chars_of("int8"))
    } else if is_lit(c, "float4") || is_lit(c, "real") || is_lit(c, "f32") {
        Some(chars_of("float4"))
    } else if is_lit(c, "float8") || is_lit(c, "double") || is_lit(c, "doubleprecision")
        || is_lit(c, "f64") {
        Some(chars_of("float8"))
    } else if is_lit(c, "numeric") || is_lit(c, "decimal") || is_lit(c, "bigdecimal")
        || is_lit(c, "rustdecimaldecimal") {
        Some(chars_of("numeric"))
    } else if is_lit(c, "text") {
        Some(chars_of("text"))
    } else if is_lit(c, "varchar") || is_lit(c, "charactervarying") || is_lit(c, "string") {
        Some(chars_of("varchar"))
    } else if is_lit(c, "bpchar") || is_lit(c, "character") || is_lit(c, "char") {
        Some(chars_of("char"))
    } else if is_lit(c, "uuid") {
        Some(chars_of("uuid"))
    } else if is_lit(c, "json") {
        Some(chars_of("json"))
    } else if is_lit(c, "jsonb") || is_lit(c, "jsonbinary") {
        Some(chars_of("jsonb"))
    } else if is_lit(c, "bytea") || is_lit(c, "binary") || is_lit(c, "varbinary") || is_lit(
        c,
        "vecu8",
    ) {
        Some(chars_of("bytea"))
    } else if is_lit(c, "date") || is_lit(c, "naivedate") {
        Some(chars_of("date"))
    } else if is_lit(c, "time") || is_lit(c, "naivetime") {
        Some(chars_of("time"))
    } else if is_lit(c, "timestamp") || is_lit(c, "datetime") || is_lit(c, "naivedatetime")
        || is_lit(c, "timestampwithouttimezone") {
        Some(chars_of("timestamp"))
    } else if is_lit(c, "timestamptz") || is_lit(c, "datetimewithtimezone") || is_lit(
        c,
        "timestampwithtimezone",
    ) {
        Some(chars_of("timestamptz"))
    } else if is_lit(c, "inet") || is_lit(c, "ipnetwork") {
        Some(chars_of("inet"))
    } else if is_lit(c, "cidr") {
        Some(chars_of("cidr"))
    } else if is_lit(c, "tsvector") {
        Some(chars_of("tsvector"))
    } else {
        None
    }
}

/// The canonical type family of the type name `v`.
pub fn type_family_exec(v: &[char]) -> (r: Result<Vec<char>, ParityError>)
    ensures
        res_view(r) == type_family_spec(v@),
    decreases v@.len(),
{
    let c = compact_type_exec(v);
    match type_alias_exec(c.as_slice()) {
        Some(f) => Ok(f),
        None => {
            let array_open = chars_of("array<");
            let close = chars_of(">");
            if starts_with_exec(c.as_slice(), array_open.as_slice()) && ends_with_exec(
                c.as_slice(),
                close.as_slice(),
            ) && array_open.len() < c.len() {
                let inner = slice_of(c.as_slice(), array_open.len(), c.len() - 1);
                proof {
                    lemma_compact_type_len(v@);
                }
                match type_family_exec(inner.as_slice()) {
                    Ok(f) => Ok(cat3(array_open.as_slice(), f.as_slice(), close.as_slice())),
                    Err(e) => Err(e),
                }
            } else if starts_with_exec(c.as_slice(), chars_of("vector").as_slice()) {
                Ok(chars_of("vector"))
            } else if starts_with_exec(c.as_slice(), chars_of("custom(").as_slice()) {
                Ok(c)
            } else if c.len() > 0 {
                Ok(cat3(chars_of("custom(").as_slice(), c.as_slice(), chars_of(")").as_slice()))
            } else {
                Err(ParityError::InvalidTypeFamily)
            }
        },
    }
}

/// The canonical type family of a type name: its alias if it has one,
/// `array<..>` of the element's family, `vector`, or `custom(..)`.
pub fn normalize_type_family(value: &str) -> (r: Result<String, ParityError>)
    ensures
        res_view(r) == type_family_spec(value@),
{
    let v = chars_of(value);
    match type_family_exec(v.as_slice()) {
        Ok(f) => Ok(string_of(f.as_slice())),
        Err(e) => Err(e),
    }
}

} // verus!
