//! Comparison of two projections of one database schema.
use vstd::prelude::*;

use super::model::{
    res_view, tables_view, texts, ColumnProjection, ColumnView, DatabaseEngine, ProjectionSource,
    ProjectionView, SchemaProjection, TableProjection, TableView, PARITY_SCHEMA_VERSION,
};
use super::normalize::normalize_spec;
use super::ParityError;
use crate::order::{insert_pos, isort, lex_le, lex_le_exec};
use crate::text::{cat3, chars_of, is_lit, join, string_of, text_of};

verus! {

/// The kind of a structural difference between two projections.
#[derive(Clone, Copy, Debug, PartialEq, Eq, PartialOrd, Ord, Structural)]
pub enum DifferenceCode {
    ColumnOrdinalMismatch,
    DatabaseEngineMismatch,
    DatabaseSchemaMismatch,
    ExtraColumn,
    ExtraTable,
    MissingColumn,
    MissingTable,
    NullabilityMismatch,
    PrimaryKeyMismatch,
    TypeFamilyMismatch,
}

/// One structural difference: where it is, and both observed values.
#[derive(Clone, Debug, PartialEq, Eq)]
pub struct Difference {
    pub code: DifferenceCode,
    pub table: String,
    pub column: Option<String>,
    pub expected: Option<String>,
    pub actual: Option<String>,
}

/// Something a structural comparison cannot prove.
#[derive(Clone, Debug, PartialEq, Eq)]
pub struct ParityWarning {
    pub code: String,
    pub detail: String,
}

/// The machine-readable outcome of a comparison.
#[derive(Clone, Debug, PartialEq, Eq)]
pub struct ParityReport {
    pub schema_version: u32,
    pub expected_source: ProjectionSource,
    pub actual_source: ProjectionSource,
    pub compatible: bool,
    pub differences: Vec<Difference>,
    pub warnings: Vec<ParityWarning>,
}

// ---------------------------------------------------------------------
// Views
// ---------------------------------------------------------------------

pub struct DifferenceView {
    pub code: DifferenceCode,
    pub table: Seq<char>,
    pub column: Option<Seq<char>>,
    pub expected: Option<Seq<char>>,
    pub actual: Option<Seq<char>>,
}

pub struct WarningView {
    pub code: Seq<char>,
    pub detail: Seq<char>,
}

pub struct ReportView {
    pub schema_version: u32,
    pub expected_source: ProjectionSource,
    pub actual_source: ProjectionSource,
    pub compatible: bool,
    pub differences: Seq<DifferenceView>,
    pub warnings: Seq<WarningView>,
}

pub open spec fn opt_view(o: Option<String>) -> Option<Seq<char>> {
    match o {
        Some(s) => Some(s@),
        None => None,
    }
}

impl View for Difference {
    type V = DifferenceView;

    open spec fn view(&self) -> DifferenceView {
        DifferenceView {
            code: self.code,
            table: self.table@,
            column: opt_view(self.column),
            expected: opt_view(self.expected),
            actual: opt_view(self.actual),
        }
    }
}

impl View for ParityWarning {
    type V = WarningView;

    open spec fn view(&self) -> WarningView {
        WarningView { code: self.code@, detail: self.detail@ }
    }
}

pub open spec fn diffs_view(v: Seq<Difference>) -> Seq<DifferenceView> {
    v.map_values(|d: Difference| d@)
}

pub open spec fn warnings_view(v: Seq<ParityWarning>) -> Seq<WarningView> {
    v.map_values(|w: ParityWarning| w@)
}

impl View for ParityReport {
    type V = ReportView;

    open spec fn view(&self) -> ReportView {
        ReportView {
            schema_version: self.schema_version,
            expected_source: self.expected_source,
            actual_source: self.actual_source,
            compatible: self.compatible,
            differences: diffs_view(self.differences@),
            warnings: warnings_view(self.warnings@),
        }
    }
}

// ---------------------------------------------------------------------
// Specification
// ---------------------------------------------------------------------

/// How `{:?}` prints an engine.
pub open spec fn engine_name(e: DatabaseEngine) -> Seq<char> {
    match e {
        DatabaseEngine::PostgreSql => "PostgreSql"@,
        DatabaseEngine::CockroachDb => "CockroachDb"@,
    }
}

/// How `bool::to_string` prints a flag.
pub open spec fn bool_text(b: bool) -> Seq<char> {
    if b {
        "true"@
    } else {
        "false"@
    }
}

pub open spec fn digit(d: nat) -> char {
    ((d + 48) as u32) as char
}

/// The decimal notation of `n` (`u32::to_string`).
pub open spec fn decimal(n: nat) -> Seq<char>
    decreases n,
{
    if n < 10 {
        seq![digit(n)]
    } else {
        decimal(n / 10).push(digit(n % 10))
    }
}

/// `schema.table`.
pub open spec fn qualified(schema: Seq<char>, table: Seq<char>) -> Seq<char> {
    schema + "."@ + table
}

pub open spec fn diff(
    code: DifferenceCode,
    table: Seq<char>,
    column: Option<Seq<char>>,
    expected: Seq<char>,
    actual: Seq<char>,
) -> DifferenceView {
    DifferenceView { code, table, column, expected: Some(expected), actual: Some(actual) }
}

/// Differences between the databases two projections describe.
pub open spec fn database_diffs(e: ProjectionView, a: ProjectionView) -> Seq<DifferenceView> {
    (if e.engine != a.engine {
        seq![
            diff(
                DifferenceCode::DatabaseEngineMismatch,
                "*"@,
                None,
                engine_name(e.engine),
                engine_name(a.engine),
            ),
        ]
    } else {
        Seq::empty()
    }) + (if e.database_schema != a.database_schema {
        seq![
            diff(
                DifferenceCode::DatabaseSchemaMismatch,
                "*"@,
                None,
                e.database_schema,
                a.database_schema,
            ),
        ]
    } else {
        Seq::empty()
    })
}

/// Differences between one column as two projections give it.
pub open spec fn column_diffs(table: Seq<char>, e: ColumnView, a: ColumnView) -> Seq<
    DifferenceView,
> {
    (if e.ordinal != a.ordinal {
        seq![
            diff(
                DifferenceCode::ColumnOrdinalMismatch,
                table,
                Some(e.name),
                decimal(e.ordinal as nat),
                decimal(a.ordinal as nat),
            ),
        ]
    } else {
        Seq::empty()
    }) + (if e.type_family != a.type_family {
        seq![
            diff(
                DifferenceCode::TypeFamilyMismatch,
                table,
                Some(e.name),
                e.type_family,
                a.type_family,
            ),
        ]
    } else {
        Seq::empty()
    }) + (if e.nullable != a.nullable {
        seq![
            diff(
                DifferenceCode::NullabilityMismatch,
                table,
                Some(e.name),
                bool_text(e.nullable),
                bool_text(a.nullable),
            ),
        ]
    } else {
        Seq::empty()
    })
}

/// The first position at or after `i` of a column named `name`.
pub open spec fn find_column(cs: Seq<ColumnView>, name: Seq<char>, i: int) -> Option<int>
    decreases cs.len() - i,
{
    if i < 0 || i >= cs.len() {
        None
    } else if cs[i].name == name {
        Some(i)
    } else {
        find_column(cs, name, i + 1)
    }
}

/// The first position at or after `i` of a table with key (`schema`, `name`).
pub open spec fn find_table(ts: Seq<TableView>, schema: Seq<char>, name: Seq<char>, i: int) -> Option<
    int,
>
    decreases ts.len() - i,
{
    if i < 0 || i >= ts.len() {
        None
    } else if ts[i].schema == schema && ts[i].name == name {
        Some(i)
    } else {
        find_table(ts, schema, name, i + 1)
    }
}

/// Differences for the expected columns from position `i` on.
pub open spec fn expected_column_diffs(
    table: Seq<char>,
    ecs: Seq<ColumnView>,
    acs: Seq<ColumnView>,
    i: int,
) -> Seq<DifferenceView>
    decreases ecs.len() - i,
{
    if i < 0 || i >= ecs.len() {
        Seq::empty()
    } else {
        (match find_column(acs, ecs[i].name, 0) {
            Some(j) => column_diffs(table, ecs[i], acs[j]),
            None => seq![
                diff(
                    DifferenceCode::MissingColumn,
                    table,
                    Some(ecs[i].name),
                    "present"@,
                    "missing"@,
                ),
            ],
        }) + expected_column_diffs(table, ecs, acs, i + 1)
    }
}

/// Differences for the actual columns, from position `i` on, that the
/// expected table lacks.
pub open spec fn extra_column_diffs(
    table: Seq<char>,
    ecs: Seq<ColumnView>,
    acs: Seq<ColumnView>,
    i: int,
) -> Seq<DifferenceView>
    decreases acs.len() - i,
{
    if i < 0 || i >= acs.len() {
        Seq::empty()
    } else {
        (if find_column(ecs, acs[i].name, 0) is None {
            seq![
                diff(
                    DifferenceCode::ExtraColumn,
                    table,
                    Some(acs[i].name),
                    "missing"@,
                    "present"@,
                ),
            ]
        } else {
            Seq::empty()
        }) + extra_column_diffs(table, ecs, acs, i + 1)
    }
}

/// Column differences in order of column name.
pub open spec fn column_name_order() -> spec_fn(DifferenceView, DifferenceView) -> bool {
    |a: DifferenceView, b: DifferenceView| opt_text_le(a.column, b.column)
}

/// The differences of the columns of two tables: each column's differences
/// (a missing, an extra, or a mismatched column), column by column in
/// ascending order of name.  Each name's differences stay together and in
/// the order that `column_diffs` gives them.
pub open spec fn columns_by_name(q: Seq<char>, ecs: Seq<ColumnView>, acs: Seq<ColumnView>) -> Seq<
    DifferenceView,
> {
    isort(
        expected_column_diffs(q, ecs, acs, 0) + extra_column_diffs(q, ecs, acs, 0),
        column_name_order(),
    )
}

/// Differences between one table as two projections give it: the primary
/// key, then the columns in ascending order of name.
pub open spec fn table_diffs(e: TableView, a: TableView) -> Seq<DifferenceView> {
    let q = qualified(e.schema, e.name);
    (if e.primary_key != a.primary_key {
        seq![
            diff(
                DifferenceCode::PrimaryKeyMismatch,
                q,
                None,
                join(e.primary_key, ","@),
                join(a.primary_key, ","@),
            ),
        ]
    } else {
        Seq::empty()
    }) + columns_by_name(q, e.columns, a.columns)
}

/// Differences for the expected tables from position `i` on.
pub open spec fn expected_table_diffs(es: Seq<TableView>, acts: Seq<TableView>, i: int) -> Seq<
    DifferenceView,
>
    decreases es.len() - i,
{
    if i < 0 || i >= es.len() {
        Seq::empty()
    } else {
        (match find_table(acts, es[i].schema, es[i].name, 0) {
            Some(j) => table_diffs(es[i], acts[j]),
            None => seq![
                diff(
                    DifferenceCode::MissingTable,
                    qualified(es[i].schema, es[i].name),
                    None,
                    "present"@,
                    "missing"@,
                ),
            ],
        }) + expected_table_diffs(es, acts, i + 1)
    }
}

/// Differences for the actual tables, from position `i` on, that the
/// expected projection lacks.
pub open spec fn extra_table_diffs(es: Seq<TableView>, acts: Seq<TableView>, i: int) -> Seq<
    DifferenceView,
>
    decreases acts.len() - i,
{
    if i < 0 || i >= acts.len() {
        Seq::empty()
    } else {
        (if find_table(es, acts[i].schema, acts[i].name, 0) is None {
            seq![
                diff(
                    DifferenceCode::ExtraTable,
                    qualified(acts[i].schema, acts[i].name),
                    None,
                    "missing"@,
                    "present"@,
                ),
            ]
        } else {
            Seq::empty()
        }) + extra_table_diffs(es, acts, i + 1)
    }
}

/// Every difference between two normalized projections, before ordering.
pub open spec fn raw_diffs(e: ProjectionView, a: ProjectionView) -> Seq<DifferenceView> {
    database_diffs(e, a) + expected_table_diffs(e.tables, a.tables, 0) + extra_table_diffs(
        e.tables,
        a.tables,
        0,
    )
}

/// The position of a code in the order of `DifferenceCode`.
pub open spec fn code_rank(c: DifferenceCode) -> int {
    match c {
        DifferenceCode::ColumnOrdinalMismatch => 0,
        DifferenceCode::DatabaseEngineMismatch => 1,
        DifferenceCode::DatabaseSchemaMismatch => 2,
        DifferenceCode::ExtraColumn => 3,
        DifferenceCode::ExtraTable => 4,
        DifferenceCode::MissingColumn => 5,
        DifferenceCode::MissingTable => 6,
        DifferenceCode::NullabilityMismatch => 7,
        DifferenceCode::PrimaryKeyMismatch => 8,
        DifferenceCode::TypeFamilyMismatch => 9,
    }
}

/// `None` first, then text in order.
pub open spec fn opt_text_le(a: Option<Seq<char>>, b: Option<Seq<char>>) -> bool {
    match (a, b) {
        (None, _) => true,
        (Some(_), None) => false,
        (Some(x), Some(y)) => lex_le(x, y),
    }
}

/// Differences in order of (table, column, code).
pub open spec fn diff_order() -> spec_fn(DifferenceView, DifferenceView) -> bool {
    |a: DifferenceView, b: DifferenceView|
        if a.table != b.table {
            lex_le(a.table, b.table)
        } else if a.column != b.column {
            opt_text_le(a.column, b.column)
        } else {
            code_rank(a.code) <= code_rank(b.code)
        }
}

pub open spec fn warning(code: Seq<char>, detail: Seq<char>) -> WarningView {
    WarningView { code, detail }
}

/// Whether some column of the projection has the `vector` family.
pub open spec fn has_vector(p: ProjectionView) -> bool {
    exists|i: int, j: int|
        0 <= i < p.tables.len() && 0 <= j < p.tables[i].columns.len() && #[trigger] p.tables[i].columns[j].type_family
            == "vector"@
}

/// The warnings a comparison always carries, and the vector warning.
pub open spec fn warnings_spec(e: ProjectionView, a: ProjectionView) -> Seq<WarningView> {
    seq![
        warning(
            "constraints-not-proven"@,
            "Generated ORM projections do not prove CHECK constraints or exclusion constraints."@,
        ),
        warning(
            "defaults-not-proven"@,
            "Generated ORM projections do not prove default expressions or generated-column expressions."@,
        ),
        warning(
            "indexes-not-proven"@,
            "Generated ORM projections do not prove every unique, partial, expression, or vector index."@,
        ),
        warning(
            "row-security-not-proven"@,
            "Generated ORM projections do not prove grants, roles, row-level security, or tenant authorization."@,
        ),
    ] + if has_vector(e) || has_vector(a) {
        seq![
            warning(
                "vector-dimensions-not-proven"@,
                "Rust ORM projections usually preserve the vector family but not its configured dimensions; verify dimensions from the catalog and DPM plan."@,
            ),
        ]
    } else {
        Seq::empty()
    }
}

/// The report on two normalized projections.
pub open spec fn report_spec(e: ProjectionView, a: ProjectionView) -> ReportView {
    let d = isort(raw_diffs(e, a), diff_order());
    ReportView {
        schema_version: PARITY_SCHEMA_VERSION,
        expected_source: e.source,
        actual_source: a.source,
        compatible: d.len() == 0,
        differences: d,
        warnings: warnings_spec(e, a),
    }
}

/// What `compare` gives: both projections normalized (the expected one
/// first), then the report on them.
pub open spec fn compare_spec(expected: ProjectionView, actual: ProjectionView) -> Result<
    ReportView,
    ParityError,
> {
    match normalize_spec(expected) {
        Err(e) => Err(e),
        Ok(ne) => match normalize_spec(actual) {
            Err(e) => Err(e),
            Ok(na) => Ok(report_spec(ne, na)),
        },
    }
}

// ---------------------------------------------------------------------
// Executable
// ---------------------------------------------------------------------

fn engine_text(e: DatabaseEngine) -> (r: Vec<char>)
    ensures
        r@ == engine_name(e),
{
    match e {
        DatabaseEngine::PostgreSql => chars_of("PostgreSql"),
        DatabaseEngine::CockroachDb => chars_of("CockroachDb"),
    }
}

fn bool_text_exec(b: bool) -> (r: Vec<char>)
    ensures
        r@ == bool_text(b),
{
    if b {
        chars_of("true")
    } else {
        chars_of("false")
    }
}

fn digit_exec(d: u32) -> (c: char)
    requires
        d < 10,
    ensures
        c == digit(d as nat),
{
    let b: u8 = (d + 48) as u8;
    assert(b as u32 == d + 48);
    b as char
}

/// The decimal notation of `n`.
fn decimal_exec(n: u32) -> (r: Vec<char>)
    ensures
        r@ == decimal(n as nat),
    decreases n,
{
    if n < 10 {
        let mut v: Vec<char> = Vec::new();
        v.push(digit_exec(n));
        assert(v@ =~= seq![digit(n as nat)]);
        v
    } else {
        let mut v = decimal_exec(n / 10);
        v.push(digit_exec(n % 10));
        v
    }
}

/// `schema.table`.
fn qualified_name(schema: &String, table: &String) -> (r: String)
    ensures
        r@ == qualified(schema@, table@),
{
    let q = cat3(text_of(schema).as_slice(), chars_of(".").as_slice(), text_of(table).as_slice());
    string_of(q.as_slice())
}

fn make_diff(
    code: DifferenceCode,
    table: String,
    column: Option<String>,
    expected: Vec<char>,
    actual: Vec<char>,
) -> (d: Difference)
    ensures
        d@ == diff(code, table@, opt_view(column), expected@, actual@),
{
    Difference {
        code,
        table,
        column,
        expected: Some(string_of(expected.as_slice())),
        actual: Some(string_of(actual.as_slice())),
    }
}

fn push_diff(differences: &mut Vec<Difference>, d: Difference)
    ensures
        diffs_view(final(differences)@) == diffs_view(old(differences)@).push(d@),
{
    differences.push(d);
    assert(diffs_view(differences@) =~= diffs_view(old(differences)@).push(d@));
}

/// The texts of `parts` joined by `,`.
fn join_commas(parts: &Vec<String>) -> (r: Vec<char>)
    ensures
        r@ == join(texts(parts@), ","@),
{
    let comma = chars_of(",");
    let mut r: Vec<char> = Vec::new();
    let mut i: usize = 0;
    assert(texts(parts@).subrange(0, 0) =~= Seq::<Seq<char>>::empty());
    while i < parts.len()
        invariant
            i <= parts@.len(),
            comma@ == ","@,
            r@ == join(texts(parts@).subrange(0, i as int), ","@),
        decreases parts.len() - i,
    {
        let ghost pre = texts(parts@).subrange(0, i + 1);
        assert(pre.drop_last() =~= texts(parts@).subrange(0, i as int));
        assert(pre.last() == parts@[i as int]@);
        if i == 0 {
            r = text_of(&parts[i]);
        } else {
            r = cat3(r.as_slice(), comma.as_slice(), text_of(&parts[i]).as_slice());
        }
        i = i + 1;
    }
    assert(texts(parts@).subrange(0, parts@.len() as int) =~= texts(parts@));
    r
}

fn texts_eq(a: &Vec<String>, b: &Vec<String>) -> (r: bool)
    ensures
        r == (texts(a@) == texts(b@)),
{
    if a.len() != b.len() {
        assert(texts(a@).len() != texts(b@).len());
        return false;
    }
    let mut i: usize = 0;
    while i < a.len()
        invariant
            a@.len() == b@.len(),
            i <= a@.len(),
            forall|k: int| 0 <= k < i ==> a@[k]@ == b@[k]@,
        decreases a.len() - i,
    {
        if a[i] != b[i] {
            assert(texts(a@)[i as int] != texts(b@)[i as int]);
            return false;
        }
        i = i + 1;
    }
    assert(texts(a@) =~= texts(b@));
    true
}

fn find_column_exec(cs: &Vec<ColumnProjection>, name: &String) -> (r: Option<usize>)
    ensures
        match r {
            Some(j) => find_column(super::model::columns_view(cs@), name@, 0) == Some(j as int)
                && j < cs@.len(),
            None => find_column(super::model::columns_view(cs@), name@, 0) is None,
        },
{
    let ghost v = super::model::columns_view(cs@);
    let mut i: usize = 0;
    while i < cs.len()
        invariant
            i <= cs@.len(),
            v == super::model::columns_view(cs@),
            find_column(v, name@, 0) == find_column(v, name@, i as int),
        decreases cs.len() - i,
    {
        assert(v[i as int] == cs@[i as int]@);
        if cs[i].name == *name {
            return Some(i);
        }
        i = i + 1;
    }
    None
}

fn find_table_exec(ts: &Vec<TableProjection>, schema: &String, name: &String) -> (r: Option<
    usize,
>)
    ensures
        match r {
            Some(j) => find_table(tables_view(ts@), schema@, name@, 0) == Some(j as int) && j
                < ts@.len(),
            None => find_table(tables_view(ts@), schema@, name@, 0) is None,
        },
{
    let ghost v = tables_view(ts@);
    let mut i: usize = 0;
    while i < ts.len()
        invariant
            i <= ts@.len(),
            v == tables_view(ts@),
            find_table(v, schema@, name@, 0) == find_table(v, schema@, name@, i as int),
        decreases ts.len() - i,
    {
        assert(v[i as int] == ts@[i as int]@);
        if ts[i].schema == *schema && ts[i].name == *name {
            return Some(i);
        }
        i = i + 1;
    }
    None
}

/// Records the differences between one column as two projections give it.
fn compare_column(
    table: &String,
    expected: &ColumnProjection,
    actual: &ColumnProjection,
    differences: &mut Vec<Difference>,
)
    ensures
        diffs_view(final(differences)@) == diffs_view(old(differences)@) + column_diffs(
            table@,
            expected@,
            actual@,
        ),
{
    let ghost start = diffs_view(differences@);
    if expected.ordinal != actual.ordinal {
        push_diff(
            differences,
            make_diff(
                DifferenceCode::ColumnOrdinalMismatch,
                table.clone(),
                Some(expected.name.clone()),
                decimal_exec(expected.ordinal),
                decimal_exec(actual.ordinal),
            ),
        );
    }
    let ghost mid1 = diffs_view(differences@);
    if expected.type_family != actual.type_family {
        push_diff(
            differences,
            make_diff(
                DifferenceCode::TypeFamilyMismatch,
                table.clone(),
                Some(expected.name.clone()),
                text_of(&expected.type_family),
                text_of(&actual.type_family),
            ),
        );
    }
    let ghost mid2 = diffs_view(differences@);
    if expected.nullable != actual.nullable {
        push_diff(
            differences,
            make_diff(
                DifferenceCode::NullabilityMismatch,
                table.clone(),
                Some(expected.name.clone()),
                bool_text_exec(expected.nullable),
                bool_text_exec(actual.nullable),
            ),
        );
    }
    assert(diffs_view(differences@) =~= start + column_diffs(table@, expected@, actual@));
}

/// Records the differences between one table as two projections give it.
fn compare_table(
    expected: &TableProjection,
    actual: &TableProjection,
    differences: &mut Vec<Difference>,
)
    ensures
        diffs_view(final(differences)@) == diffs_view(old(differences)@) + table_diffs(
            expected@,
            actual@,
        ),
{
    let ghost start = diffs_view(differences@);
    let table = qualified_name(&expected.schema, &expected.name);
    if !texts_eq(&expected.primary_key, &actual.primary_key) {
        push_diff(
            differences,
            make_diff(
                DifferenceCode::PrimaryKeyMismatch,
                table.clone(),
                None,
                join_commas(&expected.primary_key),
                join_commas(&actual.primary_key),
            ),
        );
    }
    let mut cols: Vec<Difference> = Vec::new();
    let ghost after_pk = diffs_view(cols@);
    assert(after_pk =~= Seq::<DifferenceView>::empty());
    let ghost ecs = expected@.columns;
    let ghost acs = actual@.columns;
    let mut i: usize = 0;
    while i < expected.columns.len()
        invariant
            i <= expected.columns@.len(),
            ecs == expected@.columns,
            acs == actual@.columns,
            table@ == qualified(expected@.schema, expected@.name),
            after_pk + expected_column_diffs(table@, ecs, acs, 0) == diffs_view(cols@)
                + expected_column_diffs(table@, ecs, acs, i as int),
        decreases expected.columns.len() - i,
    {
        let ghost before = diffs_view(cols@);
        assert(ecs[i as int] == expected.columns@[i as int]@);
        match find_column_exec(&actual.columns, &expected.columns[i].name) {
            Some(j) => {
                assert(acs[j as int] == actual.columns@[j as int]@);
                compare_column(&table, &expected.columns[i], &actual.columns[j], &mut cols);
            },
            None => {
                push_diff(
                    &mut cols,
                    make_diff(
                        DifferenceCode::MissingColumn,
                        table.clone(),
                        Some(expected.columns[i].name.clone()),
                        chars_of("present"),
                        chars_of("missing"),
                    ),
                );
            },
        }
        assert(before + expected_column_diffs(table@, ecs, acs, i as int) =~= diffs_view(
            cols@,
        ) + expected_column_diffs(table@, ecs, acs, i + 1));
        i = i + 1;
    }
    let ghost after_expected = diffs_view(cols@);
    let mut k: usize = 0;
    while k < actual.columns.len()
        invariant
            k <= actual.columns@.len(),
            ecs == expected@.columns,
            acs == actual@.columns,
            table@ == qualified(expected@.schema, expected@.name),
            after_expected + extra_column_diffs(table@, ecs, acs, 0) == diffs_view(cols@)
                + extra_column_diffs(table@, ecs, acs, k as int),
        decreases actual.columns.len() - k,
    {
        let ghost before = diffs_view(cols@);
        assert(acs[k as int] == actual.columns@[k as int]@);
        if find_column_exec(&expected.columns, &actual.columns[k].name).is_none() {
            push_diff(
                &mut cols,
                make_diff(
                    DifferenceCode::ExtraColumn,
                    table.clone(),
                    Some(actual.columns[k].name.clone()),
                    chars_of("missing"),
                    chars_of("present"),
                ),
            );
        }
        assert(before + extra_column_diffs(table@, ecs, acs, k as int) =~= diffs_view(
            cols@,
        ) + extra_column_diffs(table@, ecs, acs, k + 1));
        k = k + 1;
    }
    assert(expected_column_diffs(table@, ecs, acs, ecs.len() as int) =~= Seq::<
        DifferenceView,
    >::empty());
    assert(extra_column_diffs(table@, ecs, acs, acs.len() as int) =~= Seq::<
        DifferenceView,
    >::empty());
    assert(diffs_view(cols@) =~= expected_column_diffs(table@, ecs, acs, 0) + extra_column_diffs(
        table@,
        ecs,
        acs,
        0,
    ));
    let mut sorted = sort_by_column(cols);
    let ghost before_columns = diffs_view(differences@);
    differences.append(&mut sorted);
    assert(diffs_view(differences@) =~= before_columns + columns_by_name(table@, ecs, acs));
    assert(diffs_view(differences@) =~= start + table_diffs(expected@, actual@));
}

fn code_rank_exec(c: DifferenceCode) -> (r: u8)
    ensures
        r == code_rank(c),
{
    match c {
        DifferenceCode::ColumnOrdinalMismatch => 0,
        DifferenceCode::DatabaseEngineMismatch => 1,
        DifferenceCode::DatabaseSchemaMismatch => 2,
        DifferenceCode::ExtraColumn => 3,
        DifferenceCode::ExtraTable => 4,
        DifferenceCode::MissingColumn => 5,
        DifferenceCode::MissingTable => 6,
        DifferenceCode::NullabilityMismatch => 7,
        DifferenceCode::PrimaryKeyMismatch => 8,
        DifferenceCode::TypeFamilyMismatch => 9,
    }
}

fn opt_text_eq(a: &Option<String>, b: &Option<String>) -> (r: bool)
    ensures
        r == (opt_view(*a) == opt_view(*b)),
{
    match (a, b) {
        (None, None) => true,
        (Some(x), Some(y)) => *x == *y,
        _ => false,
    }
}

fn opt_text_le_exec(a: &Option<String>, b: &Option<String>) -> (r: bool)
    ensures
        r == opt_text_le(opt_view(*a), opt_view(*b)),
{
    match (a, b) {
        (None, _) => true,
        (Some(_), None) => false,
        (Some(x), Some(y)) => lex_le_exec(text_of(x).as_slice(), text_of(y).as_slice()),
    }
}

/// Whether difference `a` comes at or before `b` in (table, column, code) order.
fn diff_le(a: &Difference, b: &Difference) -> (r: bool)
    ensures
        r == (diff_order())(a@, b@),
{
    if a.table != b.table {
        lex_le_exec(text_of(&a.table).as_slice(), text_of(&b.table).as_slice())
    } else if !opt_text_eq(&a.column, &b.column) {
        opt_text_le_exec(&a.column, &b.column)
    } else {
        code_rank_exec(a.code) <= code_rank_exec(b.code)
    }
}

/// Differences sorted by (table, column, code) (insertion sort).
fn sort_differences(v: Vec<Difference>) -> (r: Vec<Difference>)
    ensures
        diffs_view(r@) == isort(diffs_view(v@), diff_order()),
{
    let ghost input = diffs_view(v@);
    let ghost n = v@.len() as int;
    let mut rest = v;
    let mut out: Vec<Difference> = Vec::new();
    assert(input.subrange(0, 0) =~= Seq::<DifferenceView>::empty());
    assert(input.subrange(0, n) =~= input);
    assert(diffs_view(out@) =~= Seq::<DifferenceView>::empty());
    while rest.len() > 0
        invariant
            rest@.len() <= n,
            n == input.len(),
            diffs_view(rest@) == input.subrange(n - rest@.len(), n),
            diffs_view(out@) == isort(input.subrange(0, n - rest@.len()), diff_order()),
        decreases rest@.len(),
    {
        let ghost k = n - rest@.len();
        let ghost rv = diffs_view(rest@);
        let x = rest.remove(0);
        assert(diffs_view(rest@) =~= rv.drop_first());
        assert(rv[0] == x@);
        assert(rv.drop_first() =~= input.subrange(k + 1, n));
        assert(x@ == input[k]);
        let ghost ov = diffs_view(out@);
        let mut j: usize = 0;
        while j < out.len() && diff_le(&out[j], &x)
            invariant
                j <= out@.len(),
                ov == diffs_view(out@),
                insert_pos(ov, x@, diff_order(), 0) == insert_pos(ov, x@, diff_order(), j as int),
            decreases out.len() - j,
        {
            j = j + 1;
        }
        out.insert(j, x);
        proof {
            assert(diffs_view(out@) =~= ov.insert(j as int, x@));
            let pre = input.subrange(0, k + 1);
            assert(pre.drop_last() =~= input.subrange(0, k));
            assert(pre.last() == x@);
        }
    }
    assert(input.subrange(0, n) =~= input);
    out
}

/// Differences sorted by column name, stably (insertion sort).
fn sort_by_column(v: Vec<Difference>) -> (r: Vec<Difference>)
    ensures
        diffs_view(r@) == isort(diffs_view(v@), column_name_order()),
{
    let ghost input = diffs_view(v@);
    let ghost n = v@.len() as int;
    let mut rest = v;
    let mut out: Vec<Difference> = Vec::new();
    assert(input.subrange(0, 0) =~= Seq::<DifferenceView>::empty());
    assert(input.subrange(0, n) =~= input);
    assert(diffs_view(out@) =~= Seq::<DifferenceView>::empty());
    while rest.len() > 0
        invariant
            rest@.len() <= n,
            n == input.len(),
            diffs_view(rest@) == input.subrange(n - rest@.len(), n),
            diffs_view(out@) == isort(input.subrange(0, n - rest@.len()), column_name_order()),
        decreases rest@.len(),
    {
        let ghost k = n - rest@.len();
        let ghost rv = diffs_view(rest@);
        let x = rest.remove(0);
        assert(diffs_view(rest@) =~= rv.drop_first());
        assert(rv[0] == x@);
        assert(rv.drop_first() =~= input.subrange(k + 1, n));
        assert(x@ == input[k]);
        let ghost ov = diffs_view(out@);
        let mut j: usize = 0;
        while j < out.len() && opt_text_le_exec(&out[j].column, &x.column)
            invariant
                j <= out@.len(),
                ov == diffs_view(out@),
                insert_pos(ov, x@, column_name_order(), 0) == insert_pos(ov, x@, column_name_order(), j as int),
            decreases out.len() - j,
        {
            j = j + 1;
        }
        out.insert(j, x);
        proof {
            assert(diffs_view(out@) =~= ov.insert(j as int, x@));
            let pre = input.subrange(0, k + 1);
            assert(pre.drop_last() =~= input.subrange(0, k));
            assert(pre.last() == x@);
        }
    }
    assert(input.subrange(0, n) =~= input);
    out
}

fn has_vector_exec(p: &SchemaProjection) -> (r: bool)
    ensures
        r == has_vector(p@),
{
    let mut i: usize = 0;
    while i < p.tables.len()
        invariant
            i <= p.tables@.len(),
            forall|a: int, b: int|
                0 <= a < i && 0 <= b < p@.tables[a].columns.len() ==> #[trigger] p@.tables[a].columns[b].type_family
                    != "vector"@,
        decreases p.tables.len() - i,
    {
        let t = &p.tables[i];
        assert(p@.tables[i as int] == t@);
        let mut j: usize = 0;
        while j < t.columns.len()
            invariant
                j <= t.columns@.len(),
                i < p.tables@.len(),
                p@.tables[i as int] == t@,
                forall|a: int, b: int|
                    0 <= a < i && 0 <= b < p@.tables[a].columns.len() ==> #[trigger] p@.tables[a].columns[b].type_family
                        != "vector"@,
                forall|b: int| 0 <= b < j ==> #[trigger] t@.columns[b].type_family != "vector"@,
            decreases t.columns.len() - j,
        {
            assert(t@.columns[j as int] == t.columns@[j as int]@);
            if is_lit(text_of(&t.columns[j].type_family).as_slice(), "vector") {
                assert(p@.tables[i as int].columns[j as int].type_family == "vector"@);
                return true;
            }
            j = j + 1;
        }
        i = i + 1;
    }
    false
}

fn push_warning(ws: &mut Vec<ParityWarning>, code: &str, detail: &str)
    ensures
        warnings_view(final(ws)@) == warnings_view(old(ws)@).push(warning(code@, detail@)),
{
    ws.push(ParityWarning { code: code.to_owned(), detail: detail.to_owned() });
    assert(warnings_view(ws@) =~= warnings_view(old(ws)@).push(warning(code@, detail@)));
}

fn warnings_exec(e: &SchemaProjection, a: &SchemaProjection) -> (r: Vec<ParityWarning>)
    ensures
        warnings_view(r@) == warnings_spec(e@, a@),
{
    let mut ws: Vec<ParityWarning> = Vec::new();
    push_warning(
        &mut ws,
        "constraints-not-proven",
        "Generated ORM projections do not prove CHECK constraints or exclusion constraints.",
    );
    push_warning(
        &mut ws,
        "defaults-not-proven",
        "Generated ORM projections do not prove default expressions or generated-column expressions.",
    );
    push_warning(
        &mut ws,
        "indexes-not-proven",
        "Generated ORM projections do not prove every unique, partial, expression, or vector index.",
    );
    push_warning(
        &mut ws,
        "row-security-not-proven",
        "Generated ORM projections do not prove grants, roles, row-level security, or tenant authorization.",
    );
    if has_vector_exec(e) || has_vector_exec(a) {
        push_warning(
            &mut ws,
            "vector-dimensions-not-proven",
            "Rust ORM projections usually preserve the vector family but not its configured dimensions; verify dimensions from the catalog and DPM plan.",
        );
    }
    assert(warnings_view(ws@) =~= warnings_spec(e@, a@));
    ws
}

/// Records the differences between two normalized projections, unordered.
fn collect_differences(expected: &SchemaProjection, actual: &SchemaProjection) -> (r: Vec<
    Difference,
>)
    ensures
        diffs_view(r@) == raw_diffs(expected@, actual@),
{
    let mut differences: Vec<Difference> = Vec::new();
    if expected.database.engine != actual.database.engine {
        push_diff(
            &mut differences,
            make_diff(
                DifferenceCode::DatabaseEngineMismatch,
                "*".to_owned(),
                None,
                engine_text(expected.database.engine),
                engine_text(actual.database.engine),
            ),
        );
    }
    if expected.database.schema != actual.database.schema {
        push_diff(
            &mut differences,
            make_diff(
                DifferenceCode::DatabaseSchemaMismatch,
                "*".to_owned(),
                None,
                text_of(&expected.database.schema),
                text_of(&actual.database.schema),
            ),
        );
    }
    assert(diffs_view(differences@) =~= database_diffs(expected@, actual@));
    let ghost base = diffs_view(differences@);
    let ghost es = expected@.tables;
    let ghost acts = actual@.tables;
    let mut i: usize = 0;
    while i < expected.tables.len()
        invariant
            i <= expected.tables@.len(),
            es == expected@.tables,
            acts == actual@.tables,
            base + expected_table_diffs(es, acts, 0) == diffs_view(differences@)
                + expected_table_diffs(es, acts, i as int),
        decreases expected.tables.len() - i,
    {
        let ghost before = diffs_view(differences@);
        let t = &expected.tables[i];
        assert(es[i as int] == t@);
        match find_table_exec(&actual.tables, &t.schema, &t.name) {
            Some(j) => {
                assert(acts[j as int] == actual.tables@[j as int]@);
                compare_table(t, &actual.tables[j], &mut differences);
            },
            None => {
                push_diff(
                    &mut differences,
                    make_diff(
                        DifferenceCode::MissingTable,
                        qualified_name(&t.schema, &t.name),
                        None,
                        chars_of("present"),
                        chars_of("missing"),
                    ),
                );
            },
        }
        assert(before + expected_table_diffs(es, acts, i as int) =~= diffs_view(differences@)
            + expected_table_diffs(es, acts, i + 1));
        i = i + 1;
    }
    let ghost mid = diffs_view(differences@);
    let mut k: usize = 0;
    while k < actual.tables.len()
        invariant
            k <= actual.tables@.len(),
            es == expected@.tables,
            acts == actual@.tables,
            mid + extra_table_diffs(es, acts, 0) == diffs_view(differences@) + extra_table_diffs(
                es,
                acts,
                k as int,
            ),
        decreases actual.tables.len() - k,
    {
        let ghost before = diffs_view(differences@);
        let t = &actual.tables[k];
        assert(acts[k as int] == t@);
        if find_table_exec(&expected.tables, &t.schema, &t.name).is_none() {
            push_diff(
                &mut differences,
                make_diff(
                    DifferenceCode::ExtraTable,
                    qualified_name(&t.schema, &t.name),
                    None,
                    chars_of("missing"),
                    chars_of("present"),
                ),
            );
        }
        assert(before + extra_table_diffs(es, acts, k as int) =~= diffs_view(differences@)
            + extra_table_diffs(es, acts, k + 1));
        k = k + 1;
    }
    assert(expected_table_diffs(es, acts, es.len() as int) =~= Seq::<DifferenceView>::empty());
    assert(extra_table_diffs(es, acts, acts.len() as int) =~= Seq::<DifferenceView>::empty());
    assert(diffs_view(differences@) =~= raw_diffs(expected@, actual@));
    differences
}

/// Compares two projections of one database schema.
///
/// Both are normalized first (the expected one first; the first error
/// stops).  The report lists every structural difference in order of
/// (table, column, code), is compatible exactly when there is none, and
/// carries the warnings for what a structural comparison cannot prove.
pub fn compare(expected: SchemaProjection, actual: SchemaProjection) -> (r: Result<
    ParityReport,
    ParityError,
>)
    ensures
        res_view(r) == compare_spec(expected@, actual@),
{
    let expected = match expected.normalize() {
        Ok(p) => p,
        Err(e) => return Err(e),
    };
    let actual = match actual.normalize() {
        Ok(p) => p,
        Err(e) => return Err(e),
    };
    let raw = collect_differences(&expected, &actual);
    let differences = sort_differences(raw);
    let warnings = warnings_exec(&expected, &actual);
    let compatible = differences.len() == 0;
    Ok(
        ParityReport {
            schema_version: PARITY_SCHEMA_VERSION,
            expected_source: expected.source,
            actual_source: actual.source,
            compatible,
            differences,
            warnings,
        },
    )
}

} // verus!
