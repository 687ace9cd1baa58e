//! Properties of normalization and comparison that hold for every input.
use vstd::prelude::*;
use vstd::relations::sorted_by;

use super::compare::{
    column_diffs, column_name_order, columns_by_name, compare_spec, decimal, digit, has_vector, database_diffs, diff_order, expected_column_diffs,
    expected_table_diffs, extra_column_diffs, extra_table_diffs, find_column, find_table,
    opt_text_le, raw_diffs, table_diffs, warnings_spec, DifferenceView,
};
use super::diesel::{
    diesel_schema_spec, diesel_tables_spec, is_table_macro_start_spec, lookup_name, nullable_spec,
    resolve_keys, table_macro_spec,
};
use super::fixpoint::{
    lemma_normalize_fixed, lemma_trim_idempotent, lemma_type_family_fixed, lemma_type_names,
};
use super::mirror::{lemma_isort_map, lemma_raw_diffs_mirror, lemma_raw_diffs_permuted, mirror};
use super::model::{
    compact_type, required_text_spec, type_family_spec, ColumnView, DatabaseEngine, ProjectionSource, ProjectionView, TableView,
    PARITY_SCHEMA_VERSION,
};
use super::normalize::{
    column_order, columns_spec, has_column, has_ordinal, has_table, map_enter, map_key, native_spec,
    primary_key_spec,
    next_column_spec, next_table_spec, normalize_spec, table_map_spec, table_order, tables_spec,
};
use super::lexical::{peel_wrapper, strip_raw};
use super::seaorm::{
    column_type_spec, entity_files_spec, head_spec, peel_parenthesized_spec, quoted_scan,
    seaorm_sources_spec,
};
use super::ParityError;
use crate::order::{
    has_key_in, insert_pos, isort, key_order, lemma_sorted_same_keys, lemma_isort_contains, lemma_isort_sorted, lemma_isort_unique,
    lemma_lex_le_antisym, lemma_lex_le_refl, lemma_lex_le_total, lemma_lex_le_trans, lex_le,
    total_preorder, unique_by,
};
use crate::text::{is_ws, lines, starts_with, trim};

verus! {

pub proof fn lemma_column_order_total()
    ensures
        total_preorder(column_order()),
{
}

pub proof fn lemma_table_order_total()
    ensures
        total_preorder(table_order()),
{
    let le = table_order();
    assert forall|x: TableView, y: TableView| #[trigger] le(x, y) || le(y, x) by {
        lemma_lex_le_total(x.schema, y.schema);
        lemma_lex_le_total(x.name, y.name);
    }
    assert forall|x: TableView, y: TableView, z: TableView|
        #[trigger] le(x, y) && #[trigger] le(y, z) implies le(x, z) by {
        if x.schema == y.schema && y.schema == z.schema {
            lemma_lex_le_trans(x.name, y.name, z.name);
        } else if x.schema == y.schema {
        } else if y.schema == z.schema {
        } else if x.schema == z.schema {
            lemma_lex_le_antisym(x.schema, y.schema);
        } else {
            lemma_lex_le_trans(x.schema, y.schema, z.schema);
        }
    }
}

proof fn lemma_opt_text_le(a: Option<Seq<char>>, b: Option<Seq<char>>, c: Option<Seq<char>>)
    ensures
        opt_text_le(a, b) || opt_text_le(b, a),
        opt_text_le(a, b) && opt_text_le(b, c) ==> opt_text_le(a, c),
        opt_text_le(a, b) && opt_text_le(b, a) ==> a == b,
{
    match (a, b) {
        (Some(x), Some(y)) => {
            lemma_lex_le_total(x, y);
            if opt_text_le(a, b) && opt_text_le(b, a) {
                lemma_lex_le_antisym(x, y);
            }
        },
        _ => {},
    }
    match (a, b, c) {
        (Some(x), Some(y), Some(z)) => {
            if lex_le(x, y) && lex_le(y, z) {
                lemma_lex_le_trans(x, y, z);
            }
        },
        _ => {},
    }
}

pub proof fn lemma_diff_order_total()
    ensures
        total_preorder(diff_order()),
{
    let le = diff_order();
    assert forall|x: DifferenceView, y: DifferenceView| #[trigger] le(x, y) || le(y, x) by {
        lemma_lex_le_total(x.table, y.table);
        lemma_opt_text_le(x.column, y.column, y.column);
    }
    assert forall|x: DifferenceView, y: DifferenceView, z: DifferenceView|
        #[trigger] le(x, y) && #[trigger] le(y, z) implies le(x, z) by {
        lemma_opt_text_le(x.column, y.column, z.column);
        lemma_opt_text_le(x.column, z.column, y.column);
        lemma_opt_text_le(y.column, x.column, z.column);
        if x.table != y.table && y.table != z.table && x.table == z.table {
            lemma_lex_le_antisym(x.table, y.table);
        } else if x.table != y.table && y.table != z.table {
            lemma_lex_le_trans(x.table, y.table, z.table);
        }
    }
}

/// The differences of every report are listed in (table, column, code) order.
pub proof fn law_differences_ordered(expected: ProjectionView, actual: ProjectionView)
    ensures
        compare_spec(expected, actual) matches Ok(r) ==> sorted_by(r.differences, diff_order()),
{
    if let Ok(r) = compare_spec(expected, actual) {
        lemma_diff_order_total();
        let ne = normalize_spec(expected)->Ok_0;
        let na = normalize_spec(actual)->Ok_0;
        lemma_isort_sorted(super::compare::raw_diffs(ne, na), diff_order());
    }
}

/// A report is compatible exactly when it lists no difference.
pub proof fn law_compatible_iff_no_differences(expected: ProjectionView, actual: ProjectionView)
    ensures
        compare_spec(expected, actual) matches Ok(r) ==> (r.compatible <==> r.differences.len()
            == 0),
{
}

pub open spec fn column_name_key() -> spec_fn(ColumnView) -> Seq<char> {
    |c: ColumnView| c.name
}

pub open spec fn column_ordinal_key() -> spec_fn(ColumnView) -> u32 {
    |c: ColumnView| c.ordinal
}

pub open spec fn table_key() -> spec_fn(TableView) -> (Seq<char>, Seq<char>) {
    |t: TableView| (t.schema, t.name)
}

/// A table in normal form: no two columns share a name or an ordinal, and
/// the columns are in ordinal order.
pub open spec fn table_normal(t: TableView) -> bool {
    &&& unique_by(t.columns, column_name_key())
    &&& unique_by(t.columns, column_ordinal_key())
    &&& sorted_by(t.columns, column_order())
}

/// A projection in normal form: no two tables share a (schema, name) key,
/// the tables are in key order, and every table is in normal form.
pub open spec fn projection_normal(p: ProjectionView) -> bool {
    &&& unique_by(p.tables, table_key())
    &&& sorted_by(p.tables, table_order())
    &&& forall|i: int| 0 <= i < p.tables.len() ==> table_normal(#[trigger] p.tables[i])
}

proof fn lemma_columns_unique(cs: Seq<ColumnView>, acc: Seq<ColumnView>)
    requires
        unique_by(acc, column_name_key()),
        unique_by(acc, column_ordinal_key()),
    ensures
        columns_spec(cs, acc) matches Ok(r) ==> unique_by(r, column_name_key()) && unique_by(
            r,
            column_ordinal_key(),
        ),
    decreases cs.len(),
{
    if cs.len() > 0 {
        if let Ok(c) = next_column_spec(cs[0], acc) {
            let acc2 = acc.push(c);
            assert(!has_ordinal(acc, c.ordinal) && !has_column(acc, c.name));
            assert forall|i: int, j: int| 0 <= i < j < acc2.len() implies (column_name_key())(
                #[trigger] acc2[i],
            ) != (column_name_key())(#[trigger] acc2[j]) by {
                if j == acc.len() {
                    assert(acc2[i] == acc[i]);
                }
            }
            assert forall|i: int, j: int| 0 <= i < j < acc2.len() implies (column_ordinal_key())(
                #[trigger] acc2[i],
            ) != (column_ordinal_key())(#[trigger] acc2[j]) by {
                if j == acc.len() {
                    assert(acc2[i] == acc[i]);
                }
            }
            lemma_columns_unique(cs.drop_first(), acc2);
        }
    }
}

proof fn lemma_next_table_normal(t: TableView, acc: Seq<TableView>)
    ensures
        next_table_spec(t, acc) matches Ok(t2) ==> table_normal(t2) && !has_table(
            acc,
            t2.schema,
            t2.name,
        ),
{
    if let Ok(t2) = next_table_spec(t, acc) {
        let cs = columns_spec(t.columns, Seq::empty())->Ok_0;
        lemma_columns_unique(t.columns, Seq::empty());
        lemma_isort_unique(cs, column_order(), column_name_key());
        lemma_isort_unique(cs, column_order(), column_ordinal_key());
        lemma_column_order_total();
        lemma_isort_sorted(cs, column_order());
    }
}

proof fn lemma_tables_normal(ts: Seq<TableView>, acc: Seq<TableView>)
    requires
        unique_by(acc, table_key()),
        forall|i: int| 0 <= i < acc.len() ==> table_normal(#[trigger] acc[i]),
    ensures
        tables_spec(ts, acc) matches Ok(r) ==> unique_by(r, table_key()) && forall|i: int|
            0 <= i < r.len() ==> table_normal(#[trigger] r[i]),
    decreases ts.len(),
{
    if ts.len() > 0 {
        lemma_next_table_normal(ts[0], acc);
        if let Ok(t2) = next_table_spec(ts[0], acc) {
            let acc2 = acc.push(t2);
            assert forall|i: int, j: int| 0 <= i < j < acc2.len() implies (table_key())(
                #[trigger] acc2[i],
            ) != (table_key())(#[trigger] acc2[j]) by {
                if j == acc.len() {
                    assert(acc2[i] == acc[i]);
                    if acc[i].schema == t2.schema && acc[i].name == t2.name {
                        assert(has_table(acc, t2.schema, t2.name));
                    }
                }
            }
            assert forall|i: int| 0 <= i < acc2.len() implies table_normal(#[trigger] acc2[i]) by {
                if i < acc.len() {
                    assert(acc2[i] == acc[i]);
                }
            }
            lemma_tables_normal(ts.drop_first(), acc2);
        }
    }
}

/// Normalization yields normal form: tables with distinct keys in
/// (schema, name) order, and in each table columns with distinct names and
/// ordinals in ordinal order.
pub proof fn law_normalize_yields_normal_form(p: ProjectionView)
    ensures
        normalize_spec(p) matches Ok(n) ==> projection_normal(n),
{
    if let Ok(n) = normalize_spec(p) {
        let ts = tables_spec(p.tables, Seq::empty())->Ok_0;
        lemma_tables_normal(p.tables, Seq::empty());
        lemma_isort_unique(ts, table_order(), table_key());
        lemma_table_order_total();
        lemma_isort_sorted(ts, table_order());
        assert forall|i: int| 0 <= i < n.tables.len() implies table_normal(#[trigger] n.tables[i]) by {
            lemma_isort_contains(ts, table_order(), n.tables[i]);
            assert(n.tables.contains(n.tables[i]));
            let m = choose|m: int| 0 <= m < ts.len() && ts[m] == n.tables[i];
        }
    }
}

pub(crate) proof fn lemma_find_table_self(ts: Seq<TableView>, i: int, j: int)
    requires
        unique_by(ts, table_key()),
        0 <= j <= i < ts.len(),
    ensures
        find_table(ts, ts[i].schema, ts[i].name, j) == Some(i),
    decreases i - j,
{
    if j < i {
        assert((table_key())(ts[j]) != (table_key())(ts[i]));
        lemma_find_table_self(ts, i, j + 1);
    }
}

pub(crate) proof fn lemma_find_column_self(cs: Seq<ColumnView>, i: int, j: int)
    requires
        unique_by(cs, column_name_key()),
        0 <= j <= i < cs.len(),
    ensures
        find_column(cs, cs[i].name, j) == Some(i),
    decreases i - j,
{
    if j < i {
        assert((column_name_key())(cs[j]) != (column_name_key())(cs[i]));
        lemma_find_column_self(cs, i, j + 1);
    }
}

proof fn lemma_columns_self(q: Seq<char>, cs: Seq<ColumnView>, k: int)
    requires
        unique_by(cs, column_name_key()),
        0 <= k,
    ensures
        expected_column_diffs(q, cs, cs, k) == Seq::<DifferenceView>::empty(),
        extra_column_diffs(q, cs, cs, k) == Seq::<DifferenceView>::empty(),
    decreases cs.len() - k,
{
    if k < cs.len() {
        lemma_find_column_self(cs, k, 0);
        lemma_columns_self(q, cs, k + 1);
        assert(column_diffs(q, cs[k], cs[k]) =~= Seq::<DifferenceView>::empty());
        assert(expected_column_diffs(q, cs, cs, k) =~= Seq::<DifferenceView>::empty());
        assert(extra_column_diffs(q, cs, cs, k) =~= Seq::<DifferenceView>::empty());
    }
}

proof fn lemma_tables_self(ts: Seq<TableView>, i: int)
    requires
        unique_by(ts, table_key()),
        forall|k: int| 0 <= k < ts.len() ==> table_normal(#[trigger] ts[k]),
        0 <= i,
    ensures
        expected_table_diffs(ts, ts, i) == Seq::<DifferenceView>::empty(),
        extra_table_diffs(ts, ts, i) == Seq::<DifferenceView>::empty(),
    decreases ts.len() - i,
{
    if i < ts.len() {
        lemma_find_table_self(ts, i, 0);
        lemma_tables_self(ts, i + 1);
        assert(table_normal(ts[i]));
        lemma_columns_self(super::compare::qualified(ts[i].schema, ts[i].name), ts[i].columns, 0);
        assert(table_diffs(ts[i], ts[i]) =~= Seq::<DifferenceView>::empty());
        assert(expected_table_diffs(ts, ts, i) =~= Seq::<DifferenceView>::empty());
        assert(extra_table_diffs(ts, ts, i) =~= Seq::<DifferenceView>::empty());
    }
}

/// Every projection that normalizes is compatible with itself: comparing
/// it with itself reports no difference.
pub proof fn law_self_parity(p: ProjectionView)
    requires
        normalize_spec(p) is Ok,
    ensures
        compare_spec(p, p) matches Ok(r) && r.compatible && r.differences.len() == 0,
{
    let n = normalize_spec(p)->Ok_0;
    law_normalize_yields_normal_form(p);
    lemma_tables_self(n.tables, 0);
    assert(database_diffs(n, n) =~= Seq::<DifferenceView>::empty());
    assert(raw_diffs(n, n) =~= Seq::<DifferenceView>::empty());
    assert(isort(raw_diffs(n, n), diff_order()) =~= Seq::<DifferenceView>::empty());
}

pub(crate) proof fn lemma_find_column_some(cs: Seq<ColumnView>, name: Seq<char>, i: int)
    ensures
        find_column(cs, name, i) matches Some(j) ==> 0 <= j < cs.len() && cs[j].name == name,
    decreases cs.len() - i,
{
    if 0 <= i < cs.len() && cs[i].name != name {
        lemma_find_column_some(cs, name, i + 1);
    }
}

pub(crate) proof fn lemma_find_table_some(ts: Seq<TableView>, schema: Seq<char>, name: Seq<char>, i: int)
    ensures
        find_table(ts, schema, name, i) matches Some(j) ==> 0 <= j < ts.len() && ts[j].schema
            == schema && ts[j].name == name,
    decreases ts.len() - i,
{
    if 0 <= i < ts.len() && !(ts[i].schema == schema && ts[i].name == name) {
        lemma_find_table_some(ts, schema, name, i + 1);
    }
}

/// Column `m` of `xs` has a counterpart in `ys` that agrees with it.
spec fn column_matched(q: Seq<char>, xs: Seq<ColumnView>, ys: Seq<ColumnView>, m: int) -> bool {
    match find_column(ys, xs[m].name, 0) {
        Some(j) => column_diffs(q, xs[m], ys[j]).len() == 0,
        None => false,
    }
}

proof fn lemma_expected_columns_empty(q: Seq<char>, xs: Seq<ColumnView>, ys: Seq<ColumnView>, k: int)
    requires
        0 <= k,
    ensures
        expected_column_diffs(q, xs, ys, k).len() == 0 <==> forall|m: int|
            k <= m < xs.len() ==> #[trigger] column_matched(q, xs, ys, m),
    decreases xs.len() - k,
{
    if k < xs.len() {
        lemma_expected_columns_empty(q, xs, ys, k + 1);
        if expected_column_diffs(q, xs, ys, k).len() == 0 {
            assert(column_matched(q, xs, ys, k));
        }
        if forall|m: int| k <= m < xs.len() ==> #[trigger] column_matched(q, xs, ys, m) {
            assert(column_matched(q, xs, ys, k));
            assert(forall|m: int| k + 1 <= m < xs.len() ==> #[trigger] column_matched(q, xs, ys, m));
        }
    }
}

proof fn lemma_extra_columns_empty(q: Seq<char>, xs: Seq<ColumnView>, ys: Seq<ColumnView>, k: int)
    requires
        0 <= k,
    ensures
        extra_column_diffs(q, xs, ys, k).len() == 0 <==> forall|m: int|
            k <= m < ys.len() ==> (#[trigger] find_column(xs, ys[m].name, 0)) is Some,
    decreases ys.len() - k,
{
    if k < ys.len() {
        lemma_extra_columns_empty(q, xs, ys, k + 1);
    }
}

proof fn lemma_table_diffs_symmetric(x: TableView, y: TableView)
    requires
        table_normal(x),
        table_normal(y),
        table_diffs(x, y).len() == 0,
    ensures
        table_diffs(y, x).len() == 0,
{
    let qx = super::compare::qualified(x.schema, x.name);
    let qy = super::compare::qualified(y.schema, y.name);
    let xs = x.columns;
    let ys = y.columns;
    lemma_expected_columns_empty(qx, xs, ys, 0);
    lemma_extra_columns_empty(qx, xs, ys, 0);
    lemma_expected_columns_empty(qy, ys, xs, 0);
    lemma_extra_columns_empty(qy, ys, xs, 0);
    assert(x.primary_key == y.primary_key);
    assert forall|m: int| 0 <= m < ys.len() implies #[trigger] column_matched(qy, ys, xs, m) by {
        assert(find_column(xs, ys[m].name, 0) is Some);
        let i = find_column(xs, ys[m].name, 0)->Some_0;
        lemma_find_column_some(xs, ys[m].name, 0);
        assert(column_matched(qx, xs, ys, i));
        let j = find_column(ys, xs[i].name, 0)->Some_0;
        lemma_find_column_some(ys, xs[i].name, 0);
        lemma_find_column_self(ys, m, 0);
        assert(j == m);
        assert(column_diffs(qx, xs[i], ys[m]).len() == 0);
        assert(column_diffs(qy, ys[m], xs[i]) =~= Seq::<DifferenceView>::empty());
    }
    assert forall|m: int| 0 <= m < xs.len() implies (#[trigger] find_column(ys, xs[m].name, 0)) is Some by {
        assert(column_matched(qx, xs, ys, m));
    }
}

/// Table `m` of `xs` has a counterpart in `ys` that agrees with it.
spec fn table_matched(xs: Seq<TableView>, ys: Seq<TableView>, m: int) -> bool {
    match find_table(ys, xs[m].schema, xs[m].name, 0) {
        Some(j) => table_diffs(xs[m], ys[j]).len() == 0,
        None => false,
    }
}

proof fn lemma_expected_tables_empty(xs: Seq<TableView>, ys: Seq<TableView>, k: int)
    requires
        0 <= k,
    ensures
        expected_table_diffs(xs, ys, k).len() == 0 <==> forall|m: int|
            k <= m < xs.len() ==> #[trigger] table_matched(xs, ys, m),
    decreases xs.len() - k,
{
    if k < xs.len() {
        lemma_expected_tables_empty(xs, ys, k + 1);
        if expected_table_diffs(xs, ys, k).len() == 0 {
            assert(table_matched(xs, ys, k));
        }
        if forall|m: int| k <= m < xs.len() ==> #[trigger] table_matched(xs, ys, m) {
            assert(table_matched(xs, ys, k));
            assert(forall|m: int| k + 1 <= m < xs.len() ==> #[trigger] table_matched(xs, ys, m));
        }
    }
}

proof fn lemma_extra_tables_empty(xs: Seq<TableView>, ys: Seq<TableView>, k: int)
    requires
        0 <= k,
    ensures
        extra_table_diffs(xs, ys, k).len() == 0 <==> forall|m: int|
            k <= m < ys.len() ==> (#[trigger] find_table(xs, ys[m].schema, ys[m].name, 0)) is Some,
    decreases ys.len() - k,
{
    if k < ys.len() {
        lemma_extra_tables_empty(xs, ys, k + 1);
    }
}

proof fn lemma_raw_diffs_symmetric(e: ProjectionView, a: ProjectionView)
    requires
        projection_normal(e),
        projection_normal(a),
        raw_diffs(e, a).len() == 0,
    ensures
        raw_diffs(a, e).len() == 0,
{
    let es = e.tables;
    let acts = a.tables;
    lemma_expected_tables_empty(es, acts, 0);
    lemma_extra_tables_empty(es, acts, 0);
    lemma_expected_tables_empty(acts, es, 0);
    lemma_extra_tables_empty(acts, es, 0);
    assert(e.engine == a.engine && e.database_schema == a.database_schema);
    assert forall|m: int| 0 <= m < acts.len() implies #[trigger] table_matched(acts, es, m) by {
        assert(find_table(es, acts[m].schema, acts[m].name, 0) is Some);
        let i = find_table(es, acts[m].schema, acts[m].name, 0)->Some_0;
        lemma_find_table_some(es, acts[m].schema, acts[m].name, 0);
        assert(table_matched(es, acts, i));
        let j = find_table(acts, es[i].schema, es[i].name, 0)->Some_0;
        lemma_find_table_some(acts, es[i].schema, es[i].name, 0);
        lemma_find_table_self(acts, m, 0);
        assert(j == m);
        assert(table_normal(es[i]) && table_normal(acts[m]));
        lemma_table_diffs_symmetric(es[i], acts[m]);
    }
    assert forall|m: int| 0 <= m < es.len() implies (#[trigger] find_table(
        acts,
        es[m].schema,
        es[m].name,
        0,
    )) is Some by {
        assert(table_matched(es, acts, m));
    }
    assert(database_diffs(a, e).len() == 0);
}

/// Parity is symmetric: two projections that normalize are compatible
/// whichever of them is taken as the expected one.
pub proof fn law_parity_symmetric(x: ProjectionView, y: ProjectionView)
    requires
        normalize_spec(x) is Ok,
        normalize_spec(y) is Ok,
    ensures
        compare_spec(x, y) matches Ok(r) && compare_spec(y, x) matches Ok(s) && (r.compatible
            <==> s.compatible),
{
    let nx = normalize_spec(x)->Ok_0;
    let ny = normalize_spec(y)->Ok_0;
    law_normalize_yields_normal_form(x);
    law_normalize_yields_normal_form(y);
    crate::order::lemma_isort_multiset(raw_diffs(nx, ny), diff_order());
    crate::order::lemma_isort_multiset(raw_diffs(ny, nx), diff_order());
    if raw_diffs(nx, ny).len() == 0 {
        lemma_raw_diffs_symmetric(nx, ny);
    }
    if raw_diffs(ny, nx).len() == 0 {
        lemma_raw_diffs_symmetric(ny, nx);
    }
}

/// Normalization is idempotent: a normalized projection normalizes to
/// itself.
pub proof fn law_normalize_idempotent(p: ProjectionView)
    ensures
        normalize_spec(p) matches Ok(n) ==> normalize_spec(n) == Ok::<ProjectionView, ParityError>(n),
{
    lemma_normalize_fixed(p);
}

/// A type family is its own family: `normalize_type_family` gives back
/// every name it produces.
pub proof fn law_type_family_idempotent(name: Seq<char>)
    ensures
        type_family_spec(name) matches Ok(f) ==> type_family_spec(f) == Ok::<Seq<char>, ParityError>(f),
{
    lemma_type_family_fixed(name);
}

/// Comparison sees only normal forms: comparing the normalized projections
/// gives the same outcome as comparing the projections.
pub proof fn law_compare_sees_normal_forms(expected: ProjectionView, actual: ProjectionView)
    ensures
        normalize_spec(expected) matches Ok(ne) ==> normalize_spec(actual) matches Ok(na)
            ==> compare_spec(ne, na) == compare_spec(expected, actual),
{
    lemma_normalize_fixed(expected);
    lemma_normalize_fixed(actual);
}

/// Two projections that differ at most in where they came from and which
/// generator made them.
pub open spec fn same_structure(x: ProjectionView, y: ProjectionView) -> bool {
    &&& x.schema_version == y.schema_version
    &&& x.engine == y.engine
    &&& x.database_schema == y.database_schema
    &&& x.tables == y.tables
}

/// The verdict does not depend on provenance: whichever generators made
/// the projections, and whatever sources they name, comparison finds the
/// same differences, the same compatibility and the same warnings.
pub proof fn law_verdict_ignores_provenance(
    expected: ProjectionView,
    actual: ProjectionView,
    expected2: ProjectionView,
    actual2: ProjectionView,
)
    requires
        same_structure(expected, expected2),
        same_structure(actual, actual2),
        normalize_spec(expected2) is Ok,
        normalize_spec(actual2) is Ok,
    ensures
        compare_spec(expected, actual) matches Ok(r) ==> compare_spec(expected2, actual2) matches Ok(
            r2,
        ) && r2.compatible == r.compatible && r2.differences == r.differences && r2.warnings
            == r.warnings,
{
    if let Ok(r) = compare_spec(expected, actual) {
        let ne = normalize_spec(expected)->Ok_0;
        let na = normalize_spec(actual)->Ok_0;
        let ne2 = normalize_spec(expected2)->Ok_0;
        let na2 = normalize_spec(actual2)->Ok_0;
        assert(ne2.tables == ne.tables && ne2.engine == ne.engine && ne2.database_schema
            == ne.database_schema);
        assert(na2.tables == na.tables && na2.engine == na.engine && na2.database_schema
            == na.database_schema);
        assert(raw_diffs(ne2, na2) == raw_diffs(ne, na));
        assert(warnings_spec(ne2, na2) == warnings_spec(ne, na));
    }
}

/// A parsed Diesel schema is in normal form: it normalizes to itself.
pub proof fn law_diesel_projection_normal(
    source: Seq<char>,
    engine: DatabaseEngine,
    default_schema: Seq<char>,
    generator_version: Seq<char>,
)
    ensures
        diesel_schema_spec(source, engine, default_schema, generator_version) matches Ok(n)
            ==> normalize_spec(n) == Ok::<ProjectionView, ParityError>(n) && projection_normal(n),
{
    if let Ok(tables) = diesel_tables_spec(lines(source), 0, default_schema, Seq::empty()) {
        let p = ProjectionView {
            schema_version: PARITY_SCHEMA_VERSION,
            source: ProjectionSource::DieselSchema,
            generator_name: "diesel-print-schema"@,
            generator_version,
            engine,
            database_schema: default_schema,
            tables,
        };
        lemma_normalize_fixed(p);
        law_normalize_yields_normal_form(p);
    }
}

/// A projection read from SeaORM entity sources is in normal form: it
/// normalizes to itself.
pub proof fn law_seaorm_projection_normal(
    files: Seq<Result<Seq<char>, ParityError>>,
    engine: DatabaseEngine,
    default_schema: Seq<char>,
    generator_version: Seq<char>,
)
    ensures
        seaorm_sources_spec(files, engine, default_schema, generator_version) matches Ok(n)
            ==> normalize_spec(n) == Ok::<ProjectionView, ParityError>(n) && projection_normal(n),
{
    if files.len() <= 10_000 {
        if let Ok(tables) = entity_files_spec(files, 0, default_schema, Seq::empty()) {
            let p = ProjectionView {
                schema_version: PARITY_SCHEMA_VERSION,
                source: ProjectionSource::SeaOrmEntity,
                generator_name: "sea-orm-cli-generate-entity"@,
                generator_version,
                engine,
                database_schema: default_schema,
                tables,
            };
            lemma_normalize_fixed(p);
            law_normalize_yields_normal_form(p);
        }
    }
}

/// Entries in strictly ascending (schema, name) order: each key once.
pub open spec fn keys_ascending(s: Seq<TableView>) -> bool {
    forall|i: int, j: int|
        0 <= i < j < s.len() ==> (table_order())(#[trigger] s[i], #[trigger] s[j]) && map_key(s[i])
            != map_key(s[j])
}

pub(crate) proof fn lemma_order_by_key(x: TableView, y: TableView, z: TableView)
    requires
        map_key(x) == map_key(y),
    ensures
        (table_order())(x, z) == (table_order())(y, z),
        (table_order())(z, x) == (table_order())(z, y),
{
}

pub(crate) proof fn lemma_order_antisym(x: TableView, y: TableView)
    requires
        (table_order())(x, y),
        (table_order())(y, x),
    ensures
        map_key(x) == map_key(y),
{
    if x.schema == y.schema {
        lemma_lex_le_antisym(x.name, y.name);
    } else {
        lemma_lex_le_antisym(x.schema, y.schema);
    }
}

proof fn lemma_map_enter_ascending(s: Seq<TableView>, t: TableView)
    requires
        keys_ascending(s),
    ensures
        keys_ascending(map_enter(s, t)),
{
    let le = table_order();
    lemma_table_order_total();
    let p = insert_pos(s, t, le, 0);
    crate::order::lemma_insert_pos(s, t, le, 0);
    assert forall|k: int| p <= k < s.len() implies !le(#[trigger] s[k], t) by {
        if k > p && le(s[k], t) {
            assert(le(s[p], s[k]));
        }
    }
    assert forall|k: int| p <= k < s.len() implies le(t, #[trigger] s[k]) && map_key(s[k])
        != map_key(t) by {
        assert(!le(s[k], t));
        if map_key(s[k]) == map_key(t) {
            lemma_order_by_key(s[k], t, t);
            lemma_lex_le_refl(t.name);
        }
    }
    let r = map_enter(s, t);
    if p > 0 && map_key(s[p - 1]) == map_key(t) {
        assert(r == s.update(p - 1, t));
        assert forall|i: int, j: int| 0 <= i < j < r.len() implies le(#[trigger] r[i], #[trigger] r[j])
            && map_key(r[i]) != map_key(r[j]) by {
            if i == p - 1 {
                assert(r[j] == s[j]);
                lemma_order_by_key(s[p - 1], t, s[j]);
            } else if j == p - 1 {
                assert(r[i] == s[i]);
                lemma_order_by_key(s[p - 1], t, s[i]);
            } else {
                assert(r[i] == s[i] && r[j] == s[j]);
            }
        }
    } else {
        assert(r == s.insert(p, t));
        assert forall|i: int| 0 <= i < p implies le(#[trigger] s[i], t) && map_key(s[i]) != map_key(
            t,
        ) by {
            if map_key(s[i]) == map_key(t) {
                if i < p - 1 {
                    lemma_order_by_key(s[i], t, s[p - 1]);
                    lemma_order_antisym(t, s[p - 1]);
                }
            }
        }
        assert forall|i: int, j: int| 0 <= i < j < r.len() implies le(#[trigger] r[i], #[trigger] r[j])
            && map_key(r[i]) != map_key(r[j]) by {
            if j < p {
                assert(r[i] == s[i] && r[j] == s[j]);
            } else if j == p {
                assert(r[i] == s[i] && r[j] == t);
            } else if i == p {
                assert(r[i] == t && r[j] == s[j - 1]);
            } else if i < p {
                assert(r[i] == s[i] && r[j] == s[j - 1]);
            } else {
                assert(r[i] == s[i - 1] && r[j] == s[j - 1]);
            }
        }
    }
}

proof fn lemma_map_enter_members(s: Seq<TableView>, t: TableView)
    ensures
        forall|i: int| 0 <= i < map_enter(s, t).len() ==> #[trigger] map_enter(s, t)[i] == t || s.contains(
            map_enter(s, t)[i],
        ),
        map_enter(s, t).contains(t),
        forall|k: int|
            0 <= k < s.len() ==> exists|i: int|
                0 <= i < map_enter(s, t).len() && map_key(#[trigger] map_enter(s, t)[i])
                    == map_key(#[trigger] s[k]),
{
    let le = table_order();
    let p = insert_pos(s, t, le, 0);
    crate::order::lemma_insert_pos(s, t, le, 0);
    let r = map_enter(s, t);
    if p > 0 && map_key(s[p - 1]) == map_key(t) {
        assert(r == s.update(p - 1, t));
        assert(r[p - 1] == t);
        assert forall|i: int| 0 <= i < r.len() implies #[trigger] r[i] == t || s.contains(r[i]) by {
            if i != p - 1 {
                assert(r[i] == s[i]);
            }
        }
        assert forall|k: int| 0 <= k < s.len() implies exists|i: int|
            0 <= i < r.len() && map_key(#[trigger] r[i]) == map_key(#[trigger] s[k]) by {
            assert(map_key(r[k]) == map_key(s[k]));
        }
    } else {
        assert(r == s.insert(p, t));
        assert(r[p] == t);
        assert forall|i: int| 0 <= i < r.len() implies #[trigger] r[i] == t || s.contains(r[i]) by {
            if i < p {
                assert(r[i] == s[i]);
            } else if i > p {
                assert(r[i] == s[i - 1]);
            }
        }
        assert forall|k: int| 0 <= k < s.len() implies exists|i: int|
            0 <= i < r.len() && map_key(#[trigger] r[i]) == map_key(#[trigger] s[k]) by {
            if k < p {
                assert(r[k] == s[k]);
            } else {
                assert(r[k + 1] == s[k]);
            }
        }
    }
}

/// `table_map` is an ordered map: its entries are in strictly ascending
/// (schema, name) order, so no key occurs twice; every entry is one of the
/// tables; and every table's key has an entry.
pub proof fn law_table_map_ordered(ts: Seq<TableView>)
    ensures
        keys_ascending(table_map_spec(ts)),
        forall|i: int|
            0 <= i < table_map_spec(ts).len() ==> ts.contains(#[trigger] table_map_spec(ts)[i]),
        forall|k: int|
            0 <= k < ts.len() ==> exists|i: int|
                0 <= i < table_map_spec(ts).len() && map_key(#[trigger] table_map_spec(ts)[i])
                    == map_key(#[trigger] ts[k]),
    decreases ts.len(),
{
    if ts.len() > 0 {
        let init = ts.drop_last();
        let s = table_map_spec(init);
        let t = ts.last();
        law_table_map_ordered(init);
        lemma_map_enter_ascending(s, t);
        lemma_map_enter_members(s, t);
        let r = table_map_spec(ts);
        assert(r == map_enter(s, t));
        assert forall|i: int| 0 <= i < r.len() implies ts.contains(#[trigger] r[i]) by {
            if r[i] == t {
                assert(ts[ts.len() - 1] == t);
            } else {
                assert(s.contains(r[i]));
                let j = choose|j: int| 0 <= j < s.len() && s[j] == r[i];
                assert(init.contains(s[j]));
                let m = choose|m: int| 0 <= m < init.len() && init[m] == s[j];
                assert(ts[m] == init[m]);
            }
        }
        assert forall|k: int| 0 <= k < ts.len() implies exists|i: int|
            0 <= i < r.len() && map_key(#[trigger] r[i]) == map_key(#[trigger] ts[k]) by {
            if k == ts.len() - 1 {
                let i = choose|i: int| 0 <= i < r.len() && r[i] == t;
                assert(map_key(r[i]) == map_key(ts[k]));
            } else {
                assert(ts[k] == init[k]);
                let j = choose|j: int| 0 <= j < s.len() && map_key(#[trigger] s[j]) == map_key(init[k]);
                let i = choose|i: int| 0 <= i < r.len() && map_key(#[trigger] r[i]) == map_key(s[j]);
                assert(map_key(r[i]) == map_key(ts[k]));
            }
        }
    }
}

/// Neither projection outranks the other: comparing them the other way
/// round gives the same verdict and the same warnings, with the sources
/// swapped, and the same differences, each mirrored (its two observed values
/// swapped, missing and extra trading places).
pub proof fn law_parity_mirrored(x: ProjectionView, y: ProjectionView)
    requires
        normalize_spec(x) is Ok,
        normalize_spec(y) is Ok,
    ensures
        compare_spec(x, y) matches Ok(r) && compare_spec(y, x) matches Ok(s) && s.compatible
            == r.compatible && s.warnings == r.warnings && s.expected_source == r.actual_source
            && s.actual_source == r.expected_source && (forall|i: int|
            0 <= i < r.differences.len() ==> s.differences.contains(
                mirror(#[trigger] r.differences[i]),
            )) && (forall|i: int|
            0 <= i < s.differences.len() ==> r.differences.contains(
                mirror(#[trigger] s.differences[i]),
            )) && s.differences.to_multiset() == r.differences.map_values(
            |d: DifferenceView| mirror(d),
        ).to_multiset(),
{
    let nx = normalize_spec(x)->Ok_0;
    let ny = normalize_spec(y)->Ok_0;
    law_normalize_yields_normal_form(x);
    law_normalize_yields_normal_form(y);
    law_parity_symmetric(x, y);
    assert(warnings_spec(ny, nx) == warnings_spec(nx, ny));
    let r = isort(raw_diffs(nx, ny), diff_order());
    let s = isort(raw_diffs(ny, nx), diff_order());
    assert forall|i: int| 0 <= i < r.len() implies s.contains(mirror(#[trigger] r[i])) by {
        lemma_isort_contains(raw_diffs(nx, ny), diff_order(), r[i]);
        assert(r.contains(r[i]));
        lemma_raw_diffs_mirror(nx, ny, r[i]);
        lemma_isort_contains(raw_diffs(ny, nx), diff_order(), mirror(r[i]));
    }
    assert forall|i: int| 0 <= i < s.len() implies r.contains(mirror(#[trigger] s[i])) by {
        lemma_isort_contains(raw_diffs(ny, nx), diff_order(), s[i]);
        assert(s.contains(s[i]));
        lemma_raw_diffs_mirror(ny, nx, s[i]);
        lemma_isort_contains(raw_diffs(nx, ny), diff_order(), mirror(s[i]));
    }
    lemma_normal_ascending(nx);
    lemma_normal_ascending(ny);
    lemma_raw_diffs_permuted(nx, ny);
    crate::order::lemma_isort_multiset(raw_diffs(ny, nx), diff_order());
    lemma_isort_map(raw_diffs(nx, ny), diff_order(), |d: DifferenceView| mirror(d));
}

/// A normal projection's tables are in strictly ascending key order.
proof fn lemma_normal_ascending(p: ProjectionView)
    requires
        projection_normal(p),
    ensures
        keys_ascending(p.tables),
{
    assert forall|i: int, j: int| 0 <= i < j < p.tables.len() implies (table_order())(
        #[trigger] p.tables[i],
        #[trigger] p.tables[j],
    ) && map_key(p.tables[i]) != map_key(p.tables[j]) by {
        assert((table_key())(p.tables[i]) != (table_key())(p.tables[j]));
    }
}

/// Within a table, column differences come column by column in ascending
/// order of name, and they are exactly the differences of the columns.
pub proof fn law_columns_in_name_order(q: Seq<char>, ecs: Seq<ColumnView>, acs: Seq<ColumnView>)
    ensures
        sorted_by(columns_by_name(q, ecs, acs), column_name_order()),
        columns_by_name(q, ecs, acs).to_multiset() == (expected_column_diffs(q, ecs, acs, 0)
            + extra_column_diffs(q, ecs, acs, 0)).to_multiset(),
{
    let le = column_name_order();
    assert forall|x: DifferenceView, y: DifferenceView| #[trigger] le(x, y) || le(y, x) by {
        lemma_opt_text_le(x.column, y.column, y.column);
    }
    assert forall|x: DifferenceView, y: DifferenceView, z: DifferenceView|
        #[trigger] le(x, y) && #[trigger] le(y, z) implies le(x, z) by {
        lemma_opt_text_le(x.column, y.column, z.column);
    }
    let s = expected_column_diffs(q, ecs, acs, 0) + extra_column_diffs(q, ecs, acs, 0);
    lemma_isort_sorted(s, le);
    crate::order::lemma_isort_multiset(s, le);
}

/// For a normalized projection, `table_map` lists its tables as they are,
/// in order: one entry per table, keyed by its own (schema, name).
pub proof fn law_table_map_of_normal(p: ProjectionView)
    requires
        normalize_spec(p) == Ok::<ProjectionView, ParityError>(p),
    ensures
        table_map_spec(p.tables) == p.tables,
{
    law_normalize_yields_normal_form(p);
    lemma_table_map_ascending(p.tables);
}

proof fn lemma_table_map_ascending(s: Seq<TableView>)
    requires
        sorted_by(s, table_order()),
        unique_by(s, table_key()),
    ensures
        table_map_spec(s) == s,
    decreases s.len(),
{
    if s.len() > 0 {
        let init = s.drop_last();
        let t = s.last();
        assert(sorted_by(init, table_order())) by {
            assert forall|i: int, j: int| 0 <= i < j < init.len() implies (table_order())(
                #[trigger] init[i],
                #[trigger] init[j],
            ) by {
                assert(init[i] == s[i] && init[j] == s[j]);
            }
        }
        assert(unique_by(init, table_key())) by {
            assert forall|i: int, j: int| 0 <= i < j < init.len() implies (table_key())(
                #[trigger] init[i],
            ) != (table_key())(#[trigger] init[j]) by {
                assert(init[i] == s[i] && init[j] == s[j]);
            }
        }
        lemma_table_map_ascending(init);
        assert forall|k: int| 0 <= k < init.len() implies (table_order())(#[trigger] init[k], t) by {
            assert(init[k] == s[k]);
        }
        crate::order::lemma_insert_pos_past(init, t, table_order(), 0);
        if init.len() > 0 {
            assert(init[init.len() - 1] == s[s.len() - 2]);
            assert((table_key())(s[s.len() - 2]) != (table_key())(s[s.len() - 1]));
        }
        assert(init.insert(init.len() as int, t) =~= s);
    }
}

/// How many `table!` macros the reader opens from line `i` on, while every
/// one it opens reads to its end.
pub open spec fn macros_read(lines: Seq<Seq<char>>, i: int, default_schema: Seq<char>) -> nat
    decreases lines.len() - i,
{
    if i < 0 || i >= lines.len() {
        0
    } else if is_table_macro_start_spec(lines[i]) {
        match table_macro_spec(lines, i + 1, default_schema, None) {
            Ok((t, next)) => if i < next <= lines.len() {
                1 + macros_read(lines, next, default_schema)
            } else {
                0
            },
            Err(_) => 0,
        }
    } else {
        macros_read(lines, i + 1, default_schema)
    }
}

proof fn lemma_diesel_tables_count(
    lines: Seq<Seq<char>>,
    i: int,
    default_schema: Seq<char>,
    acc: Seq<TableView>,
)
    ensures
        diesel_tables_spec(lines, i, default_schema, acc) matches Ok(ts) ==> ts.len() == acc.len()
            + macros_read(lines, i, default_schema),
    decreases lines.len() - i,
{
    if 0 <= i < lines.len() {
        if is_table_macro_start_spec(lines[i]) {
            if let Ok((t, next)) = table_macro_spec(lines, i + 1, default_schema, None) {
                if i < next <= lines.len() {
                    lemma_diesel_tables_count(lines, next, default_schema, acc.push(t));
                }
            }
        } else {
            lemma_diesel_tables_count(lines, i + 1, default_schema, acc);
        }
    }
}

proof fn lemma_tables_spec_count(ts: Seq<TableView>, acc: Seq<TableView>)
    ensures
        tables_spec(ts, acc) matches Ok(r) ==> r.len() == acc.len() + ts.len(),
    decreases ts.len(),
{
    if ts.len() > 0 {
        if let Ok(t) = next_table_spec(ts[0], acc) {
            lemma_tables_spec_count(ts.drop_first(), acc.push(t));
        }
    }
}

/// A parsed Diesel schema holds exactly one table for each `table!` macro in
/// the source, and names the Diesel generator and the database it was asked
/// for.
pub proof fn law_diesel_one_table_per_macro(
    source: Seq<char>,
    engine: DatabaseEngine,
    default_schema: Seq<char>,
    generator_version: Seq<char>,
)
    ensures
        diesel_schema_spec(source, engine, default_schema, generator_version) matches Ok(p) ==> {
            &&& p.tables.len() == macros_read(lines(source), 0, default_schema)
            &&& p.schema_version == PARITY_SCHEMA_VERSION
            &&& p.source == ProjectionSource::DieselSchema
            &&& p.generator_name == "diesel-print-schema"@
            &&& p.generator_version == trim(generator_version)
            &&& p.engine == engine
            &&& p.database_schema == trim(default_schema)
        },
{
    lemma_diesel_tables_count(lines(source), 0, default_schema, Seq::empty());
    if let Ok(tables) = diesel_tables_spec(lines(source), 0, default_schema, Seq::empty()) {
        lemma_tables_spec_count(tables, Seq::empty());
        if let Ok(ts) = tables_spec(tables, Seq::empty()) {
            crate::order::lemma_isort_multiset(ts, table_order());
        }
        reveal_strlit("diesel-print-schema");
        lemma_trim_idempotent("diesel-print-schema"@);
    }
}

/// Two columns that agree in everything a comparison looks at: name,
/// ordinal, type family and nullability (not the native type).
pub open spec fn columns_agree(c: ColumnView, d: ColumnView) -> bool {
    &&& c.name == d.name
    &&& c.ordinal == d.ordinal
    &&& c.type_family == d.type_family
    &&& c.nullable == d.nullable
}

/// Two tables with the same key and primary key whose columns agree
/// position by position.
pub open spec fn tables_agree(t: TableView, u: TableView) -> bool {
    &&& t.schema == u.schema
    &&& t.name == u.name
    &&& t.primary_key == u.primary_key
    &&& t.columns.len() == u.columns.len()
    &&& forall|i: int| 0 <= i < t.columns.len() ==> columns_agree(#[trigger] t.columns[i], u.columns[i])
}

/// Two projections of the same database whose tables agree position by
/// position.
pub open spec fn projections_agree(e: ProjectionView, a: ProjectionView) -> bool {
    &&& e.engine == a.engine
    &&& e.database_schema == a.database_schema
    &&& e.tables.len() == a.tables.len()
    &&& forall|i: int| 0 <= i < e.tables.len() ==> tables_agree(#[trigger] e.tables[i], a.tables[i])
}

proof fn lemma_column_key_order()
    ensures
        key_order(column_order(), column_ordinal_key()),
{
    lemma_column_order_total();
}

proof fn lemma_table_key_order()
    ensures
        key_order(table_order(), table_key()),
{
    lemma_table_order_total();
    let le = table_order();
    assert forall|x: TableView, y: TableView| #[trigger] le(x, y) && le(y, x) implies (table_key())(x)
        == (table_key())(y) by {
        lemma_order_antisym(x, y);
    }
    assert forall|x: TableView, y: TableView, z: TableView|
        #![trigger le(x, z), le(y, z)]
        (table_key())(x) == (table_key())(y) implies le(x, z) == le(y, z) by {
        lemma_order_by_key(x, y, z);
    }
    assert forall|x: TableView, y: TableView, z: TableView|
        #![trigger le(z, x), le(z, y)]
        (table_key())(x) == (table_key())(y) implies le(z, x) == le(z, y) by {
        lemma_order_by_key(x, y, z);
    }
}

/// Two normal tables with one key differ nowhere exactly when they agree.
proof fn lemma_table_diffs_empty_iff(x: TableView, y: TableView)
    requires
        table_normal(x),
        table_normal(y),
        x.schema == y.schema,
        x.name == y.name,
    ensures
        table_diffs(x, y).len() == 0 <==> tables_agree(x, y),
{
    let q = super::compare::qualified(x.schema, x.name);
    let xs = x.columns;
    let ys = y.columns;
    let exy = expected_column_diffs(q, xs, ys, 0);
    let xxy = extra_column_diffs(q, xs, ys, 0);
    crate::order::lemma_isort_multiset(exy + xxy, column_name_order());
    lemma_expected_columns_empty(q, xs, ys, 0);
    lemma_extra_columns_empty(q, xs, ys, 0);
    if tables_agree(x, y) {
        assert forall|m: int| 0 <= m < xs.len() implies #[trigger] column_matched(q, xs, ys, m) by {
            lemma_find_column_self(ys, m, 0);
            assert(column_diffs(q, xs[m], ys[m]) =~= Seq::<DifferenceView>::empty());
        }
        assert forall|m: int| 0 <= m < ys.len() implies (#[trigger] find_column(xs, ys[m].name, 0)) is Some by {
            lemma_find_column_self(xs, m, 0);
        }
        assert(exy.len() == 0 && xxy.len() == 0);
        assert(table_diffs(x, y) =~= Seq::<DifferenceView>::empty());
    }
    if table_diffs(x, y).len() == 0 {
        assert(x.primary_key == y.primary_key);
        assert(exy.len() == 0 && xxy.len() == 0);
        let key = column_ordinal_key();
        assert forall|k: int| 0 <= k < xs.len() implies has_key_in(ys, key, key(#[trigger] xs[k])) by {
            assert(column_matched(q, xs, ys, k));
            lemma_find_column_some(ys, xs[k].name, 0);
            let j = find_column(ys, xs[k].name, 0)->Some_0;
            assert(column_diffs(q, xs[k], ys[j]).len() == 0);
            assert(key(ys[j]) == key(xs[k]));
        }
        assert forall|m: int| 0 <= m < ys.len() implies has_key_in(xs, key, key(#[trigger] ys[m])) by {
            assert(find_column(xs, ys[m].name, 0) is Some);
            lemma_find_column_some(xs, ys[m].name, 0);
            let k = find_column(xs, ys[m].name, 0)->Some_0;
            assert(column_matched(q, xs, ys, k));
            lemma_find_column_self(ys, m, 0);
            assert(column_diffs(q, xs[k], ys[m]).len() == 0);
            assert(key(xs[k]) == key(ys[m]));
        }
        lemma_column_key_order();
        lemma_sorted_same_keys(xs, ys, column_order(), key);
        assert forall|k: int| 0 <= k < xs.len() implies columns_agree(#[trigger] xs[k], ys[k]) by {
            assert(column_matched(q, xs, ys, k));
            lemma_find_column_some(ys, xs[k].name, 0);
            let j = find_column(ys, xs[k].name, 0)->Some_0;
            assert(column_diffs(q, xs[k], ys[j]).len() == 0);
            assert(key(ys[j]) == key(ys[k]));
            if j != k {
                if j < k {
                    assert(key(ys[j]) != key(ys[k]));
                } else {
                    assert(key(ys[k]) != key(ys[j]));
                }
            }
        }
    }
}

/// Two normal projections differ nowhere exactly when they agree.
proof fn lemma_raw_diffs_empty_iff(e: ProjectionView, a: ProjectionView)
    requires
        projection_normal(e),
        projection_normal(a),
    ensures
        raw_diffs(e, a).len() == 0 <==> projections_agree(e, a),
{
    let es = e.tables;
    let acts = a.tables;
    lemma_expected_tables_empty(es, acts, 0);
    lemma_extra_tables_empty(es, acts, 0);
    if projections_agree(e, a) {
        assert forall|m: int| 0 <= m < es.len() implies #[trigger] table_matched(es, acts, m) by {
            lemma_find_table_self(acts, m, 0);
            assert(tables_agree(es[m], acts[m]));
            lemma_table_diffs_empty_iff(es[m], acts[m]);
        }
        assert forall|m: int| 0 <= m < acts.len() implies (#[trigger] find_table(
            es,
            acts[m].schema,
            acts[m].name,
            0,
        )) is Some by {
            lemma_find_table_self(es, m, 0);
            assert(tables_agree(es[m], acts[m]));
        }
        assert(database_diffs(e, a) =~= Seq::<DifferenceView>::empty());
    }
    if raw_diffs(e, a).len() == 0 {
        let key = table_key();
        assert(database_diffs(e, a).len() == 0);
        assert forall|k: int| 0 <= k < es.len() implies has_key_in(acts, key, key(#[trigger] es[k])) by {
            assert(table_matched(es, acts, k));
            lemma_find_table_some(acts, es[k].schema, es[k].name, 0);
            let j = find_table(acts, es[k].schema, es[k].name, 0)->Some_0;
            assert(key(acts[j]) == key(es[k]));
        }
        assert forall|m: int| 0 <= m < acts.len() implies has_key_in(es, key, key(#[trigger] acts[m])) by {
            assert(find_table(es, acts[m].schema, acts[m].name, 0) is Some);
            lemma_find_table_some(es, acts[m].schema, acts[m].name, 0);
            let k = find_table(es, acts[m].schema, acts[m].name, 0)->Some_0;
            assert(key(es[k]) == key(acts[m]));
        }
        lemma_table_key_order();
        lemma_sorted_same_keys(es, acts, table_order(), key);
        assert forall|k: int| 0 <= k < es.len() implies tables_agree(#[trigger] es[k], acts[k]) by {
            assert(table_matched(es, acts, k));
            lemma_find_table_some(acts, es[k].schema, es[k].name, 0);
            let j = find_table(acts, es[k].schema, es[k].name, 0)->Some_0;
            assert(key(acts[j]) == key(acts[k]));
            if j != k {
                if j < k {
                    assert(key(acts[j]) != key(acts[k]));
                } else {
                    assert(key(acts[k]) != key(acts[j]));
                }
            }
            assert(table_normal(es[k]) && table_normal(acts[k]));
            lemma_table_diffs_empty_iff(es[k], acts[k]);
        }
    }
}

/// A report is compatible exactly when the normalized projections agree:
/// the same engine and schema, and, table by table in key order, the same
/// key and primary key, and column by column in ordinal order the same
/// name, ordinal, type family and nullability.
pub proof fn law_compatible_iff_agree(x: ProjectionView, y: ProjectionView)
    requires
        normalize_spec(x) is Ok,
        normalize_spec(y) is Ok,
    ensures
        compare_spec(x, y) matches Ok(r) && (r.compatible <==> projections_agree(
            normalize_spec(x)->Ok_0,
            normalize_spec(y)->Ok_0,
        )),
{
    let nx = normalize_spec(x)->Ok_0;
    let ny = normalize_spec(y)->Ok_0;
    law_normalize_yields_normal_form(x);
    law_normalize_yields_normal_form(y);
    crate::order::lemma_isort_multiset(raw_diffs(nx, ny), diff_order());
    lemma_raw_diffs_empty_iff(nx, ny);
}

/// A column as normalization gives it back.
pub open spec fn norm_column(c: ColumnView) -> ColumnView {
    ColumnView {
        name: required_text_spec(c.name)->Ok_0,
        ordinal: c.ordinal,
        type_family: type_family_spec(c.type_family)->Ok_0,
        nullable: c.nullable,
        native_type: native_spec(c.native_type)->Ok_0,
    }
}

pub open spec fn norm_columns(cs: Seq<ColumnView>) -> Seq<ColumnView> {
    cs.map_values(|c: ColumnView| norm_column(c))
}

/// A table as normalization gives it back.
pub open spec fn norm_table(t: TableView) -> TableView {
    let sorted = isort(norm_columns(t.columns), column_order());
    TableView {
        schema: required_text_spec(t.schema)->Ok_0,
        name: required_text_spec(t.name)->Ok_0,
        primary_key: primary_key_spec(t.primary_key, sorted, Seq::empty())->Ok_0,
        columns: sorted,
    }
}

proof fn lemma_columns_map(cs: Seq<ColumnView>, acc: Seq<ColumnView>)
    ensures
        columns_spec(cs, acc) matches Ok(r) ==> r == acc + norm_columns(cs),
    decreases cs.len(),
{
    if cs.len() == 0 {
        assert(acc + norm_columns(cs) =~= acc);
    } else if let Ok(c) = next_column_spec(cs[0], acc) {
        assert(c == norm_column(cs[0]));
        lemma_columns_map(cs.drop_first(), acc.push(c));
        assert(acc.push(c) + norm_columns(cs.drop_first()) =~= acc + norm_columns(cs));
    }
}

proof fn lemma_tables_map(ts: Seq<TableView>, acc: Seq<TableView>)
    ensures
        tables_spec(ts, acc) matches Ok(r) ==> r == acc + ts.map_values(|t: TableView| norm_table(t)),
    decreases ts.len(),
{
    if ts.len() == 0 {
        assert(acc + ts.map_values(|t: TableView| norm_table(t)) =~= acc);
    } else if let Ok(t) = next_table_spec(ts[0], acc) {
        lemma_columns_map(ts[0].columns, Seq::empty());
        assert(Seq::<ColumnView>::empty() + norm_columns(ts[0].columns) =~= norm_columns(
            ts[0].columns,
        ));
        assert(t == norm_table(ts[0]));
        lemma_tables_map(ts.drop_first(), acc.push(t));
        assert(acc.push(t) + ts.drop_first().map_values(|t: TableView| norm_table(t)) =~= acc
            + ts.map_values(|t: TableView| norm_table(t)));
    }
}

proof fn lemma_primary_key_same_columns(
    pk: Seq<Seq<char>>,
    xs: Seq<ColumnView>,
    ys: Seq<ColumnView>,
    acc: Seq<Seq<char>>,
)
    requires
        forall|n: Seq<char>| has_column(xs, n) == #[trigger] has_column(ys, n),
    ensures
        primary_key_spec(pk, xs, acc) == primary_key_spec(pk, ys, acc),
    decreases pk.len(),
{
    if pk.len() > 0 {
        if let Ok(k) = required_text_spec(pk[0]) {
            lemma_primary_key_same_columns(pk.drop_first(), xs, ys, acc.push(k));
        }
    }
}

/// Some column of `cs` agrees with `c`.
pub open spec fn has_agreeing_column(cs: Seq<ColumnView>, c: ColumnView) -> bool {
    exists|j: int| 0 <= j < cs.len() && columns_agree(c, #[trigger] cs[j])
}

/// `u` is `t` with its columns perhaps in another order and other native
/// types.
pub open spec fn table_like(t: TableView, u: TableView) -> bool {
    &&& t.schema == u.schema
    &&& t.name == u.name
    &&& t.primary_key == u.primary_key
    &&& forall|i: int| 0 <= i < t.columns.len() ==> has_agreeing_column(u.columns, #[trigger] t.columns[i])
    &&& forall|j: int| 0 <= j < u.columns.len() ==> has_agreeing_column(t.columns, #[trigger] u.columns[j])
}

/// Some table of `ts` is like `t`.
pub open spec fn has_like_table(ts: Seq<TableView>, t: TableView) -> bool {
    exists|j: int| 0 <= j < ts.len() && table_like(t, #[trigger] ts[j])
}

/// `q` describes what `p` describes, perhaps with other provenance
/// (source and generator), other native types, and tables and columns in
/// another order.
pub open spec fn same_up_to_order(p: ProjectionView, q: ProjectionView) -> bool {
    &&& p.schema_version == q.schema_version
    &&& p.engine == q.engine
    &&& p.database_schema == q.database_schema
    &&& forall|i: int| 0 <= i < p.tables.len() ==> has_like_table(q.tables, #[trigger] p.tables[i])
    &&& forall|j: int| 0 <= j < q.tables.len() ==> has_like_table(p.tables, #[trigger] q.tables[j])
}

/// Normalizing two like tables gives tables that agree.
proof fn lemma_like_tables_agree(t: TableView, u: TableView)
    requires
        table_like(t, u),
        table_normal(norm_table(t)),
        table_normal(norm_table(u)),
    ensures
        tables_agree(norm_table(t), norm_table(u)),
{
    let nt = norm_columns(t.columns);
    let nu = norm_columns(u.columns);
    let xs = isort(nt, column_order());
    let ys = isort(nu, column_order());
    let key = column_ordinal_key();
    assert forall|k: int| 0 <= k < xs.len() implies has_key_in(ys, key, key(#[trigger] xs[k])) && exists|
        m: int,
    | 0 <= m < ys.len() && columns_agree(xs[k], #[trigger] ys[m]) by {
        lemma_isort_contains(nt, column_order(), xs[k]);
        assert(xs.contains(xs[k]));
        let i = choose|i: int| 0 <= i < nt.len() && nt[i] == xs[k];
        assert(has_agreeing_column(u.columns, t.columns[i]));
        let j = choose|j: int| 0 <= j < u.columns.len() && columns_agree(t.columns[i], #[trigger] u.columns[j]);
        lemma_isort_contains(nu, column_order(), nu[j]);
        assert(nu.contains(nu[j]));
        let m = choose|m: int| 0 <= m < ys.len() && ys[m] == nu[j];
        assert(columns_agree(xs[k], ys[m]));
    }
    assert forall|k: int| 0 <= k < ys.len() implies has_key_in(xs, key, key(#[trigger] ys[k])) by {
        lemma_isort_contains(nu, column_order(), ys[k]);
        assert(ys.contains(ys[k]));
        let j = choose|j: int| 0 <= j < nu.len() && nu[j] == ys[k];
        assert(has_agreeing_column(t.columns, u.columns[j]));
        let i = choose|i: int| 0 <= i < t.columns.len() && columns_agree(u.columns[j], #[trigger] t.columns[i]);
        lemma_isort_contains(nt, column_order(), nt[i]);
        assert(nt.contains(nt[i]));
        let m = choose|m: int| 0 <= m < xs.len() && xs[m] == nt[i];
        assert(key(xs[m]) == key(ys[k]));
    }
    lemma_column_key_order();
    lemma_sorted_same_keys(xs, ys, column_order(), key);
    assert forall|k: int| 0 <= k < xs.len() implies columns_agree(#[trigger] xs[k], ys[k]) by {
        let m = choose|m: int| 0 <= m < ys.len() && columns_agree(xs[k], #[trigger] ys[m]);
        if m != k {
            if m < k {
                assert(key(ys[m]) != key(ys[k]));
            } else {
                assert(key(ys[k]) != key(ys[m]));
            }
        }
    }
    assert forall|n: Seq<char>| has_column(xs, n) == #[trigger] has_column(ys, n) by {
        if has_column(xs, n) {
            let i = choose|i: int| 0 <= i < xs.len() && #[trigger] xs[i].name == n;
            assert(columns_agree(xs[i], ys[i]));
        }
        if has_column(ys, n) {
            let i = choose|i: int| 0 <= i < ys.len() && #[trigger] ys[i].name == n;
            assert(columns_agree(xs[i], ys[i]));
        }
    }
    lemma_primary_key_same_columns(t.primary_key, xs, ys, Seq::empty());
}

/// Some table of `ts` normalizes to `x`.
pub open spec fn normalized_from(ts: Seq<TableView>, x: TableView) -> bool {
    exists|i: int| 0 <= i < ts.len() && norm_table(#[trigger] ts[i]) == x
}

pub open spec fn norm_tables(ts: Seq<TableView>) -> Seq<TableView> {
    ts.map_values(|t: TableView| norm_table(t))
}

proof fn lemma_sorted_norm_members(ts: Seq<TableView>)
    ensures
        forall|k: int|
            0 <= k < isort(norm_tables(ts), table_order()).len() ==> normalized_from(
                ts,
                #[trigger] isort(norm_tables(ts), table_order())[k],
            ),
        forall|i: int|
            0 <= i < ts.len() ==> isort(norm_tables(ts), table_order()).contains(
                norm_table(#[trigger] ts[i]),
            ),
{
    let m = norm_tables(ts);
    let es = isort(m, table_order());
    assert forall|k: int| 0 <= k < es.len() implies normalized_from(ts, #[trigger] es[k]) by {
        lemma_isort_contains(m, table_order(), es[k]);
        assert(es.contains(es[k]));
        let i = choose|i: int| 0 <= i < m.len() && m[i] == es[k];
        assert(norm_table(ts[i]) == es[k]);
    }
    assert forall|i: int| 0 <= i < ts.len() implies es.contains(norm_table(#[trigger] ts[i])) by {
        lemma_isort_contains(m, table_order(), m[i]);
        assert(m.contains(m[i]));
    }
}

/// Each normalized table of `p` has a normalized table of `q` with its key.
proof fn lemma_like_keys(ps: Seq<TableView>, qs: Seq<TableView>)
    requires
        forall|i: int| 0 <= i < ps.len() ==> has_like_table(qs, #[trigger] ps[i]),
    ensures
        forall|k: int|
            0 <= k < isort(norm_tables(ps), table_order()).len() ==> has_key_in(
                isort(norm_tables(qs), table_order()),
                table_key(),
                (table_key())(#[trigger] isort(norm_tables(ps), table_order())[k]),
            ),
{
    let es = isort(norm_tables(ps), table_order());
    let acts = isort(norm_tables(qs), table_order());
    lemma_sorted_norm_members(ps);
    lemma_sorted_norm_members(qs);
    assert forall|k: int| 0 <= k < es.len() implies has_key_in(
        acts,
        table_key(),
        (table_key())(#[trigger] es[k]),
    ) by {
        assert(normalized_from(ps, es[k]));
        let i = choose|i: int| 0 <= i < ps.len() && norm_table(#[trigger] ps[i]) == es[k];
        assert(has_like_table(qs, ps[i]));
        let j = choose|j: int| 0 <= j < qs.len() && table_like(ps[i], #[trigger] qs[j]);
        assert(acts.contains(norm_table(qs[j])));
        let m = choose|m: int| 0 <= m < acts.len() && acts[m] == norm_table(qs[j]);
        assert((table_key())(acts[m]) == (table_key())(es[k]));
    }
}

/// At each position, the normalized tables of like projections agree.
proof fn lemma_like_tables_at(ps: Seq<TableView>, qs: Seq<TableView>, k: int)
    requires
        forall|i: int| 0 <= i < ps.len() ==> has_like_table(qs, #[trigger] ps[i]),
        unique_by(isort(norm_tables(qs), table_order()), table_key()),
        0 <= k < isort(norm_tables(ps), table_order()).len(),
        k < isort(norm_tables(qs), table_order()).len(),
        (table_key())(isort(norm_tables(ps), table_order())[k]) == (table_key())(
            isort(norm_tables(qs), table_order())[k],
        ),
        table_normal(isort(norm_tables(ps), table_order())[k]),
        table_normal(isort(norm_tables(qs), table_order())[k]),
    ensures
        tables_agree(isort(norm_tables(ps), table_order())[k], isort(norm_tables(qs), table_order())[k]),
{
    let es = isort(norm_tables(ps), table_order());
    let acts = isort(norm_tables(qs), table_order());
    lemma_sorted_norm_members(ps);
    lemma_sorted_norm_members(qs);
    assert(normalized_from(ps, es[k]));
    let i = choose|i: int| 0 <= i < ps.len() && norm_table(#[trigger] ps[i]) == es[k];
    assert(has_like_table(qs, ps[i]));
    let j = choose|j: int| 0 <= j < qs.len() && table_like(ps[i], #[trigger] qs[j]);
    assert(acts.contains(norm_table(qs[j])));
    let m = choose|m: int| 0 <= m < acts.len() && acts[m] == norm_table(qs[j]);
    assert((table_key())(acts[m]) == (table_key())(es[k]));
    if m != k {
        if m < k {
            assert((table_key())(acts[m]) != (table_key())(acts[k]));
        } else {
            assert((table_key())(acts[k]) != (table_key())(acts[m]));
        }
    }
    lemma_like_tables_agree(ps[i], qs[j]);
}

/// Like tables, normalized and put in key order, agree position by
/// position.
proof fn lemma_like_tables_agree_all(ps: Seq<TableView>, qs: Seq<TableView>)
    requires
        forall|i: int| 0 <= i < ps.len() ==> has_like_table(qs, #[trigger] ps[i]),
        forall|j: int| 0 <= j < qs.len() ==> has_like_table(ps, #[trigger] qs[j]),
        sorted_by(isort(norm_tables(ps), table_order()), table_order()),
        sorted_by(isort(norm_tables(qs), table_order()), table_order()),
        unique_by(isort(norm_tables(ps), table_order()), table_key()),
        unique_by(isort(norm_tables(qs), table_order()), table_key()),
        forall|k: int|
            0 <= k < isort(norm_tables(ps), table_order()).len() ==> table_normal(
                #[trigger] isort(norm_tables(ps), table_order())[k],
            ),
        forall|k: int|
            0 <= k < isort(norm_tables(qs), table_order()).len() ==> table_normal(
                #[trigger] isort(norm_tables(qs), table_order())[k],
            ),
    ensures
        isort(norm_tables(ps), table_order()).len() == isort(norm_tables(qs), table_order()).len(),
        forall|k: int|
            0 <= k < isort(norm_tables(ps), table_order()).len() ==> tables_agree(
                #[trigger] isort(norm_tables(ps), table_order())[k],
                isort(norm_tables(qs), table_order())[k],
            ),
{
    let es = isort(norm_tables(ps), table_order());
    let acts = isort(norm_tables(qs), table_order());
    lemma_like_keys(ps, qs);
    lemma_like_keys(qs, ps);
    lemma_table_key_order();
    lemma_sorted_same_keys(es, acts, table_order(), table_key());
    assert forall|k: int| 0 <= k < es.len() implies tables_agree(#[trigger] es[k], acts[k]) by {
        lemma_like_tables_at(ps, qs, k);
    }
}

proof fn lemma_normalized_tables(p: ProjectionView)
    requires
        normalize_spec(p) is Ok,
    ensures
        normalize_spec(p)->Ok_0.tables == isort(norm_tables(p.tables), table_order()),
        normalize_spec(p)->Ok_0.engine == p.engine,
        normalize_spec(p)->Ok_0.database_schema == required_text_spec(p.database_schema)->Ok_0,
        normalize_spec(p)->Ok_0.source == p.source,
{
    lemma_tables_map(p.tables, Seq::empty());
    assert(tables_spec(p.tables, Seq::empty())->Ok_0 =~= norm_tables(p.tables));
}

/// Order, provenance and native types never count as drift: two
/// projections that describe the same tables and columns, perhaps in
/// another order, with other native types, other sources and other
/// generators, are compatible.
pub proof fn law_order_and_provenance_ignored(p: ProjectionView, q: ProjectionView)
    requires
        normalize_spec(p) is Ok,
        normalize_spec(q) is Ok,
        same_up_to_order(p, q),
    ensures
        compare_spec(p, q) matches Ok(r) && r.compatible && r.differences.len() == 0
            && r.expected_source == p.source && r.actual_source == q.source,
{
    let np = normalize_spec(p)->Ok_0;
    let nq = normalize_spec(q)->Ok_0;
    lemma_normalized_tables(p);
    lemma_normalized_tables(q);
    assert(projection_normal(np) && projection_normal(nq)) by {
        law_normalize_yields_normal_form(p);
        law_normalize_yields_normal_form(q);
    }
    assert(projections_agree(np, nq)) by {
        lemma_like_tables_agree_all(p.tables, q.tables);
    }
    lemma_raw_diffs_empty_iff(np, nq);
    crate::order::lemma_isort_multiset(raw_diffs(np, nq), diff_order());
}


/// Every name of a family maps to that family, whatever its case, spacing,
/// underscores or `::`: a timestamp with time zone (`timestamptz`,
/// `DateTimeWithTimeZone`, `timestamp with time zone`) is `timestamptz`, a
/// timestamp without one is `timestamp`, and so on for every family.
pub proof fn law_type_family_names(name: Seq<char>)
    ensures
        compact_type(name) == "bool"@ || compact_type(name) == "boolean"@ ==> type_family_spec(name) == Ok::<Seq<char>, ParityError>("bool"@),
        compact_type(name) == "int2"@ || compact_type(name) == "smallint"@ || compact_type(name) == "i16"@ ==> type_family_spec(name) == Ok::<Seq<char>, ParityError>("int2"@),
        compact_type(name) == "int4"@ || compact_type(name) == "integer"@ || compact_type(name) == "i32"@ ==> type_family_spec(name) == Ok::<Seq<char>, ParityError>("int4"@),
        compact_type(name) == "int8"@ || compact_type(name) == "bigint"@ || compact_type(name) == "i64"@ ==> type_family_spec(name) == Ok::<Seq<char>, ParityError>("int8"@),
        compact_type(name) == "float4"@ || compact_type(name) == "real"@ || compact_type(name) == "f32"@ ==> type_family_spec(name) == Ok::<Seq<char>, ParityError>("float4"@),
        compact_type(name) == "float8"@ || compact_type(name) == "double"@ || compact_type(name) == "doubleprecision"@ || compact_type(name) == "f64"@ ==> type_family_spec(name) == Ok::<Seq<char>, ParityError>("float8"@),
        compact_type(name) == "numeric"@ || compact_type(name) == "decimal"@ || compact_type(name) == "bigdecimal"@ || compact_type(name) == "rustdecimaldecimal"@ ==> type_family_spec(name) == Ok::<Seq<char>, ParityError>("numeric"@),
        compact_type(name) == "text"@ ==> type_family_spec(name) == Ok::<Seq<char>, ParityError>("text"@),
        compact_type(name) == "varchar"@ || compact_type(name) == "charactervarying"@ || compact_type(name) == "string"@ ==> type_family_spec(name) == Ok::<Seq<char>, ParityError>("varchar"@),
        compact_type(name) == "bpchar"@ || compact_type(name) == "character"@ || compact_type(name) == "char"@ ==> type_family_spec(name) == Ok::<Seq<char>, ParityError>("char"@),
        compact_type(name) == "uuid"@ ==> type_family_spec(name) == Ok::<Seq<char>, ParityError>("uuid"@),
        compact_type(name) == "json"@ ==> type_family_spec(name) == Ok::<Seq<char>, ParityError>("json"@),
        compact_type(name) == "jsonb"@ || compact_type(name) == "jsonbinary"@ ==> type_family_spec(name) == Ok::<Seq<char>, ParityError>("jsonb"@),
        compact_type(name) == "bytea"@ || compact_type(name) == "binary"@ || compact_type(name) == "varbinary"@ || compact_type(name) == "vecu8"@ ==> type_family_spec(name) == Ok::<Seq<char>, ParityError>("bytea"@),
        compact_type(name) == "date"@ || compact_type(name) == "naivedate"@ ==> type_family_spec(name) == Ok::<Seq<char>, ParityError>("date"@),
        compact_type(name) == "time"@ || compact_type(name) == "naivetime"@ ==> type_family_spec(name) == Ok::<Seq<char>, ParityError>("time"@),
        compact_type(name) == "timestamp"@ || compact_type(name) == "datetime"@ || compact_type(name) == "naivedatetime"@ || compact_type(name) == "timestampwithouttimezone"@ ==> type_family_spec(name) == Ok::<Seq<char>, ParityError>("timestamp"@),
        compact_type(name) == "timestamptz"@ || compact_type(name) == "datetimewithtimezone"@ || compact_type(name) == "timestampwithtimezone"@ ==> type_family_spec(name) == Ok::<Seq<char>, ParityError>("timestamptz"@),
        compact_type(name) == "inet"@ || compact_type(name) == "ipnetwork"@ ==> type_family_spec(name) == Ok::<Seq<char>, ParityError>("inet"@),
        compact_type(name) == "cidr"@ ==> type_family_spec(name) == Ok::<Seq<char>, ParityError>("cidr"@),
        compact_type(name) == "tsvector"@ ==> type_family_spec(name) == Ok::<Seq<char>, ParityError>("tsvector"@),
{
    lemma_type_names();
}


/// A column of a `table!` body, looked up by its Rust name, gives the SQL
/// name it was declared with: the last column declared under that Rust
/// name, and none when no column has it.
pub proof fn law_lookup_by_rust_name(names: Seq<(Seq<char>, Seq<char>)>, rust: Seq<char>)
    ensures
        lookup_name(names, rust) is None <==> forall|i: int|
            0 <= i < names.len() ==> (#[trigger] names[i]).0 != rust,
        lookup_name(names, rust) matches Some(sql) ==> exists|i: int|
            0 <= i < names.len() && (#[trigger] names[i]).0 == rust && names[i].1 == sql && forall|j: int|
                i < j < names.len() ==> (#[trigger] names[j]).0 != rust,
    decreases names.len(),
{
    if names.len() > 0 {
        let init = names.drop_last();
        law_lookup_by_rust_name(init, rust);
        let n = names.len() - 1;
        if names[n].0 == rust {
        } else {
            assert forall|i: int| 0 <= i < init.len() implies (#[trigger] init[i]) == names[i] by {}
            if lookup_name(init, rust) is None {
                assert forall|i: int| 0 <= i < names.len() implies (#[trigger] names[i]).0 != rust by {
                    if i < n {
                        assert(init[i] == names[i]);
                    }
                }
            } else {
                let sql = lookup_name(init, rust)->Some_0;
                let i = choose|i: int|
                    0 <= i < init.len() && (#[trigger] init[i]).0 == rust && init[i].1 == sql && forall|
                        j: int,
                    | i < j < init.len() ==> (#[trigger] init[j]).0 != rust;
                assert(names[i] == init[i]);
                assert forall|j: int| i < j < names.len() implies (#[trigger] names[j]).0 != rust by {
                    if j < n {
                        assert(init[j] == names[j]);
                    }
                }
            }
            if forall|i: int| 0 <= i < names.len() ==> (#[trigger] names[i]).0 != rust {
                assert forall|i: int| 0 <= i < init.len() implies (#[trigger] init[i]).0 != rust by {
                    assert(init[i] == names[i]);
                }
            }
        }
    }
}

/// The primary key in a `table!` header names columns by their Rust names;
/// it resolves, key by key, to the SQL names of the columns declared under
/// those Rust names, and is refused when some key names no column.
pub proof fn law_primary_key_by_rust_name(keys: Seq<Seq<char>>, names: Seq<(Seq<char>, Seq<char>)>)
    ensures
        resolve_keys(keys, names) is None <==> exists|k: int|
            0 <= k < keys.len() && forall|i: int| 0 <= i < names.len() ==> (#[trigger] names[i]).0
                != #[trigger] keys[k],
        resolve_keys(keys, names) matches Some(pk) ==> pk.len() == keys.len() && forall|k: int|
            0 <= k < keys.len() ==> exists|i: int|
                0 <= i < names.len() && (#[trigger] names[i]).0 == #[trigger] keys[k] && names[i].1 == pk[k]
                    && forall|j: int| i < j < names.len() ==> (#[trigger] names[j]).0 != keys[k],
    decreases keys.len(),
{
    if keys.len() > 0 {
        let rest = keys.drop_first();
        law_primary_key_by_rust_name(rest, names);
        law_lookup_by_rust_name(names, keys[0]);
        if let Some(v) = lookup_name(names, keys[0]) {
            if let Some(r) = resolve_keys(rest, names) {
                let pk = seq![v] + r;
                assert forall|k: int| 0 <= k < keys.len() implies exists|i: int|
                    0 <= i < names.len() && (#[trigger] names[i]).0 == #[trigger] keys[k] && names[i].1
                        == pk[k] && forall|j: int| i < j < names.len() ==> (#[trigger] names[j]).0 != keys[k] by {
                    if k > 0 {
                        assert(rest[k - 1] == keys[k] && pk[k] == r[k - 1]);
                    }
                }
            } else {
                let k = choose|k: int|
                    0 <= k < rest.len() && forall|i: int| 0 <= i < names.len() ==> (#[trigger] names[i]).0
                        != #[trigger] rest[k];
                assert(rest[k] == keys[k + 1]);
            }
            if exists|k: int|
                0 <= k < keys.len() && forall|i: int| 0 <= i < names.len() ==> (#[trigger] names[i]).0
                    != #[trigger] keys[k] {
                let k = choose|k: int|
                    0 <= k < keys.len() && forall|i: int| 0 <= i < names.len() ==> (#[trigger] names[i]).0
                        != #[trigger] keys[k];
                if k > 0 {
                    assert(rest[k - 1] == keys[k]);
                } else {
                    let i = choose|i: int|
                        0 <= i < names.len() && (#[trigger] names[i]).0 == keys[0] && names[i].1 == v
                            && forall|j: int| i < j < names.len() ==> (#[trigger] names[j]).0 != keys[0];
                    assert(names[i].0 == keys[0]);
                }
            }
        } else {
            assert(forall|i: int| 0 <= i < names.len() ==> (#[trigger] names[i]).0 != keys[0]);
        }
    }
}


/// Text without `(` and `<`.
pub open spec fn no_opening(h: Seq<char>) -> bool {
    forall|i: int| 0 <= i < h.len() ==> #[trigger] h[i] != '(' && h[i] != '<'
}

/// The head of a `column_type` value is all of its text before the first
/// `(` or `<`, and all of it when there is none.
pub proof fn law_column_type_head(h: Seq<char>, c: char, rest: Seq<char>)
    requires
        no_opening(h),
        c == '(' || c == '<',
    ensures
        head_spec(h + seq![c] + rest) == h,
        head_spec(h) == h,
    decreases h.len(),
{
    let s = h + seq![c] + rest;
    if h.len() == 0 {
        assert(s[0] == c);
    } else {
        let t = h.drop_first();
        assert(no_opening(t)) by {
            assert forall|i: int| 0 <= i < t.len() implies #[trigger] t[i] != '(' && t[i] != '<' by {
                assert(t[i] == h[i + 1]);
            }
        }
        law_column_type_head(t, c, rest);
        assert(s[0] == h[0]);
        assert(s.drop_first() =~= t + seq![c] + rest);
        assert(seq![h[0]] + t =~= h);
        assert(h.drop_first() =~= t);
    }
}

/// A `column_type` value that is not `Array(..)` or `Custom(..)` has the
/// family of its text before the first `(` or `<`: `Decimal(Some((10, 2)))`
/// is a `decimal`, so `numeric`.
pub proof fn law_column_type_family(value: Seq<char>, h: Seq<char>, c: char, rest: Seq<char>)
    requires
        trim(value) == h + seq![c] + rest,
        no_opening(h),
        c == '(' || c == '<',
        h != "Array"@,
        h != "Custom"@,
    ensures
        column_type_spec(value) == type_family_spec(trim(h)),
{
    let v = trim(value);
    law_column_type_head(h, c, rest);
    reveal_strlit("Array(");
    reveal_strlit("Custom(");
    reveal_strlit("Array");
    reveal_strlit("Custom");
    assert("Array("@.len() == 6 && "Array("@[0] == 'A' && "Array("@[1] == 'r' && "Array("@[2] == 'r'
        && "Array("@[3] == 'a' && "Array("@[4] == 'y' && "Array("@[5] == '(');
    assert("Custom("@.len() == 7 && "Custom("@[0] == 'C' && "Custom("@[1] == 'u' && "Custom("@[2]
        == 's' && "Custom("@[3] == 't' && "Custom("@[4] == 'o' && "Custom("@[5] == 'm' && "Custom("@[6]
        == '(');
    assert("Array"@.len() == 5 && "Custom"@.len() == 6);
    if starts_with(v, "Array("@) {
        let p = v.subrange(0, 6);
        assert(p[5] == '(');
        if h.len() > 5 {
            assert(v[5] == h[5]);
            assert(p[5] == v[5]);
        } else if h.len() < 5 {
            assert(v[h.len() as int] == c);
            assert(p[h.len() as int] == v[h.len() as int]);
        } else {
            assert forall|i: int| 0 <= i < 5 implies h[i] == #[trigger] "Array"@[i] by {
                assert(v[i] == h[i] && p[i] == v[i]);
            }
            assert(h =~= "Array"@);
        }
    }
    if starts_with(v, "Custom("@) {
        let p = v.subrange(0, 7);
        assert(p[6] == '(');
        if h.len() > 6 {
            assert(v[6] == h[6]);
            assert(p[6] == v[6]);
        } else if h.len() < 6 {
            assert(v[h.len() as int] == c);
            assert(p[h.len() as int] == v[h.len() as int]);
        } else {
            assert forall|i: int| 0 <= i < 6 implies h[i] == #[trigger] "Custom"@[i] by {
                assert(v[i] == h[i] && p[i] == v[i]);
            }
            assert(h =~= "Custom"@);
        }
    }
    assert(peel_parenthesized_spec(v, "Array("@) is None);
}


/// Whether some column of some table of `p` is of family `vector`.
pub open spec fn some_vector_column(p: ProjectionView) -> bool {
    exists|i: int, j: int|
        0 <= i < p.tables.len() && 0 <= j < p.tables[i].columns.len()
            && #[trigger] p.tables[i].columns[j].type_family == "vector"@
}

/// A report carries the four standard warnings, and a fifth, on vector
/// dimensions, exactly when a column of any table of either normalized
/// projection is of family `vector`.
pub proof fn law_vector_warning(x: ProjectionView, y: ProjectionView)
    requires
        normalize_spec(x) is Ok,
        normalize_spec(y) is Ok,
    ensures
        compare_spec(x, y) matches Ok(r) && (r.warnings.len() == 4 || r.warnings.len() == 5) && (
        r.warnings.len() == 5 <==> some_vector_column(normalize_spec(x)->Ok_0) || some_vector_column(
            normalize_spec(y)->Ok_0,
        )) && (r.warnings.len() == 5 ==> r.warnings[4].code == "vector-dimensions-not-proven"@),
{
    let nx = normalize_spec(x)->Ok_0;
    let ny = normalize_spec(y)->Ok_0;
    if some_vector_column(nx) {
        let (i, j) = choose|i: int, j: int|
            0 <= i < nx.tables.len() && 0 <= j < nx.tables[i].columns.len()
                && #[trigger] nx.tables[i].columns[j].type_family == "vector"@;
        assert(has_vector(nx));
    }
    if some_vector_column(ny) {
        let (i, j) = choose|i: int, j: int|
            0 <= i < ny.tables.len() && 0 <= j < ny.tables[i].columns.len()
                && #[trigger] ny.tables[i].columns[j].type_family == "vector"@;
        assert(has_vector(ny));
    }
    if has_vector(nx) {
        let (i, j) = choose|i: int, j: int|
            0 <= i < nx.tables.len() && 0 <= j < nx.tables[i].columns.len()
                && #[trigger] nx.tables[i].columns[j].type_family == "vector"@;
        assert(some_vector_column(nx));
    }
    if has_vector(ny) {
        let (i, j) = choose|i: int, j: int|
            0 <= i < ny.tables.len() && 0 <= j < ny.tables[i].columns.len()
                && #[trigger] ny.tables[i].columns[j].type_family == "vector"@;
        assert(some_vector_column(ny));
    }
}


/// The number that a string of decimal digits denotes.
pub open spec fn digits_value(s: Seq<char>) -> int
    decreases s.len(),
{
    if s.len() == 0 {
        0
    } else {
        digits_value(s.drop_last()) * 10 + ((s.last() as u32) - 48)
    }
}

/// A decimal digit.
pub open spec fn is_digit(c: char) -> bool {
    48 <= (c as u32) <= 57
}

/// Ordinals are written in plain decimal, as `u32::to_string` writes them:
/// digits only, no leading zero, denoting the number itself.
pub proof fn law_decimal_notation(n: nat)
    ensures
        decimal(n).len() > 0,
        forall|i: int| 0 <= i < decimal(n).len() ==> is_digit(#[trigger] decimal(n)[i]),
        decimal(n).len() > 1 ==> decimal(n)[0] != '0',
        n >= 10 ==> decimal(n).len() > 1,
        digits_value(decimal(n)) == n,
    decreases n,
{
    if n < 10 {
        lemma_digit(n);
        assert(decimal(n) == seq![digit(n)]);
        assert(decimal(n).drop_last() =~= Seq::<char>::empty());
        assert(decimal(n).last() == digit(n));
        assert(digits_value(decimal(n)) == digits_value(Seq::<char>::empty()) * 10 + ((digit(n) as u32) - 48));
    } else {
        law_decimal_notation(n / 10);
        lemma_digit(n % 10);
        let d = decimal(n / 10);
        let r = decimal(n);
        assert(r == d.push(digit(n % 10)));
        assert(r.drop_last() =~= d);
        assert(forall|i: int| 0 <= i < d.len() ==> r[i] == d[i]);
        assert(n == (n / 10) * 10 + n % 10);
        if n / 10 < 10 {
            lemma_digit(n / 10);
            assert(d == seq![digit(n / 10)]);
        }
        assert(r[0] == d[0]);
        assert(r.last() == digit(n % 10));
        assert(digits_value(r) == digits_value(d) * 10 + ((digit(n % 10) as u32) - 48));
        assert(digits_value(d) * 10 + (n % 10) == n) by (nonlinear_arith)
            requires
                digits_value(d) == n / 10,
        ;
    }
}

proof fn lemma_digit(d: nat)
    requires
        d < 10,
    ensures
        (digit(d) as u32) == d + 48,
        is_digit(digit(d)),
        digit(d) == '0' <==> d == 0,
{
    let x: u32 = (d + 48) as u32;
    assert(x == d + 48);
    assert((x as char) as u32 == x);
}

/// A trimmed wrapper: `open` (such as `Nullable<`) around `inner`, closed by
/// `>`, gives back exactly `inner`.
pub proof fn law_peel_wrapper(open: Seq<char>, inner: Seq<char>)
    requires
        open.len() > 0,
        !is_ws(open[0]),
    ensures
        peel_wrapper(open + inner + ">"@, open) == Some(inner),
{
    reveal_strlit(">");
    assert(">"@.len() == 1 && ">"@[0] == '>');
    let v = open + inner + ">"@;
    assert(v[0] == open[0]);
    assert(v.last() == '>');
    lemma_trim_ends_fixed(v);
    assert(v.subrange(0, open.len() as int) =~= open);
    assert(v.subrange(open.len() as int, v.len() as int) =~= inner + ">"@);
    let w = inner + ">"@;
    assert(w.subrange(w.len() - 1, w.len() as int) =~= ">"@);
    assert(w.subrange(0, w.len() - 1) =~= inner);
}

/// Text that begins and ends with other than white space trims to itself.
proof fn lemma_trim_ends_fixed(s: Seq<char>)
    requires
        s.len() > 0,
        !is_ws(s[0]),
        !is_ws(s.last()),
    ensures
        trim(s) == s,
{
}

/// `Nullable<T>` is a nullable `T`.
pub proof fn law_nullable(inner: Seq<char>)
    ensures
        nullable_spec("Nullable<"@ + inner + ">"@) == (true, inner),
{
    reveal_strlit("Nullable<");
    assert("Nullable<"@.len() == 9 && "Nullable<"@[0] == 'N');
    law_peel_wrapper("Nullable<"@, inner);
}

/// A raw identifier `r#name` is the identifier `name`.
pub proof fn law_raw_identifier(name: Seq<char>)
    requires
        name.len() > 0,
        !is_ws(name.last()),
    ensures
        strip_raw("r#"@ + name) == name,
{
    reveal_strlit("r#");
    assert("r#"@.len() == 2 && "r#"@[0] == 'r' && "r#"@[1] == '#');
    let v = "r#"@ + name;
    assert(v[0] == 'r');
    assert(v.last() == name.last());
    lemma_trim_ends_fixed(v);
    assert(v.subrange(0, 2) =~= "r#"@);
    assert(v.subrange(2, v.len() as int) =~= name);
}


/// `w` written inside a Rust string literal: `"` and `\\` escaped.
pub open spec fn escaped(w: Seq<char>) -> Seq<char>
    decreases w.len(),
{
    if w.len() == 0 {
        Seq::empty()
    } else if w[0] == '"' || w[0] == '\\' {
        seq!['\\', w[0]] + escaped(w.drop_first())
    } else {
        seq![w[0]] + escaped(w.drop_first())
    }
}

proof fn lemma_quoted_body(w: Seq<char>, out: Seq<char>, post: Seq<char>)
    ensures
        quoted_scan(escaped(w) + seq!['"'] + post, true, false, out) == Some(out + w),
    decreases w.len(),
{
    if w.len() == 0 {
        assert(escaped(w) + seq!['"'] + post =~= seq!['"'] + post);
        assert((seq!['"'] + post)[0] == '"');
        assert(out + w =~= out);
    } else {
        let t = w.drop_first();
        lemma_quoted_body(t, out.push(w[0]), post);
        assert(out.push(w[0]) + t =~= out + w);
        let s = escaped(w) + seq!['"'] + post;
        if w[0] == '"' || w[0] == '\\' {
            assert(s =~= seq!['\\', w[0]] + (escaped(t) + seq!['"'] + post));
            assert(s.drop_first() =~= seq![w[0]] + (escaped(t) + seq!['"'] + post));
            assert(s.drop_first().drop_first() =~= escaped(t) + seq!['"'] + post);
            assert(s[0] == '\\' && s.drop_first()[0] == w[0]);
            assert(quoted_scan(s, true, false, out) == quoted_scan(s.drop_first(), true, true, out));
            assert(quoted_scan(s.drop_first(), true, true, out) == quoted_scan(
                s.drop_first().drop_first(),
                true,
                false,
                out.push(w[0]),
            ));
        } else {
            assert(s =~= seq![w[0]] + (escaped(t) + seq!['"'] + post));
            assert(s.drop_first() =~= escaped(t) + seq!['"'] + post);
            assert(s[0] == w[0]);
        }
    }
}

proof fn lemma_quoted_skip(pre: Seq<char>, rest: Seq<char>, out: Seq<char>)
    requires
        forall|i: int| 0 <= i < pre.len() ==> #[trigger] pre[i] != '"',
    ensures
        quoted_scan(pre + seq!['"'] + rest, false, false, out) == quoted_scan(rest, true, false, out),
    decreases pre.len(),
{
    let s = pre + seq!['"'] + rest;
    if pre.len() == 0 {
        assert(s.drop_first() =~= rest);
    } else {
        let t = pre.drop_first();
        assert(s[0] == pre[0]);
        assert(s.drop_first() =~= t + seq!['"'] + rest);
        lemma_quoted_skip(t, rest, out);
    }
}

/// A quoted attribute value reads back exactly the text that was quoted:
/// what comes before the opening quote is skipped, escapes are undone, and
/// the value ends at the first unescaped quote.
pub proof fn law_quoted_value(pre: Seq<char>, w: Seq<char>, post: Seq<char>)
    requires
        forall|i: int| 0 <= i < pre.len() ==> #[trigger] pre[i] != '"',
    ensures
        quoted_scan(pre + seq!['"'] + escaped(w) + seq!['"'] + post, false, false, Seq::empty())
            == Some(w),
{
    let rest = escaped(w) + seq!['"'] + post;
    assert(pre + seq!['"'] + escaped(w) + seq!['"'] + post =~= pre + seq!['"'] + rest);
    lemma_quoted_skip(pre, rest, Seq::empty());
    lemma_quoted_body(w, Seq::empty(), post);
    assert(Seq::<char>::empty() + w =~= w);
}

} // verus!
