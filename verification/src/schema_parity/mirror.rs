//! Swapping the expected and the actual projection mirrors every
//! difference: a missing column becomes an extra one, a table's expected
//! value becomes its actual one, and nothing else changes.
use vstd::prelude::*;
use vstd::relations::injective;

use super::compare::{
    column_diffs, column_name_order, columns_by_name, database_diffs, diff, expected_column_diffs, expected_table_diffs,
    extra_column_diffs, extra_table_diffs, find_column, find_table, qualified, raw_diffs,
    table_diffs, DifferenceCode, DifferenceView,
};
use super::laws::{
    column_name_key, keys_ascending, lemma_order_antisym, lemma_order_by_key, lemma_table_order_total, lemma_find_column_self, lemma_find_column_some, lemma_find_table_self,
    lemma_find_table_some, projection_normal, table_normal,
};
use super::model::{ColumnView, ProjectionView, TableView};
use super::normalize::{map_key, table_order};
use crate::order::{
    insert_pos, isort, lemma_insert_multiset, lemma_isort_contains, lemma_isort_multiset, unique_by,
};
use crate::text::join;

verus! {

/// The code a difference has when the two projections trade places.
pub open spec fn mirror_code(c: DifferenceCode) -> DifferenceCode {
    match c {
        DifferenceCode::MissingColumn => DifferenceCode::ExtraColumn,
        DifferenceCode::ExtraColumn => DifferenceCode::MissingColumn,
        DifferenceCode::MissingTable => DifferenceCode::ExtraTable,
        DifferenceCode::ExtraTable => DifferenceCode::MissingTable,
        _ => c,
    }
}

/// A difference as seen with the two projections trading places.
pub open spec fn mirror(d: DifferenceView) -> DifferenceView {
    DifferenceView {
        code: mirror_code(d.code),
        table: d.table,
        column: d.column,
        expected: d.actual,
        actual: d.expected,
    }
}

proof fn lemma_concat_contains(a: Seq<DifferenceView>, b: Seq<DifferenceView>, d: DifferenceView)
    ensures
        (a + b).contains(d) <==> a.contains(d) || b.contains(d),
{
    let r = a + b;
    if r.contains(d) {
        let i = choose|i: int| 0 <= i < r.len() && r[i] == d;
        if i < a.len() {
            assert(a[i] == d);
        } else {
            assert(b[i - a.len()] == d);
        }
    }
    if a.contains(d) {
        let i = choose|i: int| 0 <= i < a.len() && a[i] == d;
        assert(r[i] == d);
    }
    if b.contains(d) {
        let i = choose|i: int| 0 <= i < b.len() && b[i] == d;
        assert(r[i + a.len()] == d);
    }
}

// ---------------------------------------------------------------------
// Columns
// ---------------------------------------------------------------------

/// What expected column `i` contributes.
spec fn expected_column_piece(q: Seq<char>, ecs: Seq<ColumnView>, acs: Seq<ColumnView>, i: int) -> Seq<
    DifferenceView,
> {
    match find_column(acs, ecs[i].name, 0) {
        Some(j) => column_diffs(q, ecs[i], acs[j]),
        None => seq![
            diff(DifferenceCode::MissingColumn, q, Some(ecs[i].name), "present"@, "missing"@),
        ],
    }
}

/// What actual column `i` contributes.
spec fn extra_column_piece(q: Seq<char>, ecs: Seq<ColumnView>, acs: Seq<ColumnView>, i: int) -> Seq<
    DifferenceView,
> {
    if find_column(ecs, acs[i].name, 0) is None {
        seq![diff(DifferenceCode::ExtraColumn, q, Some(acs[i].name), "missing"@, "present"@)]
    } else {
        Seq::empty()
    }
}

proof fn lemma_expected_columns_members(
    q: Seq<char>,
    ecs: Seq<ColumnView>,
    acs: Seq<ColumnView>,
    k: int,
    d: DifferenceView,
)
    requires
        0 <= k,
    ensures
        expected_column_diffs(q, ecs, acs, k).contains(d) <==> exists|i: int|
            k <= i < ecs.len() && #[trigger] expected_column_piece(q, ecs, acs, i).contains(d),
    decreases ecs.len() - k,
{
    if k < ecs.len() {
        lemma_expected_columns_members(q, ecs, acs, k + 1, d);
        lemma_concat_contains(
            expected_column_piece(q, ecs, acs, k),
            expected_column_diffs(q, ecs, acs, k + 1),
            d,
        );
        assert(expected_column_diffs(q, ecs, acs, k) == expected_column_piece(q, ecs, acs, k)
            + expected_column_diffs(q, ecs, acs, k + 1));
        if exists|i: int| k <= i < ecs.len() && #[trigger] expected_column_piece(q, ecs, acs, i).contains(d) {
            let i = choose|i: int|
                k <= i < ecs.len() && #[trigger] expected_column_piece(q, ecs, acs, i).contains(d);
            if i > k {
                assert(k + 1 <= i < ecs.len() && expected_column_piece(q, ecs, acs, i).contains(d));
            }
        }
    }
}

proof fn lemma_extra_columns_members(
    q: Seq<char>,
    ecs: Seq<ColumnView>,
    acs: Seq<ColumnView>,
    k: int,
    d: DifferenceView,
)
    requires
        0 <= k,
    ensures
        extra_column_diffs(q, ecs, acs, k).contains(d) <==> exists|i: int|
            k <= i < acs.len() && #[trigger] extra_column_piece(q, ecs, acs, i).contains(d),
    decreases acs.len() - k,
{
    if k < acs.len() {
        lemma_extra_columns_members(q, ecs, acs, k + 1, d);
        lemma_concat_contains(
            extra_column_piece(q, ecs, acs, k),
            extra_column_diffs(q, ecs, acs, k + 1),
            d,
        );
        assert(extra_column_diffs(q, ecs, acs, k) == extra_column_piece(q, ecs, acs, k)
            + extra_column_diffs(q, ecs, acs, k + 1));
        if exists|i: int| k <= i < acs.len() && #[trigger] extra_column_piece(q, ecs, acs, i).contains(d) {
            let i = choose|i: int|
                k <= i < acs.len() && #[trigger] extra_column_piece(q, ecs, acs, i).contains(d);
            if i > k {
                assert(k + 1 <= i < acs.len() && extra_column_piece(q, ecs, acs, i).contains(d));
            }
        }
    }
}

proof fn lemma_column_diffs_mirror(q: Seq<char>, x: ColumnView, y: ColumnView, d: DifferenceView)
    requires
        x.name == y.name,
        column_diffs(q, x, y).contains(d),
    ensures
        column_diffs(q, y, x).contains(mirror(d)),
{
    let r = column_diffs(q, x, y);
    let s = column_diffs(q, y, x);
    let i = choose|i: int| 0 <= i < r.len() && r[i] == d;
    let a1 = x.ordinal != y.ordinal;
    let a2 = x.type_family != y.type_family;
    let a3 = x.nullable != y.nullable;
    let n1: int = if a1 { 1 } else { 0 };
    let n2: int = if a2 { 1 } else { 0 };
    assert(r.len() == s.len());
    if a1 && i == 0 {
        assert(s[0] == mirror(d));
    } else if a2 && i == n1 {
        assert(s[n1] == mirror(d));
    } else {
        assert(a3 && i == n1 + n2);
        assert(s[n1 + n2] == mirror(d));
    }
}

proof fn lemma_table_diffs_mirror(x: TableView, y: TableView, d: DifferenceView)
    requires
        table_normal(x),
        table_normal(y),
        x.schema == y.schema,
        x.name == y.name,
        table_diffs(x, y).contains(d),
    ensures
        table_diffs(y, x).contains(mirror(d)),
{
    let q = qualified(x.schema, x.name);
    let xs = x.columns;
    let ys = y.columns;
    let pk_xy: Seq<DifferenceView> = if x.primary_key != y.primary_key {
        seq![
            diff(
                DifferenceCode::PrimaryKeyMismatch,
                q,
                None,
                join(x.primary_key, ","@),
                join(y.primary_key, ","@),
            ),
        ]
    } else {
        Seq::empty()
    };
    let pk_yx: Seq<DifferenceView> = if y.primary_key != x.primary_key {
        seq![
            diff(
                DifferenceCode::PrimaryKeyMismatch,
                q,
                None,
                join(y.primary_key, ","@),
                join(x.primary_key, ","@),
            ),
        ]
    } else {
        Seq::empty()
    };
    let exy = expected_column_diffs(q, xs, ys, 0);
    let xxy = extra_column_diffs(q, xs, ys, 0);
    let eyx = expected_column_diffs(q, ys, xs, 0);
    let xyx = extra_column_diffs(q, ys, xs, 0);
    let cxy = columns_by_name(q, xs, ys);
    let cyx = columns_by_name(q, ys, xs);
    assert(table_diffs(x, y) == pk_xy + cxy);
    assert(table_diffs(y, x) == pk_yx + cyx);
    let m = mirror(d);
    lemma_concat_contains(pk_xy, cxy, d);
    lemma_concat_contains(pk_yx, cyx, m);
    lemma_isort_contains(exy + xxy, column_name_order(), d);
    lemma_isort_contains(eyx + xyx, column_name_order(), m);
    lemma_concat_contains(exy, xxy, d);
    lemma_concat_contains(eyx, xyx, m);
    lemma_expected_columns_members(q, xs, ys, 0, d);
    lemma_extra_columns_members(q, xs, ys, 0, d);
    lemma_expected_columns_members(q, ys, xs, 0, m);
    lemma_extra_columns_members(q, ys, xs, 0, m);
    if pk_xy.contains(d) {
        assert(pk_yx[0] == m);
    } else if exy.contains(d) {
        let i = choose|i: int|
            0 <= i < xs.len() && #[trigger] expected_column_piece(q, xs, ys, i).contains(d);
        lemma_find_column_some(ys, xs[i].name, 0);
        match find_column(ys, xs[i].name, 0) {
            Some(j) => {
                lemma_column_diffs_mirror(q, xs[i], ys[j], d);
                lemma_find_column_self(xs, i, 0);
                assert(expected_column_piece(q, ys, xs, j) == column_diffs(q, ys[j], xs[i]));
                assert(expected_column_piece(q, ys, xs, j).contains(m));
            },
            None => {
                assert(d == diff(DifferenceCode::MissingColumn, q, Some(xs[i].name), "present"@, "missing"@));
                assert(extra_column_piece(q, ys, xs, i)[0] == m);
                assert(extra_column_piece(q, ys, xs, i).contains(m));
            },
        }
    } else {
        assert(xxy.contains(d));
        let i = choose|i: int|
            0 <= i < ys.len() && #[trigger] extra_column_piece(q, xs, ys, i).contains(d);
        assert(find_column(xs, ys[i].name, 0) is None);
        assert(expected_column_piece(q, ys, xs, i)[0] == m);
        assert(expected_column_piece(q, ys, xs, i).contains(m));
    }
}

/// Every column difference, mirrored, is a column difference of the
/// tables taken the other way round.
proof fn lemma_columns_mirror(q: Seq<char>, xs: Seq<ColumnView>, ys: Seq<ColumnView>, d: DifferenceView)
    requires
        unique_by(xs, column_name_key()),
        unique_by(ys, column_name_key()),
        (expected_column_diffs(q, xs, ys, 0) + extra_column_diffs(q, xs, ys, 0)).contains(d),
    ensures
        (expected_column_diffs(q, ys, xs, 0) + extra_column_diffs(q, ys, xs, 0)).contains(mirror(d)),
{
    let exy = expected_column_diffs(q, xs, ys, 0);
    let xxy = extra_column_diffs(q, xs, ys, 0);
    let eyx = expected_column_diffs(q, ys, xs, 0);
    let xyx = extra_column_diffs(q, ys, xs, 0);
    let m = mirror(d);
    lemma_concat_contains(exy, xxy, d);
    lemma_concat_contains(eyx, xyx, m);
    lemma_expected_columns_members(q, xs, ys, 0, d);
    lemma_extra_columns_members(q, xs, ys, 0, d);
    lemma_expected_columns_members(q, ys, xs, 0, m);
    lemma_extra_columns_members(q, ys, xs, 0, m);
    if exy.contains(d) {
        let i = choose|i: int|
            0 <= i < xs.len() && #[trigger] expected_column_piece(q, xs, ys, i).contains(d);
        lemma_find_column_some(ys, xs[i].name, 0);
        match find_column(ys, xs[i].name, 0) {
            Some(j) => {
                lemma_column_diffs_mirror(q, xs[i], ys[j], d);
                lemma_find_column_self(xs, i, 0);
                assert(expected_column_piece(q, ys, xs, j) == column_diffs(q, ys[j], xs[i]));
                assert(expected_column_piece(q, ys, xs, j).contains(m));
            },
            None => {
                assert(extra_column_piece(q, ys, xs, i)[0] == m);
                assert(extra_column_piece(q, ys, xs, i).contains(m));
            },
        }
    } else {
        let i = choose|i: int|
            0 <= i < ys.len() && #[trigger] extra_column_piece(q, xs, ys, i).contains(d);
        assert(find_column(xs, ys[i].name, 0) is None);
        assert(expected_column_piece(q, ys, xs, i)[0] == m);
        assert(expected_column_piece(q, ys, xs, i).contains(m));
    }
}

proof fn lemma_mirror_involution(d: DifferenceView)
    ensures
        mirror(mirror(d)) == d,
{
}

/// Two sequences without repeats that hold the same items are permutations
/// of each other.
proof fn lemma_same_items_no_dups(s: Seq<DifferenceView>, t: Seq<DifferenceView>)
    requires
        s.no_duplicates(),
        t.no_duplicates(),
        forall|x: DifferenceView| s.contains(x) <==> t.contains(x),
    ensures
        s.to_multiset() == t.to_multiset(),
{
    broadcast use vstd::seq_lib::group_to_multiset_ensures;

    s.lemma_multiset_has_no_duplicates();
    t.lemma_multiset_has_no_duplicates();
    assert forall|x: DifferenceView| s.to_multiset().count(x) == t.to_multiset().count(x) by {
        if s.contains(x) {
            assert(t.contains(x));
        } else {
            assert(!t.contains(x));
        }
    }
    assert(s.to_multiset() =~= t.to_multiset());
}

proof fn lemma_concat_no_dups(a: Seq<DifferenceView>, b: Seq<DifferenceView>)
    requires
        a.no_duplicates(),
        b.no_duplicates(),
        forall|x: DifferenceView| a.contains(x) ==> !b.contains(x),
    ensures
        (a + b).no_duplicates(),
{
    let r = a + b;
    assert forall|i: int, j: int| 0 <= i < r.len() && 0 <= j < r.len() && i != j implies r[i] != r[j] by {
        if i < a.len() && j < a.len() {
        } else if i >= a.len() && j >= a.len() {
            assert(r[i] == b[i - a.len()] && r[j] == b[j - a.len()]);
        } else if i < a.len() {
            assert(r[i] == a[i] && r[j] == b[j - a.len()]);
            assert(a.contains(a[i]));
            assert(b.contains(b[j - a.len()]));
        } else {
            assert(r[j] == a[j] && r[i] == b[i - a.len()]);
            assert(a.contains(a[j]));
            assert(b.contains(b[i - a.len()]));
        }
    }
}

/// What the expected columns from `k` on give: column names of those
/// columns, and no extra column.
proof fn lemma_expected_columns_shape(
    q: Seq<char>,
    xs: Seq<ColumnView>,
    ys: Seq<ColumnView>,
    k: int,
)
    requires
        0 <= k,
        unique_by(xs, column_name_key()),
    ensures
        expected_column_diffs(q, xs, ys, k).no_duplicates(),
        forall|d: DifferenceView|
            #[trigger] expected_column_diffs(q, xs, ys, k).contains(d) ==> d.code
                != DifferenceCode::ExtraColumn && exists|i: int|
                k <= i < xs.len() && d.column == Some(#[trigger] xs[i].name),
    decreases xs.len() - k,
{
    if k < xs.len() {
        lemma_expected_columns_shape(q, xs, ys, k + 1);
        let p = expected_column_piece(q, xs, ys, k);
        let rest = expected_column_diffs(q, xs, ys, k + 1);
        assert(expected_column_diffs(q, xs, ys, k) == p + rest);
        assert(p.no_duplicates());
        assert forall|d: DifferenceView| p.contains(d) implies d.code != DifferenceCode::ExtraColumn
            && d.column == Some(xs[k].name) by {
            let i = choose|i: int| 0 <= i < p.len() && p[i] == d;
        }
        assert forall|d: DifferenceView| p.contains(d) implies !rest.contains(d) by {
            if rest.contains(d) {
                let i = choose|i: int| k + 1 <= i < xs.len() && d.column == Some(#[trigger] xs[i].name);
                assert((column_name_key())(xs[k]) != (column_name_key())(xs[i]));
            }
        }
        lemma_concat_no_dups(p, rest);
        assert forall|d: DifferenceView| #[trigger] (p + rest).contains(d) implies d.code
            != DifferenceCode::ExtraColumn && exists|i: int|
            k <= i < xs.len() && d.column == Some(#[trigger] xs[i].name) by {
            lemma_concat_contains(p, rest, d);
            if p.contains(d) {
                assert(d.column == Some(xs[k].name));
            } else {
                let i = choose|i: int| k + 1 <= i < xs.len() && d.column == Some(#[trigger] xs[i].name);
            }
        }
    }
}

/// What the actual columns from `k` on give: extra columns, by names of
/// those columns.
proof fn lemma_extra_columns_shape(q: Seq<char>, xs: Seq<ColumnView>, ys: Seq<ColumnView>, k: int)
    requires
        0 <= k,
        unique_by(ys, column_name_key()),
    ensures
        extra_column_diffs(q, xs, ys, k).no_duplicates(),
        forall|d: DifferenceView|
            #[trigger] extra_column_diffs(q, xs, ys, k).contains(d) ==> d.code
                == DifferenceCode::ExtraColumn && exists|i: int|
                k <= i < ys.len() && d.column == Some(#[trigger] ys[i].name),
    decreases ys.len() - k,
{
    if k < ys.len() {
        lemma_extra_columns_shape(q, xs, ys, k + 1);
        let p = extra_column_piece(q, xs, ys, k);
        let rest = extra_column_diffs(q, xs, ys, k + 1);
        assert(extra_column_diffs(q, xs, ys, k) == p + rest);
        assert forall|d: DifferenceView| p.contains(d) implies d.code == DifferenceCode::ExtraColumn
            && d.column == Some(ys[k].name) by {
            let i = choose|i: int| 0 <= i < p.len() && p[i] == d;
        }
        assert forall|d: DifferenceView| p.contains(d) implies !rest.contains(d) by {
            if rest.contains(d) {
                let i = choose|i: int| k + 1 <= i < ys.len() && d.column == Some(#[trigger] ys[i].name);
                assert((column_name_key())(ys[k]) != (column_name_key())(ys[i]));
            }
        }
        lemma_concat_no_dups(p, rest);
        assert forall|d: DifferenceView| #[trigger] (p + rest).contains(d) implies d.code
            == DifferenceCode::ExtraColumn && exists|i: int|
            k <= i < ys.len() && d.column == Some(#[trigger] ys[i].name) by {
            lemma_concat_contains(p, rest, d);
            if p.contains(d) {
                assert(d.column == Some(ys[k].name));
            } else {
                let i = choose|i: int| k + 1 <= i < ys.len() && d.column == Some(#[trigger] ys[i].name);
            }
        }
    }
}

proof fn lemma_columns_no_dups(q: Seq<char>, xs: Seq<ColumnView>, ys: Seq<ColumnView>)
    requires
        unique_by(xs, column_name_key()),
        unique_by(ys, column_name_key()),
    ensures
        (expected_column_diffs(q, xs, ys, 0) + extra_column_diffs(q, xs, ys, 0)).no_duplicates(),
{
    lemma_expected_columns_shape(q, xs, ys, 0);
    lemma_extra_columns_shape(q, xs, ys, 0);
    lemma_concat_no_dups(expected_column_diffs(q, xs, ys, 0), extra_column_diffs(q, xs, ys, 0));
}

/// Mapping keeps the items of a sequence together with their counts.
pub proof fn lemma_map_append<A, B>(a: Seq<A>, b: Seq<A>, f: spec_fn(A) -> B)
    ensures
        (a + b).map_values(f) == a.map_values(f) + b.map_values(f),
        (a + b).map_values(f).to_multiset() == a.map_values(f).to_multiset().add(
            b.map_values(f).to_multiset(),
        ),
{
    assert((a + b).map_values(f) =~= a.map_values(f) + b.map_values(f));
    vstd::seq_lib::lemma_multiset_commutative(a.map_values(f), b.map_values(f));
}

/// Sorting, then mapping, gives the items of mapping alone.
pub proof fn lemma_isort_map<A, B>(s: Seq<A>, le: spec_fn(A, A) -> bool, f: spec_fn(A) -> B)
    ensures
        isort(s, le).map_values(f).to_multiset() == s.map_values(f).to_multiset(),
    decreases s.len(),
{
    broadcast use vstd::seq_lib::group_to_multiset_ensures;

    if s.len() > 0 {
        let r = isort(s.drop_last(), le);
        lemma_isort_map(s.drop_last(), le, f);
        crate::order::lemma_insert_pos(r, s.last(), le, 0);
        let p = insert_pos(r, s.last(), le, 0);
        assert(r.insert(p, s.last()).map_values(f) =~= r.map_values(f).insert(p, f(s.last())));
        lemma_insert_multiset(r.map_values(f), p, f(s.last()));
        assert(s.map_values(f) =~= s.drop_last().map_values(f).push(f(s.last())));
    }
}

/// The column differences of two tables, taken the other way round, are
/// those of the tables, mirrored, counted alike.
proof fn lemma_columns_permuted(q: Seq<char>, xs: Seq<ColumnView>, ys: Seq<ColumnView>)
    requires
        unique_by(xs, column_name_key()),
        unique_by(ys, column_name_key()),
    ensures
        columns_by_name(q, ys, xs).to_multiset() == columns_by_name(q, xs, ys).map_values(
            |d: DifferenceView| mirror(d),
        ).to_multiset(),
{
    let f = |d: DifferenceView| mirror(d);
    let sxy = expected_column_diffs(q, xs, ys, 0) + extra_column_diffs(q, xs, ys, 0);
    let syx = expected_column_diffs(q, ys, xs, 0) + extra_column_diffs(q, ys, xs, 0);
    lemma_isort_multiset(syx, column_name_order());
    lemma_isort_map(sxy, column_name_order(), f);
    lemma_columns_no_dups(q, xs, ys);
    lemma_columns_no_dups(q, ys, xs);
    let mxy = sxy.map_values(f);
    assert(injective(f)) by {
        assert forall|a: DifferenceView, b: DifferenceView| #[trigger] f(a) == #[trigger] f(b) implies a == b by {
            lemma_mirror_involution(a);
            lemma_mirror_involution(b);
        }
    }
    sxy.lemma_no_duplicates_injective(f);
    assert forall|x: DifferenceView| syx.contains(x) <==> mxy.contains(x) by {
        if syx.contains(x) {
            lemma_columns_mirror(q, ys, xs, x);
            let i = choose|i: int| 0 <= i < sxy.len() && sxy[i] == mirror(x);
            lemma_mirror_involution(x);
            assert(mxy[i] == x);
        }
        if mxy.contains(x) {
            let i = choose|i: int| 0 <= i < mxy.len() && mxy[i] == x;
            assert(sxy.contains(sxy[i]));
            lemma_columns_mirror(q, xs, ys, sxy[i]);
        }
    }
    lemma_same_items_no_dups(syx, mxy);
}

/// The differences of two normal tables with one key, taken the other way
/// round, are theirs mirrored, counted alike.
pub proof fn lemma_table_diffs_permuted(x: TableView, y: TableView)
    requires
        table_normal(x),
        table_normal(y),
        x.schema == y.schema,
        x.name == y.name,
    ensures
        table_diffs(y, x).to_multiset() == table_diffs(x, y).map_values(|d: DifferenceView| mirror(d)).to_multiset(),
{
    let f = |d: DifferenceView| mirror(d);
    let q = qualified(x.schema, x.name);
    lemma_columns_permuted(q, x.columns, y.columns);
    let cxy = columns_by_name(q, x.columns, y.columns);
    let cyx = columns_by_name(q, y.columns, x.columns);
    let pk_xy = table_diffs(x, y).subrange(0, table_diffs(x, y).len() - cxy.len());
    let pk_yx = table_diffs(y, x).subrange(0, table_diffs(y, x).len() - cyx.len());
    assert(table_diffs(x, y) =~= pk_xy + cxy);
    assert(table_diffs(y, x) =~= pk_yx + cyx);
    assert(pk_yx =~= pk_xy.map_values(f));
    lemma_map_append(pk_xy, cxy, f);
    vstd::seq_lib::lemma_multiset_commutative(pk_yx, cyx);
}

// ---------------------------------------------------------------------
// Tables
// ---------------------------------------------------------------------

/// What expected table `i` contributes.
spec fn expected_table_piece(es: Seq<TableView>, acts: Seq<TableView>, i: int) -> Seq<DifferenceView> {
    match find_table(acts, es[i].schema, es[i].name, 0) {
        Some(j) => table_diffs(es[i], acts[j]),
        None => seq![
            diff(
                DifferenceCode::MissingTable,
                qualified(es[i].schema, es[i].name),
                None,
                "present"@,
                "missing"@,
            ),
        ],
    }
}

/// What actual table `i` contributes.
spec fn extra_table_piece(es: Seq<TableView>, acts: Seq<TableView>, i: int) -> Seq<DifferenceView> {
    if find_table(es, acts[i].schema, acts[i].name, 0) is None {
        seq![
            diff(
                DifferenceCode::ExtraTable,
                qualified(acts[i].schema, acts[i].name),
                None,
                "missing"@,
                "present"@,
            ),
        ]
    } else {
        Seq::empty()
    }
}

proof fn lemma_expected_tables_members(
    es: Seq<TableView>,
    acts: Seq<TableView>,
    k: int,
    d: DifferenceView,
)
    requires
        0 <= k,
    ensures
        expected_table_diffs(es, acts, k).contains(d) <==> exists|i: int|
            k <= i < es.len() && #[trigger] expected_table_piece(es, acts, i).contains(d),
    decreases es.len() - k,
{
    if k < es.len() {
        lemma_expected_tables_members(es, acts, k + 1, d);
        lemma_concat_contains(
            expected_table_piece(es, acts, k),
            expected_table_diffs(es, acts, k + 1),
            d,
        );
        assert(expected_table_diffs(es, acts, k) == expected_table_piece(es, acts, k)
            + expected_table_diffs(es, acts, k + 1));
        if exists|i: int| k <= i < es.len() && #[trigger] expected_table_piece(es, acts, i).contains(d) {
            let i = choose|i: int|
                k <= i < es.len() && #[trigger] expected_table_piece(es, acts, i).contains(d);
            if i > k {
                assert(k + 1 <= i < es.len() && expected_table_piece(es, acts, i).contains(d));
            }
        }
    }
}

proof fn lemma_extra_tables_members(es: Seq<TableView>, acts: Seq<TableView>, k: int, d: DifferenceView)
    requires
        0 <= k,
    ensures
        extra_table_diffs(es, acts, k).contains(d) <==> exists|i: int|
            k <= i < acts.len() && #[trigger] extra_table_piece(es, acts, i).contains(d),
    decreases acts.len() - k,
{
    if k < acts.len() {
        lemma_extra_tables_members(es, acts, k + 1, d);
        lemma_concat_contains(
            extra_table_piece(es, acts, k),
            extra_table_diffs(es, acts, k + 1),
            d,
        );
        assert(extra_table_diffs(es, acts, k) == extra_table_piece(es, acts, k)
            + extra_table_diffs(es, acts, k + 1));
        if exists|i: int| k <= i < acts.len() && #[trigger] extra_table_piece(es, acts, i).contains(d) {
            let i = choose|i: int|
                k <= i < acts.len() && #[trigger] extra_table_piece(es, acts, i).contains(d);
            if i > k {
                assert(k + 1 <= i < acts.len() && extra_table_piece(es, acts, i).contains(d));
            }
        }
    }
}

/// Every difference between two normal projections, mirrored, is a
/// difference between them taken the other way round.
pub proof fn lemma_raw_diffs_mirror(e: ProjectionView, a: ProjectionView, d: DifferenceView)
    requires
        projection_normal(e),
        projection_normal(a),
        raw_diffs(e, a).contains(d),
    ensures
        raw_diffs(a, e).contains(mirror(d)),
{
    let es = e.tables;
    let acts = a.tables;
    let m = mirror(d);
    let dea = database_diffs(e, a);
    let dae = database_diffs(a, e);
    let eea = expected_table_diffs(es, acts, 0);
    let xea = extra_table_diffs(es, acts, 0);
    let eae = expected_table_diffs(acts, es, 0);
    let xae = extra_table_diffs(acts, es, 0);
    assert(raw_diffs(e, a) == dea + eea + xea);
    assert(raw_diffs(a, e) == dae + eae + xae);
    lemma_concat_contains(dea + eea, xea, d);
    lemma_concat_contains(dea, eea, d);
    lemma_concat_contains(dae + eae, xae, m);
    lemma_concat_contains(dae, eae, m);
    lemma_expected_tables_members(es, acts, 0, d);
    lemma_extra_tables_members(es, acts, 0, d);
    lemma_expected_tables_members(acts, es, 0, m);
    lemma_extra_tables_members(acts, es, 0, m);
    if dea.contains(d) {
        let i = choose|i: int| 0 <= i < dea.len() && dea[i] == d;
        if e.engine != a.engine && i == 0 {
            assert(dae[0] == m);
        } else {
            let n: int = if e.engine != a.engine { 1 } else { 0 };
            assert(dae[n] == m);
        }
    } else if eea.contains(d) {
        let i = choose|i: int| 0 <= i < es.len() && #[trigger] expected_table_piece(es, acts, i).contains(d);
        lemma_find_table_some(acts, es[i].schema, es[i].name, 0);
        match find_table(acts, es[i].schema, es[i].name, 0) {
            Some(j) => {
                assert(table_normal(es[i]) && table_normal(acts[j]));
                lemma_table_diffs_mirror(es[i], acts[j], d);
                lemma_find_table_self(es, i, 0);
                assert(expected_table_piece(acts, es, j) == table_diffs(acts[j], es[i]));
                assert(expected_table_piece(acts, es, j).contains(m));
            },
            None => {
                assert(extra_table_piece(acts, es, i)[0] == m);
                assert(extra_table_piece(acts, es, i).contains(m));
            },
        }
    } else {
        assert(xea.contains(d));
        let i = choose|i: int| 0 <= i < acts.len() && #[trigger] extra_table_piece(es, acts, i).contains(d);
        assert(find_table(es, acts[i].schema, acts[i].name, 0) is None);
        assert(expected_table_piece(acts, es, i)[0] == m);
        assert(expected_table_piece(acts, es, i).contains(m));
    }
}

// ---------------------------------------------------------------------
// Counting: the tables merged in key order
// ---------------------------------------------------------------------

spec fn missing_table(t: TableView) -> DifferenceView {
    diff(DifferenceCode::MissingTable, qualified(t.schema, t.name), None, "present"@, "missing"@)
}

spec fn extra_table(t: TableView) -> DifferenceView {
    diff(DifferenceCode::ExtraTable, qualified(t.schema, t.name), None, "missing"@, "present"@)
}

/// The differences of two key-ordered table lists, walked together in key
/// order: a table on one side only is missing or extra, a table on both
/// sides gives its table differences.
spec fn merged(es: Seq<TableView>, acts: Seq<TableView>) -> Seq<DifferenceView>
    decreases es.len() + acts.len(),
{
    if es.len() == 0 && acts.len() == 0 {
        Seq::empty()
    } else if es.len() == 0 {
        seq![extra_table(acts[0])] + merged(es, acts.drop_first())
    } else if acts.len() == 0 {
        seq![missing_table(es[0])] + merged(es.drop_first(), acts)
    } else if map_key(es[0]) == map_key(acts[0]) {
        table_diffs(es[0], acts[0]) + merged(es.drop_first(), acts.drop_first())
    } else if (table_order())(es[0], acts[0]) {
        seq![missing_table(es[0])] + merged(es.drop_first(), acts)
    } else {
        seq![extra_table(acts[0])] + merged(es, acts.drop_first())
    }
}

proof fn lemma_find_table_shift(ts: Seq<TableView>, s: Seq<char>, n: Seq<char>, i: int)
    requires
        0 <= i,
        ts.len() > 0,
    ensures
        find_table(ts.drop_first(), s, n, i) == (match find_table(ts, s, n, i + 1) {
            Some(j) => Some(j - 1),
            None => None::<int>,
        }),
        find_table(ts, s, n, i + 1) matches Some(j) ==> j >= i + 1,
    decreases ts.len() - i,
{
    if i + 1 < ts.len() {
        assert(ts.drop_first()[i] == ts[i + 1]);
        lemma_find_table_shift(ts, s, n, i + 1);
    }
}

proof fn lemma_find_table_absent(ts: Seq<TableView>, s: Seq<char>, n: Seq<char>, i: int)
    requires
        forall|j: int| i <= j < ts.len() ==> !(#[trigger] ts[j].schema == s && ts[j].name == n),
    ensures
        find_table(ts, s, n, i) is None,
    decreases ts.len() - i,
{
    if 0 <= i < ts.len() {
        lemma_find_table_absent(ts, s, n, i + 1);
    }
}

proof fn lemma_expected_drop_es(es: Seq<TableView>, acts: Seq<TableView>, k: int)
    requires
        0 <= k,
        es.len() > 0,
    ensures
        expected_table_diffs(es, acts, k + 1) == expected_table_diffs(es.drop_first(), acts, k),
    decreases es.len() - k,
{
    if k + 1 < es.len() {
        assert(es.drop_first()[k] == es[k + 1]);
        lemma_expected_drop_es(es, acts, k + 1);
    }
}

proof fn lemma_expected_drop_acts(es: Seq<TableView>, acts: Seq<TableView>, k: int)
    requires
        0 <= k,
        acts.len() > 0,
        forall|i: int| k <= i < es.len() ==> map_key(#[trigger] es[i]) != map_key(acts[0]),
    ensures
        expected_table_diffs(es, acts, k) == expected_table_diffs(es, acts.drop_first(), k),
    decreases es.len() - k,
{
    if k < es.len() {
        lemma_expected_drop_acts(es, acts, k + 1);
        lemma_find_table_shift(acts, es[k].schema, es[k].name, 0);
        assert(map_key(es[k]) != map_key(acts[0]));
        assert(find_table(acts, es[k].schema, es[k].name, 0) == find_table(acts, es[k].schema, es[k].name, 1));
        lemma_find_table_some(acts, es[k].schema, es[k].name, 1);
        match find_table(acts, es[k].schema, es[k].name, 1) {
            Some(j) => {
                assert(acts.drop_first()[j - 1] == acts[j]);
            },
            None => {},
        }
        assert(expected_table_piece(es, acts, k) == expected_table_piece(es, acts.drop_first(), k));
    }
}

proof fn lemma_extra_drop_acts(es: Seq<TableView>, acts: Seq<TableView>, k: int)
    requires
        0 <= k,
        acts.len() > 0,
    ensures
        extra_table_diffs(es, acts, k + 1) == extra_table_diffs(es, acts.drop_first(), k),
    decreases acts.len() - k,
{
    if k + 1 < acts.len() {
        assert(acts.drop_first()[k] == acts[k + 1]);
        lemma_extra_drop_acts(es, acts, k + 1);
    }
}

proof fn lemma_extra_drop_es(es: Seq<TableView>, acts: Seq<TableView>, k: int)
    requires
        0 <= k,
        es.len() > 0,
        forall|m: int| k <= m < acts.len() ==> map_key(#[trigger] acts[m]) != map_key(es[0]),
    ensures
        extra_table_diffs(es, acts, k) == extra_table_diffs(es.drop_first(), acts, k),
    decreases acts.len() - k,
{
    if k < acts.len() {
        lemma_extra_drop_es(es, acts, k + 1);
        lemma_find_table_shift(es, acts[k].schema, acts[k].name, 0);
        assert(map_key(acts[k]) != map_key(es[0]));
        assert(find_table(es, acts[k].schema, acts[k].name, 0) == find_table(es, acts[k].schema, acts[k].name, 1));
        assert(extra_table_piece(es, acts, k) == extra_table_piece(es.drop_first(), acts, k));
    }
}

proof fn lemma_ascending_drop(s: Seq<TableView>)
    requires
        keys_ascending(s),
        s.len() > 0,
    ensures
        keys_ascending(s.drop_first()),
        forall|i: int| 0 <= i < s.drop_first().len() ==> map_key(#[trigger] s.drop_first()[i]) != map_key(s[0])
            && (table_order())(s[0], s.drop_first()[i]),
{
    let t = s.drop_first();
    assert forall|i: int, j: int| 0 <= i < j < t.len() implies (table_order())(#[trigger] t[i], #[trigger] t[j])
        && map_key(t[i]) != map_key(t[j]) by {
        assert(t[i] == s[i + 1] && t[j] == s[j + 1]);
    }
    assert forall|i: int| 0 <= i < t.len() implies map_key(#[trigger] t[i]) != map_key(s[0])
        && (table_order())(s[0], t[i]) by {
        assert(t[i] == s[i + 1]);
    }
}

/// A table ordered strictly before the first of a key-ordered list has no
/// key in the list.
proof fn lemma_before_all(t: TableView, s: Seq<TableView>)
    requires
        keys_ascending(s),
        s.len() > 0,
        (table_order())(t, s[0]),
        map_key(t) != map_key(s[0]),
    ensures
        forall|i: int| 0 <= i < s.len() ==> map_key(#[trigger] s[i]) != map_key(t),
{
    assert forall|i: int| 0 <= i < s.len() implies map_key(#[trigger] s[i]) != map_key(t) by {
        if i > 0 && map_key(s[i]) == map_key(t) {
            lemma_order_by_key(s[i], t, s[0]);
            lemma_order_by_key(s[i], t, s[i]);
            assert((table_order())(s[0], s[i]));
            assert((table_order())(s[0], t));
            lemma_order_antisym(t, s[0]);
        }
    }
}

/// Walking two key-ordered lists together counts the same differences as
/// looking up each table of one in the other.
proof fn lemma_merged_counts(es: Seq<TableView>, acts: Seq<TableView>, f: spec_fn(DifferenceView) -> DifferenceView)
    requires
        keys_ascending(es),
        keys_ascending(acts),
    ensures
        (expected_table_diffs(es, acts, 0) + extra_table_diffs(es, acts, 0)).map_values(f).to_multiset()
            == merged(es, acts).map_values(f).to_multiset(),
    decreases es.len() + acts.len(),
{
    broadcast use vstd::seq_lib::group_to_multiset_ensures;

    lemma_table_order_total();
    let ex = expected_table_diffs(es, acts, 0);
    let xt = extra_table_diffs(es, acts, 0);
    let m = merged(es, acts);
    if es.len() == 0 && acts.len() == 0 {
        assert(ex + xt =~= Seq::<DifferenceView>::empty());
    } else if es.len() == 0 {
        let a1 = acts.drop_first();
        lemma_ascending_drop(acts);
        lemma_merged_counts(es, a1, f);
        lemma_extra_drop_acts(es, acts, 0);
        let x0 = seq![extra_table(acts[0])];
        assert(xt == x0 + extra_table_diffs(es, acts, 1));
        assert(ex + xt =~= x0 + (expected_table_diffs(es, a1, 0) + extra_table_diffs(es, a1, 0)));
        lemma_map_append(x0, expected_table_diffs(es, a1, 0) + extra_table_diffs(es, a1, 0), f);
        lemma_map_append(x0, merged(es, a1), f);
    } else if acts.len() == 0 {
        let e1 = es.drop_first();
        lemma_ascending_drop(es);
        lemma_merged_counts(e1, acts, f);
        lemma_expected_drop_es(es, acts, 0);
        let m0 = seq![missing_table(es[0])];
        assert(ex == m0 + expected_table_diffs(es, acts, 1));
        assert(ex + xt =~= m0 + (expected_table_diffs(e1, acts, 0) + extra_table_diffs(e1, acts, 0)));
        lemma_map_append(m0, expected_table_diffs(e1, acts, 0) + extra_table_diffs(e1, acts, 0), f);
        lemma_map_append(m0, merged(e1, acts), f);
    } else {
        let e1 = es.drop_first();
        let a1 = acts.drop_first();
        lemma_ascending_drop(es);
        lemma_ascending_drop(acts);
        if map_key(es[0]) == map_key(acts[0]) {
            lemma_merged_counts(e1, a1, f);
            let td = table_diffs(es[0], acts[0]);
            assert(find_table(acts, es[0].schema, es[0].name, 0) == Some(0int));
            assert(find_table(es, acts[0].schema, acts[0].name, 0) == Some(0int));
            assert(ex == td + expected_table_diffs(es, acts, 1));
            lemma_expected_drop_es(es, acts, 0);
            lemma_expected_drop_acts(e1, acts, 0);
            assert(xt == extra_table_diffs(es, acts, 1));
            lemma_extra_drop_acts(es, acts, 0);
            lemma_extra_drop_es(es, a1, 0);
            assert(ex + xt =~= td + (expected_table_diffs(e1, a1, 0) + extra_table_diffs(e1, a1, 0)));
            lemma_map_append(td, expected_table_diffs(e1, a1, 0) + extra_table_diffs(e1, a1, 0), f);
            lemma_map_append(td, merged(e1, a1), f);
        } else if (table_order())(es[0], acts[0]) {
            lemma_merged_counts(e1, acts, f);
            lemma_before_all(es[0], acts);
            lemma_find_table_absent(acts, es[0].schema, es[0].name, 0);
            let m0 = seq![missing_table(es[0])];
            assert(ex == m0 + expected_table_diffs(es, acts, 1));
            lemma_expected_drop_es(es, acts, 0);
            lemma_extra_drop_es(es, acts, 0);
            assert(ex + xt =~= m0 + (expected_table_diffs(e1, acts, 0) + extra_table_diffs(e1, acts, 0)));
            lemma_map_append(m0, expected_table_diffs(e1, acts, 0) + extra_table_diffs(e1, acts, 0), f);
            lemma_map_append(m0, merged(e1, acts), f);
        } else {
            lemma_merged_counts(es, a1, f);
            assert((table_order())(acts[0], es[0]));
            lemma_before_all(acts[0], es);
            lemma_find_table_absent(es, acts[0].schema, acts[0].name, 0);
            let x0 = seq![extra_table(acts[0])];
            lemma_expected_drop_acts(es, acts, 0);
            assert(xt == x0 + extra_table_diffs(es, acts, 1));
            lemma_extra_drop_acts(es, acts, 0);
            let e2 = expected_table_diffs(es, a1, 0);
            let x2 = extra_table_diffs(es, a1, 0);
            assert(ex + xt =~= e2 + (x0 + x2));
            lemma_map_append(e2, x0 + x2, f);
            lemma_map_append(x0, x2, f);
            lemma_map_append(e2, x2, f);
            lemma_map_append(x0, e2 + x2, f);
            lemma_map_append(x0, merged(es, a1), f);
        }
    }
}

/// Walking the lists the other way round gives the mirrored differences,
/// counted alike.
proof fn lemma_merged_mirrored(es: Seq<TableView>, acts: Seq<TableView>)
    requires
        keys_ascending(es),
        keys_ascending(acts),
        forall|i: int| 0 <= i < es.len() ==> table_normal(#[trigger] es[i]),
        forall|i: int| 0 <= i < acts.len() ==> table_normal(#[trigger] acts[i]),
    ensures
        merged(acts, es).to_multiset() == merged(es, acts).map_values(|d: DifferenceView| mirror(d)).to_multiset(),
    decreases es.len() + acts.len(),
{
    broadcast use vstd::seq_lib::group_to_multiset_ensures;

    let f = |d: DifferenceView| mirror(d);
    lemma_table_order_total();
    if es.len() == 0 && acts.len() == 0 {
        assert(merged(es, acts).map_values(f) =~= Seq::<DifferenceView>::empty());
    } else if es.len() == 0 {
        let a1 = acts.drop_first();
        lemma_ascending_drop(acts);
        lemma_merged_mirrored(es, a1);
        lemma_map_append(seq![extra_table(acts[0])], merged(es, a1), f);
        assert(seq![extra_table(acts[0])].map_values(f) =~= seq![missing_table(acts[0])]);
        vstd::seq_lib::lemma_multiset_commutative(seq![missing_table(acts[0])], merged(a1, es));
    } else if acts.len() == 0 {
        let e1 = es.drop_first();
        lemma_ascending_drop(es);
        lemma_merged_mirrored(e1, acts);
        lemma_map_append(seq![missing_table(es[0])], merged(e1, acts), f);
        assert(seq![missing_table(es[0])].map_values(f) =~= seq![extra_table(es[0])]);
        vstd::seq_lib::lemma_multiset_commutative(seq![extra_table(es[0])], merged(acts, e1));
    } else {
        let e1 = es.drop_first();
        let a1 = acts.drop_first();
        lemma_ascending_drop(es);
        lemma_ascending_drop(acts);
        if map_key(es[0]) == map_key(acts[0]) {
            lemma_merged_mirrored(e1, a1);
            lemma_table_diffs_permuted(es[0], acts[0]);
            lemma_map_append(table_diffs(es[0], acts[0]), merged(e1, a1), f);
            vstd::seq_lib::lemma_multiset_commutative(table_diffs(acts[0], es[0]), merged(a1, e1));
        } else if (table_order())(es[0], acts[0]) {
            if (table_order())(acts[0], es[0]) {
                lemma_order_antisym(acts[0], es[0]);
            }
            lemma_merged_mirrored(e1, acts);
            lemma_map_append(seq![missing_table(es[0])], merged(e1, acts), f);
            assert(seq![missing_table(es[0])].map_values(f) =~= seq![extra_table(es[0])]);
            vstd::seq_lib::lemma_multiset_commutative(seq![extra_table(es[0])], merged(acts, e1));
        } else {
            assert((table_order())(acts[0], es[0]));
            lemma_merged_mirrored(es, a1);
            lemma_map_append(seq![extra_table(acts[0])], merged(es, a1), f);
            assert(seq![extra_table(acts[0])].map_values(f) =~= seq![missing_table(acts[0])]);
            vstd::seq_lib::lemma_multiset_commutative(seq![missing_table(acts[0])], merged(a1, es));
        }
    }
}

/// The differences of two normal projections, taken the other way round,
/// are theirs mirrored, counted alike.
pub proof fn lemma_raw_diffs_permuted(e: ProjectionView, a: ProjectionView)
    requires
        keys_ascending(e.tables),
        keys_ascending(a.tables),
        forall|i: int| 0 <= i < e.tables.len() ==> table_normal(#[trigger] e.tables[i]),
        forall|i: int| 0 <= i < a.tables.len() ==> table_normal(#[trigger] a.tables[i]),
    ensures
        raw_diffs(a, e).to_multiset() == raw_diffs(e, a).map_values(|d: DifferenceView| mirror(d)).to_multiset(),
{
    let f = |d: DifferenceView| mirror(d);
    let g = |d: DifferenceView| d;
    let es = e.tables;
    let acts = a.tables;
    let sea = expected_table_diffs(es, acts, 0) + extra_table_diffs(es, acts, 0);
    let sae = expected_table_diffs(acts, es, 0) + extra_table_diffs(acts, es, 0);
    lemma_merged_counts(acts, es, g);
    lemma_merged_counts(es, acts, f);
    lemma_merged_mirrored(es, acts);
    assert(sae.map_values(g) =~= sae);
    assert(merged(acts, es).map_values(g) =~= merged(acts, es));
    assert(raw_diffs(e, a) =~= database_diffs(e, a) + sea);
    assert(raw_diffs(a, e) =~= database_diffs(a, e) + sae);
    assert(database_diffs(a, e) =~= database_diffs(e, a).map_values(f));
    lemma_map_append(database_diffs(e, a), sea, f);
    vstd::seq_lib::lemma_multiset_commutative(database_diffs(a, e), sae);
}

} // verus!
