//! Normalization of a projection: every text trimmed and checked, every type
//! name mapped to its family, keys checked for uniqueness, columns ordered by
//! ordinal and tables by (schema, name).
use vstd::prelude::*;

use super::model::{
    columns_view, required_text, required_text_spec, res_view, tables_view, texts,
    type_family_exec, type_family_spec, ColumnProjection, ColumnView, DatabaseIdentity,
    GeneratorIdentity, ProjectionView, SchemaProjection, TableProjection, TableView,
    PARITY_SCHEMA_VERSION,
};
use super::ParityError;
use crate::order::{insert_pos, isort, lex_le, lex_le_exec};
use crate::text::{string_of, text_of};

verus! {

// ---------------------------------------------------------------------
// Specification
// ---------------------------------------------------------------------

pub open spec fn native_spec(n: Option<Seq<char>>) -> Result<Option<Seq<char>>, ParityError> {
    match n {
        None => Ok(None),
        Some(s) => match required_text_spec(s) {
            Ok(t) => Ok(Some(t)),
            Err(e) => Err(e),
        },
    }
}

pub open spec fn has_ordinal(cs: Seq<ColumnView>, o: u32) -> bool {
    exists|i: int| 0 <= i < cs.len() && #[trigger] cs[i].ordinal == o
}

pub open spec fn has_column(cs: Seq<ColumnView>, n: Seq<char>) -> bool {
    exists|i: int| 0 <= i < cs.len() && #[trigger] cs[i].name == n
}

pub open spec fn has_table(ts: Seq<TableView>, schema: Seq<char>, name: Seq<char>) -> bool {
    exists|i: int| 0 <= i < ts.len() && #[trigger] ts[i].schema == schema && ts[i].name == name
}

/// Column `c` normalized after the columns `acc` of its table.
pub open spec fn next_column_spec(c: ColumnView, acc: Seq<ColumnView>) -> Result<
    ColumnView,
    ParityError,
> {
    match required_text_spec(c.name) {
        Err(e) => Err(e),
        Ok(name) => match type_family_spec(c.type_family) {
            Err(e) => Err(e),
            Ok(tf) => match native_spec(c.native_type) {
                Err(e) => Err(e),
                Ok(nt) => if c.ordinal == 0 || has_ordinal(acc, c.ordinal) {
                    Err(ParityError::InvalidOrdinal)
                } else if has_column(acc, name) {
                    Err(ParityError::DuplicateColumn)
                } else {
                    Ok(
                        ColumnView {
                            name,
                            ordinal: c.ordinal,
                            type_family: tf,
                            nullable: c.nullable,
                            native_type: nt,
                        },
                    )
                },
            },
        },
    }
}

/// The columns `cs` normalized in order after `acc`; the first error stops.
pub open spec fn columns_spec(cs: Seq<ColumnView>, acc: Seq<ColumnView>) -> Result<
    Seq<ColumnView>,
    ParityError,
>
    decreases cs.len(),
{
    if cs.len() == 0 {
        Ok(acc)
    } else {
        match next_column_spec(cs[0], acc) {
            Err(e) => Err(e),
            Ok(c) => columns_spec(cs.drop_first(), acc.push(c)),
        }
    }
}

/// The primary key `pk` normalized against the columns `cols`, after `acc`.
pub open spec fn primary_key_spec(
    pk: Seq<Seq<char>>,
    cols: Seq<ColumnView>,
    acc: Seq<Seq<char>>,
) -> Result<Seq<Seq<char>>, ParityError>
    decreases pk.len(),
{
    if pk.len() == 0 {
        Ok(acc)
    } else {
        match required_text_spec(pk[0]) {
            Err(e) => Err(e),
            Ok(k) => if !has_column(cols, k) {
                Err(ParityError::UnknownPrimaryKeyColumn)
            } else if acc.contains(k) {
                Err(ParityError::DuplicatePrimaryKeyColumn)
            } else {
                primary_key_spec(pk.drop_first(), cols, acc.push(k))
            },
        }
    }
}

/// Columns in order of ordinal.
pub open spec fn column_order() -> spec_fn(ColumnView, ColumnView) -> bool {
    |a: ColumnView, b: ColumnView| a.ordinal <= b.ordinal
}

/// Tables in order of (schema, name).
pub open spec fn table_order() -> spec_fn(TableView, TableView) -> bool {
    |a: TableView, b: TableView|
        if a.schema == b.schema {
            lex_le(a.name, b.name)
        } else {
            lex_le(a.schema, b.schema)
        }
}

/// Table `t` normalized after the tables `acc` of its projection.
pub open spec fn next_table_spec(t: TableView, acc: Seq<TableView>) -> Result<
    TableView,
    ParityError,
> {
    match required_text_spec(t.schema) {
        Err(e) => Err(e),
        Ok(schema) => match required_text_spec(t.name) {
            Err(e) => Err(e),
            Ok(name) => if has_table(acc, schema, name) {
                Err(ParityError::DuplicateTable)
            } else {
                match columns_spec(t.columns, Seq::empty()) {
                    Err(e) => Err(e),
                    Ok(cs) => if cs.len() == 0 {
                        Err(ParityError::EmptyTable)
                    } else {
                        let sorted = isort(cs, column_order());
                        match primary_key_spec(t.primary_key, sorted, Seq::empty()) {
                            Err(e) => Err(e),
                            Ok(pk) => Ok(
                                TableView { schema, name, primary_key: pk, columns: sorted },
                            ),
                        }
                    },
                }
            },
        },
    }
}

/// The tables `ts` normalized in order after `acc`; the first error stops.
pub open spec fn tables_spec(ts: Seq<TableView>, acc: Seq<TableView>) -> Result<
    Seq<TableView>,
    ParityError,
>
    decreases ts.len(),
{
    if ts.len() == 0 {
        Ok(acc)
    } else {
        match next_table_spec(ts[0], acc) {
            Err(e) => Err(e),
            Ok(t) => tables_spec(ts.drop_first(), acc.push(t)),
        }
    }
}

/// What `SchemaProjection::normalize` gives for a projection.
pub open spec fn normalize_spec(p: ProjectionView) -> Result<ProjectionView, ParityError> {
    match required_text_spec(p.generator_name) {
        Err(e) => Err(e),
        Ok(gn) => match required_text_spec(p.generator_version) {
            Err(e) => Err(e),
            Ok(gv) => match required_text_spec(p.database_schema) {
                Err(e) => Err(e),
                Ok(ds) => match tables_spec(p.tables, Seq::empty()) {
                    Err(e) => Err(e),
                    Ok(ts) => if p.schema_version != PARITY_SCHEMA_VERSION {
                        Err(ParityError::UnsupportedSchemaVersion)
                    } else if ts.len() == 0 {
                        Err(ParityError::EmptyProjection)
                    } else {
                        Ok(
                            ProjectionView {
                                schema_version: p.schema_version,
                                source: p.source,
                                generator_name: gn,
                                generator_version: gv,
                                engine: p.engine,
                                database_schema: ds,
                                tables: isort(ts, table_order()),
                            },
                        )
                    },
                },
            },
        },
    }
}

// ---------------------------------------------------------------------
// Executable
// ---------------------------------------------------------------------

fn has_ordinal_exec(cs: &Vec<ColumnProjection>, o: u32) -> (b: bool)
    ensures
        b == has_ordinal(columns_view(cs@), o),
{
    let mut i: usize = 0;
    while i < cs.len()
        invariant
            i <= cs@.len(),
            forall|k: int| 0 <= k < i ==> cs@[k].ordinal != o,
        decreases cs.len() - i,
    {
        if cs[i].ordinal == o {
            assert(columns_view(cs@)[i as int].ordinal == o);
            return true;
        }
        i = i + 1;
    }
    assert forall|k: int| 0 <= k < columns_view(cs@).len() implies #[trigger] columns_view(
        cs@,
    )[k].ordinal != o by {
        assert(columns_view(cs@)[k] == cs@[k]@);
    }
    false
}

fn has_column_exec(cs: &Vec<ColumnProjection>, n: &String) -> (b: bool)
    ensures
        b == has_column(columns_view(cs@), n@),
{
    let mut i: usize = 0;
    while i < cs.len()
        invariant
            i <= cs@.len(),
            forall|k: int| 0 <= k < i ==> cs@[k].name@ != n@,
        decreases cs.len() - i,
    {
        if cs[i].name == *n {
            assert(columns_view(cs@)[i as int].name == n@);
            return true;
        }
        i = i + 1;
    }
    assert forall|k: int| 0 <= k < columns_view(cs@).len() implies #[trigger] columns_view(
        cs@,
    )[k].name != n@ by {
        assert(columns_view(cs@)[k] == cs@[k]@);
    }
    false
}

fn has_table_exec(ts: &Vec<TableProjection>, schema: &String, name: &String) -> (b: bool)
    ensures
        b == has_table(tables_view(ts@), schema@, name@),
{
    let mut i: usize = 0;
    while i < ts.len()
        invariant
            i <= ts@.len(),
            forall|k: int| 0 <= k < i ==> !(ts@[k].schema@ == schema@ && ts@[k].name@ == name@),
        decreases ts.len() - i,
    {
        if ts[i].schema == *schema && ts[i].name == *name {
            assert(tables_view(ts@)[i as int].schema == schema@);
            return true;
        }
        i = i + 1;
    }
    assert forall|k: int| 0 <= k < tables_view(ts@).len() implies !(#[trigger] tables_view(
        ts@,
    )[k].schema == schema@ && tables_view(ts@)[k].name == name@) by {
        assert(tables_view(ts@)[k] == ts@[k]@);
    }
    false
}

fn contains_text(v: &Vec<String>, s: &String) -> (b: bool)
    ensures
        b == texts(v@).contains(s@),
{
    let mut i: usize = 0;
    while i < v.len()
        invariant
            i <= v@.len(),
            forall|k: int| 0 <= k < i ==> v@[k]@ != s@,
        decreases v.len() - i,
    {
        if v[i] == *s {
            assert(texts(v@)[i as int] == s@);
            return true;
        }
        i = i + 1;
    }
    assert forall|k: int| 0 <= k < texts(v@).len() implies texts(v@)[k] != s@ by {
        assert(texts(v@)[k] == v@[k]@);
    }
    false
}

fn native_exec(n: Option<String>) -> (r: Result<Option<String>, ParityError>)
    ensures
        match r {
            Ok(o) => native_spec(match n {
                Some(s) => Some(s@),
                None => None,
            }) == Ok::<Option<Seq<char>>, ParityError>(match o {
                Some(s) => Some(s@),
                None => None::<Seq<char>>,
            }),
            Err(e) => native_spec(match n {
                Some(s) => Some(s@),
                None => None,
            }) == Err::<Option<Seq<char>>, ParityError>(e),
        },
{
    match n {
        None => Ok(None),
        Some(s) => match required_text(s) {
            Ok(t) => Ok(Some(t)),
            Err(e) => Err(e),
        },
    }
}

fn next_column(c: ColumnProjection, acc: &Vec<ColumnProjection>) -> (r: Result<
    ColumnProjection,
    ParityError,
>)
    ensures
        res_view(r) == next_column_spec(c@, columns_view(acc@)),
{
    let ColumnProjection { name, ordinal, type_family, nullable, native_type } = c;
    let name = match required_text(name) {
        Ok(n) => n,
        Err(e) => return Err(e),
    };
    let tf = match type_family_exec(text_of(&type_family).as_slice()) {
        Ok(f) => string_of(f.as_slice()),
        Err(e) => return Err(e),
    };
    let nt = match native_exec(native_type) {
        Ok(n) => n,
        Err(e) => return Err(e),
    };
    if ordinal == 0 || has_ordinal_exec(acc, ordinal) {
        return Err(ParityError::InvalidOrdinal);
    }
    if has_column_exec(acc, &name) {
        return Err(ParityError::DuplicateColumn);
    }
    Ok(ColumnProjection { name, ordinal, type_family: tf, nullable, native_type: nt })
}

fn normalize_columns(cs: Vec<ColumnProjection>) -> (r: Result<Vec<ColumnProjection>, ParityError>)
    ensures
        match r {
            Ok(v) => columns_spec(columns_view(cs@), Seq::empty()) == Ok::<
                Seq<ColumnView>,
                ParityError,
            >(columns_view(v@)),
            Err(e) => columns_spec(columns_view(cs@), Seq::empty()) == Err::<
                Seq<ColumnView>,
                ParityError,
            >(e),
        },
{
    let ghost input = columns_view(cs@);
    let mut rest = cs;
    let mut acc: Vec<ColumnProjection> = Vec::new();
    assert(columns_view(acc@) =~= Seq::<ColumnView>::empty());
    while rest.len() > 0
        invariant
            input == columns_view(cs@),
            columns_spec(input, Seq::empty()) == columns_spec(
                columns_view(rest@),
                columns_view(acc@),
            ),
        decreases rest@.len(),
    {
        let ghost rv = columns_view(rest@);
        let c = rest.remove(0);
        assert(columns_view(rest@) =~= rv.drop_first());
        assert(rv[0] == c@);
        match next_column(c, &acc) {
            Ok(n) => {
                let ghost av = columns_view(acc@);
                acc.push(n);
                assert(columns_view(acc@) =~= av.push(n@));
            },
            Err(e) => return Err(e),
        }
    }
    assert(columns_view(rest@) =~= Seq::<ColumnView>::empty());
    Ok(acc)
}

/// Columns sorted by ordinal (insertion sort).
fn sort_columns(v: Vec<ColumnProjection>) -> (r: Vec<ColumnProjection>)
    ensures
        columns_view(r@) == isort(columns_view(v@), column_order()),
{
    let ghost input = columns_view(v@);
    let ghost n = v@.len() as int;
    let mut rest = v;
    let mut out: Vec<ColumnProjection> = Vec::new();
    assert(input.subrange(0, 0) =~= Seq::<ColumnView>::empty());
    assert(input.subrange(0, n) =~= input);
    assert(columns_view(out@) =~= Seq::<ColumnView>::empty());
    while rest.len() > 0
        invariant
            rest@.len() <= n,
            n == input.len(),
            columns_view(rest@) == input.subrange(n - rest@.len(), n),
            columns_view(out@) == isort(input.subrange(0, n - rest@.len()), column_order()),
        decreases rest@.len(),
    {
        let ghost k = n - rest@.len();
        let ghost rv = columns_view(rest@);
        let x = rest.remove(0);
        assert(columns_view(rest@) =~= rv.drop_first());
        assert(rv[0] == x@);
        assert(rv.drop_first() =~= input.subrange(k + 1, n));
        assert(x@ == input[k]);
        let ghost ov = columns_view(out@);
        let mut j: usize = 0;
        while j < out.len() && out[j].ordinal <= x.ordinal
            invariant
                j <= out@.len(),
                ov == columns_view(out@),
                insert_pos(ov, x@, column_order(), 0) == insert_pos(
                    ov,
                    x@,
                    column_order(),
                    j as int,
                ),
            decreases out.len() - j,
        {
            j = j + 1;
        }
        out.insert(j, x);
        proof {
            assert(columns_view(out@) =~= ov.insert(j as int, x@));
            let pre = input.subrange(0, k + 1);
            assert(pre.drop_last() =~= input.subrange(0, k));
            assert(pre.last() == x@);
        }
    }
    assert(input.subrange(0, n) =~= input);
    out
}

fn normalize_primary_key(pk: Vec<String>, cols: &Vec<ColumnProjection>) -> (r: Result<
    Vec<String>,
    ParityError,
>)
    ensures
        match r {
            Ok(v) => primary_key_spec(texts(pk@), columns_view(cols@), Seq::empty()) == Ok::<
                Seq<Seq<char>>,
                ParityError,
            >(texts(v@)),
            Err(e) => primary_key_spec(texts(pk@), columns_view(cols@), Seq::empty()) == Err::<
                Seq<Seq<char>>,
                ParityError,
            >(e),
        },
{
    let ghost input = texts(pk@);
    let mut rest = pk;
    let mut acc: Vec<String> = Vec::new();
    assert(texts(acc@) =~= Seq::<Seq<char>>::empty());
    while rest.len() > 0
        invariant
            input == texts(pk@),
            primary_key_spec(input, columns_view(cols@), Seq::empty()) == primary_key_spec(
                texts(rest@),
                columns_view(cols@),
                texts(acc@),
            ),
        decreases rest@.len(),
    {
        let ghost rv = texts(rest@);
        let k = rest.remove(0);
        assert(texts(rest@) =~= rv.drop_first());
        assert(rv[0] == k@);
        let k = match required_text(k) {
            Ok(t) => t,
            Err(e) => return Err(e),
        };
        if !has_column_exec(cols, &k) {
            return Err(ParityError::UnknownPrimaryKeyColumn);
        }
        if contains_text(&acc, &k) {
            return Err(ParityError::DuplicatePrimaryKeyColumn);
        }
        let ghost av = texts(acc@);
        acc.push(k);
        assert(texts(acc@) =~= av.push(k@));
    }
    assert(texts(rest@) =~= Seq::<Seq<char>>::empty());
    Ok(acc)
}

fn next_table(t: TableProjection, acc: &Vec<TableProjection>) -> (r: Result<
    TableProjection,
    ParityError,
>)
    ensures
        res_view(r) == next_table_spec(t@, tables_view(acc@)),
{
    let TableProjection { schema, name, primary_key, columns } = t;
    let schema = match required_text(schema) {
        Ok(s) => s,
        Err(e) => return Err(e),
    };
    let name = match required_text(name) {
        Ok(s) => s,
        Err(e) => return Err(e),
    };
    if has_table_exec(acc, &schema, &name) {
        return Err(ParityError::DuplicateTable);
    }
    let cols = match normalize_columns(columns) {
        Ok(c) => c,
        Err(e) => return Err(e),
    };
    if cols.len() == 0 {
        return Err(ParityError::EmptyTable);
    }
    let sorted = sort_columns(cols);
    let pk = match normalize_primary_key(primary_key, &sorted) {
        Ok(p) => p,
        Err(e) => return Err(e),
    };
    Ok(TableProjection { schema, name, primary_key: pk, columns: sorted })
}

fn normalize_tables(ts: Vec<TableProjection>) -> (r: Result<Vec<TableProjection>, ParityError>)
    ensures
        match r {
            Ok(v) => tables_spec(tables_view(ts@), Seq::empty()) == Ok::<
                Seq<TableView>,
                ParityError,
            >(tables_view(v@)),
            Err(e) => tables_spec(tables_view(ts@), Seq::empty()) == Err::<
                Seq<TableView>,
                ParityError,
            >(e),
        },
{
    let ghost input = tables_view(ts@);
    let mut rest = ts;
    let mut acc: Vec<TableProjection> = Vec::new();
    assert(tables_view(acc@) =~= Seq::<TableView>::empty());
    while rest.len() > 0
        invariant
            input == tables_view(ts@),
            tables_spec(input, Seq::empty()) == tables_spec(
                tables_view(rest@),
                tables_view(acc@),
            ),
        decreases rest@.len(),
    {
        let ghost rv = tables_view(rest@);
        let t = rest.remove(0);
        assert(tables_view(rest@) =~= rv.drop_first());
        assert(rv[0] == t@);
        match next_table(t, &acc) {
            Ok(n) => {
                let ghost av = tables_view(acc@);
                acc.push(n);
                assert(tables_view(acc@) =~= av.push(n@));
            },
            Err(e) => return Err(e),
        }
    }
    assert(tables_view(rest@) =~= Seq::<TableView>::empty());
    Ok(acc)
}

/// Whether table `a` comes at or before table `b` in (schema, name) order.
fn table_le(a: &TableProjection, b: &TableProjection) -> (r: bool)
    ensures
        r == (table_order())(a@, b@),
{
    if a.schema == b.schema {
        lex_le_exec(text_of(&a.name).as_slice(), text_of(&b.name).as_slice())
    } else {
        lex_le_exec(text_of(&a.schema).as_slice(), text_of(&b.schema).as_slice())
    }
}

/// Tables sorted by (schema, name) (insertion sort).
fn sort_tables(v: Vec<TableProjection>) -> (r: Vec<TableProjection>)
    ensures
        tables_view(r@) == isort(tables_view(v@), table_order()),
{
    let ghost input = tables_view(v@);
    let ghost n = v@.len() as int;
    let mut rest = v;
    let mut out: Vec<TableProjection> = Vec::new();
    assert(input.subrange(0, 0) =~= Seq::<TableView>::empty());
    assert(input.subrange(0, n) =~= input);
    assert(tables_view(out@) =~= Seq::<TableView>::empty());
    while rest.len() > 0
        invariant
            rest@.len() <= n,
            n == input.len(),
            tables_view(rest@) == input.subrange(n - rest@.len(), n),
            tables_view(out@) == isort(input.subrange(0, n - rest@.len()), table_order()),
        decreases rest@.len(),
    {
        let ghost k = n - rest@.len();
        let ghost rv = tables_view(rest@);
        let x = rest.remove(0);
        assert(tables_view(rest@) =~= rv.drop_first());
        assert(rv[0] == x@);
        assert(rv.drop_first() =~= input.subrange(k + 1, n));
        assert(x@ == input[k]);
        let ghost ov = tables_view(out@);
        let mut j: usize = 0;
        while j < out.len() && table_le(&out[j], &x)
            invariant
                j <= out@.len(),
                ov == tables_view(out@),
                insert_pos(ov, x@, table_order(), 0) == insert_pos(
                    ov,
                    x@,
                    table_order(),
                    j as int,
                ),
            decreases out.len() - j,
        {
            j = j + 1;
        }
        out.insert(j, x);
        proof {
            assert(tables_view(out@) =~= ov.insert(j as int, x@));
            let pre = input.subrange(0, k + 1);
            assert(pre.drop_last() =~= input.subrange(0, k));
            assert(pre.last() == x@);
        }
    }
    assert(input.subrange(0, n) =~= input);
    out
}

impl SchemaProjection {
    /// The projection with every text trimmed and checked, every type name
    /// mapped to its family, keys checked for uniqueness, columns ordered
    /// by ordinal and tables by (schema, name); or the first problem found.
    pub fn normalize(self) -> (r: Result<SchemaProjection, ParityError>)
        ensures
            res_view(r) == normalize_spec(self@),
    {
        let SchemaProjection { schema_version, source, generator, database, tables } = self;
        let GeneratorIdentity { name, version } = generator;
        let DatabaseIdentity { engine, schema } = database;
        let gn = match required_text(name) {
            Ok(s) => s,
            Err(e) => return Err(e),
        };
        let gv = match required_text(version) {
            Ok(s) => s,
            Err(e) => return Err(e),
        };
        let ds = match required_text(schema) {
            Ok(s) => s,
            Err(e) => return Err(e),
        };
        let ts = match normalize_tables(tables) {
            Ok(t) => t,
            Err(e) => return Err(e),
        };
        if schema_version != PARITY_SCHEMA_VERSION {
            return Err(ParityError::UnsupportedSchemaVersion);
        }
        if ts.len() == 0 {
            return Err(ParityError::EmptyProjection);
        }
        let sorted = sort_tables(ts);
        Ok(
            SchemaProjection {
                schema_version,
                source,
                generator: GeneratorIdentity { name: gn, version: gv },
                database: DatabaseIdentity { engine, schema: ds },
                tables: sorted,
            },
        )
    }
}

/// The key by which a table is found: (schema, name).
pub open spec fn map_key(t: TableView) -> (Seq<char>, Seq<char>) {
    (t.schema, t.name)
}

/// `entries` with table `t` entered by key, as an ordered map enters it: an
/// entry with the same key takes `t` in its place; otherwise `t` is
/// inserted after every entry ordered at or before it.
pub open spec fn map_enter(entries: Seq<TableView>, t: TableView) -> Seq<TableView> {
    let p = insert_pos(entries, t, table_order(), 0);
    if p > 0 && map_key(entries[p - 1]) == map_key(t) {
        entries.update(p - 1, t)
    } else {
        entries.insert(p, t)
    }
}

/// The tables `ts` entered one after another into an ordered map keyed by
/// (schema, name).
pub open spec fn table_map_spec(ts: Seq<TableView>) -> Seq<TableView>
    decreases ts.len(),
{
    if ts.len() == 0 {
        Seq::empty()
    } else {
        map_enter(table_map_spec(ts.drop_last()), ts.last())
    }
}

pub open spec fn entries_view<'a>(s: Seq<(&'a str, &'a str, &'a TableProjection)>) -> Seq<
    TableView,
> {
    s.map_values(|e: (&'a str, &'a str, &'a TableProjection)| e.2@)
}

impl SchemaProjection {
    /// The tables as an ordered map from (schema, name) to table: entries in
    /// key order, one per key, each holding the last table with its key.
    pub fn table_map(&self) -> (m: Vec<(&str, &str, &TableProjection)>)
        ensures
            entries_view(m@) == table_map_spec(tables_view(self.tables@)),
            forall|i: int|
                0 <= i < m@.len() ==> (#[trigger] m@[i]).0@ == m@[i].2.schema@ && m@[i].1@
                    == m@[i].2.name@,
    {
        let ghost tv = tables_view(self.tables@);
        let mut m: Vec<(&str, &str, &TableProjection)> = Vec::new();
        let mut i: usize = 0;
        assert(entries_view(m@) =~= table_map_spec(tv.subrange(0, 0)));
        while i < self.tables.len()
            invariant
                i <= self.tables@.len(),
                tv == tables_view(self.tables@),
                entries_view(m@) == table_map_spec(tv.subrange(0, i as int)),
                forall|k: int|
                    0 <= k < m@.len() ==> (#[trigger] m@[k]).0@ == m@[k].2.schema@ && m@[k].1@
                        == m@[k].2.name@,
            decreases self.tables.len() - i,
        {
            let t = &self.tables[i];
            let ghost mv = entries_view(m@);
            let mut j: usize = 0;
            while j < m.len() && table_le(m[j].2, t)
                invariant
                    j <= m@.len(),
                    mv == entries_view(m@),
                    insert_pos(mv, t@, table_order(), 0) == insert_pos(
                        mv,
                        t@,
                        table_order(),
                        j as int,
                    ),
                decreases m.len() - j,
            {
                assert(mv[j as int] == m@[j as int].2@);
                j = j + 1;
            }
            assert(j < m@.len() ==> mv[j as int] == m@[j as int].2@);
            assert(j == insert_pos(mv, t@, table_order(), 0));
            let entry = (t.schema.as_str(), t.name.as_str(), t);
            if j > 0 && m[j - 1].2.schema == t.schema && m[j - 1].2.name == t.name {
                assert(mv[j - 1] == m@[j - 1].2@);
                m.set(j - 1, entry);
                proof {
                    assert(entries_view(m@) =~= mv.update(j - 1, t@));
                }
            } else {
                proof {
                    if j > 0 {
                        assert(mv[j - 1] == m@[j - 1].2@);
                    }
                }
                m.insert(j, entry);
                proof {
                    assert(entries_view(m@) =~= mv.insert(j as int, t@));
                }
            }
            proof {
                let pre = tv.subrange(0, i + 1);
                assert(pre.drop_last() =~= tv.subrange(0, i as int));
                assert(pre.last() == t@);
            }
            i = i + 1;
        }
        assert(tv.subrange(0, tv.len() as int) =~= tv);
        m
    }
}

} // verus!
