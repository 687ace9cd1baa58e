//! Reading the `table!` macros that `diesel print-schema` writes.
use vstd::prelude::*;

use super::lexical::{
    lemma_peel_wrapper_shorter, or_else, path_leaf, path_leaf_exec, peel_wrapper,
    peel_wrapper_exec, strip_raw, strip_raw_identifier,
};
use super::model::{
    res_view, tables_view, texts, type_family_exec, type_family_spec, ColumnProjection, ColumnView,
    DatabaseEngine, DatabaseIdentity, GeneratorIdentity, ProjectionSource, ProjectionView,
    SchemaProjection, TableProjection, TableView, PARITY_SCHEMA_VERSION,
};
use super::normalize::normalize_spec;
use super::ParityError;
use crate::text::{
    cat3, chars_of, is_lit, contains, contains_char, contains_char_exec, contains_exec, ends_with,
    ends_with_exec, find_char, find_char_exec, lemma_find_from_bounds, lemma_remove_ws_len,
    lines, lines_exec, remove_ws, remove_ws_exec, slice_of, split_once, split_once_exec,
    starts_with, starts_with_exec, string_of, trim, trim_end_char, trim_end_char_exec, trim_exec,
};

verus! {

// ---------------------------------------------------------------------
// Specification
// ---------------------------------------------------------------------

/// A line without its `//` comment, trimmed.
pub open spec fn diesel_clean(line: Seq<char>) -> Seq<char> {
    trim(
        match split_once(line, "//"@) {
            Some((before, _)) => before,
            None => line,
        },
    )
}

/// Whether a line opens a `table!` macro (`table! {`, `diesel::table!{`, ...):
/// its text, without white space and comment, holds `table!{`.  The body is
/// read from the next line on, so a macro whose header shares the opening
/// line is read as incomplete and refused, never skipped; so is a whole
/// `table!` macro written on one line, complete or not.
pub open spec fn is_table_macro_start_spec(line: Seq<char>) -> bool {
    contains(remove_ws(diesel_clean(line)), "table!{"@)
}

/// The name in `#[sql_name = "name"]`: the text between the first two quotes.
pub open spec fn sql_name_spec(attr: Seq<char>) -> Option<Seq<char>> {
    if !contains(attr, "sql_name"@) {
        None
    } else {
        match find_char(attr, '"') {
            None => None,
            Some(q) => {
                let start = q + 1;
                match find_char(attr.subrange(start, attr.len() as int), '"') {
                    None => None,
                    Some(d) => if d + start > start {
                        Some(attr.subrange(start, d + start))
                    } else {
                        None
                    },
                }
            },
        }
    }
}

/// A column line `name -> Type,`: its name and its type.
pub open spec fn column_spec(line: Seq<char>) -> Option<(Seq<char>, Seq<char>)> {
    match split_once(line, "->"@) {
        None => None,
        Some((n, g)) => {
            let name = trim(n);
            let gt = trim(trim_end_char(trim(g), ','));
            if name.len() > 0 && gt.len() > 0 {
                Some((name, gt))
            } else {
                None
            }
        },
    }
}

/// Whether a type is `Nullable<..>`, and the type inside.
pub open spec fn nullable_spec(value: Seq<char>) -> (bool, Seq<char>) {
    match peel_wrapper(value, "Nullable<"@) {
        Some(inner) => (true, inner),
        None => (false, trim(value)),
    }
}

/// The type family of a Diesel SQL type.
pub open spec fn generator_type_spec(value: Seq<char>) -> Result<Seq<char>, ParityError>
    decreases value.len(),
{
    let compact = remove_ws(value);
    proof {
        lemma_remove_ws_len(value);
        lemma_peel_wrapper_shorter(compact, "Array<"@);
        lemma_peel_wrapper_shorter(compact, "Nullable<"@);
    }
    match peel_wrapper(compact, "Array<"@) {
        Some(inner) => match generator_type_spec(inner) {
            Ok(f) => Ok("array<"@ + f + ">"@),
            Err(e) => Err(e),
        },
        None => match peel_wrapper(compact, "Nullable<"@) {
            Some(inner) => generator_type_spec(inner),
            None => type_family_spec(path_leaf(compact)),
        },
    }
}

/// The primary-key names between the parentheses of a table header.
pub open spec fn key_names(s: Seq<char>) -> Seq<Seq<char>>
    decreases s.len(),
{
    let (piece, rest) = match find_char(s, ',') {
        Some(i) => (s.subrange(0, i), if 0 <= i < s.len() {
            Some(s.subrange(i + 1, s.len() as int))
        } else {
            None
        }),
        None => (s, None),
    };
    let head = if trim(piece).len() > 0 {
        seq![strip_raw(trim(piece))]
    } else {
        Seq::empty()
    };
    match rest {
        Some(r) => head + key_names(r),
        None => head,
    }
}

/// A table header `schema.table (key, ..) {`: schema, table and key names.
pub open spec fn table_header_spec(line: Seq<char>, default_schema: Seq<char>) -> Result<
    (Seq<char>, Seq<char>, Seq<Seq<char>>),
    ParityError,
> {
    match find_char(line, '(') {
        None => Err(ParityError::InvalidGeneratedSource),
        Some(open) => match find_char(line.subrange(open + 1, line.len() as int), ')') {
            None => Err(ParityError::InvalidGeneratedSource),
            Some(d) => {
                let close = d + open + 1;
                let qualified = trim(line.subrange(0, open));
                let (schema, table) = match split_once(qualified, "."@) {
                    Some((s, t)) => (strip_raw(s), strip_raw(t)),
                    None => (default_schema, strip_raw(qualified)),
                };
                let pk = key_names(line.subrange(open + 1, close));
                if schema.len() == 0 || table.len() == 0 || pk.len() == 0 {
                    Err(ParityError::InvalidGeneratedSource)
                } else {
                    Ok((schema, table, pk))
                }
            },
        },
    }
}

/// The SQL name recorded last for the Rust column name `k`.
pub open spec fn lookup_name(names: Seq<(Seq<char>, Seq<char>)>, k: Seq<char>) -> Option<
    Seq<char>,
>
    decreases names.len(),
{
    if names.len() == 0 {
        None
    } else if names.last().0 == k {
        Some(names.last().1)
    } else {
        lookup_name(names.drop_last(), k)
    }
}

/// The primary key by SQL column names, if every key names a column.
pub open spec fn resolve_keys(keys: Seq<Seq<char>>, names: Seq<(Seq<char>, Seq<char>)>) -> Option<
    Seq<Seq<char>>,
>
    decreases keys.len(),
{
    if keys.len() == 0 {
        Some(Seq::empty())
    } else {
        match lookup_name(names, keys[0]) {
            None => None,
            Some(v) => match resolve_keys(keys.drop_first(), names) {
                Some(r) => Some(seq![v] + r),
                None => None,
            },
        }
    }
}

/// The column lines of a table body from line `i`, up to its closing `}`:
/// the table and the line after the brace.
pub open spec fn table_columns_spec(
    lines: Seq<Seq<char>>,
    i: int,
    schema: Seq<char>,
    name: Seq<char>,
    keys: Seq<Seq<char>>,
    cols: Seq<ColumnView>,
    names: Seq<(Seq<char>, Seq<char>)>,
    column_sql_name: Option<Seq<char>>,
) -> Result<(TableView, int), ParityError>
    decreases lines.len() - i,
{
    if i < 0 || i >= lines.len() {
        Err(ParityError::InvalidGeneratedSource)
    } else {
        let line = diesel_clean(lines[i]);
        if line == "}"@ {
            match resolve_keys(keys, names) {
                None => Err(ParityError::UnknownPrimaryKeyColumn),
                Some(pk) => Ok((TableView { schema, name, primary_key: pk, columns: cols }, i + 1)),
            }
        } else if starts_with(line, "#["@) {
            table_columns_spec(
                lines,
                i + 1,
                schema,
                name,
                keys,
                cols,
                names,
                or_else(sql_name_spec(line), column_sql_name),
            )
        } else {
            match column_spec(line) {
                Some((rust_name, generated_type)) => {
                    let cname = match column_sql_name {
                        Some(n) => n,
                        None => strip_raw(rust_name),
                    };
                    let (nullable, inner) = nullable_spec(generated_type);
                    match generator_type_spec(inner) {
                        Err(e) => Err(e),
                        Ok(tf) => if cols.len() + 1 > u32::MAX {
                            Err(ParityError::InvalidOrdinal)
                        } else {
                            table_columns_spec(
                                lines,
                                i + 1,
                                schema,
                                name,
                                keys,
                                cols.push(
                                    ColumnView {
                                        name: cname,
                                        ordinal: (cols.len() + 1) as u32,
                                        type_family: tf,
                                        nullable,
                                        native_type: Some(generated_type),
                                    },
                                ),
                                names.push((strip_raw(rust_name), cname)),
                                None,
                            )
                        },
                    }
                },
                None => if line.len() > 0 {
                    Err(ParityError::InvalidGeneratedSource)
                } else {
                    table_columns_spec(
                        lines,
                        i + 1,
                        schema,
                        name,
                        keys,
                        cols,
                        names,
                        column_sql_name,
                    )
                },
            }
        }
    }
}

/// A `table!` macro body from line `i`: the table and the line after it.
pub open spec fn table_macro_spec(
    lines: Seq<Seq<char>>,
    i: int,
    default_schema: Seq<char>,
    table_sql_name: Option<Seq<char>>,
) -> Result<(TableView, int), ParityError>
    decreases lines.len() - i,
{
    if i < 0 || i >= lines.len() {
        Err(ParityError::InvalidGeneratedSource)
    } else {
        let line = diesel_clean(lines[i]);
        if line.len() == 0 || starts_with(line, "use "@) {
            table_macro_spec(lines, i + 1, default_schema, table_sql_name)
        } else if starts_with(line, "#["@) {
            table_macro_spec(
                lines,
                i + 1,
                default_schema,
                or_else(sql_name_spec(line), table_sql_name),
            )
        } else if contains_char(line, '(') && ends_with(line, "{"@) && !contains(line, "->"@) {
            match table_header_spec(line, default_schema) {
                Err(e) => Err(e),
                Ok((schema, rust_table, keys)) => {
                    let table_name = match table_sql_name {
                        Some(n) => n,
                        None => rust_table,
                    };
                    table_columns_spec(
                        lines,
                        i + 1,
                        schema,
                        table_name,
                        keys,
                        Seq::empty(),
                        Seq::empty(),
                        None,
                    )
                },
            }
        } else {
            Err(ParityError::InvalidGeneratedSource)
        }
    }
}

/// The tables of the `table!` macros from line `i` on, after `acc`.
pub open spec fn diesel_tables_spec(
    lines: Seq<Seq<char>>,
    i: int,
    default_schema: Seq<char>,
    acc: Seq<TableView>,
) -> Result<Seq<TableView>, ParityError>
    decreases lines.len() - i,
{
    if i < 0 || i >= lines.len() {
        Ok(acc)
    } else if is_table_macro_start_spec(lines[i]) {
        match table_macro_spec(lines, i + 1, default_schema, None) {
            Err(e) => Err(e),
            Ok((t, next)) => if i < next <= lines.len() {
                diesel_tables_spec(lines, next, default_schema, acc.push(t))
            } else {
                Err(ParityError::InvalidGeneratedSource)
            },
        }
    } else {
        diesel_tables_spec(lines, i + 1, default_schema, acc)
    }
}

/// What `parse_diesel_schema` gives for source text within the size limit.
pub open spec fn diesel_schema_spec(
    source: Seq<char>,
    engine: DatabaseEngine,
    default_schema: Seq<char>,
    generator_version: Seq<char>,
) -> Result<ProjectionView, ParityError> {
    match diesel_tables_spec(lines(source), 0, default_schema, Seq::empty()) {
        Err(e) => Err(e),
        Ok(tables) => normalize_spec(
            ProjectionView {
                schema_version: PARITY_SCHEMA_VERSION,
                source: ProjectionSource::DieselSchema,
                generator_name: "diesel-print-schema"@,
                generator_version,
                engine,
                database_schema: default_schema,
                tables,
            },
        ),
    }
}

pub proof fn lemma_table_columns_advances(
    lines: Seq<Seq<char>>,
    i: int,
    schema: Seq<char>,
    name: Seq<char>,
    keys: Seq<Seq<char>>,
    cols: Seq<ColumnView>,
    names: Seq<(Seq<char>, Seq<char>)>,
    csn: Option<Seq<char>>,
)
    ensures
        table_columns_spec(lines, i, schema, name, keys, cols, names, csn) matches Ok((_, n))
            ==> i < n <= lines.len(),
    decreases lines.len() - i,
{
    if 0 <= i < lines.len() {
        let line = diesel_clean(lines[i]);
        if line == "}"@ {
        } else if starts_with(line, "#["@) {
            lemma_table_columns_advances(
                lines,
                i + 1,
                schema,
                name,
                keys,
                cols,
                names,
                or_else(sql_name_spec(line), csn),
            );
        } else {
            match column_spec(line) {
                Some((rust_name, generated_type)) => {
                    let cname = match csn {
                        Some(n) => n,
                        None => strip_raw(rust_name),
                    };
                    let (nullable, inner) = nullable_spec(generated_type);
                    match generator_type_spec(inner) {
                        Err(e) => {},
                        Ok(tf) => {
                            lemma_table_columns_advances(
                                lines,
                                i + 1,
                                schema,
                                name,
                                keys,
                                cols.push(
                                    ColumnView {
                                        name: cname,
                                        ordinal: (cols.len() + 1) as u32,
                                        type_family: tf,
                                        nullable,
                                        native_type: Some(generated_type),
                                    },
                                ),
                                names.push((strip_raw(rust_name), cname)),
                                None,
                            );
                        },
                    }
                },
                None => {
                    lemma_table_columns_advances(lines, i + 1, schema, name, keys, cols, names, csn);
                },
            }
        }
    }
}

pub proof fn lemma_table_macro_advances(
    lines: Seq<Seq<char>>,
    i: int,
    ds: Seq<char>,
    tsn: Option<Seq<char>>,
)
    ensures
        table_macro_spec(lines, i, ds, tsn) matches Ok((_, n)) ==> i < n <= lines.len(),
    decreases lines.len() - i,
{
    if 0 <= i < lines.len() {
        let line = diesel_clean(lines[i]);
        if line.len() == 0 || starts_with(line, "use "@) {
            lemma_table_macro_advances(lines, i + 1, ds, tsn);
        } else if starts_with(line, "#["@) {
            lemma_table_macro_advances(lines, i + 1, ds, or_else(sql_name_spec(line), tsn));
        } else if contains_char(line, '(') && ends_with(line, "{"@) && !contains(line, "->"@) {
            match table_header_spec(line, ds) {
                Err(e) => {},
                Ok((schema, rust_table, keys)) => {
                    let table_name = match tsn {
                        Some(n) => n,
                        None => rust_table,
                    };
                    lemma_table_columns_advances(
                        lines,
                        i + 1,
                        schema,
                        table_name,
                        keys,
                        Seq::empty(),
                        Seq::empty(),
                        None,
                    );
                },
            }
        }
    }
}

// ---------------------------------------------------------------------
// Executable
// ---------------------------------------------------------------------

pub open spec fn lines_view(v: Seq<Vec<char>>) -> Seq<Seq<char>> {
    v.map_values(|l: Vec<char>| l@)
}

pub open spec fn names_view(v: Seq<(Vec<char>, Vec<char>)>) -> Seq<(Seq<char>, Seq<char>)> {
    v.map_values(|p: (Vec<char>, Vec<char>)| (p.0@, p.1@))
}

pub open spec fn opt_chars(o: Option<Vec<char>>) -> Option<Seq<char>> {
    match o {
        Some(v) => Some(v@),
        None => None,
    }
}

/// A line without its `//` comment, trimmed.
fn clean(line: &[char]) -> (r: Vec<char>)
    ensures
        r@ == diesel_clean(line@),
{
    match split_once_exec(line, chars_of("//").as_slice()) {
        Some((before, _)) => trim_exec(before.as_slice()),
        None => trim_exec(line),
    }
}

/// Whether a line opens a `table!` macro (see `is_table_macro_start_spec`:
/// a one-line macro, even a complete one, is refused as incomplete).
fn is_table_macro_start(line: &[char]) -> (b: bool)
    ensures
        b == is_table_macro_start_spec(line@),
{
    let c = clean(line);
    let compact = remove_ws_exec(c.as_slice());
    contains_exec(compact.as_slice(), chars_of("table!{").as_slice())
}

fn or_else_exec(a: Option<Vec<char>>, b: Option<Vec<char>>) -> (r: Option<Vec<char>>)
    ensures
        opt_chars(r) == or_else(opt_chars(a), opt_chars(b)),
{
    match a {
        Some(x) => Some(x),
        None => b,
    }
}

/// The name in `#[sql_name = "name"]`.
fn parse_sql_name(attribute: &[char]) -> (r: Option<Vec<char>>)
    ensures
        opt_chars(r) == sql_name_spec(attribute@),
{
    if !contains_exec(attribute, chars_of("sql_name").as_slice()) {
        return None;
    }
    match find_char_exec(attribute, '"') {
        None => None,
        Some(q) => {
            proof {
                lemma_find_from_bounds(attribute@, seq!['"'], 0);
            }
            let n = attribute.len();
            assert(q + 1 <= n);
            let start = q + 1;
            let rest = slice_of(attribute, start, attribute.len());
            match find_char_exec(rest.as_slice(), '"') {
                None => None,
                Some(d) => {
                    proof {
                        lemma_find_from_bounds(rest@, seq!['"'], 0);
                    }
                    let end = d + start;
                    if end > start {
                        Some(slice_of(attribute, start, end))
                    } else {
                        None
                    }
                },
            }
        },
    }
}

/// A column line `name -> Type,`: its name and its type.
fn parse_column(line: &[char]) -> (r: Option<(Vec<char>, Vec<char>)>)
    ensures
        match r {
            Some((n, g)) => column_spec(line@) == Some((n@, g@)),
            None => column_spec(line@) is None,
        },
{
    match split_once_exec(line, chars_of("->").as_slice()) {
        None => None,
        Some((n, g)) => {
            let name = trim_exec(n.as_slice());
            let g1 = trim_exec(g.as_slice());
            let g2 = trim_end_char_exec(g1.as_slice(), ',');
            let gt = trim_exec(g2.as_slice());
            if name.len() > 0 && gt.len() > 0 {
                Some((name, gt))
            } else {
                None
            }
        },
    }
}

/// Whether a type is `Nullable<..>`, and the type inside.
fn peel_nullable(value: &[char]) -> (r: (bool, Vec<char>))
    ensures
        (r.0, r.1@) == nullable_spec(value@),
{
    match peel_wrapper_exec(value, chars_of("Nullable<").as_slice()) {
        Some(inner) => (true, inner),
        None => (false, trim_exec(value)),
    }
}

/// The type family of a Diesel SQL type.
fn normalize_generator_type(value: &[char]) -> (r: Result<Vec<char>, ParityError>)
    ensures
        res_view(r) == generator_type_spec(value@),
    decreases value@.len(),
{
    let compact = remove_ws_exec(value);
    proof {
        lemma_remove_ws_len(value@);
        lemma_peel_wrapper_shorter(compact@, "Array<"@);
        lemma_peel_wrapper_shorter(compact@, "Nullable<"@);
    }
    match peel_wrapper_exec(compact.as_slice(), chars_of("Array<").as_slice()) {
        Some(inner) => match normalize_generator_type(inner.as_slice()) {
            Ok(f) => Ok(cat3(chars_of("array<").as_slice(), f.as_slice(), chars_of(">").as_slice())),
            Err(e) => Err(e),
        },
        None => match peel_wrapper_exec(compact.as_slice(), chars_of("Nullable<").as_slice()) {
            Some(inner) => normalize_generator_type(inner.as_slice()),
            None => {
                let leaf = path_leaf_exec(compact.as_slice());
                type_family_exec(leaf.as_slice())
            },
        },
    }
}

fn push_key_name(out: &mut Vec<Vec<char>>, piece: &[char])
    ensures
        lines_view(final(out)@) == lines_view(old(out)@) + (if trim(piece@).len() > 0 {
            seq![strip_raw(trim(piece@))]
        } else {
            Seq::empty()
        }),
{
    let t = trim_exec(piece);
    if t.len() > 0 {
        out.push(strip_raw_identifier(t.as_slice()));
        assert(lines_view(out@) =~= lines_view(old(out)@) + seq![strip_raw(trim(piece@))]);
    } else {
        assert(lines_view(out@) =~= lines_view(old(out)@) + Seq::<Seq<char>>::empty());
    }
}

/// The primary-key names between the parentheses of a table header.
fn key_names_exec(s: &[char]) -> (r: Vec<Vec<char>>)
    ensures
        lines_view(r@) == key_names(s@),
{
    let mut out: Vec<Vec<char>> = Vec::new();
    let mut rest = slice_of(s, 0, s.len());
    assert(rest@ =~= s@);
    assert(lines_view(out@) + key_names(rest@) =~= key_names(s@));
    loop
        invariant
            key_names(s@) == lines_view(out@) + key_names(rest@),
        decreases rest@.len(),
    {
        match find_char_exec(rest.as_slice(), ',') {
            Some(i) => {
                proof {
                    lemma_find_from_bounds(rest@, seq![','], 0);
                }
                let n = rest.len();
                assert(i + 1 <= n);
                let ghost old_out = lines_view(out@);
                let ghost old_rest = rest@;
                push_key_name(&mut out, slice_of(rest.as_slice(), 0, i).as_slice());
                rest = slice_of(rest.as_slice(), i + 1, rest.len());
                assert(old_out + key_names(old_rest) =~= lines_view(out@) + key_names(rest@));
            },
            None => {
                let ghost old_out = lines_view(out@);
                let ghost old_rest = rest@;
                push_key_name(&mut out, rest.as_slice());
                assert(old_out + key_names(old_rest) =~= lines_view(out@));
                return out;
            },
        }
    }
}

/// A table header `schema.table (key, ..) {`: schema, table and key names.
fn parse_table_header(line: &[char], default_schema: &[char]) -> (r: Result<
    (Vec<char>, Vec<char>, Vec<Vec<char>>),
    ParityError,
>)
    ensures
        match r {
            Ok((s, t, k)) => table_header_spec(line@, default_schema@) == Ok::<
                (Seq<char>, Seq<char>, Seq<Seq<char>>),
                ParityError,
            >((s@, t@, lines_view(k@))),
            Err(e) => table_header_spec(line@, default_schema@) == Err::<
                (Seq<char>, Seq<char>, Seq<Seq<char>>),
                ParityError,
            >(e),
        },
{
    let open = match find_char_exec(line, '(') {
        Some(o) => o,
        None => return Err(ParityError::InvalidGeneratedSource),
    };
    proof {
        lemma_find_from_bounds(line@, seq!['('], 0);
    }
    let n = line.len();
    assert(open + 1 <= n);
    let after = slice_of(line, open + 1, line.len());
    let d = match find_char_exec(after.as_slice(), ')') {
        Some(d) => d,
        None => return Err(ParityError::InvalidGeneratedSource),
    };
    proof {
        lemma_find_from_bounds(after@, seq![')'], 0);
    }
    let close = d + open + 1;
    let qualified = trim_exec(slice_of(line, 0, open).as_slice());
    let (schema, table) = match split_once_exec(qualified.as_slice(), chars_of(".").as_slice()) {
        Some((s, t)) => (strip_raw_identifier(s.as_slice()), strip_raw_identifier(t.as_slice())),
        None => (slice_of(default_schema, 0, default_schema.len()), strip_raw_identifier(
            qualified.as_slice(),
        )),
    };
    assert(default_schema@.subrange(0, default_schema@.len() as int) =~= default_schema@);
    let keys = key_names_exec(slice_of(line, open + 1, close).as_slice());
    if schema.len() == 0 || table.len() == 0 || keys.len() == 0 {
        return Err(ParityError::InvalidGeneratedSource);
    }
    Ok((schema, table, keys))
}

/// The SQL name recorded last for the Rust column name `k`.
fn lookup_name_exec(names: &Vec<(Vec<char>, Vec<char>)>, k: &[char]) -> (r: Option<Vec<char>>)
    ensures
        opt_chars(r) == lookup_name(names_view(names@), k@),
{
    let ghost nv = names_view(names@);
    let mut i: usize = names.len();
    assert(nv.subrange(0, nv.len() as int) =~= nv);
    while i > 0
        invariant
            i <= names@.len(),
            nv == names_view(names@),
            lookup_name(nv, k@) == lookup_name(nv.subrange(0, i as int), k@),
        decreases i,
    {
        let ghost pre = nv.subrange(0, i as int);
        assert(pre.last() == (names@[i - 1].0@, names@[i - 1].1@));
        assert(pre.drop_last() =~= nv.subrange(0, i - 1));
        if crate::text::eq(names[i - 1].0.as_slice(), k) {
            return Some(slice_of(names[i - 1].1.as_slice(), 0, names[i - 1].1.len()));
        }
        i = i - 1;
    }
    None
}

/// The primary key by SQL column names, if every key names a column.
fn resolve_keys_exec(keys: &Vec<Vec<char>>, names: &Vec<(Vec<char>, Vec<char>)>) -> (r: Option<
    Vec<String>,
>)
    ensures
        match r {
            Some(v) => resolve_keys(lines_view(keys@), names_view(names@)) == Some(texts(v@)),
            None => resolve_keys(lines_view(keys@), names_view(names@)) is None,
        },
{
    let ghost kv = lines_view(keys@);
    let mut out: Vec<String> = Vec::new();
    let mut i: usize = 0;
    assert(kv.subrange(0, kv.len() as int) =~= kv);
    assert(texts(out@) =~= Seq::<Seq<char>>::empty());
    while i < keys.len()
        invariant
            i <= keys@.len(),
            kv == lines_view(keys@),
            resolve_keys(kv, names_view(names@)) == match resolve_keys(
                kv.subrange(i as int, kv.len() as int),
                names_view(names@),
            ) {
                Some(r) => Some(texts(out@) + r),
                None => None,
            },
        decreases keys.len() - i,
    {
        let ghost rest = kv.subrange(i as int, kv.len() as int);
        assert(rest[0] == keys@[i as int]@);
        assert(rest.drop_first() =~= kv.subrange(i + 1, kv.len() as int));
        match lookup_name_exec(names, keys[i].as_slice()) {
            None => return None,
            Some(v) => {
                let ghost old_out = texts(out@);
                out.push(string_of(v.as_slice()));
                assert(texts(out@) =~= old_out.push(v@));
                proof {
                    match resolve_keys(kv.subrange(i + 1, kv.len() as int), names_view(names@)) {
                        Some(r) => {
                            assert(old_out + (seq![v@] + r) =~= texts(out@) + r);
                        },
                        None => {},
                    }
                }
            },
        }
        i = i + 1;
    }
    assert(kv.subrange(kv.len() as int, kv.len() as int) =~= Seq::<Seq<char>>::empty());
    assert(texts(out@) + Seq::<Seq<char>>::empty() =~= texts(out@));
    Some(out)
}

fn push_name(names: &mut Vec<(Vec<char>, Vec<char>)>, k: Vec<char>, v: Vec<char>)
    ensures
        names_view(final(names)@) == names_view(old(names)@).push((k@, v@)),
{
    let ghost kv = k@;
    let ghost vv = v@;
    names.push((k, v));
    assert(names_view(names@) =~= names_view(old(names)@).push((kv, vv)));
}

fn push_column(cols: &mut Vec<ColumnProjection>, c: ColumnProjection)
    ensures
        super::model::columns_view(final(cols)@) == super::model::columns_view(old(cols)@).push(
            c@,
        ),
{
    cols.push(c);
    assert(super::model::columns_view(cols@) =~= super::model::columns_view(old(cols)@).push(
        c@,
    ));
}

/// Reads one `table!` macro body from line `index`: the table and the line
/// after its closing brace.
fn parse_table_macro(lines: &Vec<Vec<char>>, start: usize, default_schema: &[char]) -> (r: Result<
    (TableProjection, usize),
    ParityError,
>)
    ensures
        match r {
            Ok((t, n)) => table_macro_spec(lines_view(lines@), start as int, default_schema@, None)
                == Ok::<(TableView, int), ParityError>((t@, n as int)),
            Err(e) => table_macro_spec(lines_view(lines@), start as int, default_schema@, None)
                == Err::<(TableView, int), ParityError>(e),
        },
{
    let ghost lv = lines_view(lines@);
    let mut index = start;
    let mut table_sql_name: Option<Vec<char>> = None;
    let ghost goal = table_macro_spec(lv, start as int, default_schema@, None);
    while index < lines.len()
        invariant
            lv == lines_view(lines@),
            goal == table_macro_spec(lv, start as int, default_schema@, None),
            goal == table_macro_spec(lv, index as int, default_schema@, opt_chars(table_sql_name)),
        decreases lines.len() - index,
    {
        let line = clean(lines[index].as_slice());
        assert(lv[index as int] == lines@[index as int]@);
        if line.len() == 0 || starts_with_exec(line.as_slice(), chars_of("use ").as_slice()) {
            index = index + 1;
            continue ;
        }
        if starts_with_exec(line.as_slice(), chars_of("#[").as_slice()) {
            table_sql_name = or_else_exec(parse_sql_name(line.as_slice()), table_sql_name);
            index = index + 1;
            continue ;
        }
        if contains_char_exec(line.as_slice(), '(') && ends_with_exec(
            line.as_slice(),
            chars_of("{").as_slice(),
        ) && !contains_exec(line.as_slice(), chars_of("->").as_slice()) {
            let (schema, rust_table_name, keys) = match parse_table_header(
                line.as_slice(),
                default_schema,
            ) {
                Ok(h) => h,
                Err(e) => return Err(e),
            };
            let table_name = match table_sql_name {
                Some(n) => n,
                None => rust_table_name,
            };
            let mut columns: Vec<ColumnProjection> = Vec::new();
            let mut column_names: Vec<(Vec<char>, Vec<char>)> = Vec::new();
            let mut column_sql_name: Option<Vec<char>> = None;
            index = index + 1;
            assert(super::model::columns_view(columns@) =~= Seq::<ColumnView>::empty());
            assert(names_view(column_names@) =~= Seq::<(Seq<char>, Seq<char>)>::empty());
            while index < lines.len()
                invariant
                    lv == lines_view(lines@),
                    goal == table_macro_spec(lv, start as int, default_schema@, None),
                    goal == table_columns_spec(
                        lv,
                        index as int,
                        schema@,
                        table_name@,
                        lines_view(keys@),
                        super::model::columns_view(columns@),
                        names_view(column_names@),
                        opt_chars(column_sql_name),
                    ),
                decreases lines.len() - index,
            {
                let line = clean(lines[index].as_slice());
                assert(lv[index as int] == lines@[index as int]@);
                if is_lit(line.as_slice(), "}") {
                    let primary_key = match resolve_keys_exec(&keys, &column_names) {
                        Some(pk) => pk,
                        None => return Err(ParityError::UnknownPrimaryKeyColumn),
                    };
                    let t = TableProjection {
                        schema: string_of(schema.as_slice()),
                        name: string_of(table_name.as_slice()),
                        primary_key,
                        columns,
                    };
                    return Ok((t, index + 1));
                }
                if starts_with_exec(line.as_slice(), chars_of("#[").as_slice()) {
                    column_sql_name = or_else_exec(parse_sql_name(line.as_slice()), column_sql_name);
                } else {
                    match parse_column(line.as_slice()) {
                        Some((rust_name, generated_type)) => {
                            let name = match column_sql_name {
                                Some(n) => n,
                                None => strip_raw_identifier(rust_name.as_slice()),
                            };
                            column_sql_name = None;
                            let (nullable, inner_type) = peel_nullable(generated_type.as_slice());
                            let type_family = match normalize_generator_type(
                                inner_type.as_slice(),
                            ) {
                                Ok(f) => f,
                                Err(e) => return Err(e),
                            };
                            if columns.len() >= 0xFFFF_FFFF {
                                return Err(ParityError::InvalidOrdinal);
                            }
                            let ordinal = (columns.len() + 1) as u32;
                            push_name(
                                &mut column_names,
                                strip_raw_identifier(rust_name.as_slice()),
                                slice_of(name.as_slice(), 0, name.len()),
                            );
                            assert(name@.subrange(0, name@.len() as int) =~= name@);
                            push_column(
                                &mut columns,
                                ColumnProjection {
                                    name: string_of(name.as_slice()),
                                    ordinal,
                                    type_family: string_of(type_family.as_slice()),
                                    nullable,
                                    native_type: Some(string_of(generated_type.as_slice())),
                                },
                            );
                        },
                        None => {
                            if line.len() > 0 {
                                return Err(ParityError::InvalidGeneratedSource);
                            }
                        },
                    }
                }
                index = index + 1;
            }
            return Err(ParityError::InvalidGeneratedSource);
        }
        return Err(ParityError::InvalidGeneratedSource);
    }
    Err(ParityError::InvalidGeneratedSource)
}

/// Reads the `table!` macros of a Diesel `schema.rs` into a normalized
/// projection of the database `default_schema` on `engine`.
pub fn parse_diesel_schema(
    source: &str,
    engine: DatabaseEngine,
    default_schema: &str,
    generator_version: &str,
) -> (r: Result<SchemaProjection, ParityError>)
    ensures
        res_view(r) == (if source.len() > 32 * 1024 * 1024 {
            Err(ParityError::InvalidGeneratedSource)
        } else {
            diesel_schema_spec(source@, engine, default_schema@, generator_version@)
        }),
{
    if source.len() > 32 * 1024 * 1024 {
        return Err(ParityError::InvalidGeneratedSource);
    }
    let text = chars_of(source);
    let ds = chars_of(default_schema);
    let source_lines = lines_exec(text.as_slice());
    let ghost lv = lines_view(source_lines@);
    assert(lv =~= lines(source@));
    let mut tables: Vec<TableProjection> = Vec::new();
    let mut index: usize = 0;
    assert(tables_view(tables@) =~= Seq::<TableView>::empty());
    while index < source_lines.len()
        invariant
            lv == lines_view(source_lines@),
            lv == lines(source@),
            source.len() <= 32 * 1024 * 1024,
            ds@ == default_schema@,
            diesel_tables_spec(lv, 0, ds@, Seq::empty()) == diesel_tables_spec(
                lv,
                index as int,
                ds@,
                tables_view(tables@),
            ),
        decreases source_lines.len() - index,
    {
        assert(lv[index as int] == source_lines@[index as int]@);
        if is_table_macro_start(source_lines[index].as_slice()) {
            proof {
                lemma_table_macro_advances(lv, index + 1, ds@, None);
            }
            let (table, next) = match parse_table_macro(&source_lines, index + 1, ds.as_slice()) {
                Ok(x) => x,
                Err(e) => return Err(e),
            };
            let ghost tv = tables_view(tables@);
            tables.push(table);
            assert(tables_view(tables@) =~= tv.push(table@));
            index = next;
        } else {
            index = index + 1;
        }
    }
    let projection = SchemaProjection {
        schema_version: PARITY_SCHEMA_VERSION,
        source: ProjectionSource::DieselSchema,
        generator: GeneratorIdentity {
            name: "diesel-print-schema".to_owned(),
            version: generator_version.to_owned(),
        },
        database: DatabaseIdentity { engine, schema: default_schema.to_owned() },
        tables,
    };
    projection.normalize()
}

} // verus!
