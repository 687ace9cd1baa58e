//! Reading the entity files that `sea-orm-cli generate entity` writes.
use vstd::prelude::*;

use super::lexical::{
    lemma_peel_wrapper_shorter, path_leaf, path_leaf_exec, peel_wrapper, peel_wrapper_exec,
    strip_raw, strip_raw_identifier,
};
use super::model::{
    columns_view, res_view, tables_view, texts, type_family_exec, type_family_spec,
    ColumnProjection, ColumnView, DatabaseEngine, DatabaseIdentity, GeneratorIdentity,
    ProjectionSource, ProjectionView, SchemaProjection, TableProjection, TableView,
    PARITY_SCHEMA_VERSION,
};
use super::normalize::normalize_spec;
use super::ParityError;
use crate::text::{
    append_chars, cat3, chars_of, is_lit, ends_with, ends_with_exec, find, find_char, find_char_exec,
    find_exec, lemma_find_from_bounds, lemma_remove_ws_len, lemma_trim_len,
    lemma_utf8_len_concat, lines, lines_exec, remove_ws, remove_ws_exec, slice_of, split_once,
    split_once_exec, starts_with, starts_with_exec, string_of, strip_prefix, strip_prefix_exec,
    strip_suffix, strip_suffix_exec, trim, trim_end_char, trim_end_char_exec, trim_exec,
    utf8_len, utf8_len_exec,
};

verus! {

// ---------------------------------------------------------------------
// Specification
// ---------------------------------------------------------------------

/// Reads a `#[sea_orm(..)]` attribute that starts at line `i`, joining its
/// lines with a space until one ends the text with `)]`: the attribute and
/// the line after it.  Longer than 16 KiB, or unterminated, it is refused.
pub open spec fn attribute_spec(lines: Seq<Seq<char>>, i: int, attr: Seq<char>) -> Result<
    (Seq<char>, int),
    ParityError,
>
    decreases lines.len() - i,
{
    if i < 0 || i >= lines.len() {
        Err(ParityError::InvalidGeneratedSource)
    } else {
        let a = (if attr.len() > 0 {
            attr.push(' ')
        } else {
            attr
        }) + trim(lines[i]);
        if ends_with(a, ")]"@) {
            Ok((a, i + 1))
        } else if utf8_len(a) > 16 * 1024 {
            Err(ParityError::InvalidGeneratedSource)
        } else {
            attribute_spec(lines, i + 1, a)
        }
    }
}

/// The text of a quoted string at the start of `s` (after skipping to its
/// opening quote), with `\` escapes resolved.
pub open spec fn quoted_scan(s: Seq<char>, started: bool, escaped: bool, out: Seq<char>) -> Option<
    Seq<char>,
>
    decreases s.len(),
{
    if s.len() == 0 {
        None
    } else {
        let c = s[0];
        let rest = s.drop_first();
        if !started {
            if c == '"' {
                quoted_scan(rest, true, escaped, out)
            } else {
                quoted_scan(rest, false, escaped, out)
            }
        } else if escaped {
            quoted_scan(rest, true, false, out.push(c))
        } else if c == '\\' {
            quoted_scan(rest, true, true, out)
        } else if c == '"' {
            Some(out)
        } else {
            quoted_scan(rest, true, false, out.push(c))
        }
    }
}

/// The string value of `key = ".."` in an attribute.
pub open spec fn attribute_string_spec(attr: Seq<char>, key: Seq<char>) -> Option<Seq<char>> {
    match find(attr, key) {
        None => None,
        Some(position) => {
            let tail = attr.subrange(position + key.len(), attr.len() as int);
            match find_char(tail, '=') {
                None => None,
                Some(equal) => quoted_scan(
                    tail.subrange(equal + 1, tail.len() as int),
                    false,
                    false,
                    Seq::empty(),
                ),
            }
        },
    }
}

pub open spec fn is_attribute_delimiter(c: char) -> bool {
    c == '#' || c == '[' || c == ']' || c == '(' || c == ')' || c == ','
}

/// Whether some piece of `s` between delimiters, trimmed, is `key`; `cur`
/// is the piece read so far.
pub open spec fn flag_scan(s: Seq<char>, key: Seq<char>, cur: Seq<char>) -> bool
    decreases s.len(),
{
    if s.len() == 0 {
        trim(cur) == key
    } else if is_attribute_delimiter(s[0]) {
        trim(cur) == key || flag_scan(s.drop_first(), key, Seq::empty())
    } else {
        flag_scan(s.drop_first(), key, cur.push(s[0]))
    }
}

/// Whether an attribute holds the bare flag `key`.
pub open spec fn attribute_flag_spec(attr: Seq<char>, key: Seq<char>) -> bool {
    flag_scan(attr, key, Seq::empty())
}

/// The texts between successive pairs of quotes.
pub open spec fn quoted_values_spec(s: Seq<char>) -> Seq<Seq<char>>
    decreases s.len(),
{
    match find_char(s, '"') {
        None => Seq::empty(),
        Some(a) => if 0 <= a < s.len() {
            let r = s.subrange(a + 1, s.len() as int);
            match find_char(r, '"') {
                None => Seq::empty(),
                Some(b) => if 0 <= b < r.len() {
                    seq![r.subrange(0, b)] + quoted_values_spec(r.subrange(b + 1, r.len() as int))
                } else {
                    Seq::empty()
                },
            }
        } else {
            Seq::empty()
        },
    }
}

/// A field line `pub name: Type,`: its name and its type.
pub open spec fn field_spec(line: Seq<char>) -> Result<(Seq<char>, Seq<char>), ParityError> {
    match strip_prefix(line, "pub "@) {
        None => Err(ParityError::InvalidGeneratedSource),
        Some(f) => {
            let field = trim(trim_end_char(f, ','));
            match split_once(field, ":"@) {
                None => Err(ParityError::InvalidGeneratedSource),
                Some((n, t)) => {
                    let name = trim(n);
                    let ty = trim(t);
                    if name.len() == 0 || ty.len() == 0 {
                        Err(ParityError::InvalidGeneratedSource)
                    } else {
                        Ok((name, ty))
                    }
                },
            }
        },
    }
}

/// Whether a type is `Option<..>`, and the type inside.
pub open spec fn option_spec(value: Seq<char>) -> (bool, Seq<char>) {
    match peel_wrapper(value, "Option<"@) {
        Some(inner) => (true, inner),
        None => (false, trim(value)),
    }
}

/// The inside of `wrapper(..)`, the wrapper given with its `(`.
pub open spec fn peel_parenthesized_spec(value: Seq<char>, open: Seq<char>) -> Option<Seq<char>> {
    match strip_prefix(value, open) {
        Some(inner) => strip_suffix(inner, ")"@),
        None => None,
    }
}

/// The text before the first `(` or `<`.
pub open spec fn head_spec(s: Seq<char>) -> Seq<char>
    decreases s.len(),
{
    if s.len() == 0 || s[0] == '(' || s[0] == '<' {
        Seq::empty()
    } else {
        seq![s[0]] + head_spec(s.drop_first())
    }
}

pub proof fn lemma_option_len(value: Seq<char>)
    ensures
        option_spec(value).1.len() <= value.len(),
{
    lemma_peel_wrapper_shorter(value, "Option<"@);
    lemma_trim_len(value);
}

pub proof fn lemma_peel_parenthesized_shorter(value: Seq<char>, open: Seq<char>)
    ensures
        peel_parenthesized_spec(value, open) matches Some(inner) ==> inner.len() < value.len(),
{
    reveal_strlit(")");
}

/// The type family of a `column_type` attribute value.
pub open spec fn column_type_spec(value: Seq<char>) -> Result<Seq<char>, ParityError>
    decreases value.len(),
{
    let v = trim(value);
    proof {
        lemma_trim_len(value);
        lemma_peel_parenthesized_shorter(v, "Array("@);
    }
    match peel_parenthesized_spec(v, "Array("@) {
        Some(inner) => match column_type_spec(inner) {
            Ok(f) => Ok("array<"@ + f + ">"@),
            Err(e) => Err(e),
        },
        None => if starts_with(v, "Custom("@) {
            let q = quoted_values_spec(v);
            type_family_spec(
                if q.len() > 0 {
                    q[0]
                } else {
                    "unknown"@
                },
            )
        } else {
            type_family_spec(trim(head_spec(v)))
        },
    }
}

/// The type family of a field, from its `column_type` if it has one, else
/// from its Rust type.
pub open spec fn seaorm_type_spec(column_type: Option<Seq<char>>, rust_type: Seq<char>) -> Result<
    Seq<char>,
    ParityError,
>
    decreases rust_type.len(),
{
    match column_type {
        Some(ct) => column_type_spec(ct),
        None => {
            let compact = remove_ws(rust_type);
            proof {
                lemma_remove_ws_len(rust_type);
                lemma_peel_wrapper_shorter(compact, "Vec<"@);
            }
            match peel_wrapper(compact, "Vec<"@) {
                Some(inner) => if inner == "u8"@ {
                    type_family_spec("bytea"@)
                } else {
                    proof {
                        lemma_option_len(inner);
                    }
                    match seaorm_type_spec(None, option_spec(inner).1) {
                        Ok(f) => Ok("array<"@ + f + ">"@),
                        Err(e) => Err(e),
                    }
                },
                None => type_family_spec(path_leaf(compact)),
            }
        },
    }
}

/// The value of `key` in the first attribute that gives one.
pub open spec fn first_attribute_string(attrs: Seq<Seq<char>>, key: Seq<char>) -> Option<
    Seq<char>,
>
    decreases attrs.len(),
{
    if attrs.len() == 0 {
        None
    } else {
        match attribute_string_spec(attrs[0], key) {
            Some(v) => Some(v),
            None => first_attribute_string(attrs.drop_first(), key),
        }
    }
}

/// Whether some attribute holds the flag `key`.
pub open spec fn any_attribute_flag(attrs: Seq<Seq<char>>, key: Seq<char>) -> bool {
    exists|i: int| 0 <= i < attrs.len() && attribute_flag_spec(#[trigger] attrs[i], key)
}

/// The native type recorded for a field.
pub open spec fn native_text(column_type: Option<Seq<char>>, rust_type: Seq<char>) -> Seq<char> {
    match column_type {
        Some(v) => v + ":"@ + rust_type,
        None => rust_type,
    }
}

/// The fields of `Model` from line `i` up to its closing `}`.
pub open spec fn model_fields_spec(
    lines: Seq<Seq<char>>,
    i: int,
    schema: Seq<char>,
    table_name: Seq<char>,
    columns: Seq<ColumnView>,
    pk: Seq<Seq<char>>,
    field_attrs: Seq<Seq<char>>,
) -> Result<Option<TableView>, ParityError>
    decreases lines.len() - i,
{
    if i < 0 || i >= lines.len() {
        Err(ParityError::InvalidGeneratedSource)
    } else {
        let line = trim(lines[i]);
        if line == "}"@ {
            Ok(Some(TableView { schema, name: table_name, primary_key: pk, columns }))
        } else if starts_with(line, "#[sea_orm("@) {
            match attribute_spec(lines, i, Seq::empty()) {
                Err(e) => Err(e),
                Ok((a, next)) => if i < next <= lines.len() {
                    model_fields_spec(
                        lines,
                        next,
                        schema,
                        table_name,
                        columns,
                        pk,
                        field_attrs.push(a),
                    )
                } else {
                    Err(ParityError::InvalidGeneratedSource)
                },
            }
        } else if starts_with(line, "#["@) {
            model_fields_spec(lines, i + 1, schema, table_name, columns, pk, field_attrs)
        } else if starts_with(line, "pub "@) {
            match field_spec(line) {
                Err(e) => Err(e),
                Ok((rust_name, rust_type)) => {
                    let cname = match first_attribute_string(field_attrs, "column_name"@) {
                        Some(c) => c,
                        None => strip_raw(rust_name),
                    };
                    let pk2 = if any_attribute_flag(field_attrs, "primary_key"@) {
                        pk.push(cname)
                    } else {
                        pk
                    };
                    let ct = first_attribute_string(field_attrs, "column_type"@);
                    let (nullable, inner) = option_spec(rust_type);
                    match seaorm_type_spec(ct, inner) {
                        Err(e) => Err(e),
                        Ok(tf) => if columns.len() + 1 > u32::MAX {
                            Err(ParityError::InvalidOrdinal)
                        } else {
                            model_fields_spec(
                                lines,
                                i + 1,
                                schema,
                                table_name,
                                columns.push(
                                    ColumnView {
                                        name: cname,
                                        ordinal: (columns.len() + 1) as u32,
                                        type_family: tf,
                                        nullable,
                                        native_type: Some(native_text(ct, rust_type)),
                                    },
                                ),
                                pk2,
                                Seq::empty(),
                            )
                        },
                    }
                },
            }
        } else if line.len() > 0 && !starts_with(line, "//"@) && !starts_with(line, "///"@) {
            Err(ParityError::InvalidGeneratedSource)
        } else {
            model_fields_spec(lines, i + 1, schema, table_name, columns, pk, field_attrs)
        }
    }
}

/// The entity of a file from line `i` on: the table its `Model` maps, or
/// `None` when the file has no `Model` with a `table_name`.
pub open spec fn entity_spec(
    lines: Seq<Seq<char>>,
    i: int,
    default_schema: Seq<char>,
    model_attrs: Seq<Seq<char>>,
) -> Result<Option<TableView>, ParityError>
    decreases lines.len() - i,
{
    if i < 0 || i >= lines.len() {
        Ok(None)
    } else {
        let line = trim(lines[i]);
        if starts_with(line, "#[sea_orm("@) {
            match attribute_spec(lines, i, Seq::empty()) {
                Err(e) => Err(e),
                Ok((a, next)) => if i < next <= lines.len() {
                    entity_spec(lines, next, default_schema, model_attrs.push(a))
                } else {
                    Err(ParityError::InvalidGeneratedSource)
                },
            }
        } else if starts_with(line, "pub struct Model"@) {
            match first_attribute_string(model_attrs, "table_name"@) {
                None => Ok(None),
                Some(table_name) => {
                    let schema = match first_attribute_string(model_attrs, "schema_name"@) {
                        Some(s) => s,
                        None => default_schema,
                    };
                    model_fields_spec(
                        lines,
                        i + 1,
                        schema,
                        table_name,
                        Seq::empty(),
                        Seq::empty(),
                        Seq::empty(),
                    )
                },
            }
        } else {
            let attrs = if line.len() > 0 && !starts_with(line, "//"@) && !starts_with(line, "#["@)
                && !starts_with(line, "pub struct Model"@) {
                Seq::empty()
            } else {
                model_attrs
            };
            entity_spec(lines, i + 1, default_schema, attrs)
        }
    }
}

pub proof fn lemma_attribute_advances(lines: Seq<Seq<char>>, i: int, attr: Seq<char>)
    ensures
        attribute_spec(lines, i, attr) matches Ok((_, n)) ==> i < n <= lines.len(),
    decreases lines.len() - i,
{
    if 0 <= i < lines.len() {
        let a = (if attr.len() > 0 {
            attr.push(' ')
        } else {
            attr
        }) + trim(lines[i]);
        if !ends_with(a, ")]"@) && utf8_len(a) <= 16 * 1024 {
            lemma_attribute_advances(lines, i + 1, a);
        }
    }
}

// ---------------------------------------------------------------------
// Executable
// ---------------------------------------------------------------------

pub open spec fn lines_view(v: Seq<Vec<char>>) -> Seq<Seq<char>> {
    v.map_values(|l: Vec<char>| l@)
}

pub open spec fn opt_chars(o: Option<Vec<char>>) -> Option<Seq<char>> {
    match o {
        Some(v) => Some(v@),
        None => None,
    }
}

/// Reads a `#[sea_orm(..)]` attribute that starts at line `start`: the
/// attribute and the line after it.
fn collect_attribute(lines: &Vec<Vec<char>>, start: usize) -> (r: Result<
    (Vec<char>, usize),
    ParityError,
>)
    ensures
        match r {
            Ok((a, n)) => attribute_spec(lines_view(lines@), start as int, Seq::empty()) == Ok::<
                (Seq<char>, int),
                ParityError,
            >((a@, n as int)),
            Err(e) => attribute_spec(lines_view(lines@), start as int, Seq::empty()) == Err::<
                (Seq<char>, int),
                ParityError,
            >(e),
        },
{
    let ghost lv = lines_view(lines@);
    let ghost goal = attribute_spec(lv, start as int, Seq::empty());
    let mut attribute: Vec<char> = Vec::new();
    let mut bytes: u128 = 0;
    let mut index = start;
    let close = chars_of(")]");
    while index < lines.len()
        invariant
            lv == lines_view(lines@),
            goal == attribute_spec(lv, start as int, Seq::empty()),
            goal == attribute_spec(lv, index as int, attribute@),
            bytes == utf8_len(attribute@),
            bytes <= 16 * 1024,
            close@ == ")]"@,
        decreases lines.len() - index,
    {
        let ghost old_attr = attribute@;
        assert(lv[index as int] == lines@[index as int]@);
        if attribute.len() > 0 {
            attribute.push(' ');
            bytes = bytes + 1;
            proof {
                assert(attribute@.drop_last() =~= old_attr);
            }
        }
        let ghost mid = attribute@;
        let line = trim_exec(lines[index].as_slice());
        let line_bytes = utf8_len_exec(line.as_slice());
        append_chars(&mut attribute, line.as_slice());
        proof {
            lemma_utf8_len_concat(mid, line@);
        }
        let ll = line.len();
        assert(line_bytes <= 4 * ll);
        assert(ll <= usize::MAX);
        bytes = bytes + line_bytes;
        index = index + 1;
        if ends_with_exec(attribute.as_slice(), close.as_slice()) {
            return Ok((attribute, index));
        }
        if bytes > 16 * 1024 {
            return Err(ParityError::InvalidGeneratedSource);
        }
    }
    Err(ParityError::InvalidGeneratedSource)
}

/// Reads a quoted string from `s` (after skipping to its opening quote).
fn quoted_scan_exec(s: &[char]) -> (r: Option<Vec<char>>)
    ensures
        opt_chars(r) == quoted_scan(s@, false, false, Seq::empty()),
{
    let mut started = false;
    let mut escaped = false;
    let mut out: Vec<char> = Vec::new();
    let mut i: usize = 0;
    assert(s@.subrange(0, s@.len() as int) =~= s@);
    while i < s.len()
        invariant
            i <= s@.len(),
            quoted_scan(s@, false, false, Seq::empty()) == quoted_scan(
                s@.subrange(i as int, s@.len() as int),
                started,
                escaped,
                out@,
            ),
        decreases s.len() - i,
    {
        let ghost rest = s@.subrange(i as int, s@.len() as int);
        assert(rest[0] == s@[i as int]);
        assert(rest.drop_first() =~= s@.subrange(i + 1, s@.len() as int));
        let c = s[i];
        if !started {
            if c == '"' {
                started = true;
            }
        } else if escaped {
            out.push(c);
            escaped = false;
        } else if c == '\\' {
            escaped = true;
        } else if c == '"' {
            return Some(out);
        } else {
            out.push(c);
        }
        i = i + 1;
    }
    None
}

/// The string value of `key = ".."` in an attribute.
fn attribute_string(attribute: &[char], key: &[char]) -> (r: Option<Vec<char>>)
    ensures
        opt_chars(r) == attribute_string_spec(attribute@, key@),
{
    let position = match find_exec(attribute, key) {
        Some(p) => p,
        None => return None,
    };
    proof {
        lemma_find_from_bounds(attribute@, key@, 0);
    }
    let n = attribute.len();
    assert(position + key.len() <= n);
    let tail = slice_of(attribute, position + key.len(), n);
    let equal = match find_char_exec(tail.as_slice(), '=') {
        Some(e) => e,
        None => return None,
    };
    proof {
        lemma_find_from_bounds(tail@, seq!['='], 0);
    }
    let m = tail.len();
    assert(equal + 1 <= m);
    let value = slice_of(tail.as_slice(), equal + 1, m);
    quoted_scan_exec(value.as_slice())
}

fn is_attribute_delimiter_exec(c: char) -> (b: bool)
    ensures
        b == is_attribute_delimiter(c),
{
    c == '#' || c == '[' || c == ']' || c == '(' || c == ')' || c == ','
}

/// Whether an attribute holds the bare flag `key`.
fn attribute_flag(attribute: &[char], key: &[char]) -> (b: bool)
    ensures
        b == attribute_flag_spec(attribute@, key@),
{
    let mut cur: Vec<char> = Vec::new();
    let mut i: usize = 0;
    assert(attribute@.subrange(0, attribute@.len() as int) =~= attribute@);
    assert(cur@ =~= Seq::<char>::empty());
    while i < attribute.len()
        invariant
            i <= attribute@.len(),
            attribute_flag_spec(attribute@, key@) == flag_scan(
                attribute@.subrange(i as int, attribute@.len() as int),
                key@,
                cur@,
            ),
        decreases attribute.len() - i,
    {
        let ghost rest = attribute@.subrange(i as int, attribute@.len() as int);
        assert(rest[0] == attribute@[i as int]);
        assert(rest.drop_first() =~= attribute@.subrange(i + 1, attribute@.len() as int));
        let c = attribute[i];
        if is_attribute_delimiter_exec(c) {
            if crate::text::eq(trim_exec(cur.as_slice()).as_slice(), key) {
                return true;
            }
            cur = Vec::new();
            assert(cur@ =~= Seq::<char>::empty());
        } else {
            cur.push(c);
        }
        i = i + 1;
    }
    crate::text::eq(trim_exec(cur.as_slice()).as_slice(), key)
}

/// The texts between successive pairs of quotes.
fn quoted_values(value: &[char]) -> (r: Vec<Vec<char>>)
    ensures
        lines_view(r@) == quoted_values_spec(value@),
{
    let mut out: Vec<Vec<char>> = Vec::new();
    let mut remainder = slice_of(value, 0, value.len());
    assert(remainder@ =~= value@);
    assert(lines_view(out@) + quoted_values_spec(remainder@) =~= quoted_values_spec(value@));
    loop
        invariant
            quoted_values_spec(value@) == lines_view(out@) + quoted_values_spec(remainder@),
        decreases remainder@.len(),
    {
        let ghost old_rem = remainder@;
        let start = match find_char_exec(remainder.as_slice(), '"') {
            Some(a) => a,
            None => {
                assert(lines_view(out@) + quoted_values_spec(remainder@) =~= lines_view(out@));
                return out;
            },
        };
        proof {
            lemma_find_from_bounds(remainder@, seq!['"'], 0);
        }
        let n = remainder.len();
        assert(start + 1 <= n);
        let r1 = slice_of(remainder.as_slice(), start + 1, n);
        let end = match find_char_exec(r1.as_slice(), '"') {
            Some(b) => b,
            None => {
                assert(lines_view(out@) + quoted_values_spec(old_rem) =~= lines_view(out@));
                return out;
            },
        };
        proof {
            lemma_find_from_bounds(r1@, seq!['"'], 0);
        }
        let m = r1.len();
        assert(end + 1 <= m);
        let ghost old_out = lines_view(out@);
        out.push(slice_of(r1.as_slice(), 0, end));
        remainder = slice_of(r1.as_slice(), end + 1, m);
        assert(lines_view(out@) =~= old_out.push(r1@.subrange(0, end as int)));
        assert(old_out + quoted_values_spec(old_rem) =~= lines_view(out@) + quoted_values_spec(
            remainder@,
        ));
    }
}

/// A field line `pub name: Type,`: its name and its type.
fn parse_field(line: &[char]) -> (r: Result<(Vec<char>, Vec<char>), ParityError>)
    ensures
        match r {
            Ok((n, t)) => field_spec(line@) == Ok::<(Seq<char>, Seq<char>), ParityError>(
                (n@, t@),
            ),
            Err(e) => field_spec(line@) == Err::<(Seq<char>, Seq<char>), ParityError>(e),
        },
{
    let f = match strip_prefix_exec(line, chars_of("pub ").as_slice()) {
        Some(f) => f,
        None => return Err(ParityError::InvalidGeneratedSource),
    };
    let field = trim_exec(trim_end_char_exec(f.as_slice(), ',').as_slice());
    let (n, t) = match split_once_exec(field.as_slice(), chars_of(":").as_slice()) {
        Some(p) => p,
        None => return Err(ParityError::InvalidGeneratedSource),
    };
    let name = trim_exec(n.as_slice());
    let rust_type = trim_exec(t.as_slice());
    if name.len() == 0 || rust_type.len() == 0 {
        Err(ParityError::InvalidGeneratedSource)
    } else {
        Ok((name, rust_type))
    }
}

/// Whether a type is `Option<..>`, and the type inside.
fn peel_option(value: &[char]) -> (r: (bool, Vec<char>))
    ensures
        (r.0, r.1@) == option_spec(value@),
{
    match peel_wrapper_exec(value, chars_of("Option<").as_slice()) {
        Some(inner) => (true, inner),
        None => (false, trim_exec(value)),
    }
}

/// The inside of `wrapper(..)`, the wrapper given with its `(`.
fn peel_parenthesized(value: &[char], open: &[char]) -> (r: Option<Vec<char>>)
    ensures
        opt_chars(r) == peel_parenthesized_spec(value@, open@),
{
    match strip_prefix_exec(value, open) {
        Some(inner) => strip_suffix_exec(inner.as_slice(), chars_of(")").as_slice()),
        None => None,
    }
}

/// The text before the first `(` or `<`.
fn head_exec(s: &[char]) -> (r: Vec<char>)
    ensures
        r@ == head_spec(s@),
{
    let mut i: usize = 0;
    assert(s@.subrange(0, s@.len() as int) =~= s@);
    while i < s.len() && s[i] != '(' && s[i] != '<'
        invariant
            i <= s@.len(),
            head_spec(s@) == s@.subrange(0, i as int) + head_spec(
                s@.subrange(i as int, s@.len() as int),
            ),
        decreases s.len() - i,
    {
        let ghost rest = s@.subrange(i as int, s@.len() as int);
        assert(rest.drop_first() =~= s@.subrange(i + 1, s@.len() as int));
        assert(s@.subrange(0, i as int) + (seq![rest[0]] + head_spec(rest.drop_first()))
            =~= s@.subrange(0, i + 1) + head_spec(s@.subrange(i + 1, s@.len() as int)));
        i = i + 1;
    }
    assert(head_spec(s@.subrange(i as int, s@.len() as int)) =~= Seq::<char>::empty());
    assert(s@.subrange(0, i as int) + Seq::<char>::empty() =~= s@.subrange(0, i as int));
    slice_of(s, 0, i)
}

/// The type family of a `column_type` attribute value.
fn normalize_seaorm_column_type(value: &[char]) -> (r: Result<Vec<char>, ParityError>)
    ensures
        res_view(r) == column_type_spec(value@),
    decreases value@.len(),
{
    let v = trim_exec(value);
    proof {
        lemma_trim_len(value@);
        lemma_peel_parenthesized_shorter(v@, "Array("@);
    }
    match peel_parenthesized(v.as_slice(), chars_of("Array(").as_slice()) {
        Some(inner) => match normalize_seaorm_column_type(inner.as_slice()) {
            Ok(f) => Ok(cat3(chars_of("array<").as_slice(), f.as_slice(), chars_of(">").as_slice())),
            Err(e) => Err(e),
        },
        None => if starts_with_exec(v.as_slice(), chars_of("Custom(").as_slice()) {
            let q = quoted_values(v.as_slice());
            let custom = if q.len() > 0 {
                assert(lines_view(q@)[0] == q@[0]@);
                slice_of(q[0].as_slice(), 0, q[0].len())
            } else {
                chars_of("unknown")
            };
            assert(q@.len() > 0 ==> q@[0]@.subrange(0, q@[0]@.len() as int) =~= q@[0]@);
            type_family_exec(custom.as_slice())
        } else {
            let head = trim_exec(head_exec(v.as_slice()).as_slice());
            type_family_exec(head.as_slice())
        },
    }
}

/// The type family of a field, from its `column_type` if it has one, else
/// from its Rust type.
fn normalize_seaorm_type(column_type: &Option<Vec<char>>, rust_type: &[char]) -> (r: Result<
    Vec<char>,
    ParityError,
>)
    ensures
        res_view(r) == seaorm_type_spec(opt_chars(*column_type), rust_type@),
    decreases rust_type@.len(),
{
    if let Some(column_type) = column_type {
        return normalize_seaorm_column_type(column_type.as_slice());
    }
    let compact = remove_ws_exec(rust_type);
    proof {
        lemma_remove_ws_len(rust_type@);
        lemma_peel_wrapper_shorter(compact@, "Vec<"@);
    }
    match peel_wrapper_exec(compact.as_slice(), chars_of("Vec<").as_slice()) {
        Some(inner) => {
            if is_lit(inner.as_slice(), "u8") {
                return type_family_exec(chars_of("bytea").as_slice());
            }
            proof {
                lemma_option_len(inner@);
            }
            let (_, inner2) = peel_option(inner.as_slice());
            match normalize_seaorm_type(&None, inner2.as_slice()) {
                Ok(f) => Ok(
                    cat3(chars_of("array<").as_slice(), f.as_slice(), chars_of(">").as_slice()),
                ),
                Err(e) => Err(e),
            }
        },
        None => {
            let leaf = path_leaf_exec(compact.as_slice());
            type_family_exec(leaf.as_slice())
        },
    }
}

/// The value of `key` in the first attribute that gives one.
fn find_attribute_string(attrs: &Vec<Vec<char>>, key: &str) -> (r: Option<Vec<char>>)
    ensures
        opt_chars(r) == first_attribute_string(lines_view(attrs@), key@),
{
    let k = chars_of(key);
    let ghost av = lines_view(attrs@);
    let mut i: usize = 0;
    assert(av.subrange(0, av.len() as int) =~= av);
    while i < attrs.len()
        invariant
            i <= attrs@.len(),
            av == lines_view(attrs@),
            k@ == key@,
            first_attribute_string(av, key@) == first_attribute_string(
                av.subrange(i as int, av.len() as int),
                key@,
            ),
        decreases attrs.len() - i,
    {
        let ghost rest = av.subrange(i as int, av.len() as int);
        assert(rest[0] == attrs@[i as int]@);
        assert(rest.drop_first() =~= av.subrange(i + 1, av.len() as int));
        match attribute_string(attrs[i].as_slice(), k.as_slice()) {
            Some(v) => return Some(v),
            None => {},
        }
        i = i + 1;
    }
    None
}

/// Whether some attribute holds the flag `key`.
fn has_attribute_flag(attrs: &Vec<Vec<char>>, key: &str) -> (b: bool)
    ensures
        b == any_attribute_flag(lines_view(attrs@), key@),
{
    let k = chars_of(key);
    let ghost av = lines_view(attrs@);
    let mut i: usize = 0;
    while i < attrs.len()
        invariant
            i <= attrs@.len(),
            av == lines_view(attrs@),
            k@ == key@,
            forall|j: int| 0 <= j < i ==> !attribute_flag_spec(#[trigger] av[j], key@),
        decreases attrs.len() - i,
    {
        assert(av[i as int] == attrs@[i as int]@);
        if attribute_flag(attrs[i].as_slice(), k.as_slice()) {
            return true;
        }
        i = i + 1;
    }
    false
}

pub open spec fn opt_table(o: Option<TableProjection>) -> Option<TableView> {
    match o {
        Some(t) => Some(t@),
        None => None,
    }
}

fn push_chars(v: &mut Vec<Vec<char>>, x: Vec<char>)
    ensures
        lines_view(final(v)@) == lines_view(old(v)@).push(x@),
{
    let ghost xv = x@;
    v.push(x);
    assert(lines_view(v@) =~= lines_view(old(v)@).push(xv));
}

/// Reads one SeaORM entity file: the table its `Model` maps, or `None`
/// when the file has no `Model` with a `table_name`.
pub fn parse_seaorm_entity(source: &str, default_schema: &str) -> (r: Result<
    Option<TableProjection>,
    ParityError,
>)
    ensures
        match r {
            Ok(o) => entity_spec(lines(source@), 0, default_schema@, Seq::empty()) == Ok::<
                Option<TableView>,
                ParityError,
            >(opt_table(o)),
            Err(e) => entity_spec(lines(source@), 0, default_schema@, Seq::empty()) == Err::<
                Option<TableView>,
                ParityError,
            >(e),
        },
{
    let text = chars_of(source);
    let ds = chars_of(default_schema);
    let src_lines = lines_exec(text.as_slice());
    let ghost lv = lines_view(src_lines@);
    assert(lv =~= lines(source@));
    let ghost goal = entity_spec(lv, 0, ds@, Seq::empty());
    let mut index: usize = 0;
    let mut model_attributes: Vec<Vec<char>> = Vec::new();
    assert(lines_view(model_attributes@) =~= Seq::<Seq<char>>::empty());
    while index < src_lines.len()
        invariant
            lv == lines_view(src_lines@),
            lv == lines(source@),
            ds@ == default_schema@,
            goal == entity_spec(lv, 0, ds@, Seq::empty()),
            goal == entity_spec(lv, index as int, ds@, lines_view(model_attributes@)),
        decreases src_lines.len() - index,
    {
        assert(lv[index as int] == src_lines@[index as int]@);
        let line = trim_exec(src_lines[index].as_slice());
        if starts_with_exec(line.as_slice(), chars_of("#[sea_orm(").as_slice()) {
            proof {
                lemma_attribute_advances(lv, index as int, Seq::empty());
            }
            let (attribute, next) = match collect_attribute(&src_lines, index) {
                Ok(x) => x,
                Err(e) => return Err(e),
            };
            push_chars(&mut model_attributes, attribute);
            index = next;
            continue ;
        }
        if starts_with_exec(line.as_slice(), chars_of("pub struct Model").as_slice()) {
            let table_name = match find_attribute_string(&model_attributes, "table_name") {
                Some(t) => t,
                None => return Ok(None),
            };
            let schema = match find_attribute_string(&model_attributes, "schema_name") {
                Some(s) => s,
                None => slice_of(ds.as_slice(), 0, ds.len()),
            };
            assert(ds@.subrange(0, ds@.len() as int) =~= ds@);
            let mut columns: Vec<ColumnProjection> = Vec::new();
            let mut primary_key: Vec<String> = Vec::new();
            let mut field_attributes: Vec<Vec<char>> = Vec::new();
            assert(columns_view(columns@) =~= Seq::<ColumnView>::empty());
            assert(texts(primary_key@) =~= Seq::<Seq<char>>::empty());
            assert(lines_view(field_attributes@) =~= Seq::<Seq<char>>::empty());
            index = index + 1;
            while index < src_lines.len()
                invariant
                    lv == lines_view(src_lines@),
                    lv == lines(source@),
                    ds@ == default_schema@,
                    goal == entity_spec(lv, 0, ds@, Seq::empty()),
                    goal == model_fields_spec(
                        lv,
                        index as int,
                        schema@,
                        table_name@,
                        columns_view(columns@),
                        texts(primary_key@),
                        lines_view(field_attributes@),
                    ),
                decreases src_lines.len() - index,
            {
                assert(lv[index as int] == src_lines@[index as int]@);
                let line = trim_exec(src_lines[index].as_slice());
                if is_lit(line.as_slice(), "}") {
                    return Ok(
                        Some(
                            TableProjection {
                                schema: string_of(schema.as_slice()),
                                name: string_of(table_name.as_slice()),
                                primary_key,
                                columns,
                            },
                        ),
                    );
                }
                if starts_with_exec(line.as_slice(), chars_of("#[sea_orm(").as_slice()) {
                    proof {
                        lemma_attribute_advances(lv, index as int, Seq::empty());
                    }
                    let (attribute, next) = match collect_attribute(&src_lines, index) {
                        Ok(x) => x,
                        Err(e) => return Err(e),
                    };
                    push_chars(&mut field_attributes, attribute);
                    index = next;
                    continue ;
                }
                if starts_with_exec(line.as_slice(), chars_of("#[").as_slice()) {
                    index = index + 1;
                    continue ;
                }
                if starts_with_exec(line.as_slice(), chars_of("pub ").as_slice()) {
                    let (rust_name, rust_type) = match parse_field(line.as_slice()) {
                        Ok(f) => f,
                        Err(e) => return Err(e),
                    };
                    let column_name = match find_attribute_string(
                        &field_attributes,
                        "column_name",
                    ) {
                        Some(c) => c,
                        None => strip_raw_identifier(rust_name.as_slice()),
                    };
                    if has_attribute_flag(&field_attributes, "primary_key") {
                        let ghost old_pk = texts(primary_key@);
                        primary_key.push(string_of(column_name.as_slice()));
                        assert(texts(primary_key@) =~= old_pk.push(column_name@));
                    }
                    let column_type = find_attribute_string(&field_attributes, "column_type");
                    let (nullable, inner_type) = peel_option(rust_type.as_slice());
                    let type_family = match normalize_seaorm_type(
                        &column_type,
                        inner_type.as_slice(),
                    ) {
                        Ok(f) => f,
                        Err(e) => return Err(e),
                    };
                    if columns.len() >= 0xFFFF_FFFF {
                        return Err(ParityError::InvalidOrdinal);
                    }
                    let ordinal = (columns.len() + 1) as u32;
                    let native = match &column_type {
                        Some(v) => cat3(v.as_slice(), chars_of(":").as_slice(), rust_type.as_slice()),
                        None => slice_of(rust_type.as_slice(), 0, rust_type.len()),
                    };
                    assert(rust_type@.subrange(0, rust_type@.len() as int) =~= rust_type@);
                    let ghost old_cols = columns_view(columns@);
                    let c = ColumnProjection {
                        name: string_of(column_name.as_slice()),
                        ordinal,
                        type_family: string_of(type_family.as_slice()),
                        nullable,
                        native_type: Some(string_of(native.as_slice())),
                    };
                    columns.push(c);
                    assert(columns_view(columns@) =~= old_cols.push(c@));
                    field_attributes = Vec::new();
                    assert(lines_view(field_attributes@) =~= Seq::<Seq<char>>::empty());
                } else if line.len() > 0 && !starts_with_exec(
                    line.as_slice(),
                    chars_of("//").as_slice(),
                ) && !starts_with_exec(line.as_slice(), chars_of("///").as_slice()) {
                    return Err(ParityError::InvalidGeneratedSource);
                }
                index = index + 1;
            }
            return Err(ParityError::InvalidGeneratedSource);
        }
        if line.len() > 0 && !starts_with_exec(line.as_slice(), chars_of("//").as_slice())
            && !starts_with_exec(line.as_slice(), chars_of("#[").as_slice()) && !starts_with_exec(
            line.as_slice(),
            chars_of("pub struct Model").as_slice(),
        ) {
            model_attributes = Vec::new();
            assert(lines_view(model_attributes@) =~= Seq::<Seq<char>>::empty());
        }
        index = index + 1;
    }
    Ok(None)
}

pub open spec fn sources_view(v: Seq<Result<String, ParityError>>) -> Seq<
    Result<Seq<char>, ParityError>,
> {
    v.map_values(|r: Result<String, ParityError>| res_view(r))
}

/// The entity that one file holds, or the error that reading it gave.
pub open spec fn entity_file_spec(file: Result<Seq<char>, ParityError>, default_schema: Seq<char>) -> Result<
    Option<TableView>,
    ParityError,
> {
    match file {
        Err(e) => Err(e),
        Ok(src) => if utf8_len(src) > 32 * 1024 * 1024 {
            Err(ParityError::InvalidGeneratedSource)
        } else {
            entity_spec(lines(src), 0, default_schema, Seq::empty())
        },
    }
}

/// The tables of the entity files from position `i` on, after `acc`.
pub open spec fn entity_files_spec(
    files: Seq<Result<Seq<char>, ParityError>>,
    i: int,
    default_schema: Seq<char>,
    acc: Seq<TableView>,
) -> Result<Seq<TableView>, ParityError>
    decreases files.len() - i,
{
    if i < 0 || i >= files.len() {
        Ok(acc)
    } else {
        match entity_file_spec(files[i], default_schema) {
            Err(e) => Err(e),
            Ok(None) => entity_files_spec(files, i + 1, default_schema, acc),
            Ok(Some(t)) => entity_files_spec(files, i + 1, default_schema, acc.push(t)),
        }
    }
}

fn read_entity_file(file: &Result<String, ParityError>, default_schema: &str) -> (r: Result<
    Option<TableProjection>,
    ParityError,
>)
    ensures
        match r {
            Ok(o) => entity_file_spec(res_view(*file), default_schema@) == Ok::<
                Option<TableView>,
                ParityError,
            >(opt_table(o)),
            Err(e) => entity_file_spec(res_view(*file), default_schema@) == Err::<
                Option<TableView>,
                ParityError,
            >(e),
        },
{
    let source = match file {
        Ok(s) => s,
        Err(e) => return Err(*e),
    };
    let size = utf8_len_exec(chars_of(source.as_str()).as_slice());
    if size > 32 * 1024 * 1024 {
        return Err(ParityError::InvalidGeneratedSource);
    }
    parse_seaorm_entity(source.as_str(), default_schema)
}

/// What `parse_seaorm_sources` gives for the entity files, in path order.
pub open spec fn seaorm_sources_spec(
    files: Seq<Result<Seq<char>, ParityError>>,
    engine: DatabaseEngine,
    default_schema: Seq<char>,
    generator_version: Seq<char>,
) -> Result<ProjectionView, ParityError> {
    if files.len() > 10_000 {
        Err(ParityError::InvalidGeneratedSource)
    } else {
        match entity_files_spec(files, 0, default_schema, Seq::empty()) {
            Err(e) => Err(e),
            Ok(tables) => normalize_spec(
                ProjectionView {
                    schema_version: PARITY_SCHEMA_VERSION,
                    source: ProjectionSource::SeaOrmEntity,
                    generator_name: "sea-orm-cli-generate-entity"@,
                    generator_version,
                    engine,
                    database_schema: default_schema,
                    tables,
                },
            ),
        }
    }
}

/// Reads the entity files of a SeaORM entity directory, given in path order
/// as their texts (or the error that reading them gave), into a normalized
/// projection of the database `default_schema` on `engine`.
pub fn parse_seaorm_sources(
    sources: Vec<Result<String, ParityError>>,
    engine: DatabaseEngine,
    default_schema: &str,
    generator_version: &str,
) -> (r: Result<SchemaProjection, ParityError>)
    ensures
        res_view(r) == seaorm_sources_spec(
            sources_view(sources@),
            engine,
            default_schema@,
            generator_version@,
        ),
{
    if sources.len() > 10_000 {
        return Err(ParityError::InvalidGeneratedSource);
    }
    let ghost fv = sources_view(sources@);
    let mut tables: Vec<TableProjection> = Vec::new();
    let mut i: usize = 0;
    assert(tables_view(tables@) =~= Seq::<TableView>::empty());
    while i < sources.len()
        invariant
            i <= sources@.len(),
            sources@.len() <= 10_000,
            fv == sources_view(sources@),
            entity_files_spec(fv, 0, default_schema@, Seq::empty()) == entity_files_spec(
                fv,
                i as int,
                default_schema@,
                tables_view(tables@),
            ),
        decreases sources.len() - i,
    {
        assert(fv[i as int] == res_view(sources@[i as int]));
        match read_entity_file(&sources[i], default_schema) {
            Err(e) => return Err(e),
            Ok(None) => {},
            Ok(Some(table)) => {
                let ghost tv = tables_view(tables@);
                tables.push(table);
                assert(tables_view(tables@) =~= tv.push(table@));
            },
        }
        i = i + 1;
    }
    let projection = SchemaProjection {
        schema_version: PARITY_SCHEMA_VERSION,
        source: ProjectionSource::SeaOrmEntity,
        generator: GeneratorIdentity {
            name: "sea-orm-cli-generate-entity".to_owned(),
            version: generator_version.to_owned(),
        },
        database: DatabaseIdentity { engine, schema: default_schema.to_owned() },
        tables,
    };
    projection.normalize()
}

} // verus!
