//! A normalized projection is its own normal form.
//!
//! The lemmas here build up, from text to whole projections, that every
//! output of normalization passes normalization unchanged.
use vstd::prelude::*;

use super::laws::{
    column_name_key, column_ordinal_key, law_normalize_yields_normal_form, table_key, table_normal,
};
use super::model::{
    ascii_lower, compact_type, drop_double_colons, lemma_compact_type_len, required_text_spec,
    squeeze, type_alias, type_family_spec, ColumnView, ProjectionView, TableView,
};
use super::normalize::{
    column_order, columns_spec, has_column, has_ordinal, has_table, native_spec, next_column_spec,
    next_table_spec, normalize_spec, primary_key_spec, table_order, tables_spec,
};
use super::ParityError;
use crate::order::{
    isort, lemma_isort_contains, lemma_isort_multiset, lemma_isort_sorted_fixed, unique_by,
};
use crate::text::{
    ends_with, is_ws, lemma_trim_end_is_prefix, lemma_trim_start_is_suffix, starts_with, trim,
    trim_start,
};

verus! {

// ---------------------------------------------------------------------
// Text
// ---------------------------------------------------------------------

/// A character that compaction keeps as it is.
pub open spec fn compact_char(c: char) -> bool {
    !is_ws(c) && c != '_' && ascii_lower(c) == c
}

/// Whether `s` holds `::` at position `i`.
pub open spec fn colon_pair(s: Seq<char>, i: int) -> bool {
    s[i] == ':' && s[i + 1] == ':'
}

/// Text that compaction leaves unchanged.
pub open spec fn is_compact(s: Seq<char>) -> bool {
    &&& forall|i: int| 0 <= i < s.len() ==> compact_char(#[trigger] s[i])
    &&& forall|i: int| 0 <= i < s.len() - 1 ==> !#[trigger] colon_pair(s, i)
}

/// Trimmed text trims to itself.
pub proof fn lemma_trim_idempotent(s: Seq<char>)
    ensures
        trim(trim(s)) == trim(s),
{
    let u = trim_start(s);
    let t = trim(s);
    lemma_trim_start_is_suffix(s);
    lemma_trim_end_is_prefix(u);
    if t.len() > 0 {
        assert(t[0] == u[0]);
        lemma_trim_start_is_suffix(t);
        lemma_trim_end_is_prefix(t);
    }
}

/// Text without white space trims to itself.
proof fn lemma_trim_fixed(s: Seq<char>)
    requires
        forall|i: int| 0 <= i < s.len() ==> !is_ws(#[trigger] s[i]),
    ensures
        trim(s) == s,
{
}

/// Required text is its own required form.
pub proof fn lemma_required_text_fixed(s: Seq<char>)
    ensures
        required_text_spec(s) matches Ok(t) ==> required_text_spec(t) == Ok::<
            Seq<char>,
            ParityError,
        >(t),
{
    lemma_trim_idempotent(s);
}

proof fn lemma_lower_compact(c: char)
    requires
        !is_ws(c),
        c != '_',
    ensures
        compact_char(ascii_lower(c)),
{
}

proof fn lemma_squeeze_compact(s: Seq<char>)
    ensures
        forall|i: int| 0 <= i < squeeze(s).len() ==> compact_char(#[trigger] squeeze(s)[i]),
    decreases s.len(),
{
    if s.len() > 0 {
        let t = s.drop_last();
        lemma_squeeze_compact(t);
        if is_ws(s.last()) || s.last() == '_' {
            assert(squeeze(s) == squeeze(t));
        } else {
            lemma_lower_compact(s.last());
            let r = squeeze(s);
            assert(r == squeeze(t).push(ascii_lower(s.last())));
            assert forall|i: int| 0 <= i < r.len() implies compact_char(#[trigger] r[i]) by {
                if i < squeeze(t).len() {
                    assert(r[i] == squeeze(t)[i]);
                }
            }
        }
    }
}

proof fn lemma_squeeze_fixed(s: Seq<char>)
    requires
        forall|i: int| 0 <= i < s.len() ==> compact_char(#[trigger] s[i]),
    ensures
        squeeze(s) == s,
    decreases s.len(),
{
    if s.len() > 0 {
        let t = s.drop_last();
        assert forall|i: int| 0 <= i < t.len() implies compact_char(#[trigger] t[i]) by {
            assert(t[i] == s[i]);
        }
        lemma_squeeze_fixed(t);
        assert(compact_char(s[s.len() - 1]));
        assert(t.push(s.last()) =~= s);
    }
}

proof fn lemma_ddc_chars(s: Seq<char>)
    requires
        forall|i: int| 0 <= i < s.len() ==> compact_char(#[trigger] s[i]),
    ensures
        forall|i: int|
            0 <= i < drop_double_colons(s).len() ==> compact_char(
                #[trigger] drop_double_colons(s)[i],
            ),
    decreases s.len(),
{
    if s.len() >= 2 && s[0] == ':' && s[1] == ':' {
        let t = s.subrange(2, s.len() as int);
        assert forall|i: int| 0 <= i < t.len() implies compact_char(#[trigger] t[i]) by {
            assert(t[i] == s[i + 2]);
        }
        lemma_ddc_chars(t);
        assert(drop_double_colons(s) == drop_double_colons(t));
    } else if s.len() > 0 {
        let t = s.drop_first();
        assert forall|i: int| 0 <= i < t.len() implies compact_char(#[trigger] t[i]) by {
            assert(t[i] == s[i + 1]);
        }
        lemma_ddc_chars(t);
        assert(compact_char(s[0]));
        let r = drop_double_colons(s);
        assert forall|i: int| 0 <= i < r.len() implies compact_char(#[trigger] r[i]) by {
            if i > 0 {
                assert(r[i] == drop_double_colons(t)[i - 1]);
            }
        }
    }
}

proof fn lemma_ddc_pairs(s: Seq<char>)
    ensures
        forall|i: int|
            0 <= i < drop_double_colons(s).len() - 1 ==> !#[trigger] colon_pair(
                drop_double_colons(s),
                i,
            ),
    decreases s.len(),
{
    if s.len() >= 2 && s[0] == ':' && s[1] == ':' {
        let t = s.subrange(2, s.len() as int);
        lemma_ddc_pairs(t);
        assert(drop_double_colons(s) == drop_double_colons(t));
    } else if s.len() > 0 {
        let t = s.drop_first();
        lemma_ddc_pairs(t);
        let d = drop_double_colons(t);
        let r = drop_double_colons(s);
        assert(r == seq![s[0]] + d);
        if t.len() > 0 && t[0] != ':' {
            assert(!(t.len() >= 2 && t[0] == ':' && t[1] == ':'));
            assert(d[0] == t[0]);
        }
        assert forall|i: int| 0 <= i < r.len() - 1 implies !#[trigger] colon_pair(r, i) by {
            if i > 0 {
                assert(r[i] == d[i - 1] && r[i + 1] == d[i]);
                assert(!colon_pair(d, i - 1));
            } else {
                assert(r[1] == d[0]);
            }
        }
    }
}

proof fn lemma_ddc_fixed(s: Seq<char>)
    requires
        forall|i: int| 0 <= i < s.len() - 1 ==> !#[trigger] colon_pair(s, i),
    ensures
        drop_double_colons(s) == s,
    decreases s.len(),
{
    if s.len() > 0 {
        assert(!(s.len() >= 2 && colon_pair(s, 0)));
        let t = s.drop_first();
        assert forall|i: int| 0 <= i < t.len() - 1 implies !#[trigger] colon_pair(t, i) by {
            assert(t[i] == s[i + 1] && t[i + 1] == s[i + 2]);
            assert(!colon_pair(s, i + 1));
        }
        lemma_ddc_fixed(t);
        assert(seq![s[0]] + t =~= s);
    }
}

/// What compaction gives is compact.
pub proof fn lemma_compact_type_compact(s: Seq<char>)
    ensures
        is_compact(compact_type(s)),
{
    let q = squeeze(trim(s));
    lemma_squeeze_compact(trim(s));
    lemma_ddc_chars(q);
    lemma_ddc_pairs(q);
}

/// Compact text compacts to itself.
pub proof fn lemma_compact_type_fixed(s: Seq<char>)
    requires
        is_compact(s),
    ensures
        compact_type(s) == s,
{
    lemma_trim_fixed(s);
    lemma_squeeze_fixed(s);
    lemma_ddc_fixed(s);
}

/// Compact text joined at a place that makes no `::` stays compact.
proof fn lemma_concat_compact(a: Seq<char>, b: Seq<char>)
    requires
        is_compact(a),
        is_compact(b),
        a.len() == 0 || b.len() == 0 || a.last() != ':' || b[0] != ':',
    ensures
        is_compact(a + b),
{
    let r = a + b;
    assert forall|i: int| 0 <= i < r.len() implies compact_char(#[trigger] r[i]) by {
        if i < a.len() {
            assert(r[i] == a[i]);
        } else {
            assert(r[i] == b[i - a.len()]);
        }
    }
    assert forall|i: int| 0 <= i < r.len() - 1 implies !#[trigger] colon_pair(r, i) by {
        if i + 1 < a.len() {
            assert(r[i] == a[i] && r[i + 1] == a[i + 1]);
            assert(!colon_pair(a, i));
        } else if i >= a.len() {
            assert(r[i] == b[i - a.len()] && r[i + 1] == b[i - a.len() + 1]);
            assert(!colon_pair(b, i - a.len()));
        } else {
            assert(r[i] == a.last() && r[i + 1] == b[0]);
        }
    }
}

// ---------------------------------------------------------------------
// Type families
// ---------------------------------------------------------------------

/// The characters of the type names that name families, and of the marks
/// `custom(`, `array<`, `vector`, `>` and `)`.
pub(crate) proof fn lemma_type_names()
    ensures
        "bool"@.len() == 4 && "bool"@[0] == 'b' && "bool"@[1] == 'o' && "bool"@[2] == 'o' &&
            "bool"@[3] == 'l',
        "boolean"@.len() == 7 && "boolean"@[0] == 'b' && "boolean"@[1] == 'o' &&
            "boolean"@[2] == 'o' && "boolean"@[3] == 'l' && "boolean"@[4] == 'e' &&
            "boolean"@[5] == 'a' && "boolean"@[6] == 'n',
        "int2"@.len() == 4 && "int2"@[0] == 'i' && "int2"@[1] == 'n' && "int2"@[2] == 't' &&
            "int2"@[3] == '2',
        "smallint"@.len() == 8 && "smallint"@[0] == 's' && "smallint"@[1] == 'm' &&
            "smallint"@[2] == 'a' && "smallint"@[3] == 'l' && "smallint"@[4] == 'l' &&
            "smallint"@[5] == 'i' && "smallint"@[6] == 'n' && "smallint"@[7] == 't',
        "i16"@.len() == 3 && "i16"@[0] == 'i' && "i16"@[1] == '1' && "i16"@[2] == '6',
        "int4"@.len() == 4 && "int4"@[0] == 'i' && "int4"@[1] == 'n' && "int4"@[2] == 't' &&
            "int4"@[3] == '4',
        "integer"@.len() == 7 && "integer"@[0] == 'i' && "integer"@[1] == 'n' &&
            "integer"@[2] == 't' && "integer"@[3] == 'e' && "integer"@[4] == 'g' &&
            "integer"@[5] == 'e' && "integer"@[6] == 'r',
        "i32"@.len() == 3 && "i32"@[0] == 'i' && "i32"@[1] == '3' && "i32"@[2] == '2',
        "int8"@.len() == 4 && "int8"@[0] == 'i' && "int8"@[1] == 'n' && "int8"@[2] == 't' &&
            "int8"@[3] == '8',
        "bigint"@.len() == 6 && "bigint"@[0] == 'b' && "bigint"@[1] == 'i' &&
            "bigint"@[2] == 'g' && "bigint"@[3] == 'i' && "bigint"@[4] == 'n' &&
            "bigint"@[5] == 't',
        "i64"@.len() == 3 && "i64"@[0] == 'i' && "i64"@[1] == '6' && "i64"@[2] == '4',
        "float4"@.len() == 6 && "float4"@[0] == 'f' && "float4"@[1] == 'l' &&
            "float4"@[2] == 'o' && "float4"@[3] == 'a' && "float4"@[4] == 't' &&
            "float4"@[5] == '4',
        "real"@.len() == 4 && "real"@[0] == 'r' && "real"@[1] == 'e' && "real"@[2] == 'a' &&
            "real"@[3] == 'l',
        "f32"@.len() == 3 && "f32"@[0] == 'f' && "f32"@[1] == '3' && "f32"@[2] == '2',
        "float8"@.len() == 6 && "float8"@[0] == 'f' && "float8"@[1] == 'l' &&
            "float8"@[2] == 'o' && "float8"@[3] == 'a' && "float8"@[4] == 't' &&
            "float8"@[5] == '8',
        "double"@.len() == 6 && "double"@[0] == 'd' && "double"@[1] == 'o' &&
            "double"@[2] == 'u' && "double"@[3] == 'b' && "double"@[4] == 'l' &&
            "double"@[5] == 'e',
        "doubleprecision"@.len() == 15 && "doubleprecision"@[0] == 'd' &&
            "doubleprecision"@[1] == 'o' && "doubleprecision"@[2] == 'u' &&
            "doubleprecision"@[3] == 'b' && "doubleprecision"@[4] == 'l' &&
            "doubleprecision"@[5] == 'e' && "doubleprecision"@[6] == 'p' &&
            "doubleprecision"@[7] == 'r' && "doubleprecision"@[8] == 'e' &&
            "doubleprecision"@[9] == 'c' && "doubleprecision"@[10] == 'i' &&
            "doubleprecision"@[11] == 's' && "doubleprecision"@[12] == 'i' &&
            "doubleprecision"@[13] == 'o' && "doubleprecision"@[14] == 'n',
        "f64"@.len() == 3 && "f64"@[0] == 'f' && "f64"@[1] == '6' && "f64"@[2] == '4',
        "numeric"@.len() == 7 && "numeric"@[0] == 'n' && "numeric"@[1] == 'u' &&
            "numeric"@[2] == 'm' && "numeric"@[3] == 'e' && "numeric"@[4] == 'r' &&
            "numeric"@[5] == 'i' && "numeric"@[6] == 'c',
        "decimal"@.len() == 7 && "decimal"@[0] == 'd' && "decimal"@[1] == 'e' &&
            "decimal"@[2] == 'c' && "decimal"@[3] == 'i' && "decimal"@[4] == 'm' &&
            "decimal"@[5] == 'a' && "decimal"@[6] == 'l',
        "bigdecimal"@.len() == 10 && "bigdecimal"@[0] == 'b' && "bigdecimal"@[1] == 'i' &&
            "bigdecimal"@[2] == 'g' && "bigdecimal"@[3] == 'd' && "bigdecimal"@[4] == 'e' &&
            "bigdecimal"@[5] == 'c' && "bigdecimal"@[6] == 'i' && "bigdecimal"@[7] == 'm' &&
            "bigdecimal"@[8] == 'a' && "bigdecimal"@[9] == 'l',
        "rustdecimaldecimal"@.len() == 18 && "rustdecimaldecimal"@[0] == 'r' &&
            "rustdecimaldecimal"@[1] == 'u' && "rustdecimaldecimal"@[2] == 's' &&
            "rustdecimaldecimal"@[3] == 't' && "rustdecimaldecimal"@[4] == 'd' &&
            "rustdecimaldecimal"@[5] == 'e' && "rustdecimaldecimal"@[6] == 'c' &&
            "rustdecimaldecimal"@[7] == 'i' && "rustdecimaldecimal"@[8] == 'm' &&
            "rustdecimaldecimal"@[9] == 'a' && "rustdecimaldecimal"@[10] == 'l' &&
            "rustdecimaldecimal"@[11] == 'd' && "rustdecimaldecimal"@[12] == 'e' &&
            "rustdecimaldecimal"@[13] == 'c' && "rustdecimaldecimal"@[14] == 'i' &&
            "rustdecimaldecimal"@[15] == 'm' && "rustdecimaldecimal"@[16] == 'a' &&
            "rustdecimaldecimal"@[17] == 'l',
        "text"@.len() == 4 && "text"@[0] == 't' && "text"@[1] == 'e' && "text"@[2] == 'x' &&
            "text"@[3] == 't',
        "varchar"@.len() == 7 && "varchar"@[0] == 'v' && "varchar"@[1] == 'a' &&
            "varchar"@[2] == 'r' && "varchar"@[3] == 'c' && "varchar"@[4] == 'h' &&
            "varchar"@[5] == 'a' && "varchar"@[6] == 'r',
        "charactervarying"@.len() == 16 && "charactervarying"@[0] == 'c' &&
            "charactervarying"@[1] == 'h' && "charactervarying"@[2] == 'a' &&
            "charactervarying"@[3] == 'r' && "charactervarying"@[4] == 'a' &&
            "charactervarying"@[5] == 'c' && "charactervarying"@[6] == 't' &&
            "charactervarying"@[7] == 'e' && "charactervarying"@[8] == 'r' &&
            "charactervarying"@[9] == 'v' && "charactervarying"@[10] == 'a' &&
            "charactervarying"@[11] == 'r' && "charactervarying"@[12] == 'y' &&
            "charactervarying"@[13] == 'i' && "charactervarying"@[14] == 'n' &&
            "charactervarying"@[15] == 'g',
        "string"@.len() == 6 && "string"@[0] == 's' && "string"@[1] == 't' &&
            "string"@[2] == 'r' && "string"@[3] == 'i' && "string"@[4] == 'n' &&
            "string"@[5] == 'g',
        "bpchar"@.len() == 6 && "bpchar"@[0] == 'b' && "bpchar"@[1] == 'p' &&
            "bpchar"@[2] == 'c' && "bpchar"@[3] == 'h' && "bpchar"@[4] == 'a' &&
            "bpchar"@[5] == 'r',
        "character"@.len() == 9 && "character"@[0] == 'c' && "character"@[1] == 'h' &&
            "character"@[2] == 'a' && "character"@[3] == 'r' && "character"@[4] == 'a' &&
            "character"@[5] == 'c' && "character"@[6] == 't' && "character"@[7] == 'e' &&
            "character"@[8] == 'r',
        "char"@.len() == 4 && "char"@[0] == 'c' && "char"@[1] == 'h' && "char"@[2] == 'a' &&
            "char"@[3] == 'r',
        "uuid"@.len() == 4 && "uuid"@[0] == 'u' && "uuid"@[1] == 'u' && "uuid"@[2] == 'i' &&
            "uuid"@[3] == 'd',
        "json"@.len() == 4 && "json"@[0] == 'j' && "json"@[1] == 's' && "json"@[2] == 'o' &&
            "json"@[3] == 'n',
        "jsonb"@.len() == 5 && "jsonb"@[0] == 'j' && "jsonb"@[1] == 's' &&
            "jsonb"@[2] == 'o' && "jsonb"@[3] == 'n' && "jsonb"@[4] == 'b',
        "jsonbinary"@.len() == 10 && "jsonbinary"@[0] == 'j' && "jsonbinary"@[1] == 's' &&
            "jsonbinary"@[2] == 'o' && "jsonbinary"@[3] == 'n' && "jsonbinary"@[4] == 'b' &&
            "jsonbinary"@[5] == 'i' && "jsonbinary"@[6] == 'n' && "jsonbinary"@[7] == 'a' &&
            "jsonbinary"@[8] == 'r' && "jsonbinary"@[9] == 'y',
        "bytea"@.len() == 5 && "bytea"@[0] == 'b' && "bytea"@[1] == 'y' &&
            "bytea"@[2] == 't' && "bytea"@[3] == 'e' && "bytea"@[4] == 'a',
        "binary"@.len() == 6 && "binary"@[0] == 'b' && "binary"@[1] == 'i' &&
            "binary"@[2] == 'n' && "binary"@[3] == 'a' && "binary"@[4] == 'r' &&
            "binary"@[5] == 'y',
        "varbinary"@.len() == 9 && "varbinary"@[0] == 'v' && "varbinary"@[1] == 'a' &&
            "varbinary"@[2] == 'r' && "varbinary"@[3] == 'b' && "varbinary"@[4] == 'i' &&
            "varbinary"@[5] == 'n' && "varbinary"@[6] == 'a' && "varbinary"@[7] == 'r' &&
            "varbinary"@[8] == 'y',
        "vecu8"@.len() == 5 && "vecu8"@[0] == 'v' && "vecu8"@[1] == 'e' &&
            "vecu8"@[2] == 'c' && "vecu8"@[3] == 'u' && "vecu8"@[4] == '8',
        "date"@.len() == 4 && "date"@[0] == 'd' && "date"@[1] == 'a' && "date"@[2] == 't' &&
            "date"@[3] == 'e',
        "naivedate"@.len() == 9 && "naivedate"@[0] == 'n' && "naivedate"@[1] == 'a' &&
            "naivedate"@[2] == 'i' && "naivedate"@[3] == 'v' && "naivedate"@[4] == 'e' &&
            "naivedate"@[5] == 'd' && "naivedate"@[6] == 'a' && "naivedate"@[7] == 't' &&
            "naivedate"@[8] == 'e',
        "time"@.len() == 4 && "time"@[0] == 't' && "time"@[1] == 'i' && "time"@[2] == 'm' &&
            "time"@[3] == 'e',
        "naivetime"@.len() == 9 && "naivetime"@[0] == 'n' && "naivetime"@[1] == 'a' &&
            "naivetime"@[2] == 'i' && "naivetime"@[3] == 'v' && "naivetime"@[4] == 'e' &&
            "naivetime"@[5] == 't' && "naivetime"@[6] == 'i' && "naivetime"@[7] == 'm' &&
            "naivetime"@[8] == 'e',
        "timestamp"@.len() == 9 && "timestamp"@[0] == 't' && "timestamp"@[1] == 'i' &&
            "timestamp"@[2] == 'm' && "timestamp"@[3] == 'e' && "timestamp"@[4] == 's' &&
            "timestamp"@[5] == 't' && "timestamp"@[6] == 'a' && "timestamp"@[7] == 'm' &&
            "timestamp"@[8] == 'p',
        "datetime"@.len() == 8 && "datetime"@[0] == 'd' && "datetime"@[1] == 'a' &&
            "datetime"@[2] == 't' && "datetime"@[3] == 'e' && "datetime"@[4] == 't' &&
            "datetime"@[5] == 'i' && "datetime"@[6] == 'm' && "datetime"@[7] == 'e',
        "naivedatetime"@.len() == 13 && "naivedatetime"@[0] == 'n' &&
            "naivedatetime"@[1] == 'a' && "naivedatetime"@[2] == 'i' &&
            "naivedatetime"@[3] == 'v' && "naivedatetime"@[4] == 'e' &&
            "naivedatetime"@[5] == 'd' && "naivedatetime"@[6] == 'a' &&
            "naivedatetime"@[7] == 't' && "naivedatetime"@[8] == 'e' &&
            "naivedatetime"@[9] == 't' && "naivedatetime"@[10] == 'i' &&
            "naivedatetime"@[11] == 'm' && "naivedatetime"@[12] == 'e',
        "timestampwithouttimezone"@.len() == 24 && "timestampwithouttimezone"@[0] == 't' &&
            "timestampwithouttimezone"@[1] == 'i' && "timestampwithouttimezone"@[2] == 'm' &&
            "timestampwithouttimezone"@[3] == 'e' && "timestampwithouttimezone"@[4] == 's' &&
            "timestampwithouttimezone"@[5] == 't' && "timestampwithouttimezone"@[6] == 'a' &&
            "timestampwithouttimezone"@[7] == 'm' && "timestampwithouttimezone"@[8] == 'p' &&
            "timestampwithouttimezone"@[9] == 'w' && "timestampwithouttimezone"@[10] == 'i' &&
            "timestampwithouttimezone"@[11] == 't' && "timestampwithouttimezone"@[12] == 'h' &&
            "timestampwithouttimezone"@[13] == 'o' && "timestampwithouttimezone"@[14] == 'u' &&
            "timestampwithouttimezone"@[15] == 't' && "timestampwithouttimezone"@[16] == 't' &&
            "timestampwithouttimezone"@[17] == 'i' && "timestampwithouttimezone"@[18] == 'm' &&
            "timestampwithouttimezone"@[19] == 'e' && "timestampwithouttimezone"@[20] == 'z' &&
            "timestampwithouttimezone"@[21] == 'o' && "timestampwithouttimezone"@[22] == 'n' &&
            "timestampwithouttimezone"@[23] == 'e',
        "timestamptz"@.len() == 11 && "timestamptz"@[0] == 't' && "timestamptz"@[1] == 'i' &&
            "timestamptz"@[2] == 'm' && "timestamptz"@[3] == 'e' && "timestamptz"@[4] == 's' &&
            "timestamptz"@[5] == 't' && "timestamptz"@[6] == 'a' && "timestamptz"@[7] == 'm' &&
            "timestamptz"@[8] == 'p' && "timestamptz"@[9] == 't' && "timestamptz"@[10] == 'z',
        "datetimewithtimezone"@.len() == 20 && "datetimewithtimezone"@[0] == 'd' &&
            "datetimewithtimezone"@[1] == 'a' && "datetimewithtimezone"@[2] == 't' &&
            "datetimewithtimezone"@[3] == 'e' && "datetimewithtimezone"@[4] == 't' &&
            "datetimewithtimezone"@[5] == 'i' && "datetimewithtimezone"@[6] == 'm' &&
            "datetimewithtimezone"@[7] == 'e' && "datetimewithtimezone"@[8] == 'w' &&
            "datetimewithtimezone"@[9] == 'i' && "datetimewithtimezone"@[10] == 't' &&
            "datetimewithtimezone"@[11] == 'h' && "datetimewithtimezone"@[12] == 't' &&
            "datetimewithtimezone"@[13] == 'i' && "datetimewithtimezone"@[14] == 'm' &&
            "datetimewithtimezone"@[15] == 'e' && "datetimewithtimezone"@[16] == 'z' &&
            "datetimewithtimezone"@[17] == 'o' && "datetimewithtimezone"@[18] == 'n' &&
            "datetimewithtimezone"@[19] == 'e',
        "timestampwithtimezone"@.len() == 21 && "timestampwithtimezone"@[0] == 't' &&
            "timestampwithtimezone"@[1] == 'i' && "timestampwithtimezone"@[2] == 'm' &&
            "timestampwithtimezone"@[3] == 'e' && "timestampwithtimezone"@[4] == 's' &&
            "timestampwithtimezone"@[5] == 't' && "timestampwithtimezone"@[6] == 'a' &&
            "timestampwithtimezone"@[7] == 'm' && "timestampwithtimezone"@[8] == 'p' &&
            "timestampwithtimezone"@[9] == 'w' && "timestampwithtimezone"@[10] == 'i' &&
            "timestampwithtimezone"@[11] == 't' && "timestampwithtimezone"@[12] == 'h' &&
            "timestampwithtimezone"@[13] == 't' && "timestampwithtimezone"@[14] == 'i' &&
            "timestampwithtimezone"@[15] == 'm' && "timestampwithtimezone"@[16] == 'e' &&
            "timestampwithtimezone"@[17] == 'z' && "timestampwithtimezone"@[18] == 'o' &&
            "timestampwithtimezone"@[19] == 'n' && "timestampwithtimezone"@[20] == 'e',
        "inet"@.len() == 4 && "inet"@[0] == 'i' && "inet"@[1] == 'n' && "inet"@[2] == 'e' &&
            "inet"@[3] == 't',
        "ipnetwork"@.len() == 9 && "ipnetwork"@[0] == 'i' && "ipnetwork"@[1] == 'p' &&
            "ipnetwork"@[2] == 'n' && "ipnetwork"@[3] == 'e' && "ipnetwork"@[4] == 't' &&
            "ipnetwork"@[5] == 'w' && "ipnetwork"@[6] == 'o' && "ipnetwork"@[7] == 'r' &&
            "ipnetwork"@[8] == 'k',
        "cidr"@.len() == 4 && "cidr"@[0] == 'c' && "cidr"@[1] == 'i' && "cidr"@[2] == 'd' &&
            "cidr"@[3] == 'r',
        "tsvector"@.len() == 8 && "tsvector"@[0] == 't' && "tsvector"@[1] == 's' &&
            "tsvector"@[2] == 'v' && "tsvector"@[3] == 'e' && "tsvector"@[4] == 'c' &&
            "tsvector"@[5] == 't' && "tsvector"@[6] == 'o' && "tsvector"@[7] == 'r',
        "custom("@.len() == 7 && "custom("@[0] == 'c' && "custom("@[1] == 'u' &&
            "custom("@[2] == 's' && "custom("@[3] == 't' && "custom("@[4] == 'o' &&
            "custom("@[5] == 'm' && "custom("@[6] == '(',
        "array<"@.len() == 6 && "array<"@[0] == 'a' && "array<"@[1] == 'r' &&
            "array<"@[2] == 'r' && "array<"@[3] == 'a' && "array<"@[4] == 'y' &&
            "array<"@[5] == '<',
        "vector"@.len() == 6 && "vector"@[0] == 'v' && "vector"@[1] == 'e' &&
            "vector"@[2] == 'c' && "vector"@[3] == 't' && "vector"@[4] == 'o' &&
            "vector"@[5] == 'r',
        ">"@.len() == 1 && ">"@[0] == '>',
        ")"@.len() == 1 && ")"@[0] == ')',
{
    reveal_strlit("bool");
    reveal_strlit("boolean");
    reveal_strlit("int2");
    reveal_strlit("smallint");
    reveal_strlit("i16");
    reveal_strlit("int4");
    reveal_strlit("integer");
    reveal_strlit("i32");
    reveal_strlit("int8");
    reveal_strlit("bigint");
    reveal_strlit("i64");
    reveal_strlit("float4");
    reveal_strlit("real");
    reveal_strlit("f32");
    reveal_strlit("float8");
    reveal_strlit("double");
    reveal_strlit("doubleprecision");
    reveal_strlit("f64");
    reveal_strlit("numeric");
    reveal_strlit("decimal");
    reveal_strlit("bigdecimal");
    reveal_strlit("rustdecimaldecimal");
    reveal_strlit("text");
    reveal_strlit("varchar");
    reveal_strlit("charactervarying");
    reveal_strlit("string");
    reveal_strlit("bpchar");
    reveal_strlit("character");
    reveal_strlit("char");
    reveal_strlit("uuid");
    reveal_strlit("json");
    reveal_strlit("jsonb");
    reveal_strlit("jsonbinary");
    reveal_strlit("bytea");
    reveal_strlit("binary");
    reveal_strlit("varbinary");
    reveal_strlit("vecu8");
    reveal_strlit("date");
    reveal_strlit("naivedate");
    reveal_strlit("time");
    reveal_strlit("naivetime");
    reveal_strlit("timestamp");
    reveal_strlit("datetime");
    reveal_strlit("naivedatetime");
    reveal_strlit("timestampwithouttimezone");
    reveal_strlit("timestamptz");
    reveal_strlit("datetimewithtimezone");
    reveal_strlit("timestampwithtimezone");
    reveal_strlit("inet");
    reveal_strlit("ipnetwork");
    reveal_strlit("cidr");
    reveal_strlit("tsvector");
    reveal_strlit("custom(");
    reveal_strlit("array<");
    reveal_strlit("vector");
    reveal_strlit(">");
    reveal_strlit(")");
}

/// Every family name is its own family, and compact.
proof fn lemma_alias_fixed(c: Seq<char>)
    ensures
        type_alias(c) matches Some(f) ==> type_alias(f) == Some(f) && is_compact(f) && f.len() > 0,
{
    lemma_type_names();
}

/// No family name begins with `custom(` or `array<`, and `vector` is none.
proof fn lemma_not_alias(x: Seq<char>)
    ensures
        starts_with(x, "custom("@) ==> type_alias(x) is None,
        starts_with(x, "array<"@) ==> type_alias(x) is None,
        type_alias("vector"@) is None,
{
    lemma_type_names();
    if starts_with(x, "custom("@) {
        assert(x.subrange(0, 7)[0] == x[0] && x.subrange(0, 7)[1] == x[1]);
        assert(x[0] == 'c' && x[1] == 'u');
    }
    if starts_with(x, "array<"@) {
        assert(x.subrange(0, 6)[0] == x[0]);
        assert(x[0] == 'a');
    }
}

/// `custom(`, `array<`, `vector`, `>` and `)` are compact, and how each
/// ends.
proof fn lemma_marks_compact()
    ensures
        is_compact("custom("@),
        is_compact("array<"@),
        is_compact("vector"@),
        is_compact(">"@),
        is_compact(")"@),
        "custom("@.len() == 7 && "custom("@.last() == '(',
        "array<"@.len() == 6 && "array<"@.last() == '<',
        ">"@.len() == 1 && ">"@[0] == '>',
        ")"@.len() == 1 && ")"@[0] == ')',
        starts_with("vector"@, "vector"@),
        !starts_with("vector"@, "array<"@),
{
    reveal_strlit("custom(");
    reveal_strlit("array<");
    reveal_strlit("vector");
    reveal_strlit(">");
    reveal_strlit(")");
    assert("custom("@.len() == 7 && "custom("@[0] == 'c' && "custom("@[1] == 'u' && "custom("@[2]
        == 's' && "custom("@[3] == 't' && "custom("@[4] == 'o' && "custom("@[5] == 'm' && "custom("@[6]
        == '(');
    assert("array<"@.len() == 6 && "array<"@[0] == 'a' && "array<"@[1] == 'r' && "array<"@[2] == 'r'
        && "array<"@[3] == 'a' && "array<"@[4] == 'y' && "array<"@[5] == '<');
    assert("vector"@.len() == 6 && "vector"@[0] == 'v' && "vector"@[1] == 'e' && "vector"@[2] == 'c'
        && "vector"@[3] == 't' && "vector"@[4] == 'o' && "vector"@[5] == 'r');
    assert(">"@.len() == 1 && ">"@[0] == '>');
    assert(")"@.len() == 1 && ")"@[0] == ')');
    assert("vector"@.subrange(0, 6) =~= "vector"@);
    assert("vector"@.subrange(0, 6)[0] == 'v');
}

/// What `custom(`, `array<` or `vector` opens does not open another.
proof fn lemma_mark_prefixes(x: Seq<char>)
    ensures
        starts_with(x, "custom("@) ==> !starts_with(x, "array<"@) && !starts_with(x, "vector"@),
        starts_with(x, "array<"@) ==> !starts_with(x, "vector"@),
{
    reveal_strlit("custom(");
    reveal_strlit("array<");
    reveal_strlit("vector");
    assert("custom("@.len() == 7 && "custom("@[0] == 'c');
    assert("array<"@.len() == 6 && "array<"@[0] == 'a');
    assert("vector"@.len() == 6 && "vector"@[0] == 'v');
    if starts_with(x, "custom("@) {
        assert(x.subrange(0, 7)[0] == x[0]);
        assert(x.subrange(0, 6)[0] == x[0]);
    }
    if starts_with(x, "array<"@) {
        assert(x.subrange(0, 6)[0] == x[0]);
    }
}

/// A type family is its own family, and compact.
pub proof fn lemma_type_family_fixed(s: Seq<char>)
    ensures
        type_family_spec(s) matches Ok(f) ==> type_family_spec(f) == Ok::<
            Seq<char>,
            ParityError,
        >(f) && is_compact(f),
    decreases s.len(),
{
    let c = compact_type(s);
    lemma_compact_type_compact(s);
    lemma_compact_type_fixed(c);
    lemma_marks_compact();
    lemma_alias_fixed(c);
    match type_alias(c) {
        Some(f) => {
            lemma_compact_type_fixed(f);
        },
        None => {
            if starts_with(c, "array<"@) && ends_with(c, ">"@) && "array<"@.len() < c.len() {
                let inner = c.subrange(6, c.len() - 1);
                lemma_compact_type_len(s);
                lemma_type_family_fixed(inner);
                if let Ok(g) = type_family_spec(inner) {
                    let f = "array<"@ + g + ">"@;
                    lemma_concat_compact("array<"@, g);
                    lemma_concat_compact("array<"@ + g, ">"@);
                    lemma_compact_type_fixed(f);
                    assert(f.subrange(0, 6) =~= "array<"@);
                    assert(f.subrange(f.len() - 1, f.len() as int) =~= ">"@);
                    assert(f.subrange(6, f.len() - 1) =~= g);
                    lemma_not_alias(f);
                }
            } else if starts_with(c, "vector"@) {
                lemma_compact_type_fixed("vector"@);
                lemma_not_alias("vector"@);
            } else if starts_with(c, "custom("@) {
            } else if c.len() > 0 {
                let f = "custom("@ + c + ")"@;
                lemma_concat_compact("custom("@, c);
                lemma_concat_compact("custom("@ + c, ")"@);
                lemma_compact_type_fixed(f);
                assert(f.subrange(0, 7) =~= "custom("@);
                lemma_not_alias(f);
                lemma_mark_prefixes(f);
            }
        },
    }
}

// ---------------------------------------------------------------------
// Columns, primary keys and tables
// ---------------------------------------------------------------------

/// A column that normalization gives back as it is.
pub open spec fn column_fixed(c: ColumnView) -> bool {
    &&& required_text_spec(c.name) == Ok::<Seq<char>, ParityError>(c.name)
    &&& type_family_spec(c.type_family) == Ok::<Seq<char>, ParityError>(c.type_family)
    &&& native_spec(c.native_type) == Ok::<Option<Seq<char>>, ParityError>(c.native_type)
    &&& c.ordinal != 0
}

/// A primary key that normalization against `cols` gives back as it is:
/// distinct required names of columns.
pub open spec fn key_fixed(pk: Seq<Seq<char>>, cols: Seq<ColumnView>) -> bool {
    &&& forall|i: int|
        0 <= i < pk.len() ==> required_text_spec(#[trigger] pk[i]) == Ok::<
            Seq<char>,
            ParityError,
        >(pk[i]) && has_column(cols, pk[i])
    &&& forall|i: int, j: int| 0 <= i < j < pk.len() ==> #[trigger] pk[i] != #[trigger] pk[j]
}

/// A table that normalization gives back as it is, once its columns are
/// in normal form and its key is free.
pub open spec fn table_fixed(t: TableView) -> bool {
    &&& required_text_spec(t.schema) == Ok::<Seq<char>, ParityError>(t.schema)
    &&& required_text_spec(t.name) == Ok::<Seq<char>, ParityError>(t.name)
    &&& t.columns.len() > 0
    &&& forall|i: int| 0 <= i < t.columns.len() ==> column_fixed(#[trigger] t.columns[i])
    &&& key_fixed(t.primary_key, t.columns)
}

proof fn lemma_next_column_fixed(c: ColumnView, acc: Seq<ColumnView>)
    ensures
        next_column_spec(c, acc) matches Ok(c2) ==> column_fixed(c2),
{
    lemma_required_text_fixed(c.name);
    lemma_type_family_fixed(c.type_family);
    if let Some(s) = c.native_type {
        lemma_required_text_fixed(s);
    }
}

proof fn lemma_columns_fixed(cs: Seq<ColumnView>, acc: Seq<ColumnView>)
    requires
        forall|i: int| 0 <= i < acc.len() ==> column_fixed(#[trigger] acc[i]),
    ensures
        columns_spec(cs, acc) matches Ok(r) ==> forall|i: int|
            0 <= i < r.len() ==> column_fixed(#[trigger] r[i]),
    decreases cs.len(),
{
    if cs.len() > 0 {
        lemma_next_column_fixed(cs[0], acc);
        if let Ok(c) = next_column_spec(cs[0], acc) {
            let acc2 = acc.push(c);
            assert forall|i: int| 0 <= i < acc2.len() implies column_fixed(#[trigger] acc2[i]) by {
                if i < acc.len() {
                    assert(acc2[i] == acc[i]);
                }
            }
            lemma_columns_fixed(cs.drop_first(), acc2);
        }
    }
}

/// Fixed columns with distinct names and ordinals normalize to themselves.
proof fn lemma_columns_refix(s: Seq<ColumnView>, k: int)
    requires
        0 <= k <= s.len(),
        forall|i: int| 0 <= i < s.len() ==> column_fixed(#[trigger] s[i]),
        unique_by(s, column_name_key()),
        unique_by(s, column_ordinal_key()),
    ensures
        columns_spec(s.subrange(k, s.len() as int), s.subrange(0, k)) == Ok::<
            Seq<ColumnView>,
            ParityError,
        >(s),
    decreases s.len() - k,
{
    let rest = s.subrange(k, s.len() as int);
    let acc = s.subrange(0, k);
    if k == s.len() {
        assert(acc =~= s);
    } else {
        let c = s[k];
        assert(rest[0] == c);
        assert(column_fixed(c));
        assert(!has_ordinal(acc, c.ordinal)) by {
            if has_ordinal(acc, c.ordinal) {
                let i = choose|i: int| 0 <= i < acc.len() && #[trigger] acc[i].ordinal == c.ordinal;
                assert(acc[i] == s[i]);
                assert((column_ordinal_key())(s[i]) != (column_ordinal_key())(s[k]));
            }
        }
        assert(!has_column(acc, c.name)) by {
            if has_column(acc, c.name) {
                let i = choose|i: int| 0 <= i < acc.len() && #[trigger] acc[i].name == c.name;
                assert(acc[i] == s[i]);
                assert((column_name_key())(s[i]) != (column_name_key())(s[k]));
            }
        }
        assert(next_column_spec(c, acc) == Ok::<ColumnView, ParityError>(c));
        assert(rest.drop_first() =~= s.subrange(k + 1, s.len() as int));
        assert(acc.push(c) =~= s.subrange(0, k + 1));
        lemma_columns_refix(s, k + 1);
    }
}

proof fn lemma_primary_key_fixed(pk: Seq<Seq<char>>, cols: Seq<ColumnView>, acc: Seq<Seq<char>>)
    requires
        key_fixed(acc, cols),
    ensures
        primary_key_spec(pk, cols, acc) matches Ok(r) ==> key_fixed(r, cols),
    decreases pk.len(),
{
    if pk.len() > 0 {
        lemma_required_text_fixed(pk[0]);
        if let Ok(k) = required_text_spec(pk[0]) {
            if has_column(cols, k) && !acc.contains(k) {
                let acc2 = acc.push(k);
                assert forall|i: int, j: int| 0 <= i < j < acc2.len() implies #[trigger] acc2[i]
                    != #[trigger] acc2[j] by {
                    if j == acc.len() {
                        assert(acc2[i] == acc[i]);
                        if acc[i] == k {
                            assert(acc.contains(k));
                        }
                    } else {
                        assert(acc2[i] == acc[i] && acc2[j] == acc[j]);
                    }
                }
                assert forall|i: int| 0 <= i < acc2.len() implies required_text_spec(
                    #[trigger] acc2[i],
                ) == Ok::<Seq<char>, ParityError>(acc2[i]) && has_column(cols, acc2[i]) by {
                    if i < acc.len() {
                        assert(acc2[i] == acc[i]);
                    }
                }
                lemma_primary_key_fixed(pk.drop_first(), cols, acc2);
            }
        }
    }
}

proof fn lemma_primary_key_refix(pk: Seq<Seq<char>>, cols: Seq<ColumnView>, k: int)
    requires
        0 <= k <= pk.len(),
        key_fixed(pk, cols),
    ensures
        primary_key_spec(pk.subrange(k, pk.len() as int), cols, pk.subrange(0, k)) == Ok::<
            Seq<Seq<char>>,
            ParityError,
        >(pk),
    decreases pk.len() - k,
{
    let rest = pk.subrange(k, pk.len() as int);
    let acc = pk.subrange(0, k);
    if k == pk.len() {
        assert(acc =~= pk);
    } else {
        let key = pk[k];
        assert(rest[0] == key);
        assert(required_text_spec(key) == Ok::<Seq<char>, ParityError>(key) && has_column(cols, key));
        assert(!acc.contains(key)) by {
            if acc.contains(key) {
                let i = choose|i: int| 0 <= i < acc.len() && acc[i] == key;
                assert(acc[i] == pk[i]);
                assert(pk[i] != pk[k]);
            }
        }
        assert(rest.drop_first() =~= pk.subrange(k + 1, pk.len() as int));
        assert(acc.push(key) =~= pk.subrange(0, k + 1));
        lemma_primary_key_refix(pk, cols, k + 1);
    }
}

proof fn lemma_next_table_fixed(t: TableView, acc: Seq<TableView>)
    ensures
        next_table_spec(t, acc) matches Ok(t2) ==> table_fixed(t2),
{
    lemma_required_text_fixed(t.schema);
    lemma_required_text_fixed(t.name);
    lemma_columns_fixed(t.columns, Seq::empty());
    if let Ok(t2) = next_table_spec(t, acc) {
        let cs = columns_spec(t.columns, Seq::empty())->Ok_0;
        let sorted = isort(cs, column_order());
        assert(t2.columns == sorted);
        lemma_isort_multiset(cs, column_order());
        assert forall|i: int| 0 <= i < sorted.len() implies column_fixed(#[trigger] sorted[i]) by {
            lemma_isort_contains(cs, column_order(), sorted[i]);
            assert(sorted.contains(sorted[i]));
            let j = choose|j: int| 0 <= j < cs.len() && cs[j] == sorted[i];
            assert(column_fixed(cs[j]));
        }
        lemma_primary_key_fixed(t.primary_key, sorted, Seq::empty());
    }
}

/// A fixed table in normal form, whose key is free, normalizes to itself.
proof fn lemma_table_refix(t: TableView, acc: Seq<TableView>)
    requires
        table_fixed(t),
        table_normal(t),
        !has_table(acc, t.schema, t.name),
    ensures
        next_table_spec(t, acc) == Ok::<TableView, ParityError>(t),
{
    lemma_columns_refix(t.columns, 0);
    assert(t.columns.subrange(0, t.columns.len() as int) =~= t.columns);
    assert(t.columns.subrange(0, 0) =~= Seq::<ColumnView>::empty());
    lemma_isort_sorted_fixed(t.columns, column_order());
    lemma_primary_key_refix(t.primary_key, t.columns, 0);
    assert(t.primary_key.subrange(0, t.primary_key.len() as int) =~= t.primary_key);
    assert(t.primary_key.subrange(0, 0) =~= Seq::<Seq<char>>::empty());
}

proof fn lemma_tables_fixed(ts: Seq<TableView>, acc: Seq<TableView>)
    requires
        forall|i: int| 0 <= i < acc.len() ==> table_fixed(#[trigger] acc[i]),
    ensures
        tables_spec(ts, acc) matches Ok(r) ==> forall|i: int|
            0 <= i < r.len() ==> table_fixed(#[trigger] r[i]),
    decreases ts.len(),
{
    if ts.len() > 0 {
        lemma_next_table_fixed(ts[0], acc);
        if let Ok(t) = next_table_spec(ts[0], acc) {
            let acc2 = acc.push(t);
            assert forall|i: int| 0 <= i < acc2.len() implies table_fixed(#[trigger] acc2[i]) by {
                if i < acc.len() {
                    assert(acc2[i] == acc[i]);
                }
            }
            lemma_tables_fixed(ts.drop_first(), acc2);
        }
    }
}

/// Fixed tables in normal form with distinct keys normalize to themselves.
proof fn lemma_tables_refix(s: Seq<TableView>, k: int)
    requires
        0 <= k <= s.len(),
        forall|i: int| 0 <= i < s.len() ==> table_fixed(#[trigger] s[i]),
        forall|i: int| 0 <= i < s.len() ==> table_normal(#[trigger] s[i]),
        unique_by(s, table_key()),
    ensures
        tables_spec(s.subrange(k, s.len() as int), s.subrange(0, k)) == Ok::<
            Seq<TableView>,
            ParityError,
        >(s),
    decreases s.len() - k,
{
    let rest = s.subrange(k, s.len() as int);
    let acc = s.subrange(0, k);
    if k == s.len() {
        assert(acc =~= s);
    } else {
        let t = s[k];
        assert(rest[0] == t);
        assert(table_fixed(t) && table_normal(t));
        assert(!has_table(acc, t.schema, t.name)) by {
            if has_table(acc, t.schema, t.name) {
                let i = choose|i: int|
                    0 <= i < acc.len() && #[trigger] acc[i].schema == t.schema && acc[i].name
                        == t.name;
                assert(acc[i] == s[i]);
                assert((table_key())(s[i]) != (table_key())(s[k]));
            }
        }
        lemma_table_refix(t, acc);
        assert(rest.drop_first() =~= s.subrange(k + 1, s.len() as int));
        assert(acc.push(t) =~= s.subrange(0, k + 1));
        lemma_tables_refix(s, k + 1);
    }
}

/// A normalized projection normalizes to itself.
pub proof fn lemma_normalize_fixed(p: ProjectionView)
    ensures
        normalize_spec(p) matches Ok(n) ==> normalize_spec(n) == Ok::<ProjectionView, ParityError>(n),
{
    if let Ok(n) = normalize_spec(p) {
        lemma_required_text_fixed(p.generator_name);
        lemma_required_text_fixed(p.generator_version);
        lemma_required_text_fixed(p.database_schema);
        law_normalize_yields_normal_form(p);
        let ts = tables_spec(p.tables, Seq::empty())->Ok_0;
        lemma_tables_fixed(p.tables, Seq::empty());
        lemma_isort_multiset(ts, table_order());
        assert forall|i: int| 0 <= i < n.tables.len() implies table_fixed(#[trigger] n.tables[i]) by {
            lemma_isort_contains(ts, table_order(), n.tables[i]);
            assert(n.tables.contains(n.tables[i]));
            let j = choose|j: int| 0 <= j < ts.len() && ts[j] == n.tables[i];
            assert(table_fixed(ts[j]));
        }
        lemma_tables_refix(n.tables, 0);
        assert(n.tables.subrange(0, n.tables.len() as int) =~= n.tables);
        assert(n.tables.subrange(0, 0) =~= Seq::<TableView>::empty());
        lemma_isort_sorted_fixed(n.tables, table_order());
    }
}

} // verus!
