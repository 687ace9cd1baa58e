//! Lexical helpers shared by the readers of generated Rust source.
use vstd::prelude::*;

use crate::text::{
    chars_of, lemma_rfind_bounds, lemma_trim_len, occurs_at, rfind, rfind_exec, slice_of,
    strip_prefix, strip_prefix_exec, strip_suffix, strip_suffix_exec, trim, trim_exec,
};

verus! {

/// An identifier without its raw prefix `r#` (and without surrounding space).
pub open spec fn strip_raw(v: Seq<char>) -> Seq<char> {
    match strip_prefix(trim(v), "r#"@) {
        Some(x) => x,
        None => trim(v),
    }
}

/// The inside of `wrapper<..>` (the wrapper given with its `<`), after trimming.
pub open spec fn peel_wrapper(value: Seq<char>, open: Seq<char>) -> Option<Seq<char>> {
    match strip_prefix(trim(value), open) {
        Some(inner) => strip_suffix(inner, ">"@),
        None => None,
    }
}

/// The last `::`-separated segment of a path (`rsplit("::").next()`).
pub open spec fn path_leaf(s: Seq<char>) -> Seq<char> {
    match rfind(s, "::"@) {
        Some(i) => s.subrange(i + 2, s.len() as int),
        None => s,
    }
}

/// `a.or(b)`.
pub open spec fn or_else(a: Option<Seq<char>>, b: Option<Seq<char>>) -> Option<Seq<char>> {
    match a {
        Some(x) => Some(x),
        None => b,
    }
}

pub proof fn lemma_peel_wrapper_shorter(value: Seq<char>, open: Seq<char>)
    ensures
        peel_wrapper(value, open) matches Some(inner) ==> inner.len() < value.len(),
{
    reveal_strlit(">");
    lemma_trim_len(value);
}

/// An identifier without its raw prefix `r#` (and without surrounding space).
pub fn strip_raw_identifier(v: &[char]) -> (r: Vec<char>)
    ensures
        r@ == strip_raw(v@),
{
    let t = trim_exec(v);
    match strip_prefix_exec(t.as_slice(), chars_of("r#").as_slice()) {
        Some(x) => x,
        None => t,
    }
}

/// The inside of `wrapper<..>`, the wrapper given with its `<`.
pub fn peel_wrapper_exec(value: &[char], open: &[char]) -> (r: Option<Vec<char>>)
    ensures
        match r {
            Some(x) => peel_wrapper(value@, open@) == Some(x@),
            None => peel_wrapper(value@, open@) is None,
        },
{
    let t = trim_exec(value);
    match strip_prefix_exec(t.as_slice(), open) {
        Some(inner) => strip_suffix_exec(inner.as_slice(), chars_of(">").as_slice()),
        None => None,
    }
}

/// The last `::`-separated segment of a path.
pub fn path_leaf_exec(s: &[char]) -> (r: Vec<char>)
    ensures
        r@ == path_leaf(s@),
{
    let sep = chars_of("::");
    match rfind_exec(s, sep.as_slice()) {
        Some(i) => {
            proof {
                reveal_strlit("::");
                lemma_rfind_bounds(s@, sep@, s@.len() - sep@.len());
                assert(occurs_at(s@, sep@, i as int));
                assert(sep@.len() == 2);
            }
            let n = s.len();
            assert(i + 2 <= n);
            slice_of(s, i + 2, n)
        },
        None => slice_of(s, 0, s.len()),
    }
}

} // verus!
