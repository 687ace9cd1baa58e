//! Text primitives over sequences of characters.
//!
//! Every parser and normalizer in this crate works on `Seq<char>` in its
//! specification and on `Vec<char>` / `&[char]` in executable code.  The
//! functions here are the small vocabulary they share: trimming, prefix and
//! suffix tests, searching, splitting into lines, and building `String`s.
use vstd::prelude::*;

verus! {

/// Unicode `White_Space`, the set that `char::is_whitespace` tests.
pub open spec fn is_ws(c: char) -> bool {
    let x = c as u32;
    ||| 9 <= x <= 13
    ||| x == 32
    ||| x == 0x85
    ||| x == 0xA0
    ||| x == 0x1680
    ||| 0x2000 <= x <= 0x200A
    ||| x == 0x2028
    ||| x == 0x2029
    ||| x == 0x202F
    ||| x == 0x205F
    ||| x == 0x3000
}

/// Unicode general category `Cc`, the set that `char::is_control` tests.
pub open spec fn is_control(c: char) -> bool {
    let x = c as u32;
    x <= 0x1F || (0x7F <= x <= 0x9F)
}

/// `s` without its leading white space.
pub open spec fn trim_start(s: Seq<char>) -> Seq<char>
    decreases s.len(),
{
    if s.len() > 0 && is_ws(s[0]) {
        trim_start(s.drop_first())
    } else {
        s
    }
}

/// `s` without its trailing white space.
pub open spec fn trim_end(s: Seq<char>) -> Seq<char>
    decreases s.len(),
{
    if s.len() > 0 && is_ws(s.last()) {
        trim_end(s.drop_last())
    } else {
        s
    }
}

/// `s` without leading and trailing white space (`str::trim`).
pub open spec fn trim(s: Seq<char>) -> Seq<char> {
    trim_end(trim_start(s))
}

pub open spec fn starts_with(s: Seq<char>, p: Seq<char>) -> bool {
    p.len() <= s.len() && s.subrange(0, p.len() as int) == p
}

pub open spec fn ends_with(s: Seq<char>, p: Seq<char>) -> bool {
    p.len() <= s.len() && s.subrange(s.len() - p.len(), s.len() as int) == p
}

/// Whether `p` occurs in `s` starting at position `i`.
pub open spec fn occurs_at(s: Seq<char>, p: Seq<char>, i: int) -> bool {
    0 <= i && i + p.len() <= s.len() && s.subrange(i, i + p.len()) == p
}

/// The first position at or after `i` where `p` occurs in `s`.
pub open spec fn find_from(s: Seq<char>, p: Seq<char>, i: int) -> Option<int>
    decreases s.len() + 1 - i,
{
    if i < 0 || i + p.len() > s.len() {
        None
    } else if occurs_at(s, p, i) {
        Some(i)
    } else {
        find_from(s, p, i + 1)
    }
}

/// The first position where `p` occurs in `s` (`str::find`).
pub open spec fn find(s: Seq<char>, p: Seq<char>) -> Option<int> {
    find_from(s, p, 0)
}

/// The last position at or before `k` where `p` occurs in `s`.
pub open spec fn rfind_upto(s: Seq<char>, p: Seq<char>, k: int) -> Option<int>
    decreases k + 1,
{
    if k < 0 {
        None
    } else if occurs_at(s, p, k) {
        Some(k)
    } else {
        rfind_upto(s, p, k - 1)
    }
}

/// The last position where `p` occurs in `s`.
pub open spec fn rfind(s: Seq<char>, p: Seq<char>) -> Option<int> {
    rfind_upto(s, p, s.len() - p.len())
}

pub open spec fn contains(s: Seq<char>, p: Seq<char>) -> bool {
    find(s, p) is Some
}

/// The first position of the character `c` in `s`.
pub open spec fn find_char(s: Seq<char>, c: char) -> Option<int> {
    find(s, seq![c])
}

pub open spec fn contains_char(s: Seq<char>, c: char) -> bool {
    exists|i: int| 0 <= i < s.len() && s[i] == c
}

/// `str::strip_prefix`.
pub open spec fn strip_prefix(s: Seq<char>, p: Seq<char>) -> Option<Seq<char>> {
    if starts_with(s, p) {
        Some(s.subrange(p.len() as int, s.len() as int))
    } else {
        None
    }
}

/// `str::strip_suffix`.
pub open spec fn strip_suffix(s: Seq<char>, p: Seq<char>) -> Option<Seq<char>> {
    if ends_with(s, p) {
        Some(s.subrange(0, s.len() - p.len()))
    } else {
        None
    }
}

/// `str::split_once`: the text before and after the first occurrence of `sep`.
pub open spec fn split_once(s: Seq<char>, sep: Seq<char>) -> Option<(Seq<char>, Seq<char>)> {
    match find(s, sep) {
        Some(i) => Some((s.subrange(0, i), s.subrange(i + sep.len(), s.len() as int))),
        None => None,
    }
}

/// `str::trim_end_matches` with a single character.
pub open spec fn trim_end_char(s: Seq<char>, c: char) -> Seq<char>
    decreases s.len(),
{
    if s.len() > 0 && s.last() == c {
        trim_end_char(s.drop_last(), c)
    } else {
        s
    }
}

/// `s` with every white-space character removed.
pub open spec fn remove_ws(s: Seq<char>) -> Seq<char>
    decreases s.len(),
{
    if s.len() == 0 {
        s
    } else if is_ws(s.last()) {
        remove_ws(s.drop_last())
    } else {
        remove_ws(s.drop_last()).push(s.last())
    }
}

/// A line as `str::lines` yields it: a `\r` before the `\n` is dropped.
pub open spec fn strip_cr(line: Seq<char>) -> Seq<char> {
    if line.len() > 0 && line.last() == '\r' {
        line.drop_last()
    } else {
        line
    }
}

/// `str::lines`: the text split at `\n`, with a final line ending optional.
pub open spec fn lines(s: Seq<char>) -> Seq<Seq<char>>
    decreases s.len(),
{
    if s.len() == 0 {
        Seq::empty()
    } else {
        match find_char(s, '\n') {
            Some(i) => if 0 <= i < s.len() {
                seq![strip_cr(s.subrange(0, i))] + lines(s.subrange(i + 1, s.len() as int))
            } else {
                Seq::empty()
            },
            None => seq![s],
        }
    }
}

/// The number of bytes that the UTF-8 encoding of `s` takes (`str::len`).
pub open spec fn utf8_len(s: Seq<char>) -> nat
    decreases s.len(),
{
    if s.len() == 0 {
        0
    } else {
        utf8_len(s.drop_last()) + char_utf8_len(s.last())
    }
}

pub open spec fn char_utf8_len(c: char) -> nat {
    let x = c as u32;
    if x < 0x80 {
        1
    } else if x < 0x800 {
        2
    } else if x < 0x10000 {
        3
    } else {
        4
    }
}

/// The items of `parts` joined by `sep` (`[String]::join`).
pub open spec fn join(parts: Seq<Seq<char>>, sep: Seq<char>) -> Seq<char>
    decreases parts.len(),
{
    if parts.len() == 0 {
        Seq::empty()
    } else if parts.len() == 1 {
        parts[0]
    } else {
        join(parts.drop_last(), sep) + sep + parts.last()
    }
}

// ---------------------------------------------------------------------
// Lemmas
// ---------------------------------------------------------------------

pub proof fn lemma_find_from_bounds(s: Seq<char>, p: Seq<char>, i: int)
    ensures
        find_from(s, p, i) matches Some(j) ==> i <= j && occurs_at(s, p, j) && j + p.len()
            <= s.len(),
    decreases s.len() + 1 - i,
{
    if i < 0 || i + p.len() > s.len() {
    } else if occurs_at(s, p, i) {
    } else {
        lemma_find_from_bounds(s, p, i + 1);
    }
}

pub proof fn lemma_find_from_first(s: Seq<char>, p: Seq<char>, i: int, k: int)
    requires
        0 <= i <= k,
        find_from(s, p, i) matches Some(j) ==> k < j,
        find_from(s, p, i) is None ==> k + p.len() <= s.len(),
        k + p.len() <= s.len(),
    ensures
        !occurs_at(s, p, k),
    decreases k - i,
{
    if i + p.len() > s.len() {
    } else if occurs_at(s, p, i) {
    } else if i < k {
        lemma_find_from_first(s, p, i + 1, k);
    }
}

pub proof fn lemma_rfind_bounds(s: Seq<char>, p: Seq<char>, k: int)
    ensures
        rfind_upto(s, p, k) matches Some(j) ==> j <= k && occurs_at(s, p, j),
    decreases k + 1,
{
    if k >= 0 && !occurs_at(s, p, k) {
        lemma_rfind_bounds(s, p, k - 1);
    }
}

pub proof fn lemma_trim_start_is_suffix(s: Seq<char>)
    ensures
        trim_start(s).len() <= s.len(),
        trim_start(s) == s.subrange(s.len() - trim_start(s).len(), s.len() as int),
        trim_start(s).len() > 0 ==> !is_ws(trim_start(s)[0]),
    decreases s.len(),
{
    if s.len() > 0 && is_ws(s[0]) {
        lemma_trim_start_is_suffix(s.drop_first());
        assert(s.drop_first().subrange(
            s.drop_first().len() - trim_start(s).len(),
            s.drop_first().len() as int,
        ) =~= s.subrange(s.len() - trim_start(s).len(), s.len() as int));
    } else {
        assert(s.subrange(0, s.len() as int) =~= s);
    }
}

pub proof fn lemma_trim_end_is_prefix(s: Seq<char>)
    ensures
        trim_end(s).len() <= s.len(),
        trim_end(s) == s.subrange(0, trim_end(s).len() as int),
        trim_end(s).len() > 0 ==> !is_ws(trim_end(s).last()),
    decreases s.len(),
{
    if s.len() > 0 && is_ws(s.last()) {
        lemma_trim_end_is_prefix(s.drop_last());
        assert(s.drop_last().subrange(0, trim_end(s).len() as int) =~= s.subrange(
            0,
            trim_end(s).len() as int,
        ));
    } else {
        assert(s.subrange(0, s.len() as int) =~= s);
    }
}

pub proof fn lemma_trim_len(s: Seq<char>)
    ensures
        trim(s).len() <= s.len(),
{
    lemma_trim_start_is_suffix(s);
    lemma_trim_end_is_prefix(trim_start(s));
}

pub proof fn lemma_remove_ws_len(s: Seq<char>)
    ensures
        remove_ws(s).len() <= s.len(),
    decreases s.len(),
{
    if s.len() > 0 {
        lemma_remove_ws_len(s.drop_last());
    }
}

pub proof fn lemma_trim_end_char_len(s: Seq<char>, c: char)
    ensures
        trim_end_char(s, c).len() <= s.len(),
    decreases s.len(),
{
    if s.len() > 0 && s.last() == c {
        lemma_trim_end_char_len(s.drop_last(), c);
    }
}

pub proof fn lemma_utf8_len_concat(a: Seq<char>, b: Seq<char>)
    ensures
        utf8_len(a + b) == utf8_len(a) + utf8_len(b),
    decreases b.len(),
{
    if b.len() == 0 {
        assert(a + b =~= a);
    } else {
        lemma_utf8_len_concat(a, b.drop_last());
        assert((a + b).drop_last() =~= a + b.drop_last());
    }
}

// ---------------------------------------------------------------------
// Executable primitives
// ---------------------------------------------------------------------

/// The characters of `s`, in order.
pub fn chars_of(s: &str) -> (v: Vec<char>)
    ensures
        v@ == s@,
{
    let mut v: Vec<char> = Vec::new();
    for c in it: s.chars()
        invariant
            v@ == it.seq().take(it.index() as int),
    {
        v.push(c);
    }
    v
}

/// Appends `c` to `s` by `String::push`.  Trusted, not proved: afterwards
/// `s` holds the characters it held, then `c`, as std documents `push`.
#[verifier::external_body]
fn push_char(s: &mut String, c: char)
    ensures
        final(s)@ == old(s)@.push(c),
{
    s.push(c);
}

/// The `String` made of the characters of `v`.
pub fn string_of(v: &[char]) -> (s: String)
    ensures
        s@ == v@,
{
    let mut s = String::new();
    let mut i: usize = 0;
    while i < v.len()
        invariant
            i <= v.len(),
            s@ == v@.subrange(0, i as int),
        decreases v.len() - i,
    {
        push_char(&mut s, v[i]);
        i = i + 1;
        assert(s@ =~= v@.subrange(0, i as int));
    }
    assert(v@.subrange(0, v.len() as int) =~= v@);
    s
}

pub fn is_ws_char(c: char) -> (b: bool)
    ensures
        b == is_ws(c),
{
    let x = c as u32;
    (9 <= x && x <= 13) || x == 32 || x == 0x85 || x == 0xA0 || x == 0x1680 || (0x2000 <= x && x
        <= 0x200A) || x == 0x2028 || x == 0x2029 || x == 0x202F || x == 0x205F || x == 0x3000
}

pub fn is_control_char(c: char) -> (b: bool)
    ensures
        b == is_control(c),
{
    let x = c as u32;
    x <= 0x1F || (0x7F <= x && x <= 0x9F)
}

/// A copy of `v[a..b]`.
pub fn slice_of(v: &[char], a: usize, b: usize) -> (r: Vec<char>)
    requires
        a <= b <= v@.len(),
    ensures
        r@ == v@.subrange(a as int, b as int),
{
    let mut r: Vec<char> = Vec::new();
    let mut i = a;
    while i < b
        invariant
            a <= i <= b <= v@.len(),
            r@ == v@.subrange(a as int, i as int),
        decreases b - i,
    {
        r.push(v[i]);
        i = i + 1;
        assert(r@ =~= v@.subrange(a as int, i as int));
    }
    r
}

/// Concatenation of three character sequences.
pub fn cat3(a: &[char], b: &[char], c: &[char]) -> (r: Vec<char>)
    ensures
        r@ == a@ + b@ + c@,
{
    let mut r = slice_of(a, 0, a.len());
    let mut i: usize = 0;
    while i < b.len()
        invariant
            i <= b@.len(),
            r@ == a@ + b@.subrange(0, i as int),
        decreases b.len() - i,
    {
        r.push(b[i]);
        i = i + 1;
        assert(r@ =~= a@ + b@.subrange(0, i as int));
    }
    let mut j: usize = 0;
    while j < c.len()
        invariant
            j <= c@.len(),
            r@ == a@ + b@ + c@.subrange(0, j as int),
        decreases c.len() - j,
    {
        r.push(c[j]);
        j = j + 1;
        assert(r@ =~= a@ + b@ + c@.subrange(0, j as int));
    }
    assert(a@.subrange(0, a@.len() as int) =~= a@);
    assert(b@.subrange(0, b@.len() as int) =~= b@);
    assert(c@.subrange(0, c@.len() as int) =~= c@);
    r
}

/// Whether two character sequences are equal.
pub fn eq(a: &[char], b: &[char]) -> (r: bool)
    ensures
        r == (a@ == b@),
{
    if a.len() != b.len() {
        return false;
    }
    let mut i: usize = 0;
    while i < a.len()
        invariant
            a@.len() == b@.len(),
            i <= a@.len(),
            forall|k: int| 0 <= k < i ==> a@[k] == b@[k],
        decreases a.len() - i,
    {
        if a[i] != b[i] {
            return false;
        }
        i = i + 1;
    }
    assert(a@ =~= b@);
    true
}

/// Whether `p` occurs in `v` at position `i`.
pub fn occurs_at_exec(v: &[char], p: &[char], i: usize) -> (r: bool)
    ensures
        r == occurs_at(v@, p@, i as int),
{
    if i > v.len() || p.len() > v.len() - i {
        return false;
    }
    let mut k: usize = 0;
    while k < p.len()
        invariant
            i + p@.len() <= v@.len(),
            k <= p@.len(),
            forall|m: int| 0 <= m < k ==> v@[i + m] == p@[m],
        decreases p.len() - k,
    {
        let n = v.len();
        assert(i + k < n);
        if v[i + k] != p[k] {
            assert(v@.subrange(i as int, i + p@.len())[k as int] != p@[k as int]);
            return false;
        }
        k = k + 1;
    }
    assert(v@.subrange(i as int, i + p@.len()) =~= p@);
    true
}

pub fn starts_with_exec(v: &[char], p: &[char]) -> (r: bool)
    ensures
        r == starts_with(v@, p@),
{
    occurs_at_exec(v, p, 0)
}

pub fn ends_with_exec(v: &[char], p: &[char]) -> (r: bool)
    ensures
        r == ends_with(v@, p@),
{
    if p.len() > v.len() {
        return false;
    }
    occurs_at_exec(v, p, v.len() - p.len())
}

/// `str::find`.
pub fn find_exec(v: &[char], p: &[char]) -> (r: Option<usize>)
    ensures
        match r {
            Some(i) => find(v@, p@) == Some(i as int),
            None => find(v@, p@) is None,
        },
{
    if p.len() > v.len() {
        return None;
    }
    let last = v.len() - p.len();
    let mut i: usize = 0;
    while i <= last
        invariant
            last + p@.len() == v@.len(),
            i <= last + 1,
            find(v@, p@) == find_from(v@, p@, i as int),
        decreases last + 1 - i,
    {
        if occurs_at_exec(v, p, i) {
            return Some(i);
        }
        if i == last {
            assert(find_from(v@, p@, i + 1) is None);
            return None;
        }
        i = i + 1;
    }
    None
}

/// The last position where `p` occurs in `v`.
pub fn rfind_exec(v: &[char], p: &[char]) -> (r: Option<usize>)
    ensures
        match r {
            Some(i) => rfind(v@, p@) == Some(i as int),
            None => rfind(v@, p@) is None,
        },
{
    if p.len() > v.len() {
        return None;
    }
    let mut k: usize = v.len() - p.len();
    loop
        invariant
            k + p@.len() <= v@.len(),
            rfind(v@, p@) == rfind_upto(v@, p@, k as int),
        decreases k,
    {
        if occurs_at_exec(v, p, k) {
            return Some(k);
        }
        if k == 0 {
            assert(rfind_upto(v@, p@, -1) is None);
            return None;
        }
        k = k - 1;
    }
}

pub fn find_char_exec(v: &[char], c: char) -> (r: Option<usize>)
    ensures
        match r {
            Some(i) => find_char(v@, c) == Some(i as int),
            None => find_char(v@, c) is None,
        },
{
    let p = vec![c];
    assert(p@ =~= seq![c]);
    find_exec(v, p.as_slice())
}

pub fn contains_exec(v: &[char], p: &[char]) -> (r: bool)
    ensures
        r == contains(v@, p@),
{
    find_exec(v, p).is_some()
}

pub fn contains_char_exec(v: &[char], c: char) -> (r: bool)
    ensures
        r == contains_char(v@, c),
{
    let mut i: usize = 0;
    while i < v.len()
        invariant
            i <= v@.len(),
            forall|k: int| 0 <= k < i ==> v@[k] != c,
        decreases v.len() - i,
    {
        if v[i] == c {
            return true;
        }
        i = i + 1;
    }
    false
}

pub fn strip_prefix_exec(v: &[char], p: &[char]) -> (r: Option<Vec<char>>)
    ensures
        match r {
            Some(x) => strip_prefix(v@, p@) == Some(x@),
            None => strip_prefix(v@, p@) is None,
        },
{
    if starts_with_exec(v, p) {
        Some(slice_of(v, p.len(), v.len()))
    } else {
        None
    }
}

pub fn strip_suffix_exec(v: &[char], p: &[char]) -> (r: Option<Vec<char>>)
    ensures
        match r {
            Some(x) => strip_suffix(v@, p@) == Some(x@),
            None => strip_suffix(v@, p@) is None,
        },
{
    if ends_with_exec(v, p) {
        Some(slice_of(v, 0, v.len() - p.len()))
    } else {
        None
    }
}

pub fn split_once_exec(v: &[char], sep: &[char]) -> (r: Option<(Vec<char>, Vec<char>)>)
    ensures
        match r {
            Some((a, b)) => split_once(v@, sep@) == Some((a@, b@)),
            None => split_once(v@, sep@) is None,
        },
{
    match find_exec(v, sep) {
        Some(i) => {
            proof {
                lemma_find_from_bounds(v@, sep@, 0);
                assert(i + sep@.len() <= v@.len());
                assert(v@.len() == v.len());
            }
            Some((slice_of(v, 0, i), slice_of(v, i + sep.len(), v.len())))
        },
        None => None,
    }
}

/// `str::trim`.
pub fn trim_exec(v: &[char]) -> (r: Vec<char>)
    ensures
        r@ == trim(v@),
{
    let mut a: usize = 0;
    assert(v@.subrange(0, v@.len() as int) =~= v@);
    while a < v.len() && is_ws_char(v[a])
        invariant
            a <= v@.len(),
            trim_start(v@) == trim_start(v@.subrange(a as int, v@.len() as int)),
        decreases v.len() - a,
    {
        assert(v@.subrange(a as int, v@.len() as int).drop_first() =~= v@.subrange(
            a + 1,
            v@.len() as int,
        ));
        a = a + 1;
    }
    let ghost t = v@.subrange(a as int, v@.len() as int);
    assert(trim_start(t) == t);
    let mut b: usize = v.len();
    while b > a && is_ws_char(v[b - 1])
        invariant
            a <= b <= v@.len(),
            trim_end(t) == trim_end(v@.subrange(a as int, b as int)),
        decreases b - a,
    {
        assert(v@.subrange(a as int, b as int).drop_last() =~= v@.subrange(a as int, b - 1));
        b = b - 1;
    }
    slice_of(v, a, b)
}

/// `str::trim_end_matches` with a single character.
pub fn trim_end_char_exec(v: &[char], c: char) -> (r: Vec<char>)
    ensures
        r@ == trim_end_char(v@, c),
{
    let mut b: usize = v.len();
    assert(v@.subrange(0, v@.len() as int) =~= v@);
    while b > 0 && v[b - 1] == c
        invariant
            b <= v@.len(),
            trim_end_char(v@, c) == trim_end_char(v@.subrange(0, b as int), c),
        decreases b,
    {
        assert(v@.subrange(0, b as int).drop_last() =~= v@.subrange(0, b - 1));
        b = b - 1;
    }
    slice_of(v, 0, b)
}

/// `v` with every white-space character removed.
pub fn remove_ws_exec(v: &[char]) -> (r: Vec<char>)
    ensures
        r@ == remove_ws(v@),
{
    let mut r: Vec<char> = Vec::new();
    let mut i: usize = 0;
    while i < v.len()
        invariant
            i <= v@.len(),
            r@ == remove_ws(v@.subrange(0, i as int)),
        decreases v.len() - i,
    {
        assert(v@.subrange(0, i + 1).drop_last() =~= v@.subrange(0, i as int));
        if !is_ws_char(v[i]) {
            r.push(v[i]);
        }
        i = i + 1;
    }
    assert(v@.subrange(0, v@.len() as int) =~= v@);
    r
}

/// `str::lines`.
pub fn lines_exec(s: &[char]) -> (r: Vec<Vec<char>>)
    ensures
        r@.map_values(|l: Vec<char>| l@) == lines(s@),
{
    let mut r: Vec<Vec<char>> = Vec::new();
    let mut start: usize = 0;
    assert(s@.subrange(0, s@.len() as int) =~= s@);
    assert(r@.map_values(|l: Vec<char>| l@) + lines(s@) =~= lines(s@));
    while start < s.len()
        invariant
            start <= s@.len(),
            lines(s@) == r@.map_values(|l: Vec<char>| l@) + lines(
                s@.subrange(start as int, s@.len() as int),
            ),
        decreases s.len() - start,
    {
        let rest = slice_of(s, start, s.len());
        match find_char_exec(rest.as_slice(), '\n') {
            Some(i) => {
                proof {
                    lemma_find_from_bounds(rest@, seq!['\n'], 0);
                }
                let mut line = slice_of(rest.as_slice(), 0, i);
                if line.len() > 0 && line[line.len() - 1] == '\r' {
                    line.pop();
                }
                let ghost old_r = r@;
                r.push(line);
                proof {
                    assert(rest@.subrange(i + 1, rest@.len() as int) =~= s@.subrange(
                        start + i + 1,
                        s@.len() as int,
                    ));
                    assert(r@.map_values(|l: Vec<char>| l@) =~= old_r.map_values(
                        |l: Vec<char>| l@,
                    ).push(line@));
                    assert(line@ == strip_cr(rest@.subrange(0, i as int)));
                }
                start = start + i + 1;
                proof {
                    assert(lines(s@) =~= r@.map_values(|l: Vec<char>| l@) + lines(
                        s@.subrange(start as int, s@.len() as int),
                    ));
                }
            },
            None => {
                let ghost old_r = r@;
                r.push(rest);
                proof {
                    assert(r@.map_values(|l: Vec<char>| l@) =~= old_r.map_values(
                        |l: Vec<char>| l@,
                    ).push(rest@));
                    assert(lines(s@.subrange(s@.len() as int, s@.len() as int)) =~= Seq::<
                        Seq<char>,
                    >::empty());
                }
                start = s.len();
                proof {
                    assert(lines(s@) =~= r@.map_values(|l: Vec<char>| l@) + lines(
                        s@.subrange(start as int, s@.len() as int),
                    ));
                }
            },
        }
    }
    proof {
        assert(lines(s@.subrange(start as int, s@.len() as int)) =~= Seq::<Seq<char>>::empty());
        assert(r@.map_values(|l: Vec<char>| l@) =~= lines(s@));
    }
    r
}

/// The UTF-8 byte length of one character (`char::len_utf8`).
pub fn char_utf8_len_exec(c: char) -> (n: usize)
    ensures
        n == char_utf8_len(c),
        1 <= n <= 4,
{
    let x = c as u32;
    if x < 0x80 {
        1
    } else if x < 0x800 {
        2
    } else if x < 0x10000 {
        3
    } else {
        4
    }
}

/// The UTF-8 byte length of `v` (`str::len`).
pub fn utf8_len_exec(v: &[char]) -> (n: u128)
    ensures
        n == utf8_len(v@),
        n <= 4 * v@.len(),
{
    let mut n: u128 = 0;
    let mut i: usize = 0;
    while i < v.len()
        invariant
            i <= v@.len(),
            n == utf8_len(v@.subrange(0, i as int)),
            n <= 4 * i,
        decreases v.len() - i,
    {
        assert(v@.subrange(0, i + 1).drop_last() =~= v@.subrange(0, i as int));
        n = n + char_utf8_len_exec(v[i]) as u128;
        i = i + 1;
    }
    assert(v@.subrange(0, v@.len() as int) =~= v@);
    n
}

/// Appends the characters of `s` to `v`.
pub fn append_chars(v: &mut Vec<char>, s: &[char])
    ensures
        final(v)@ == old(v)@ + s@,
{
    let mut i: usize = 0;
    while i < s.len()
        invariant
            i <= s@.len(),
            v@ == old(v)@ + s@.subrange(0, i as int),
        decreases s.len() - i,
    {
        v.push(s[i]);
        i = i + 1;
        assert(v@ =~= old(v)@ + s@.subrange(0, i as int));
    }
    assert(s@.subrange(0, s@.len() as int) =~= s@);
}

/// Whether `v` spells the literal `lit`.
pub fn is_lit(v: &[char], lit: &str) -> (b: bool)
    ensures
        b == (v@ == lit@),
{
    let l = chars_of(lit);
    eq(v, l.as_slice())
}

/// The characters of a `String`.
pub fn text_of(s: &String) -> (v: Vec<char>)
    ensures
        v@ == s@,
{
    chars_of(s.as_str())
}

} // verus!
