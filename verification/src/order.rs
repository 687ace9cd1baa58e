//! Orders and sorting.
//!
//! Text is ordered as Rust orders `str`: lexicographically by code point.
//! Sorting is insertion sort; `isort` is its specification, and the lemmas
//! here show that it permutes its input and, under a total preorder, sorts it.
use vstd::prelude::*;
use vstd::relations::sorted_by;

verus! {

/// `a <= b` in the order of `str`.
pub open spec fn lex_le(a: Seq<char>, b: Seq<char>) -> bool
    decreases a.len(),
{
    if a.len() == 0 {
        true
    } else if b.len() == 0 {
        false
    } else if (a[0] as u32) < (b[0] as u32) {
        true
    } else if a[0] == b[0] {
        lex_le(a.drop_first(), b.drop_first())
    } else {
        false
    }
}

pub proof fn lemma_lex_le_refl(a: Seq<char>)
    ensures
        lex_le(a, a),
    decreases a.len(),
{
    if a.len() > 0 {
        lemma_lex_le_refl(a.drop_first());
    }
}

pub proof fn lemma_lex_le_total(a: Seq<char>, b: Seq<char>)
    ensures
        lex_le(a, b) || lex_le(b, a),
    decreases a.len(),
{
    if a.len() > 0 && b.len() > 0 {
        char_cast_injective(a[0], b[0]);
        if a[0] == b[0] {
            lemma_lex_le_total(a.drop_first(), b.drop_first());
        }
    }
}

pub proof fn lemma_lex_le_antisym(a: Seq<char>, b: Seq<char>)
    requires
        lex_le(a, b),
        lex_le(b, a),
    ensures
        a == b,
    decreases a.len(),
{
    if a.len() > 0 {
        lemma_lex_le_antisym(a.drop_first(), b.drop_first());
        assert(a =~= seq![a[0]] + a.drop_first());
        assert(b =~= seq![b[0]] + b.drop_first());
    } else {
        assert(a =~= b);
    }
}

pub proof fn lemma_lex_le_trans(a: Seq<char>, b: Seq<char>, c: Seq<char>)
    requires
        lex_le(a, b),
        lex_le(b, c),
    ensures
        lex_le(a, c),
    decreases a.len(),
{
    if a.len() > 0 && b.len() > 0 && c.len() > 0 && a[0] == b[0] && b[0] == c[0] {
        lemma_lex_le_trans(a.drop_first(), b.drop_first(), c.drop_first());
    }
}

/// `a <= b` in the order of `str`.
pub fn lex_le_exec(a: &[char], b: &[char]) -> (r: bool)
    ensures
        r == lex_le(a@, b@),
{
    let mut i: usize = 0;
    assert(a@.subrange(0, a@.len() as int) =~= a@);
    assert(b@.subrange(0, b@.len() as int) =~= b@);
    while i < a.len() && i < b.len() && a[i] == b[i]
        invariant
            i <= a@.len(),
            i <= b@.len(),
            lex_le(a@, b@) == lex_le(
                a@.subrange(i as int, a@.len() as int),
                b@.subrange(i as int, b@.len() as int),
            ),
        decreases a.len() - i,
    {
        assert(a@.subrange(i as int, a@.len() as int).drop_first() =~= a@.subrange(
            i + 1,
            a@.len() as int,
        ));
        assert(b@.subrange(i as int, b@.len() as int).drop_first() =~= b@.subrange(
            i + 1,
            b@.len() as int,
        ));
        i = i + 1;
    }
    if i == a.len() {
        true
    } else if i == b.len() {
        false
    } else {
        (a[i] as u32) < (b[i] as u32)
    }
}

/// The position at which insertion sort places `x` in `s`: after every
/// element at or below `x`, counting from position `i`.
pub open spec fn insert_pos<A>(s: Seq<A>, x: A, le: spec_fn(A, A) -> bool, i: int) -> int
    decreases s.len() - i,
{
    if i < 0 || i >= s.len() {
        s.len() as int
    } else if !le(s[i], x) {
        i
    } else {
        insert_pos(s, x, le, i + 1)
    }
}

/// `s` with `x` inserted after every element at or below it.
pub open spec fn insort<A>(s: Seq<A>, x: A, le: spec_fn(A, A) -> bool) -> Seq<A> {
    s.insert(insert_pos(s, x, le, 0), x)
}

/// Stable insertion sort of `s` by `le`.
pub open spec fn isort<A>(s: Seq<A>, le: spec_fn(A, A) -> bool) -> Seq<A>
    decreases s.len(),
{
    if s.len() == 0 {
        s
    } else {
        insort(isort(s.drop_last(), le), s.last(), le)
    }
}

pub open spec fn total_preorder<A>(le: spec_fn(A, A) -> bool) -> bool {
    &&& forall|x: A, y: A, z: A| #[trigger] le(x, y) && #[trigger] le(y, z) ==> le(x, z)
    &&& forall|x: A, y: A| #[trigger] le(x, y) || le(y, x)
}

pub proof fn lemma_insert_pos<A>(s: Seq<A>, x: A, le: spec_fn(A, A) -> bool, i: int)
    requires
        0 <= i <= s.len(),
    ensures
        i <= insert_pos(s, x, le, i) <= s.len(),
        forall|k: int| i <= k < insert_pos(s, x, le, i) ==> le(#[trigger] s[k], x),
        insert_pos(s, x, le, i) < s.len() ==> !le(s[insert_pos(s, x, le, i)], x),
    decreases s.len() - i,
{
    if i < s.len() && le(s[i], x) {
        lemma_insert_pos(s, x, le, i + 1);
    }
}

pub proof fn lemma_insert_multiset<A>(s: Seq<A>, p: int, x: A)
    requires
        0 <= p <= s.len(),
    ensures
        s.insert(p, x).to_multiset() == s.to_multiset().insert(x),
        s.insert(p, x).len() == s.len() + 1,
{
    broadcast use vstd::seq_lib::group_to_multiset_ensures;

    let a = s.subrange(0, p);
    let b = s.subrange(p, s.len() as int);
    assert(s.insert(p, x) =~= a.push(x) + b);
    assert(s =~= a + b);
    vstd::seq_lib::lemma_multiset_commutative(a.push(x), b);
    vstd::seq_lib::lemma_multiset_commutative(a, b);
    assert(a.push(x).to_multiset() =~= a.to_multiset().insert(x));
    assert(s.insert(p, x).to_multiset() =~= s.to_multiset().insert(x));
}

pub proof fn lemma_isort_multiset<A>(s: Seq<A>, le: spec_fn(A, A) -> bool)
    ensures
        isort(s, le).to_multiset() == s.to_multiset(),
        isort(s, le).len() == s.len(),
    decreases s.len(),
{
    broadcast use vstd::seq_lib::group_to_multiset_ensures;

    if s.len() > 0 {
        let r = isort(s.drop_last(), le);
        lemma_isort_multiset(s.drop_last(), le);
        lemma_insert_pos(r, s.last(), le, 0);
        lemma_insert_multiset(r, insert_pos(r, s.last(), le, 0), s.last());
        assert(s =~= s.drop_last().push(s.last()));
        assert(s.to_multiset() =~= s.drop_last().to_multiset().insert(s.last()));
    }
}

pub proof fn lemma_insort_sorted<A>(s: Seq<A>, x: A, le: spec_fn(A, A) -> bool)
    requires
        total_preorder(le),
        sorted_by(s, le),
    ensures
        sorted_by(insort(s, x, le), le),
{
    let p = insert_pos(s, x, le, 0);
    lemma_insert_pos(s, x, le, 0);
    let r = insort(s, x, le);
    assert forall|i: int, j: int| 0 <= i < j < r.len() implies #[trigger] le(r[i], r[j]) by {
        if j < p {
            assert(r[i] == s[i] && r[j] == s[j]);
        } else if j == p {
            assert(r[i] == s[i]);
        } else if i == p {
            assert(r[j] == s[j - 1]);
            assert(le(x, s[p]));
            if j - 1 > p {
                assert(le(s[p], s[j - 1]));
            }
        } else if i < p {
            assert(r[i] == s[i] && r[j] == s[j - 1]);
        } else {
            assert(r[i] == s[i - 1] && r[j] == s[j - 1]);
        }
    }
}

pub proof fn lemma_isort_sorted<A>(s: Seq<A>, le: spec_fn(A, A) -> bool)
    requires
        total_preorder(le),
    ensures
        sorted_by(isort(s, le), le),
    decreases s.len(),
{
    if s.len() > 0 {
        lemma_isort_sorted(s.drop_last(), le);
        lemma_insort_sorted(isort(s.drop_last(), le), s.last(), le);
    }
}

/// Insertion sort leaves a sorted sequence as it is.
pub proof fn lemma_isort_sorted_fixed<A>(s: Seq<A>, le: spec_fn(A, A) -> bool)
    requires
        sorted_by(s, le),
    ensures
        isort(s, le) == s,
    decreases s.len(),
{
    if s.len() > 0 {
        let t = s.drop_last();
        assert(sorted_by(t, le)) by {
            assert forall|i: int, j: int| 0 <= i < j < t.len() implies le(#[trigger] t[i], #[trigger] t[j]) by {
                assert(t[i] == s[i] && t[j] == s[j]);
            }
        }
        lemma_isort_sorted_fixed(t, le);
        lemma_insert_pos_past(t, s.last(), le, 0);
        assert(t.insert(t.len() as int, s.last()) =~= s);
    }
}

/// Where every element from `i` on is at or below `x`, `x` goes last.
pub proof fn lemma_insert_pos_past<A>(s: Seq<A>, x: A, le: spec_fn(A, A) -> bool, i: int)
    requires
        0 <= i <= s.len(),
        forall|k: int| i <= k < s.len() ==> le(#[trigger] s[k], x),
    ensures
        insert_pos(s, x, le, i) == s.len(),
    decreases s.len() - i,
{
    if i < s.len() {
        lemma_insert_pos_past(s, x, le, i + 1);
    }
}

/// Insertion sort keeps exactly the elements it is given.
pub proof fn lemma_isort_contains<A>(s: Seq<A>, le: spec_fn(A, A) -> bool, x: A)
    ensures
        isort(s, le).contains(x) == s.contains(x),
{
    broadcast use vstd::seq_lib::group_to_multiset_ensures;

    lemma_isort_multiset(s, le);
    assert(isort(s, le).to_multiset().count(x) == s.to_multiset().count(x));
}

/// No two elements of `s` share a key.
pub open spec fn unique_by<A, K>(s: Seq<A>, key: spec_fn(A) -> K) -> bool {
    forall|i: int, j: int| 0 <= i < j < s.len() ==> key(#[trigger] s[i]) != key(#[trigger] s[j])
}

/// Insertion sort keeps keys unique.
pub proof fn lemma_isort_unique<A, K>(s: Seq<A>, le: spec_fn(A, A) -> bool, key: spec_fn(A) -> K)
    requires
        unique_by(s, key),
    ensures
        unique_by(isort(s, le), key),
    decreases s.len(),
{
    if s.len() > 0 {
        let s1 = s.drop_last();
        let x = s.last();
        assert(unique_by(s1, key)) by {
            assert forall|i: int, j: int| 0 <= i < j < s1.len() implies key(#[trigger] s1[i])
                != key(#[trigger] s1[j]) by {
                assert(s1[i] == s[i] && s1[j] == s[j]);
            }
        }
        lemma_isort_unique(s1, le, key);
        let r1 = isort(s1, le);
        lemma_isort_multiset(s1, le);
        lemma_insert_pos(r1, x, le, 0);
        let p = insert_pos(r1, x, le, 0);
        let r = isort(s, le);
        assert(r == r1.insert(p, x));
        assert forall|k: int| 0 <= k < r1.len() implies key(#[trigger] r1[k]) != key(x) by {
            lemma_isort_contains(s1, le, r1[k]);
            assert(r1.contains(r1[k]));
            let m = choose|m: int| 0 <= m < s1.len() && s1[m] == r1[k];
            assert(s[m] == s1[m]);
            assert(s[s.len() - 1] == x);
        }
        assert forall|i: int, j: int| 0 <= i < j < r.len() implies key(#[trigger] r[i]) != key(
            #[trigger] r[j],
        ) by {
            if j < p {
                assert(r[i] == r1[i] && r[j] == r1[j]);
            } else if j == p {
                assert(r[i] == r1[i]);
            } else if i == p {
                assert(r[j] == r1[j - 1]);
            } else if i < p {
                assert(r[i] == r1[i] && r[j] == r1[j - 1]);
            } else {
                assert(r[i] == r1[i - 1] && r[j] == r1[j - 1]);
            }
        }
    }
}

proof fn char_cast_injective(a: char, b: char)
    ensures (a as u32) == (b as u32) ==> a == b,
{
}

/// Whether some element of `t` has key `k`.
pub open spec fn has_key_in<A, K>(t: Seq<A>, key: spec_fn(A) -> K, k: K) -> bool {
    exists|j: int| 0 <= j < t.len() && key(#[trigger] t[j]) == k
}

/// An order that compares by key alone, and tells distinct keys apart.
pub open spec fn key_order<A, K>(le: spec_fn(A, A) -> bool, key: spec_fn(A) -> K) -> bool {
    &&& total_preorder(le)
    &&& forall|x: A, y: A| #[trigger] le(x, y) && le(y, x) ==> key(x) == key(y)
    &&& forall|x: A, y: A, z: A|
        #![trigger le(x, z), le(y, z)]
        key(x) == key(y) ==> le(x, z) == le(y, z)
    &&& forall|x: A, y: A, z: A|
        #![trigger le(z, x), le(z, y)]
        key(x) == key(y) ==> le(z, x) == le(z, y)
}

/// Two sequences sorted by a key order, each key once, with the same keys,
/// have the same keys position by position.
pub proof fn lemma_sorted_same_keys<A, K>(
    s: Seq<A>,
    t: Seq<A>,
    le: spec_fn(A, A) -> bool,
    key: spec_fn(A) -> K,
)
    requires
        key_order(le, key),
        sorted_by(s, le),
        sorted_by(t, le),
        unique_by(s, key),
        unique_by(t, key),
        forall|i: int| 0 <= i < s.len() ==> has_key_in(t, key, key(#[trigger] s[i])),
        forall|j: int| 0 <= j < t.len() ==> has_key_in(s, key, key(#[trigger] t[j])),
    ensures
        s.len() == t.len(),
        forall|i: int| 0 <= i < s.len() ==> key(#[trigger] s[i]) == key(t[i]),
    decreases s.len() + t.len(),
{
    if s.len() == 0 {
        if t.len() > 0 {
            assert(has_key_in(s, key, key(t[0])));
        }
    } else if t.len() == 0 {
        assert(has_key_in(t, key, key(s[0])));
    } else {
        assert(has_key_in(t, key, key(s[0])));
        let j0 = choose|j: int| 0 <= j < t.len() && key(#[trigger] t[j]) == key(s[0]);
        assert(has_key_in(s, key, key(t[0])));
        let i0 = choose|i: int| 0 <= i < s.len() && key(#[trigger] s[i]) == key(t[0]);
        if i0 > 0 {
            assert(le(s[0], s[i0]));
        } else {
            assert(le(s[0], s[0]));
        }
        assert(le(s[0], t[0]));
        if j0 > 0 {
            assert(le(t[0], t[j0]));
        } else {
            assert(le(t[0], t[0]));
        }
        assert(le(t[0], s[0]));
        assert(key(s[0]) == key(t[0]));
        let s1 = s.drop_first();
        let t1 = t.drop_first();
        assert(sorted_by(s1, le)) by {
            assert forall|a: int, b: int| 0 <= a < b < s1.len() implies le(#[trigger] s1[a], #[trigger] s1[b]) by {
                assert(s1[a] == s[a + 1] && s1[b] == s[b + 1]);
            }
        }
        assert(sorted_by(t1, le)) by {
            assert forall|a: int, b: int| 0 <= a < b < t1.len() implies le(#[trigger] t1[a], #[trigger] t1[b]) by {
                assert(t1[a] == t[a + 1] && t1[b] == t[b + 1]);
            }
        }
        assert(unique_by(s1, key)) by {
            assert forall|a: int, b: int| 0 <= a < b < s1.len() implies key(#[trigger] s1[a]) != key(#[trigger] s1[b]) by {
                assert(s1[a] == s[a + 1] && s1[b] == s[b + 1]);
            }
        }
        assert(unique_by(t1, key)) by {
            assert forall|a: int, b: int| 0 <= a < b < t1.len() implies key(#[trigger] t1[a]) != key(#[trigger] t1[b]) by {
                assert(t1[a] == t[a + 1] && t1[b] == t[b + 1]);
            }
        }
        assert forall|i: int| 0 <= i < s1.len() implies has_key_in(t1, key, key(#[trigger] s1[i])) by {
            assert(s1[i] == s[i + 1]);
            assert(has_key_in(t, key, key(s[i + 1])));
            let j = choose|j: int| 0 <= j < t.len() && key(#[trigger] t[j]) == key(s[i + 1]);
            assert(key(s[0]) != key(s[i + 1]));
            assert(j != 0);
            assert(t1[j - 1] == t[j]);
        }
        assert forall|j: int| 0 <= j < t1.len() implies has_key_in(s1, key, key(#[trigger] t1[j])) by {
            assert(t1[j] == t[j + 1]);
            assert(has_key_in(s, key, key(t[j + 1])));
            let i = choose|i: int| 0 <= i < s.len() && key(#[trigger] s[i]) == key(t[j + 1]);
            assert(key(t[0]) != key(t[j + 1]));
            assert(i != 0);
            assert(s1[i - 1] == s[i]);
        }
        lemma_sorted_same_keys(s1, t1, le, key);
        assert forall|i: int| 0 <= i < s.len() implies key(#[trigger] s[i]) == key(t[i]) by {
            if i > 0 {
                assert(s1[i - 1] == s[i] && t1[i - 1] == t[i]);
            }
        }
    }
}

} // verus!
