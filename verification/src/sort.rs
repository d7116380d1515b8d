//! Stable ordering of log lines by their leading field.
//!
//! A line's key is the text before its first `|`. Keys are ordered
//! lexicographically by code point, which for text is the order of its UTF-8
//! bytes. Sorting is specified by [`stable_sort`], shown to be the only
//! arrangement that is ordered by key and keeps the lines of every key in
//! the order they came in, and computed by a merge sort.

use crate::text::{find, find_char_from, lemma_find_from, views};
use vstd::prelude::*;

verus! {

/// The leading field of a line: what stands before its first `|`, the whole
/// line if it holds none.
pub open spec fn key_of(line: Seq<char>) -> Seq<char> {
    line.take(find(line, '|'))
}

/// Lexicographic order of `a` and `b` from index `i` on.
pub open spec fn lex_le_from(a: Seq<char>, b: Seq<char>, i: int) -> bool
    decreases a.len() - i,
{
    if i < 0 || i >= a.len() {
        true
    } else if i >= b.len() {
        false
    } else if a[i] != b[i] {
        a[i] < b[i]
    } else {
        lex_le_from(a, b, i + 1)
    }
}

/// `a` comes before `b`, or equals it, in lexicographic order by code point.
pub open spec fn lex_le(a: Seq<char>, b: Seq<char>) -> bool {
    lex_le_from(a, b, 0)
}

/// The order of two lines: the order of their keys.
pub open spec fn line_le(x: Seq<char>, y: Seq<char>) -> bool {
    lex_le(key_of(x), key_of(y))
}

proof fn lemma_lex_refl_from(a: Seq<char>, i: int)
    requires
        0 <= i,
    ensures
        lex_le_from(a, a, i),
    decreases a.len() - i,
{
    if i < a.len() {
        lemma_lex_refl_from(a, i + 1);
    }
}

proof fn lemma_lex_total_from(a: Seq<char>, b: Seq<char>, i: int)
    requires
        0 <= i,
    ensures
        lex_le_from(a, b, i) || lex_le_from(b, a, i),
    decreases a.len() - i,
{
    if i < a.len() && i < b.len() {
        if a[i] == b[i] {
            lemma_lex_total_from(a, b, i + 1);
        }
    }
}

proof fn lemma_lex_trans_from(a: Seq<char>, b: Seq<char>, c: Seq<char>, i: int)
    requires
        0 <= i,
        lex_le_from(a, b, i),
        lex_le_from(b, c, i),
    ensures
        lex_le_from(a, c, i),
    decreases a.len() - i,
{
    if i < a.len() {
        if a[i] == b[i] && b[i] == c[i] {
            lemma_lex_trans_from(a, b, c, i + 1);
        }
    }
}

proof fn lemma_lex_antisym_from(a: Seq<char>, b: Seq<char>, i: int)
    requires
        0 <= i <= a.len(),
        i <= b.len(),
        lex_le_from(a, b, i),
        lex_le_from(b, a, i),
        forall|j: int| 0 <= j < i ==> a[j] == b[j],
    ensures
        a == b,
    decreases a.len() - i,
{
    if i < a.len() {
        lemma_lex_antisym_from(a, b, i + 1);
    } else {
        assert(a =~= b);
    }
}

/// The order of keys is reflexive.
pub proof fn lemma_lex_refl(a: Seq<char>)
    ensures
        lex_le(a, a),
{
    lemma_lex_refl_from(a, 0);
}

/// The order of keys is total.
pub proof fn lemma_lex_total(a: Seq<char>, b: Seq<char>)
    ensures
        lex_le(a, b) || lex_le(b, a),
{
    lemma_lex_total_from(a, b, 0);
}

/// The order of keys is transitive.
pub proof fn lemma_lex_trans(a: Seq<char>, b: Seq<char>, c: Seq<char>)
    requires
        lex_le(a, b),
        lex_le(b, c),
    ensures
        lex_le(a, c),
{
    lemma_lex_trans_from(a, b, c, 0);
}

/// Keys that come before each other are the same key.
pub proof fn lemma_lex_antisym(a: Seq<char>, b: Seq<char>)
    requires
        lex_le(a, b),
        lex_le(b, a),
    ensures
        a == b,
{
    lemma_lex_antisym_from(a, b, 0);
}

/// Lines in non-decreasing order of their keys.
pub open spec fn sorted(s: Seq<Seq<char>>) -> bool {
    forall|i: int, j: int| 0 <= i < j < s.len() ==> line_le(#[trigger] s[i], #[trigger] s[j])
}

/// The lines of `s` whose key is `k`, in the order they have in `s`.
pub open spec fn with_key(s: Seq<Seq<char>>, k: Seq<char>) -> Seq<Seq<char>>
    decreases s.len(),
{
    if s.len() == 0 {
        seq![]
    } else if key_of(s.last()) == k {
        with_key(s.drop_last(), k).push(s.last())
    } else {
        with_key(s.drop_last(), k)
    }
}

/// `out` is a stable sort of `inp`: ordered by key, and for every key the
/// same lines in the same order as in `inp`.
pub open spec fn is_stable_sort(out: Seq<Seq<char>>, inp: Seq<Seq<char>>) -> bool {
    &&& sorted(out)
    &&& forall|k: Seq<char>| #[trigger] with_key(out, k) == with_key(inp, k)
}

/// `s`, ordered by key, with `x` put behind the last line that does not
/// come after it.
pub open spec fn insert(s: Seq<Seq<char>>, x: Seq<char>) -> Seq<Seq<char>>
    decreases s.len(),
{
    if s.len() == 0 {
        seq![x]
    } else if line_le(s.last(), x) {
        s.push(x)
    } else {
        insert(s.drop_last(), x).push(s.last())
    }
}

/// The lines of `s` in non-decreasing order of their keys; lines with the
/// same key stay in the order they have in `s`.
pub open spec fn stable_sort(s: Seq<Seq<char>>) -> Seq<Seq<char>>
    decreases s.len(),
{
    if s.len() == 0 {
        seq![]
    } else {
        insert(stable_sort(s.drop_last()), s.last())
    }
}

/// Selecting by key goes through concatenation.
pub proof fn lemma_with_key_add(a: Seq<Seq<char>>, b: Seq<Seq<char>>, k: Seq<char>)
    ensures
        with_key(a + b, k) == with_key(a, k) + with_key(b, k),
    decreases b.len(),
{
    if b.len() == 0 {
        assert(a + b == a);
        assert(with_key(a, k) + with_key(b, k) == with_key(a, k));
    } else {
        assert((a + b).drop_last() == a + b.drop_last());
        assert((a + b).last() == b.last());
        lemma_with_key_add(a, b.drop_last(), k);
        if key_of(b.last()) == k {
            assert((with_key(a, k) + with_key(b.drop_last(), k)).push(b.last()) == with_key(a, k)
                + with_key(b.drop_last(), k).push(b.last()));
        }
    }
}

/// Every line selected by key is a line of the sequence and has that key.
pub proof fn lemma_with_key_members(s: Seq<Seq<char>>, k: Seq<char>)
    ensures
        with_key(s, k).len() <= s.len(),
        forall|i: int|
            0 <= i < with_key(s, k).len() ==> key_of(#[trigger] with_key(s, k)[i]) == k
                && s.contains(with_key(s, k)[i]),
        forall|j: int| 0 <= j < s.len() && key_of(#[trigger] s[j]) == k ==> with_key(s, k).len() > 0,
    decreases s.len(),
{
    if s.len() > 0 {
        let rest = s.drop_last();
        lemma_with_key_members(rest, k);
        assert forall|i: int| 0 <= i < with_key(s, k).len() implies key_of(
            #[trigger] with_key(s, k)[i],
        ) == k && s.contains(with_key(s, k)[i]) by {
            if i < with_key(rest, k).len() {
                let y = with_key(rest, k)[i];
                assert(rest.contains(y));
                let j = choose|j: int| 0 <= j < rest.len() && rest[j] == y;
                assert(s[j] == y);
            } else {
                assert(s[s.len() - 1] == s.last());
            }
        }
        assert forall|j: int| 0 <= j < s.len() && key_of(#[trigger] s[j]) == k implies with_key(
            s,
            k,
        ).len() > 0 by {
            if j < rest.len() {
                assert(rest[j] == s[j]);
            }
        }
    }
}

/// What an insertion holds: the new line and the lines that were there.
pub proof fn lemma_insert_members(s: Seq<Seq<char>>, x: Seq<char>)
    ensures
        insert(s, x).len() == s.len() + 1,
        forall|i: int|
            0 <= i < insert(s, x).len() ==> #[trigger] insert(s, x)[i] == x || s.contains(
                insert(s, x)[i],
            ),
    decreases s.len(),
{
    if s.len() == 0 {
    } else if line_le(s.last(), x) {
        assert forall|i: int| 0 <= i < insert(s, x).len() implies #[trigger] insert(s, x)[i] == x
            || s.contains(insert(s, x)[i]) by {
            if i < s.len() {
                assert(s[i] == insert(s, x)[i]);
            }
        }
    } else {
        let rest = s.drop_last();
        lemma_insert_members(rest, x);
        assert forall|i: int| 0 <= i < insert(s, x).len() implies #[trigger] insert(s, x)[i] == x
            || s.contains(insert(s, x)[i]) by {
            let y = insert(s, x)[i];
            if i < insert(rest, x).len() {
                assert(y == insert(rest, x)[i]);
                if y != x {
                    assert(rest.contains(y));
                    let j = choose|j: int| 0 <= j < rest.len() && rest[j] == y;
                    assert(s[j] == y);
                }
            } else {
                assert(s[s.len() - 1] == y);
            }
        }
    }
}

/// Insertion keeps the order.
pub proof fn lemma_insert_sorted(s: Seq<Seq<char>>, x: Seq<char>)
    requires
        sorted(s),
    ensures
        sorted(insert(s, x)),
    decreases s.len(),
{
    if s.len() == 0 {
    } else if line_le(s.last(), x) {
        let r = s.push(x);
        assert forall|i: int, j: int| 0 <= i < j < r.len() implies line_le(
            #[trigger] r[i],
            #[trigger] r[j],
        ) by {
            if j < s.len() {
                assert(line_le(s[i], s[j]));
            } else if i < s.len() - 1 {
                assert(line_le(s[i], s[s.len() - 1]));
                lemma_lex_trans(key_of(s[i]), key_of(s.last()), key_of(x));
            }
        }
    } else {
        let rest = s.drop_last();
        assert(sorted(rest)) by {
            assert forall|i: int, j: int| 0 <= i < j < rest.len() implies line_le(
                #[trigger] rest[i],
                #[trigger] rest[j],
            ) by {
                assert(line_le(s[i], s[j]));
            }
        }
        lemma_insert_sorted(rest, x);
        lemma_insert_members(rest, x);
        let inner = insert(rest, x);
        let r = inner.push(s.last());
        assert forall|i: int, j: int| 0 <= i < j < r.len() implies line_le(
            #[trigger] r[i],
            #[trigger] r[j],
        ) by {
            if j < inner.len() {
                assert(line_le(inner[i], inner[j]));
            } else {
                let y = inner[i];
                if y == x {
                    lemma_lex_total(key_of(s.last()), key_of(x));
                } else {
                    assert(rest.contains(y));
                    let p = choose|p: int| 0 <= p < rest.len() && rest[p] == y;
                    assert(line_le(s[p], s[s.len() - 1]));
                }
            }
        }
    }
}

/// Insertion puts the new line behind the lines of its own key and leaves
/// the lines of every other key as they were.
pub proof fn lemma_with_key_insert(s: Seq<Seq<char>>, x: Seq<char>, k: Seq<char>)
    ensures
        with_key(insert(s, x), k) == if key_of(x) == k {
            with_key(s, k).push(x)
        } else {
            with_key(s, k)
        },
    decreases s.len(),
{
    if s.len() == 0 {
        let one = seq![x];
        assert(one.drop_last() == Seq::<Seq<char>>::empty());
        assert(one.last() == x);
        assert(with_key(one.drop_last(), k) == Seq::<Seq<char>>::empty());
        assert(with_key(s, k) == Seq::<Seq<char>>::empty());
        assert(Seq::<Seq<char>>::empty().push(x) == one);
    } else if line_le(s.last(), x) {
        assert(s.push(x).drop_last() == s);
        assert(s.push(x).last() == x);
    } else {
        let rest = s.drop_last();
        lemma_with_key_insert(rest, x, k);
        let r = insert(rest, x).push(s.last());
        assert(insert(s, x) == r);
        assert(r.drop_last() == insert(rest, x));
        assert(r.last() == s.last());
        if key_of(s.last()) == key_of(x) {
            lemma_lex_refl(key_of(x));
        }
    }
}

/// [`stable_sort`] orders by key and keeps the lines of every key in the
/// order they came in.
pub proof fn lemma_stable_sort_is_stable(s: Seq<Seq<char>>)
    ensures
        is_stable_sort(stable_sort(s), s),
        stable_sort(s).len() == s.len(),
    decreases s.len(),
{
    if s.len() > 0 {
        let rest = s.drop_last();
        lemma_stable_sort_is_stable(rest);
        lemma_insert_sorted(stable_sort(rest), s.last());
        lemma_insert_members(stable_sort(rest), s.last());
        assert forall|k: Seq<char>| #[trigger]
            with_key(stable_sort(s), k) == with_key(s, k) by {
            lemma_with_key_insert(stable_sort(rest), s.last(), k);
            assert(with_key(stable_sort(rest), k) == with_key(rest, k));
        }
    }
}

proof fn lemma_sorted_drop_last(s: Seq<Seq<char>>)
    requires
        sorted(s),
        s.len() > 0,
    ensures
        sorted(s.drop_last()),
{
    let rest = s.drop_last();
    assert forall|i: int, j: int| 0 <= i < j < rest.len() implies line_le(
        #[trigger] rest[i],
        #[trigger] rest[j],
    ) by {
        assert(line_le(s[i], s[j]));
    }
}

/// In an ordered sequence no key comes after the key of the last line.
proof fn lemma_last_key_is_greatest(s: Seq<Seq<char>>, k: Seq<char>)
    requires
        sorted(s),
        with_key(s, k).len() > 0,
    ensures
        s.len() > 0,
        lex_le(k, key_of(s.last())),
{
    lemma_with_key_members(s, k);
    let y = with_key(s, k)[0];
    assert(s.contains(y));
    let j = choose|j: int| 0 <= j < s.len() && s[j] == y;
    if j < s.len() - 1 {
        assert(line_le(s[j], s[s.len() - 1]));
    } else {
        lemma_lex_refl(k);
    }
}

/// Two ordered sequences that agree on the lines of every key are the same
/// sequence: a stable sort is unique.
pub proof fn lemma_stable_sort_unique(a: Seq<Seq<char>>, b: Seq<Seq<char>>)
    requires
        sorted(a),
        sorted(b),
        forall|k: Seq<char>| #[trigger] with_key(a, k) == with_key(b, k),
    ensures
        a == b,
    decreases a.len(),
{
    if a.len() == 0 {
        if b.len() > 0 {
            let k = key_of(b.last());
            assert(with_key(b, k).len() > 0);
            assert(with_key(a, k) == with_key(b, k));
        }
        assert(a =~= b);
    } else {
        let x = a.last();
        let k = key_of(x);
        assert(with_key(a, k) == with_key(a.drop_last(), k).push(x));
        assert(with_key(a, k) == with_key(b, k));
        lemma_last_key_is_greatest(b, k);
        let y = b.last();
        let k2 = key_of(y);
        assert(with_key(b, k2) == with_key(b.drop_last(), k2).push(y));
        assert(with_key(a, k2) == with_key(b, k2));
        lemma_last_key_is_greatest(a, k2);
        lemma_lex_antisym(k, k2);
        let wa = with_key(a.drop_last(), k);
        let wb = with_key(b.drop_last(), k);
        assert(wa.push(x) == wb.push(y));
        assert(x == y) by {
            assert(wa.push(x).last() == x);
            assert(wb.push(y).last() == y);
        }
        assert(wa == wb) by {
            assert(wa.push(x).drop_last() == wa);
            assert(wb.push(y).drop_last() == wb);
        }
        lemma_sorted_drop_last(a);
        lemma_sorted_drop_last(b);
        assert forall|q: Seq<char>| #[trigger]
            with_key(a.drop_last(), q) == with_key(b.drop_last(), q) by {
            assert(with_key(a, q) == with_key(b, q));
        }
        lemma_stable_sort_unique(a.drop_last(), b.drop_last());
        assert(a == a.drop_last().push(x));
        assert(b == b.drop_last().push(y));
    }
}

/// Whatever is a stable sort of `s` is [`stable_sort`] of `s`.
pub proof fn lemma_is_stable_sort(out: Seq<Seq<char>>, s: Seq<Seq<char>>)
    requires
        is_stable_sort(out, s),
    ensures
        out == stable_sort(s),
{
    lemma_stable_sort_is_stable(s);
    assert forall|k: Seq<char>| #[trigger] with_key(out, k) == with_key(stable_sort(s), k) by {
        assert(with_key(out, k) == with_key(s, k));
        assert(with_key(stable_sort(s), k) == with_key(s, k));
    }
    lemma_stable_sort_unique(out, stable_sort(s));
}

/// Sorting a log that is in order already gives the same log.
pub proof fn lemma_sort_idempotent(s: Seq<Seq<char>>)
    ensures
        sorted(s) ==> stable_sort(s) == s,
        stable_sort(stable_sort(s)) == stable_sort(s),
{
    if sorted(s) {
        lemma_is_stable_sort(s, s);
    }
    lemma_stable_sort_is_stable(s);
    lemma_is_stable_sort(stable_sort(s), stable_sort(s));
}

/// Sorting is stable: the lines that share a key come out in the order in
/// which they went in.
pub proof fn lemma_sort_stable(s: Seq<Seq<char>>, k: Seq<char>)
    ensures
        sorted(stable_sort(s)),
        with_key(stable_sort(s), k) == with_key(s, k),
{
    lemma_stable_sort_is_stable(s);
}

/// Every line of the sorted sequence is a line of the sequence.
pub proof fn lemma_sort_members(s: Seq<Seq<char>>)
    ensures
        stable_sort(s).len() == s.len(),
        forall|i: int| 0 <= i < stable_sort(s).len() ==> s.contains(#[trigger] stable_sort(s)[i]),
    decreases s.len(),
{
    if s.len() > 0 {
        let rest = s.drop_last();
        lemma_sort_members(rest);
        lemma_insert_members(stable_sort(rest), s.last());
        let out = stable_sort(s);
        assert forall|i: int| 0 <= i < out.len() implies s.contains(#[trigger] out[i]) by {
            if out[i] == s.last() {
                assert(s[s.len() - 1] == out[i]);
            } else {
                assert(stable_sort(rest).contains(out[i]));
                let k = choose|k: int|
                    0 <= k < stable_sort(rest).len() && stable_sort(rest)[k] == out[i];
                assert(rest.contains(stable_sort(rest)[k]));
                let j = choose|j: int| 0 <= j < rest.len() && rest[j] == out[i];
                assert(s[j] == out[i]);
            }
        }
    }
}

/// Sorting neither drops nor adds a line.
pub proof fn lemma_sort_permutes(s: Seq<Seq<char>>)
    ensures
        stable_sort(s).to_multiset() == s.to_multiset(),
    decreases s.len(),
{
    broadcast use vstd::seq_lib::group_to_multiset_ensures;

    if s.len() == 0 {
    } else {
        let rest = s.drop_last();
        lemma_sort_permutes(rest);
        lemma_insert_permutes(stable_sort(rest), s.last());
        assert(rest.push(s.last()) == s);
    }
}

proof fn lemma_insert_permutes(s: Seq<Seq<char>>, x: Seq<char>)
    ensures
        insert(s, x).to_multiset() == s.to_multiset().insert(x),
    decreases s.len(),
{
    broadcast use vstd::seq_lib::group_to_multiset_ensures;

    if s.len() == 0 {
        assert(seq![x] == Seq::<Seq<char>>::empty().push(x));
    } else if line_le(s.last(), x) {
    } else {
        let rest = s.drop_last();
        lemma_insert_permutes(rest, x);
        assert(rest.push(s.last()) == s);
        assert(rest.to_multiset().insert(x).insert(s.last()) == rest.to_multiset().insert(
            s.last(),
        ).insert(x));
    }
}

/// The lines that a list of positions picks out of `lines`.
pub open spec fn picked(lines: Seq<Seq<char>>, at: Seq<usize>) -> Seq<Seq<char>> {
    Seq::new(at.len(), |p: int| lines[at[p] as int])
}

/// Whether the key of `a` comes before the key of `b` or equals it; `ka` and
/// `kb` are the lengths of the two keys.
fn key_le(a: &Vec<char>, ka: usize, b: &Vec<char>, kb: usize) -> (r: bool)
    requires
        ka == find(a@, '|'),
        kb == find(b@, '|'),
    ensures
        r == line_le(a@, b@),
{
    proof {
        lemma_find_from(a@, '|', 0);
        lemma_find_from(b@, '|', 0);
    }
    let ghost x = key_of(a@);
    let ghost y = key_of(b@);
    let mut i: usize = 0;
    while i < ka && i < kb && a[i] == b[i]
        invariant
            i <= ka <= a.len(),
            i <= kb <= b.len(),
            x == a@.take(ka as int),
            y == b@.take(kb as int),
            lex_le_from(x, y, i as int) == lex_le(x, y),
        decreases ka - i,
    {
        assert(x[i as int] == y[i as int]);
        i += 1;
    }
    if i >= ka {
        true
    } else if i >= kb {
        false
    } else {
        assert(x[i as int] == a@[i as int] && y[i as int] == b@[i as int]);
        a[i] < b[i]
    }
}

/// The positions of the first `|` of every line, the length of the line
/// where it holds none.
fn key_lengths(lines: &Vec<Vec<char>>) -> (r: Vec<usize>)
    ensures
        r.len() == lines.len(),
        forall|i: int| 0 <= i < r.len() ==> r[i] == find(#[trigger] lines[i]@, '|'),
{
    let mut r: Vec<usize> = Vec::new();
    let mut i: usize = 0;
    while i < lines.len()
        invariant
            i <= lines.len(),
            r.len() == i,
            forall|j: int| 0 <= j < i ==> r[j] == find(#[trigger] lines[j]@, '|'),
        decreases lines.len() - i,
    {
        r.push(find_char_from(&lines[i], '|', 0));
        i += 1;
    }
    r
}

/// Merges two ordered runs of positions into one, the lines of `a` before
/// those of `b` wherever their keys are equal.
fn merge(lines: &Vec<Vec<char>>, keys: &Vec<usize>, a: &Vec<usize>, b: &Vec<usize>) -> (r: Vec<
    usize,
>)
    requires
        keys.len() == lines.len(),
        forall|i: int| 0 <= i < keys.len() ==> keys[i] == find(#[trigger] lines[i]@, '|'),
        forall|i: int| 0 <= i < a.len() ==> a[i] < lines.len(),
        forall|i: int| 0 <= i < b.len() ==> b[i] < lines.len(),
        sorted(picked(views(lines@), a@)),
        sorted(picked(views(lines@), b@)),
    ensures
        forall|i: int| 0 <= i < r.len() ==> r[i] < lines.len(),
        is_stable_sort(
            picked(views(lines@), r@),
            picked(views(lines@), a@) + picked(views(lines@), b@),
        ),
{
    let ghost all = views(lines@);
    let ghost pa = picked(all, a@);
    let ghost pb = picked(all, b@);
    let mut r: Vec<usize> = Vec::new();
    let mut i: usize = 0;
    let mut j: usize = 0;
    while i < a.len() || j < b.len()
        invariant
            all == views(lines@),
            pa == picked(all, a@),
            pb == picked(all, b@),
            keys.len() == lines.len(),
            forall|i: int| 0 <= i < keys.len() ==> keys[i] == find(#[trigger] lines[i]@, '|'),
            forall|i: int| 0 <= i < a.len() ==> a[i] < lines.len(),
            forall|i: int| 0 <= i < b.len() ==> b[i] < lines.len(),
            sorted(pa),
            sorted(pb),
            i <= a.len(),
            j <= b.len(),
            r.len() == i + j,
            forall|p: int| 0 <= p < r.len() ==> r[p] < lines.len(),
            sorted(picked(all, r@)),
            i < a.len() ==> forall|p: int|
                0 <= p < r.len() ==> line_le(#[trigger] picked(all, r@)[p], pa[i as int]),
            j < b.len() ==> forall|p: int|
                0 <= p < r.len() ==> line_le(#[trigger] picked(all, r@)[p], pb[j as int]),
            i < a.len() ==> forall|q: int| 0 <= q < j ==> !line_le(pa[i as int], #[trigger] pb[q]),
            forall|k: Seq<char>| #[trigger]
                with_key(picked(all, r@), k) == with_key(pa.take(i as int), k) + with_key(
                    pb.take(j as int),
                    k,
                ),
        decreases a.len() - i + b.len() - j,
    {
        let ghost old_r = picked(all, r@);
        let take_a = if i >= a.len() {
            false
        } else if j >= b.len() {
            true
        } else {
            key_le(&lines[a[i]], keys[a[i]], &lines[b[j]], keys[b[j]])
        };
        if take_a {
            let x = a[i];
            r.push(x);
            proof {
                let new_r = picked(all, r@);
                let line = pa[i as int];
                assert(new_r == old_r.push(line));
                assert(pa.take(i + 1) == pa.take(i as int).push(line));
                lemma_no_key_before(pb, j as int, line);
                assert forall|k: Seq<char>| #[trigger]
                    with_key(new_r, k) == with_key(pa.take(i + 1), k) + with_key(
                        pb.take(j as int),
                        k,
                    ) by {
                    assert(new_r.drop_last() == old_r);
                    assert(pa.take(i + 1).drop_last() == pa.take(i as int));
                    assert(with_key(old_r, k) == with_key(pa.take(i as int), k) + with_key(
                        pb.take(j as int),
                        k,
                    ));
                    if key_of(line) == k {
                        assert(with_key(pb.take(j as int), k) == Seq::<Seq<char>>::empty());
                        assert(with_key(pa.take(i as int), k) + Seq::<Seq<char>>::empty()
                            == with_key(pa.take(i as int), k));
                        assert(with_key(pa.take(i + 1), k) + Seq::<Seq<char>>::empty()
                            == with_key(pa.take(i + 1), k));
                    }
                }
                assert forall|p: int, q: int| 0 <= p < q < new_r.len() implies line_le(
                    #[trigger] new_r[p],
                    #[trigger] new_r[q],
                ) by {
                    if q < old_r.len() {
                        assert(line_le(old_r[p], old_r[q]));
                    } else {
                        assert(line_le(old_r[p], pa[i as int]));
                    }
                }
                if i + 1 < a.len() {
                    let next = pa[i + 1];
                    assert(line_le(pa[i as int], pa[i + 1]));
                    assert forall|p: int| 0 <= p < new_r.len() implies line_le(
                        #[trigger] new_r[p],
                        next,
                    ) by {
                        if p < old_r.len() {
                            assert(line_le(old_r[p], line));
                            lemma_lex_trans(key_of(new_r[p]), key_of(line), key_of(next));
                        }
                    }
                    assert forall|q: int| 0 <= q < j implies !line_le(next, #[trigger] pb[q]) by {
                        if line_le(next, pb[q]) {
                            lemma_lex_trans(key_of(line), key_of(next), key_of(pb[q]));
                        }
                    }
                }
                if j < b.len() {
                    assert forall|p: int| 0 <= p < new_r.len() implies line_le(
                        #[trigger] new_r[p],
                        pb[j as int],
                    ) by {
                        if p < old_r.len() {
                            assert(line_le(old_r[p], pb[j as int]));
                        }
                    }
                }
            }
            i += 1;
        } else {
            let y = b[j];
            r.push(y);
            proof {
                let new_r = picked(all, r@);
                let line = pb[j as int];
                assert(new_r == old_r.push(line));
                assert(pb.take(j + 1) == pb.take(j as int).push(line));
                assert forall|k: Seq<char>| #[trigger]
                    with_key(new_r, k) == with_key(pa.take(i as int), k) + with_key(
                        pb.take(j + 1),
                        k,
                    ) by {
                    assert(new_r.drop_last() == old_r);
                    assert(pb.take(j + 1).drop_last() == pb.take(j as int));
                    assert(with_key(old_r, k) == with_key(pa.take(i as int), k) + with_key(
                        pb.take(j as int),
                        k,
                    ));
                    if key_of(line) == k {
                        assert((with_key(pa.take(i as int), k) + with_key(pb.take(j as int), k)).push(
                            line,
                        ) == with_key(pa.take(i as int), k) + with_key(pb.take(j as int), k).push(
                            line,
                        ));
                    }
                }
                assert forall|p: int, q: int| 0 <= p < q < new_r.len() implies line_le(
                    #[trigger] new_r[p],
                    #[trigger] new_r[q],
                ) by {
                    if q < old_r.len() {
                        assert(line_le(old_r[p], old_r[q]));
                    } else {
                        assert(line_le(old_r[p], pb[j as int]));
                    }
                }
                if i < a.len() {
                    lemma_lex_total(key_of(pa[i as int]), key_of(line));
                    assert forall|p: int| 0 <= p < new_r.len() implies line_le(
                        #[trigger] new_r[p],
                        pa[i as int],
                    ) by {
                        if p < old_r.len() {
                            assert(line_le(old_r[p], pa[i as int]));
                        }
                    }
                }
                if j + 1 < b.len() {
                    let next = pb[j + 1];
                    assert(line_le(pb[j as int], pb[j + 1]));
                    assert forall|p: int| 0 <= p < new_r.len() implies line_le(
                        #[trigger] new_r[p],
                        next,
                    ) by {
                        if p < old_r.len() {
                            assert(line_le(old_r[p], line));
                            lemma_lex_trans(key_of(new_r[p]), key_of(line), key_of(next));
                        }
                    }
                }
            }
            j += 1;
        }
    }
    proof {
        assert(pa.take(a.len() as int) == pa);
        assert(pb.take(b.len() as int) == pb);
        assert forall|k: Seq<char>| #[trigger]
            with_key(picked(all, r@), k) == with_key(pa + pb, k) by {
            lemma_with_key_add(pa, pb, k);
            assert(with_key(picked(all, r@), k) == with_key(pa.take(a.len() as int), k) + with_key(
                pb.take(b.len() as int),
                k,
            ));
        }
    }
    r
}

/// Lines that all come strictly before `x` hold no line with the key of `x`.
proof fn lemma_no_key_before(s: Seq<Seq<char>>, j: int, x: Seq<char>)
    requires
        0 <= j <= s.len(),
        forall|q: int| 0 <= q < j ==> !line_le(x, #[trigger] s[q]),
    ensures
        with_key(s.take(j), key_of(x)) == Seq::<Seq<char>>::empty(),
    decreases j,
{
    if j > 0 {
        assert(s.take(j).drop_last() == s.take(j - 1));
        assert(s.take(j).last() == s[j - 1]);
        lemma_no_key_before(s, j - 1, x);
        if key_of(s[j - 1]) == key_of(x) {
            lemma_lex_refl(key_of(x));
        }
    }
}

/// The positions `lo..hi` of `lines` in the order of a stable sort.
fn sort_range(lines: &Vec<Vec<char>>, keys: &Vec<usize>, lo: usize, hi: usize) -> (r: Vec<usize>)
    requires
        lo <= hi <= lines.len(),
        keys.len() == lines.len(),
        forall|i: int| 0 <= i < keys.len() ==> keys[i] == find(#[trigger] lines[i]@, '|'),
    ensures
        forall|i: int| 0 <= i < r.len() ==> r[i] < lines.len(),
        picked(views(lines@), r@) == stable_sort(views(lines@).subrange(lo as int, hi as int)),
    decreases hi - lo,
{
    let ghost all = views(lines@);
    let mut r: Vec<usize> = Vec::new();
    if hi - lo == 0 {
        assert(picked(all, r@) == Seq::<Seq<char>>::empty());
        assert(all.subrange(lo as int, hi as int).len() == 0);
        r
    } else if hi - lo == 1 {
        r.push(lo);
        proof {
            let one = all.subrange(lo as int, hi as int);
            assert(one.drop_last().len() == 0);
            assert(stable_sort(one.drop_last()) == Seq::<Seq<char>>::empty());
            assert(stable_sort(one) == seq![one.last()]);
            assert(picked(all, r@) == seq![one.last()]);
        }
        r
    } else {
        let mid = lo + (hi - lo) / 2;
        let a = sort_range(lines, keys, lo, mid);
        let b = sort_range(lines, keys, mid, hi);
        proof {
            lemma_stable_sort_is_stable(all.subrange(lo as int, mid as int));
            lemma_stable_sort_is_stable(all.subrange(mid as int, hi as int));
        }
        let r = merge(lines, keys, &a, &b);
        proof {
            let left = all.subrange(lo as int, mid as int);
            let right = all.subrange(mid as int, hi as int);
            let whole = all.subrange(lo as int, hi as int);
            assert(left + right == whole);
            lemma_stable_sort_is_stable(left);
            lemma_stable_sort_is_stable(right);
            let out = picked(all, r@);
            assert forall|k: Seq<char>| #[trigger] with_key(out, k) == with_key(whole, k) by {
                assert(with_key(out, k) == with_key(stable_sort(left) + stable_sort(right), k));
                lemma_with_key_add(stable_sort(left), stable_sort(right), k);
                lemma_with_key_add(left, right, k);
                assert(with_key(stable_sort(left), k) == with_key(left, k));
                assert(with_key(stable_sort(right), k) == with_key(right, k));
            }
            lemma_is_stable_sort(out, whole);
        }
        r
    }
}

/// The positions of the lines in the order of a stable sort by key.
pub fn sorted_positions(lines: &Vec<Vec<char>>) -> (r: Vec<usize>)
    ensures
        r.len() == lines.len(),
        forall|i: int| 0 <= i < r.len() ==> r[i] < lines.len(),
        picked(views(lines@), r@) == stable_sort(views(lines@)),
{
    let keys = key_lengths(lines);
    let r = sort_range(lines, &keys, 0, lines.len());
    proof {
        let all = views(lines@);
        assert(all.subrange(0, lines.len() as int) == all);
        lemma_stable_sort_is_stable(all);
        assert(picked(all, r@).len() == r.len());
    }
    r
}

} // verus!
