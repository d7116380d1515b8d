//! Character-level text handling shared by the rule parsers and the log
//! transforms.
//!
//! Every text is modelled as a `Seq<char>`; the executable functions work on
//! `Vec<char>` buffers and convert at the edges.

use vstd::prelude::*;

verus! {

/// `String::push` of the standard library: the string afterwards is the
/// string before with `c` appended, nothing else changes.
pub assume_specification[ String::push ](s: &mut String, c: char)
    ensures
        final(s)@ == old(s)@.push(c),
;

/// A text as a string literal of the language writes it: in double quotes,
/// with quotes, backslashes and what cannot be shown escaped.
pub uninterp spec fn debug_quoted(s: Seq<char>) -> Seq<char>;

/// The `Debug` form of `str` of the standard library, which depends on the
/// text alone.
#[verifier::external_body]
pub(crate) fn debug_quote(s: &str) -> (r: String)
    ensures
        r@ == debug_quoted(s@),
{
    format!("{:?}", s)
}

/// The view of every buffer of a list of buffers.
pub open spec fn views(v: Seq<Vec<char>>) -> Seq<Seq<char>> {
    Seq::new(v.len(), |i: int| v[i]@)
}

/// The view of every string of a list of strings.
pub open spec fn string_views(v: Seq<String>) -> Seq<Seq<char>> {
    Seq::new(v.len(), |i: int| v[i]@)
}

/// The characters of a string slice, in order.
pub fn chars_of(s: &str) -> (v: Vec<char>)
    ensures
        v@ == s@,
{
    let mut v: Vec<char> = Vec::new();
    for c in it: s.chars()
        invariant
            v@ == it.seq().take(it.index() as int),
            it.seq() == s@,
    {
        v.push(c);
    }
    v
}

/// The string made of the characters of `v`, in order.
pub fn text_of(v: &Vec<char>) -> (s: String)
    ensures
        s@ == v@,
{
    let mut s = String::new();
    let mut i: usize = 0;
    while i < v.len()
        invariant
            i <= v.len(),
            s@ == v@.take(i as int),
        decreases v.len() - i,
    {
        s.push(v[i]);
        i += 1;
    }
    s
}

/// Appends the characters of `tail` to `buf`.
pub fn append_chars(buf: &mut Vec<char>, tail: &Vec<char>)
    ensures
        final(buf)@ == old(buf)@ + tail@,
{
    let mut i: usize = 0;
    while i < tail.len()
        invariant
            i <= tail.len(),
            buf@ == old(buf)@ + tail@.take(i as int),
        decreases tail.len() - i,
    {
        buf.push(tail[i]);
        i += 1;
    }
}

/// A copy of the characters `lo..hi` of `v`.
pub fn slice_of(v: &Vec<char>, lo: usize, hi: usize) -> (r: Vec<char>)
    requires
        lo <= hi <= v.len(),
    ensures
        r@ == v@.subrange(lo as int, hi as int),
{
    let mut r: Vec<char> = Vec::new();
    let mut i: usize = lo;
    while i < hi
        invariant
            lo <= i <= hi <= v.len(),
            r@ == v@.subrange(lo as int, i as int),
        decreases hi - i,
    {
        r.push(v[i]);
        i += 1;
    }
    r
}

/// Whether two buffers hold the same characters.
pub fn same_chars(a: &Vec<char>, b: &Vec<char>) -> (r: bool)
    ensures
        r == (a@ == b@),
{
    if a.len() != b.len() {
        return false;
    }
    let mut i: usize = 0;
    while i < a.len()
        invariant
            i <= a.len(),
            a.len() == b.len(),
            a@.take(i as int) == b@.take(i as int),
        decreases a.len() - i,
    {
        if a[i] != b[i] {
            assert(a@[i as int] != b@[i as int]);
            return false;
        }
        assert(a@.take(i + 1) == a@.take(i as int).push(a@[i as int]));
        assert(b@.take(i + 1) == b@.take(i as int).push(b@[i as int]));
        i += 1;
    }
    assert(a@.take(a.len() as int) == a@);
    assert(b@.take(b.len() as int) == b@);
    true
}

/// Whether a buffer holds exactly the characters of `lit`.
pub fn chars_are(a: &Vec<char>, lit: &str) -> (r: bool)
    ensures
        r == (a@ == lit@),
{
    let b = chars_of(lit);
    same_chars(a, &b)
}

/// The character of a decimal digit.
pub open spec fn digit_char(d: int) -> char {
    if d == 0 {
        '0'
    } else if d == 1 {
        '1'
    } else if d == 2 {
        '2'
    } else if d == 3 {
        '3'
    } else if d == 4 {
        '4'
    } else if d == 5 {
        '5'
    } else if d == 6 {
        '6'
    } else if d == 7 {
        '7'
    } else if d == 8 {
        '8'
    } else {
        '9'
    }
}

/// A number in decimal digits, without leading zeros.
pub open spec fn decimal(n: nat) -> Seq<char>
    decreases n,
{
    if n < 10 {
        seq![digit_char(n as int)]
    } else {
        decimal(n / 10).push(digit_char((n % 10) as int))
    }
}

/// The last digit of a number of two digits or more stands behind the
/// digits of its tenth.
proof fn lemma_decimal_step(n: nat)
    requires
        n >= 10,
    ensures
        decimal(n) == decimal(n / 10).push(digit_char((n % 10) as int)),
{
}

/// Decides [`digit_char`] for a digit.
fn digit(d: u64) -> (c: char)
    requires
        d < 10,
    ensures
        c == digit_char(d as int),
{
    if d == 0 {
        '0'
    } else if d == 1 {
        '1'
    } else if d == 2 {
        '2'
    } else if d == 3 {
        '3'
    } else if d == 4 {
        '4'
    } else if d == 5 {
        '5'
    } else if d == 6 {
        '6'
    } else if d == 7 {
        '7'
    } else if d == 8 {
        '8'
    } else {
        '9'
    }
}

/// A number in decimal digits, see [`decimal`].
pub fn decimal_chars(n: u64) -> (r: Vec<char>)
    ensures
        r@ == decimal(n as nat),
{
    let mut rev: Vec<char> = Vec::new();
    let mut m: u64 = n;
    while m >= 10
        invariant
            decimal(n as nat) == decimal(m as nat) + rev@.reverse(),
        decreases m,
    {
        let ghost had = rev@;
        rev.push(digit(m % 10));
        proof {
            lemma_decimal_step(m as nat);
            assert(rev@.reverse() == seq![digit_char((m % 10) as int)] + had.reverse());
            assert(decimal((m / 10) as nat).push(digit_char((m % 10) as int)) + had.reverse()
                == decimal((m / 10) as nat) + (seq![digit_char((m % 10) as int)] + had.reverse()));
        }
        m = m / 10;
    }
    let mut r: Vec<char> = Vec::new();
    r.push(digit(m));
    let mut i: usize = rev.len();
    while i > 0
        invariant
            i <= rev.len(),
            r@ == decimal(m as nat) + rev@.reverse().take(rev.len() - i),
        decreases i,
    {
        i -= 1;
        r.push(rev[i]);
        assert(rev@.reverse().take(rev.len() - i) == rev@.reverse().take(rev.len() - i - 1).push(
            rev@[i as int],
        ));
    }
    assert(rev@.reverse().take(rev.len() as int) == rev@.reverse());
    r
}

/// A number with its sign in decimal digits: a minus before the digits of
/// a negative number, nothing before the others.
pub open spec fn signed_decimal(n: int) -> Seq<char> {
    if n < 0 {
        seq!['-'] + decimal((-n) as nat)
    } else {
        decimal(n as nat)
    }
}

/// A number with its sign in decimal digits, see [`signed_decimal`].
pub fn signed_decimal_chars(n: i32) -> (r: Vec<char>)
    ensures
        r@ == signed_decimal(n as int),
{
    let wide: i64 = n as i64;
    if wide < 0 {
        let mut r: Vec<char> = Vec::new();
        r.push('-');
        let digits = decimal_chars((0 - wide) as u64);
        append_chars(&mut r, &digits);
        assert(r@ == seq!['-'] + digits@);
        r
    } else {
        decimal_chars(wide as u64)
    }
}

/// Unicode white space: the code points with the `White_Space` property.
pub open spec fn is_space(c: char) -> bool {
    ||| '\u{9}' <= c <= '\u{D}'
    ||| c == ' '
    ||| c == '\u{85}'
    ||| c == '\u{A0}'
    ||| c == '\u{1680}'
    ||| '\u{2000}' <= c <= '\u{200A}'
    ||| c == '\u{2028}'
    ||| c == '\u{2029}'
    ||| c == '\u{202F}'
    ||| c == '\u{205F}'
    ||| c == '\u{3000}'
}

/// Decides [`is_space`].
pub fn is_space_char(c: char) -> (b: bool)
    ensures
        b == is_space(c),
{
    ('\u{9}' <= c && c <= '\u{D}') || c == ' ' || c == '\u{85}' || c == '\u{A0}' || c == '\u{1680}'
        || ('\u{2000}' <= c && c <= '\u{200A}') || c == '\u{2028}' || c == '\u{2029}' || c
        == '\u{202F}' || c == '\u{205F}' || c == '\u{3000}'
}

/// The least index `j >= i` with `s[j] == c`, or `s.len()` if there is none.
pub open spec fn find_from(s: Seq<char>, c: char, i: int) -> int
    decreases s.len() - i,
{
    if i < 0 || i >= s.len() {
        s.len() as int
    } else if s[i] == c {
        i
    } else {
        find_from(s, c, i + 1)
    }
}

/// The index of the first `c` in `s`, or `s.len()` if `s` holds none.
pub open spec fn find(s: Seq<char>, c: char) -> int {
    find_from(s, c, 0)
}

/// What [`find_from`] returns is the first occurrence at or after `i`.
pub proof fn lemma_find_from(s: Seq<char>, c: char, i: int)
    requires
        0 <= i <= s.len(),
    ensures
        i <= find_from(s, c, i) <= s.len(),
        forall|j: int| i <= j < find_from(s, c, i) ==> s[j] != c,
        find_from(s, c, i) < s.len() ==> s[find_from(s, c, i)] == c,
    decreases s.len() - i,
{
    if i < s.len() && s[i] != c {
        lemma_find_from(s, c, i + 1);
    }
}

/// The first occurrence is characterised by what precedes it.
pub proof fn lemma_find_from_unique(s: Seq<char>, c: char, i: int, n: int)
    requires
        0 <= i <= n <= s.len(),
        forall|j: int| i <= j < n ==> s[j] != c,
        n < s.len() ==> s[n] == c,
    ensures
        find_from(s, c, i) == n,
    decreases n - i,
{
    if i < n {
        lemma_find_from_unique(s, c, i + 1, n);
    }
}

/// The index of the first `c` at or after `start`, or `v.len()`.
pub fn find_char_from(v: &Vec<char>, c: char, start: usize) -> (n: usize)
    requires
        start <= v.len(),
    ensures
        n == find_from(v@, c, start as int),
        start <= n <= v.len(),
{
    let mut i: usize = start;
    while i < v.len() && v[i] != c
        invariant
            start <= i <= v.len(),
            find_from(v@, c, i as int) == find_from(v@, c, start as int),
        decreases v.len() - i,
    {
        i += 1;
    }
    i
}

/// The index of the first non-space character at or after `i`.
pub open spec fn skip_spaces(s: Seq<char>, i: int) -> int
    decreases s.len() - i,
{
    if i < 0 || i >= s.len() {
        s.len() as int
    } else if is_space(s[i]) {
        skip_spaces(s, i + 1)
    } else {
        i
    }
}

/// The end of the text `s[lo..j]` once its trailing spaces are cut.
pub open spec fn cut_spaces(s: Seq<char>, lo: int, j: int) -> int
    decreases j,
{
    if lo < 0 || j <= lo || j > s.len() {
        lo
    } else if is_space(s[j - 1]) {
        cut_spaces(s, lo, j - 1)
    } else {
        j
    }
}

/// `s` without its leading and trailing white space.
pub open spec fn trimmed(s: Seq<char>) -> Seq<char> {
    let lo = skip_spaces(s, 0);
    let hi = cut_spaces(s, lo, s.len() as int);
    s.subrange(lo, hi)
}

/// A copy of `v` without its leading and trailing white space.
pub fn trim(v: &Vec<char>) -> (r: Vec<char>)
    ensures
        r@ == trimmed(v@),
{
    let mut lo: usize = 0;
    while lo < v.len() && is_space_char(v[lo])
        invariant
            lo <= v.len(),
            skip_spaces(v@, lo as int) == skip_spaces(v@, 0),
        decreases v.len() - lo,
    {
        lo += 1;
    }
    let mut hi: usize = v.len();
    while hi > lo && is_space_char(v[hi - 1])
        invariant
            lo <= hi <= v.len(),
            cut_spaces(v@, lo as int, hi as int) == cut_spaces(v@, lo as int, v.len() as int),
        decreases hi,
    {
        hi -= 1;
    }
    slice_of(v, lo, hi)
}

/// The pieces of `s` between the occurrences of `sep` at or after `i`: one
/// more piece than there are separators, empty pieces kept.
pub open spec fn split_from(s: Seq<char>, sep: char, i: int) -> Seq<Seq<char>>
    decreases s.len() - i,
{
    let n = find_from(s, sep, i);
    if i < 0 || n >= s.len() {
        seq![s.subrange(i, s.len() as int)]
    } else if n < i {
        seq![]
    } else {
        seq![s.subrange(i, n)] + split_from(s, sep, n + 1)
    }
}

/// The pieces of `s` between the occurrences of `sep`.
pub open spec fn split(s: Seq<char>, sep: char) -> Seq<Seq<char>> {
    split_from(s, sep, 0)
}

/// A split has at least one piece.
pub proof fn lemma_split_from_len(s: Seq<char>, sep: char, i: int)
    requires
        0 <= i <= s.len(),
    ensures
        split_from(s, sep, i).len() >= 1,
        split_from(s, sep, i).len() <= s.len() - i + 1,
    decreases s.len() - i,
{
    lemma_find_from(s, sep, i);
    let n = find_from(s, sep, i);
    if n < s.len() {
        lemma_split_from_len(s, sep, n + 1);
    }
}

/// The pieces of `v` between the occurrences of `sep`.
pub fn split_on(v: &Vec<char>, sep: char) -> (r: Vec<Vec<char>>)
    ensures
        views(r@) == split(v@, sep),
        r.len() >= 1,
{
    let mut r: Vec<Vec<char>> = Vec::new();
    let mut i: usize = 0;
    loop
        invariant_except_break
            i <= v.len(),
            split(v@, sep) == views(r@) + split_from(v@, sep, i as int),
        ensures
            views(r@) == split(v@, sep),
            r.len() >= 1,
        decreases v.len() - i,
    {
        let n = find_char_from(v, sep, i);
        let piece = slice_of(v, i, n);
        let ghost before = r@;
        r.push(piece);
        assert(views(r@) == views(before).push(piece@));
        if n >= v.len() {
            assert(split_from(v@, sep, i as int) == seq![piece@]);
            break ;
        }
        assert(split_from(v@, sep, i as int) == seq![piece@] + split_from(v@, sep, n + 1));
        i = n + 1;
    }
    r
}

/// The pieces put together again, with `sep` between neighbours.
pub open spec fn join(parts: Seq<Seq<char>>, sep: char) -> Seq<char>
    decreases parts.len(),
{
    if parts.len() == 0 {
        seq![]
    } else if parts.len() == 1 {
        parts[0]
    } else {
        join(parts.drop_last(), sep).push(sep) + parts.last()
    }
}

/// The pieces put together again, with `sep` between neighbours.
pub fn join_with(parts: &Vec<Vec<char>>, sep: char) -> (r: Vec<char>)
    ensures
        r@ == join(views(parts@), sep),
{
    let mut r: Vec<char> = Vec::new();
    let mut i: usize = 0;
    while i < parts.len()
        invariant
            i <= parts.len(),
            r@ == join(views(parts@).take(i as int), sep),
        decreases parts.len() - i,
    {
        let ghost done = views(parts@).take(i as int);
        let ghost next = views(parts@).take(i + 1);
        assert(next.drop_last() == done);
        assert(next.last() == parts@[i as int]@);
        if i > 0 {
            r.push(sep);
        }
        append_chars(&mut r, &parts[i]);
        assert(r@ == join(next, sep)) by {
            if i == 0 {
                assert(done.len() == 0);
                assert(seq![] + parts@[i as int]@ == parts@[i as int]@);
            }
        }
        i += 1;
    }
    assert(views(parts@).take(parts.len() as int) == views(parts@));
    r
}

/// Putting the pieces of a split together again gives the text back.
pub proof fn lemma_join_split(s: Seq<char>, sep: char)
    ensures
        join(split(s, sep), sep) == s,
{
    lemma_join_split_from(s, sep, 0);
    assert(s.subrange(0, s.len() as int) == s);
}

proof fn lemma_join_split_from(s: Seq<char>, sep: char, i: int)
    requires
        0 <= i <= s.len(),
    ensures
        join(split_from(s, sep, i), sep) == s.subrange(i, s.len() as int),
    decreases s.len() - i,
{
    lemma_find_from(s, sep, i);
    let n = find_from(s, sep, i);
    if n < s.len() {
        lemma_join_split_from(s, sep, n + 1);
        lemma_split_from_len(s, sep, n + 1);
        let rest = split_from(s, sep, n + 1);
        lemma_join_cons(s.subrange(i, n), rest, sep);
        assert(s.subrange(i, n).push(sep) + s.subrange(n + 1, s.len() as int) == s.subrange(
            i,
            s.len() as int,
        ));
    }
}

/// Joining with one more piece in front.
pub proof fn lemma_join_cons(head: Seq<char>, rest: Seq<Seq<char>>, sep: char)
    requires
        rest.len() >= 1,
    ensures
        join(seq![head] + rest, sep) == head.push(sep) + join(rest, sep),
    decreases rest.len(),
{
    let all = seq![head] + rest;
    assert(all.drop_last() == seq![head] + rest.drop_last());
    assert(all.last() == rest.last());
    if rest.len() == 1 {
        assert(all.drop_last() == seq![head]);
        assert(join(all.drop_last(), sep) == head);
        assert(join(rest, sep) == rest[0]);
    } else {
        lemma_join_cons(head, rest.drop_last(), sep);
        assert(join(all, sep) == join(all.drop_last(), sep).push(sep) + all.last());
        assert((head.push(sep) + join(rest.drop_last(), sep)).push(sep) + rest.last()
            == head.push(sep) + (join(rest.drop_last(), sep).push(sep) + rest.last()));
    }
}

/// A text in which every character satisfies `p`.
pub open spec fn all_chars(s: Seq<char>, p: spec_fn(char) -> bool) -> bool {
    forall|i: int| 0 <= i < s.len() ==> p(#[trigger] s[i])
}

/// The first occurrence at or after `i` is the first occurrence in what
/// stands from `i` on.
pub proof fn lemma_find_from_shift(s: Seq<char>, c: char, i: int)
    requires
        0 <= i <= s.len(),
    ensures
        find_from(s, c, i) == i + find(s.skip(i), c),
{
    lemma_find_from(s, c, i);
    let n = find_from(s, c, i);
    let t = s.skip(i);
    assert forall|j: int| 0 <= j < n - i implies t[j] != c by {
        assert(t[j] == s[i + j]);
    }
    lemma_find_from_unique(t, c, 0, n - i);
}

/// The pieces from `i` on are the pieces of what stands from `i` on.
pub proof fn lemma_split_from_shift(s: Seq<char>, sep: char, i: int)
    requires
        0 <= i <= s.len(),
    ensures
        split_from(s, sep, i) == split(s.skip(i), sep),
    decreases s.len() - i,
{
    lemma_find_from(s, sep, i);
    lemma_find_from_shift(s, sep, i);
    let n = find_from(s, sep, i);
    let t = s.skip(i);
    let m = find(t, sep);
    if n >= s.len() {
        assert(s.subrange(i, s.len() as int) == t.subrange(0, t.len() as int));
    } else {
        lemma_split_from_shift(s, sep, n + 1);
        lemma_split_from_shift(t, sep, m + 1);
        assert(t.skip(m + 1) == s.skip(n + 1));
        assert(s.subrange(i, n) == t.subrange(0, m));
    }
}

/// What stands before the first separator is the first piece, and the
/// pieces of what stands behind it follow.
pub proof fn lemma_split_cons(a: Seq<char>, b: Seq<char>, sep: char)
    requires
        forall|j: int| 0 <= j < a.len() ==> a[j] != sep,
    ensures
        split(a.push(sep) + b, sep) == seq![a] + split(b, sep),
{
    let s = a.push(sep) + b;
    assert forall|j: int| 0 <= j < a.len() implies s[j] != sep by {
        assert(s[j] == a[j]);
    }
    assert(s[a.len() as int] == sep);
    lemma_find_from_unique(s, sep, 0, a.len() as int);
    lemma_split_from_shift(s, sep, a.len() as int + 1);
    assert(s.skip(a.len() as int + 1) == b);
    assert(s.subrange(0, a.len() as int) == a);
}

/// No piece of a split holds the separator.
pub proof fn lemma_split_free(s: Seq<char>, sep: char, i: int)
    requires
        0 <= i <= s.len(),
    ensures
        forall|k: int, j: int|
            0 <= k < split_from(s, sep, i).len() && 0 <= j < split_from(s, sep, i)[k].len()
                ==> #[trigger] split_from(s, sep, i)[k][j] != sep,
    decreases s.len() - i,
{
    lemma_find_from(s, sep, i);
    let n = find_from(s, sep, i);
    let pieces = split_from(s, sep, i);
    if n < s.len() {
        lemma_split_free(s, sep, n + 1);
        let rest = split_from(s, sep, n + 1);
        assert forall|k: int, j: int|
            0 <= k < pieces.len() && 0 <= j < pieces[k].len() implies #[trigger] pieces[k][j]
            != sep by {
            if k > 0 {
                assert(pieces[k] == rest[k - 1]);
            } else {
                assert(pieces[0][j] == s[i + j]);
            }
        }
    } else {
        assert forall|k: int, j: int|
            0 <= k < pieces.len() && 0 <= j < pieces[k].len() implies #[trigger] pieces[k][j]
            != sep by {
            assert(pieces[0][j] == s[i + j]);
        }
    }
}

/// Every character of the pieces of a split is a character of the text.
pub proof fn lemma_split_chars(s: Seq<char>, sep: char, i: int, p: spec_fn(char) -> bool)
    requires
        0 <= i <= s.len(),
        all_chars(s, p),
    ensures
        forall|j: int|
            0 <= j < split_from(s, sep, i).len() ==> all_chars(
                #[trigger] split_from(s, sep, i)[j],
                p,
            ),
    decreases s.len() - i,
{
    lemma_find_from(s, sep, i);
    let n = find_from(s, sep, i);
    let pieces = split_from(s, sep, i);
    if n >= s.len() {
        assert(all_chars(s.subrange(i, s.len() as int), p));
    } else {
        lemma_split_chars(s, sep, n + 1, p);
        let rest = split_from(s, sep, n + 1);
        assert(all_chars(s.subrange(i, n), p));
        assert forall|j: int| 0 <= j < pieces.len() implies all_chars(#[trigger] pieces[j], p) by {
            if j > 0 {
                assert(pieces[j] == rest[j - 1]);
            }
        }
    }
}

/// Every character of a join is a character of a piece, or the separator.
pub proof fn lemma_join_chars(parts: Seq<Seq<char>>, sep: char, p: spec_fn(char) -> bool)
    requires
        p(sep),
        forall|j: int| 0 <= j < parts.len() ==> all_chars(#[trigger] parts[j], p),
    ensures
        all_chars(join(parts, sep), p),
    decreases parts.len(),
{
    if parts.len() >= 2 {
        let rest = parts.drop_last();
        assert forall|j: int| 0 <= j < rest.len() implies all_chars(#[trigger] rest[j], p) by {
            assert(rest[j] == parts[j]);
        }
        lemma_join_chars(rest, sep, p);
        assert(all_chars(parts[parts.len() - 1], p));
    } else if parts.len() == 1 {
        assert(all_chars(parts[0], p));
    }
}

/// A text without the separator is its own single piece.
pub proof fn lemma_split_plain(a: Seq<char>, sep: char)
    requires
        forall|j: int| 0 <= j < a.len() ==> a[j] != sep,
    ensures
        split(a, sep) == seq![a],
{
    lemma_find_from_unique(a, sep, 0, a.len() as int);
    assert(a.subrange(0, a.len() as int) == a);
}

/// Pieces that hold no separator, put together and taken apart again, are
/// the pieces.
pub proof fn lemma_split_join(parts: Seq<Seq<char>>, sep: char)
    requires
        parts.len() >= 1,
        forall|i: int, j: int|
            0 <= i < parts.len() && 0 <= j < parts[i].len() ==> #[trigger] parts[i][j] != sep,
    ensures
        split(join(parts, sep), sep) == parts,
    decreases parts.len(),
{
    let head = parts[0];
    assert forall|j: int| 0 <= j < head.len() implies head[j] != sep by {
        assert(parts[0][j] != sep);
    }
    if parts.len() == 1 {
        lemma_split_plain(head, sep);
        assert(parts == seq![head]);
    } else {
        let rest = parts.skip(1);
        assert(parts == seq![head] + rest);
        assert forall|i: int, j: int|
            0 <= i < rest.len() && 0 <= j < rest[i].len() implies #[trigger] rest[i][j] != sep by {
            assert(rest[i] == parts[i + 1]);
            assert(parts[i + 1][j] != sep);
        }
        lemma_split_join(rest, sep);
        lemma_join_cons(head, rest, sep);
        lemma_split_cons(head, join(rest, sep), sep);
    }
}

/// Behind a text that ends with the separator a new piece begins: the
/// pieces of such a text followed by another are the pieces of the first,
/// but for the empty one at its end, followed by the pieces of the second.
pub proof fn lemma_split_after_end(a: Seq<char>, b: Seq<char>, sep: char)
    requires
        a.len() > 0,
        a.last() == sep,
    ensures
        split(a, sep).len() >= 2,
        split(a, sep).last().len() == 0,
        split(a + b, sep) == split(a, sep).drop_last() + split(b, sep),
    decreases a.len(),
{
    lemma_find_from(a, sep, 0);
    let n = find(a, sep);
    let head = a.take(n);
    let rest = a.skip(n + 1);
    assert(a == head.push(sep) + rest);
    assert forall|j: int| 0 <= j < head.len() implies head[j] != sep by {
        assert(head[j] == a[j]);
    }
    lemma_split_cons(head, rest, sep);
    assert(a + b == head.push(sep) + (rest + b));
    lemma_split_cons(head, rest + b, sep);
    if rest.len() == 0 {
        let none = Seq::<char>::empty();
        assert(rest == none);
        assert(none.subrange(0, 0) == none);
        assert(split(none, sep) == seq![none]);
        assert(rest + b == b);
        assert((seq![head] + seq![none]).drop_last() == seq![head]);
    } else {
        assert(rest.last() == a.last());
        lemma_split_after_end(rest, b, sep);
        let pr = split(rest, sep);
        assert((seq![head] + pr).drop_last() == seq![head] + pr.drop_last());
        assert((seq![head] + pr).last() == pr.last());
        assert(seq![head] + (pr.drop_last() + split(b, sep)) == (seq![head] + pr.drop_last())
            + split(b, sep));
    }
}

/// A text rewritten character by character: in place of every character
/// stands what `f` makes of it.
pub open spec fn expanded(s: Seq<char>, f: spec_fn(char) -> Seq<char>) -> Seq<char>
    decreases s.len(),
{
    if s.len() == 0 {
        seq![]
    } else {
        expanded(s.drop_last(), f) + f(s.last())
    }
}

/// Rewriting character by character goes through concatenation.
pub proof fn lemma_expanded_add(a: Seq<char>, b: Seq<char>, f: spec_fn(char) -> Seq<char>)
    ensures
        expanded(a + b, f) == expanded(a, f) + expanded(b, f),
    decreases b.len(),
{
    if b.len() == 0 {
        assert(a + b == a);
        assert(expanded(a, f) + expanded(b, f) == expanded(a, f));
    } else {
        assert((a + b).drop_last() == a + b.drop_last());
        assert((a + b).last() == b.last());
        lemma_expanded_add(a, b.drop_last(), f);
        assert((expanded(a, f) + expanded(b.drop_last(), f)) + f(b.last()) == expanded(a, f) + (
        expanded(b.drop_last(), f) + f(b.last())));
    }
}

/// What stands in a rewritten text stands in what `f` makes of a character
/// of the text: a property of all of those is a property of the text.
pub proof fn lemma_expanded_chars(
    s: Seq<char>,
    f: spec_fn(char) -> Seq<char>,
    p: spec_fn(char) -> bool,
)
    requires
        forall|i: int| 0 <= i < s.len() ==> all_chars(f(#[trigger] s[i]), p),
    ensures
        all_chars(expanded(s, f), p),
    decreases s.len(),
{
    if s.len() > 0 {
        let rest = s.drop_last();
        assert forall|i: int| 0 <= i < rest.len() implies all_chars(f(#[trigger] rest[i]), p) by {
            assert(rest[i] == s[i]);
        }
        lemma_expanded_chars(rest, f, p);
        assert(all_chars(f(s[s.len() - 1]), p));
        let head = expanded(rest, f);
        let tail = f(s.last());
        assert forall|i: int| 0 <= i < (head + tail).len() implies p(#[trigger] (head + tail)[i]) by {
            if i < head.len() {
                assert(p(head[i]));
            } else {
                assert(p(tail[i - head.len()]));
            }
        }
    }
}

/// The pieces of a text, each rewritten character by character.
pub open spec fn expanded_each(pieces: Seq<Seq<char>>, f: spec_fn(char) -> Seq<char>) -> Seq<
    Seq<char>,
> {
    Seq::new(pieces.len(), |i: int| expanded(pieces[i], f))
}

/// A rewriting that keeps the separator and brings none in keeps the
/// pieces apart: the pieces of the rewritten text are the rewritten pieces
/// of the text, one for one.
pub proof fn lemma_expanded_split(s: Seq<char>, sep: char, f: spec_fn(char) -> Seq<char>)
    requires
        forall|i: int| 0 <= i < s.len() && s[i] == sep ==> f(#[trigger] s[i]) == seq![sep],
        forall|i: int|
            0 <= i < s.len() && s[i] != sep ==> all_chars(f(#[trigger] s[i]), |c: char| c != sep),
    ensures
        split(expanded(s, f), sep) == expanded_each(split(s, sep), f),
    decreases s.len(),
{
    let p = |c: char| c != sep;
    lemma_find_from(s, sep, 0);
    let n = find(s, sep);
    if n >= s.len() {
        lemma_split_plain(s, sep);
        assert forall|i: int| 0 <= i < s.len() implies all_chars(f(#[trigger] s[i]), p) by {
            assert(s[i] != sep);
        }
        lemma_expanded_chars(s, f, p);
        let t = expanded(s, f);
        assert forall|j: int| 0 <= j < t.len() implies t[j] != sep by {
            assert(p(t[j]));
        }
        lemma_split_plain(t, sep);
        assert(expanded_each(seq![s], f) =~= seq![t]);
    } else {
        let a = s.take(n);
        let b = s.skip(n + 1);
        assert(s == a.push(sep) + b);
        assert forall|j: int| 0 <= j < a.len() implies a[j] != sep by {
            assert(a[j] == s[j]);
        }
        lemma_split_cons(a, b, sep);
        assert forall|i: int| 0 <= i < a.len() implies all_chars(f(#[trigger] a[i]), p) by {
            assert(a[i] == s[i]);
        }
        lemma_expanded_chars(a, f, p);
        let ta = expanded(a, f);
        let tb = expanded(b, f);
        assert forall|j: int| 0 <= j < ta.len() implies ta[j] != sep by {
            assert(p(ta[j]));
        }
        assert forall|i: int| 0 <= i < b.len() && b[i] != sep implies all_chars(
            f(#[trigger] b[i]),
            p,
        ) by {
            assert(b[i] == s[n + 1 + i]);
        }
        assert forall|i: int| 0 <= i < b.len() && b[i] == sep implies f(#[trigger] b[i]) == seq![
            sep,
        ] by {
            assert(b[i] == s[n + 1 + i]);
        }
        assert(f(s[n]) == seq![sep]);
        lemma_expanded_split(b, sep, f);
        lemma_expanded_add(a.push(sep), b, f);
        assert(a.push(sep).drop_last() == a);
        assert(expanded(a.push(sep), f) == ta + seq![sep]);
        assert(ta + seq![sep] == ta.push(sep));
        lemma_split_cons(ta, tb, sep);
        assert(expanded_each(seq![a] + split(b, sep), f) =~= seq![ta] + expanded_each(
            split(b, sep),
            f,
        ));
    }
}

/// `s` without one trailing carriage return, if it ends with one.
pub open spec fn chomp(s: Seq<char>) -> Seq<char> {
    if s.len() > 0 && s.last() == '\r' {
        s.drop_last()
    } else {
        s
    }
}

/// The lines of the pieces of a split on the line feed: every piece but the
/// last was ended by a line feed and loses a carriage return before it; the
/// last piece is a line only if it is not empty.
pub open spec fn lines_of_pieces(pieces: Seq<Seq<char>>) -> Seq<Seq<char>>
    recommends
        pieces.len() >= 1,
{
    let ended = Seq::new((pieces.len() - 1) as nat, |i: int| chomp(pieces[i]));
    if pieces.last().len() == 0 {
        ended
    } else {
        ended.push(pieces.last())
    }
}

/// The lines of a text. A line ends with a line feed, or with a carriage
/// return and a line feed; the ending is not part of the line, and the last
/// line needs none.
pub open spec fn lines_of(s: Seq<char>) -> Seq<Seq<char>> {
    lines_of_pieces(split(s, '\n'))
}

/// The lines of a text, as [`lines_of`] defines them.
pub fn lines(v: &Vec<char>) -> (r: Vec<Vec<char>>)
    ensures
        views(r@) == lines_of(v@),
{
    let mut pieces = split_on(v, '\n');
    let ghost all = views(pieces@);
    let last = pieces.pop().unwrap();
    assert(last@ == all.last());
    assert(views(pieces@) == all.drop_last());
    let mut r: Vec<Vec<char>> = Vec::new();
    let mut i: usize = 0;
    while i < pieces.len()
        invariant
            i <= pieces.len(),
            r.len() == i,
            forall|j: int| 0 <= j < i ==> (#[trigger] r@[j])@ == chomp(pieces@[j]@),
        decreases pieces.len() - i,
    {
        let piece = &pieces[i];
        let n = piece.len();
        let line = if n > 0 && piece[n - 1] == '\r' {
            slice_of(piece, 0, n - 1)
        } else {
            slice_of(piece, 0, n)
        };
        assert(line@ == chomp(piece@)) by {
            assert(piece@.subrange(0, n as int) == piece@);
        }
        r.push(line);
        i += 1;
    }
    let ghost ended = Seq::new((all.len() - 1) as nat, |i: int| chomp(all[i]));
    assert(views(r@) == ended);
    if last.len() > 0 {
        r.push(last);
        assert(views(r@) == ended.push(all.last()));
    }
    r
}

/// The index of the first white space at or after `i`, or `s.len()`.
pub open spec fn next_space(s: Seq<char>, i: int) -> int
    decreases s.len() - i,
{
    if i < 0 || i >= s.len() {
        s.len() as int
    } else if is_space(s[i]) {
        i
    } else {
        next_space(s, i + 1)
    }
}

/// The words of `s` from index `i` on: the longest stretches without white
/// space, in order.
pub open spec fn words_from(s: Seq<char>, i: int) -> Seq<Seq<char>>
    decreases s.len() - i,
{
    let a = skip_spaces(s, i);
    let b = next_space(s, a);
    if i < 0 || a >= s.len() || b <= i || b > s.len() {
        seq![]
    } else {
        seq![s.subrange(a, b)] + words_from(s, b)
    }
}

/// The words of `s`: the longest stretches without white space, in order.
pub open spec fn words(s: Seq<char>) -> Seq<Seq<char>> {
    words_from(s, 0)
}

/// A word starts where the white space before it ends and goes on to the
/// next white space.
pub proof fn lemma_word_bounds(s: Seq<char>, i: int)
    requires
        0 <= i <= s.len(),
    ensures
        i <= skip_spaces(s, i) <= s.len(),
        i <= next_space(s, i) <= s.len(),
        i < s.len() && !is_space(s[i]) ==> i < next_space(s, i),
        forall|j: int| i <= j < next_space(s, i) ==> !is_space(#[trigger] s[j]),
        forall|j: int| i <= j < skip_spaces(s, i) ==> is_space(#[trigger] s[j]),
        skip_spaces(s, i) < s.len() ==> !is_space(s[skip_spaces(s, i)]),
        next_space(s, i) < s.len() ==> is_space(s[next_space(s, i)]),
    decreases s.len() - i,
{
    if i < s.len() {
        lemma_word_bounds(s, i + 1);
    }
}

/// The words of a text, see [`words`].
pub fn split_words(v: &Vec<char>) -> (r: Vec<Vec<char>>)
    ensures
        views(r@) == words(v@),
{
    let mut r: Vec<Vec<char>> = Vec::new();
    let mut i: usize = 0;
    assert(views(r@) == Seq::<Seq<char>>::empty());
    loop
        invariant_except_break
            i <= v.len(),
            words(v@) == views(r@) + words_from(v@, i as int),
        ensures
            views(r@) == words(v@),
        decreases v.len() - i,
    {
        let mut a: usize = i;
        while a < v.len() && is_space_char(v[a])
            invariant
                i <= a <= v.len(),
                skip_spaces(v@, a as int) == skip_spaces(v@, i as int),
            decreases v.len() - a,
        {
            a += 1;
        }
        if a >= v.len() {
            assert(words_from(v@, i as int) == Seq::<Seq<char>>::empty());
            assert(views(r@) + Seq::<Seq<char>>::empty() == views(r@));
            break ;
        }
        let mut b: usize = a;
        while b < v.len() && !is_space_char(v[b])
            invariant
                a <= b <= v.len(),
                next_space(v@, b as int) == next_space(v@, a as int),
            decreases v.len() - b,
        {
            b += 1;
        }
        proof {
            lemma_word_bounds(v@, a as int);
        }
        let word = slice_of(v, a, b);
        let ghost before = views(r@);
        r.push(word);
        assert(views(r@) == before.push(word@));
        assert(words_from(v@, i as int) == seq![word@] + words_from(v@, b as int));
        assert(before + (seq![word@] + words_from(v@, b as int)) == before.push(word@)
            + words_from(v@, b as int));
        i = b;
    }
    r
}

} // verus!
