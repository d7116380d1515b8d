//! The event log of the timeline renderer: tagging the log of one repository
//! with its identity, cleaning it for the renderer's grammar, and merging
//! the logs of all repositories into one log in time order.
//!
//! A log line reads `timestamp|user|type|path`. The fields are delimited by
//! `|`, the type is a single character.

use crate::github::{full_name_of, Repo};
use crate::process::{
    captured, diagnostics, failed_with_text, fault_of, judge, lossy_text, no_args, output_text,
    text_fault, text_lossy, text_strict, with_arg, with_args, wrote_text, Invocation,
    InvocationView, ProcessError, ProcessErrorView, ProcessOutput, ProcessResult, Stream,
};
use crate::sort::{
    lemma_sort_idempotent, lemma_sort_members, lemma_sort_permutes, lemma_stable_sort_is_stable,
    picked, sorted, sorted_positions, stable_sort, with_key,
};
use crate::text::{
    all_chars, append_chars, chars_of, chomp, expanded, expanded_each, join, join_with,
    lemma_expanded_split, lemma_join_chars, lemma_join_split, lemma_split_after_end,
    lemma_split_chars, lemma_split_cons, lemma_split_free, lemma_split_from_len, lemma_split_join,
    lines, lines_of, lines_of_pieces, slice_of, split, split_from, split_on, string_views, text_of,
    views,
};
use vstd::prelude::*;
use vstd::utf8::{decode_utf8, valid_utf8};

verus! {

/// The end of the last stretch `|c|` of `line` that ends at or before `e`,
/// `c` being any one character; 0 if there is none.
pub open spec fn marker_end(line: Seq<char>, e: int) -> int
    decreases e,
{
    if e < 3 || e > line.len() {
        0
    } else if line[e - 3] == '|' && line[e - 1] == '|' {
        e
    } else {
        marker_end(line, e - 1)
    }
}

/// A line with `/name` put in behind its last single-character field, which
/// makes the name the first segment of the path that follows. A line without
/// such a field stays as it is.
pub open spec fn tag_line(line: Seq<char>, name: Seq<char>) -> Seq<char> {
    let e = marker_end(line, line.len() as int);
    if e == 0 {
        line
    } else {
        line.take(e).push('/') + name + line.skip(e)
    }
}

/// Every line of a list tagged with `name`.
pub open spec fn tag_each(pieces: Seq<Seq<char>>, name: Seq<char>) -> Seq<Seq<char>> {
    Seq::new(pieces.len(), |i: int| tag_line(pieces[i], name))
}

/// A text with every line tagged with `name`; lines are what line feeds
/// separate.
pub open spec fn tag_lines(text: Seq<char>, name: Seq<char>) -> Seq<char> {
    join(tag_each(split(text, '\n'), name), '\n')
}

/// The characters that the renderer may take for the end of a field.
pub open spec fn is_quote(c: char) -> bool {
    c == '\'' || c == '"' || c == '`'
}

/// A text without its quote characters.
pub open spec fn without_quotes(s: Seq<char>) -> Seq<char>
    decreases s.len(),
{
    if s.len() == 0 {
        seq![]
    } else if is_quote(s.last()) {
        without_quotes(s.drop_last())
    } else {
        without_quotes(s.drop_last()).push(s.last())
    }
}

/// A character of the ASCII range.
pub open spec fn is_ascii_char(c: char) -> bool {
    c <= '\u{7f}'
}

/// A text of ASCII characters only.
pub open spec fn is_ascii_text(s: Seq<char>) -> bool {
    forall|i: int| 0 <= i < s.len() ==> is_ascii_char(#[trigger] s[i])
}

/// A text that holds no quote character.
pub open spec fn has_no_quote(s: Seq<char>) -> bool {
    forall|i: int| 0 <= i < s.len() ==> !is_quote(#[trigger] s[i])
}

/// What the removal of diacritics makes of a text: accented and decorated
/// letters give way to their plain forms, combining marks go.
pub uninterp spec fn without_diacritics(s: Seq<char>) -> Seq<char>;

/// A letter of the ASCII range.
pub open spec fn is_ascii_letter(c: char) -> bool {
    'A' <= c <= 'Z' || 'a' <= c <= 'z'
}

/// What the removal of diacritics makes of the text of one character.
pub open spec fn by_character() -> spec_fn(char) -> Seq<char> {
    |c: char| without_diacritics(seq![c])
}

/// A text with, in place of every character, what the removal of diacritics
/// makes of that character alone.
pub open spec fn plain_text(s: Seq<char>) -> Seq<char> {
    expanded(s, by_character())
}

/// A character that the removal of diacritics treats as its table lays
/// down: an ASCII character stays, and what stands for any other character
/// is ASCII letters, or the character itself, or nothing.
pub open spec fn keeps_shape(c: char) -> bool {
    &&& is_ascii_char(c) ==> without_diacritics(seq![c]) == seq![c]
    &&& forall|k: int|
        0 <= k < without_diacritics(seq![c]).len() ==> is_ascii_letter(
            #[trigger] without_diacritics(seq![c])[k],
        ) || without_diacritics(seq![c])[k] == c
}

/// `diacritics::remove_diacritics`. It folds over the characters of the
/// text and puts, for each, what a fixed table gives: so the result depends
/// on the text alone, and is made character by character. Every entry of
/// the table that is keyed by an ASCII character maps it to itself, so
/// ASCII text comes back unchanged; every entry gives ASCII letters or
/// nothing, and a character without an entry stays.
#[verifier::external_body]
fn remove_diacritics(s: &str) -> (r: String)
    ensures
        r@ == without_diacritics(s@),
        is_ascii_text(s@) ==> r@ == s@,
        r@ == plain_text(s@) && forall|i: int| 0 <= i < s@.len() ==> keeps_shape(#[trigger] s@[i]),
{
    diacritics::remove_diacritics(s)
}

/// The normal form of a raw log under the tag `name`: every line tagged
/// with it, then diacritics removed, then quotes removed.
pub open spec fn normalized(raw: Seq<char>, name: Seq<char>) -> Seq<char> {
    without_quotes(without_diacritics(tag_lines(raw, name)))
}

/// The normal form of one line under the tag `name`: tagged, every
/// character in its plain form, without quotes.
pub open spec fn normalized_line(line: Seq<char>, name: Seq<char>) -> Seq<char> {
    without_quotes(plain_text(tag_line(line, name)))
}

/// The normal form of every line of a list.
pub open spec fn normalized_lines(pieces: Seq<Seq<char>>, name: Seq<char>) -> Seq<Seq<char>> {
    Seq::new(pieces.len(), |i: int| normalized_line(pieces[i], name))
}

/// What taking the quotes out makes of one character.
pub open spec fn unquote() -> spec_fn(char) -> Seq<char> {
    |c: char|
        if is_quote(c) {
            Seq::<char>::empty()
        } else {
            seq![c]
        }
}

/// Where the last single-character field of `line` ends, see
/// [`marker_end`].
fn find_marker(line: &Vec<char>) -> (e: usize)
    ensures
        e == marker_end(line@, line.len() as int),
        e <= line.len(),
{
    let mut e: usize = line.len();
    while e >= 3 && !(line[e - 3] == '|' && line[e - 1] == '|')
        invariant
            e <= line.len(),
            marker_end(line@, e as int) == marker_end(line@, line.len() as int),
        decreases e,
    {
        e -= 1;
    }
    if e < 3 {
        0
    } else {
        e
    }
}

/// Tags one line, see [`tag_line`].
fn tag_one(line: &Vec<char>, name: &Vec<char>) -> (r: Vec<char>)
    ensures
        r@ == tag_line(line@, name@),
{
    let e = find_marker(line);
    if e == 0 {
        let r = slice_of(line, 0, line.len());
        assert(line@.subrange(0, line.len() as int) == line@);
        r
    } else {
        let mut r = slice_of(line, 0, e);
        r.push('/');
        append_chars(&mut r, name);
        let rest = slice_of(line, e, line.len());
        append_chars(&mut r, &rest);
        r
    }
}

/// Puts the tag `name` of a repository into every line of its raw log, at
/// the head of the path, see [`tag_lines`].
pub fn tag_log(raw: &str, name: &str) -> (r: String)
    ensures
        r@ == tag_lines(raw@, name@),
{
    let text = chars_of(raw);
    let name = chars_of(name);
    let pieces = split_on(&text, '\n');
    let mut tagged: Vec<Vec<char>> = Vec::new();
    let mut i: usize = 0;
    while i < pieces.len()
        invariant
            i <= pieces.len(),
            tagged.len() == i,
            forall|j: int| 0 <= j < i ==> (#[trigger] tagged@[j])@ == tag_line(pieces@[j]@, name@),
        decreases pieces.len() - i,
    {
        tagged.push(tag_one(&pieces[i], &name));
        i += 1;
    }
    assert(views(tagged@) == tag_each(views(pieces@), name@));
    let out = join_with(&tagged, '\n');
    text_of(&out)
}

/// Removes the quote characters from a text.
pub fn strip_quotes(text: &str) -> (r: String)
    ensures
        r@ == without_quotes(text@),
{
    let chars = chars_of(text);
    let mut out: Vec<char> = Vec::new();
    let mut i: usize = 0;
    while i < chars.len()
        invariant
            i <= chars.len(),
            out@ == without_quotes(chars@.take(i as int)),
        decreases chars.len() - i,
    {
        assert(chars@.take(i + 1).drop_last() == chars@.take(i as int));
        let c = chars[i];
        if !(c == '\'' || c == '"' || c == '`') {
            out.push(c);
        }
        i += 1;
    }
    assert(chars@.take(chars.len() as int) == chars@);
    text_of(&out)
}

/// A text without quotes is left as it is.
pub proof fn lemma_without_quotes_plain(s: Seq<char>)
    requires
        has_no_quote(s),
    ensures
        without_quotes(s) == s,
    decreases s.len(),
{
    if s.len() > 0 {
        assert(!is_quote(s[s.len() - 1]));
        assert forall|i: int| 0 <= i < s.drop_last().len() implies !is_quote(
            #[trigger] s.drop_last()[i],
        ) by {
            assert(s.drop_last()[i] == s[i]);
        }
        lemma_without_quotes_plain(s.drop_last());
        assert(s.drop_last().push(s.last()) == s);
    }
}

/// No quote is left where quotes were removed.
pub proof fn lemma_without_quotes_clean(s: Seq<char>)
    ensures
        has_no_quote(without_quotes(s)),
    decreases s.len(),
{
    if s.len() > 0 {
        lemma_without_quotes_clean(s.drop_last());
        let prev = without_quotes(s.drop_last());
        assert forall|i: int| 0 <= i < without_quotes(s).len() implies !is_quote(
            #[trigger] without_quotes(s)[i],
        ) by {
            if i < prev.len() {
                assert(without_quotes(s)[i] == prev[i]);
            }
        }
    }
}

/// Tagging brings in no character but those of the name and the slash: what
/// holds of every character of the log, of the name, of the slash and of the
/// line feed holds of every character of the tagged log.
pub proof fn lemma_tag_lines_chars(text: Seq<char>, name: Seq<char>, p: spec_fn(char) -> bool)
    requires
        all_chars(text, p),
        all_chars(name, p),
        p('/'),
        p('\n'),
    ensures
        all_chars(tag_lines(text, name), p),
{
    lemma_split_chars(text, '\n', 0, p);
    let pieces = split(text, '\n');
    let tagged = tag_each(pieces, name);
    assert forall|j: int| 0 <= j < tagged.len() implies all_chars(#[trigger] tagged[j], p) by {
        assert(all_chars(pieces[j], p));
        let line = pieces[j];
        let e = marker_end(line, line.len() as int);
        lemma_marker_end(line, line.len() as int);
        if e != 0 {
            assert(all_chars(line.take(e).push('/'), p));
            assert(all_chars(line.skip(e), p));
        }
    }
    lemma_join_chars(tagged, '\n', p);
}

/// What [`marker_end`] returns lies in the line and behind a field of one
/// character, and no such field ends behind it.
pub proof fn lemma_marker_end(line: Seq<char>, e: int)
    requires
        0 <= e <= line.len(),
    ensures
        marker_end(line, e) == 0 || 3 <= marker_end(line, e) <= e,
        marker_end(line, e) != 0 ==> line[marker_end(line, e) - 3] == '|' && line[marker_end(
            line,
            e,
        ) - 1] == '|',
        forall|q: int|
            marker_end(line, e) < q <= e && 3 <= q ==> !(line[q - 3] == '|' && #[trigger] line[q
                - 1] == '|'),
    decreases e,
{
    if e >= 3 && !(line[e - 3] == '|' && line[e - 1] == '|') {
        lemma_marker_end(line, e - 1);
    }
}

/// A tagged line is the line with `/name` put in at one place: cut that
/// stretch out again and the line is as it was.
pub proof fn lemma_tag_line_inserts(line: Seq<char>, name: Seq<char>)
    ensures
        ({
            let e = marker_end(line, line.len() as int);
            let t = tag_line(line, name);
            if e == 0 {
                t == line
            } else {
                &&& t.len() == line.len() + 1 + name.len()
                &&& t.take(e) == line.take(e)
                &&& t.subrange(e, e + 1 + name.len()) == seq!['/'] + name
                &&& t.skip(e + 1 + name.len()) == line.skip(e)
                &&& t.take(e) + t.skip(e + 1 + name.len()) == line
            }
        }),
{
    let e = marker_end(line, line.len() as int);
    lemma_marker_end(line, line.len() as int);
    if e != 0 {
        let t = tag_line(line, name);
        assert(t.take(e) == line.take(e));
        assert(t.subrange(e, e + 1 + name.len()) == seq!['/'] + name);
        assert(t.skip(e + 1 + name.len()) == line.skip(e));
        assert(line.take(e) + line.skip(e) == line);
    }
}

/// A log in which no line has a field of one character is tagged nowhere:
/// it stays as it is.
pub proof fn lemma_tag_lines_without_marker(text: Seq<char>, name: Seq<char>)
    requires
        forall|i: int|
            0 <= i < split(text, '\n').len() ==> marker_end(
                #[trigger] split(text, '\n')[i],
                split(text, '\n')[i].len() as int,
            ) == 0,
    ensures
        tag_lines(text, name) == text,
{
    let pieces = split(text, '\n');
    assert(tag_each(pieces, name) =~= pieces);
    lemma_join_split(text, '\n');
}

/// Normalising leaves a clean log alone but for the names put in: where the
/// tagged log holds no quote and nothing that the removal of diacritics
/// changes, the normal form is the tagged log.
pub proof fn lemma_normalized_plain(raw: Seq<char>, name: Seq<char>)
    requires
        has_no_quote(raw),
        has_no_quote(name),
        without_diacritics(tag_lines(raw, name)) == tag_lines(raw, name),
    ensures
        normalized(raw, name) == tag_lines(raw, name),
{
    let p = |c: char| !is_quote(c);
    assert(all_chars(raw, p));
    assert(all_chars(name, p));
    lemma_tag_lines_chars(raw, name, p);
    let t = tag_lines(raw, name);
    assert(has_no_quote(t)) by {
        assert forall|i: int| 0 <= i < t.len() implies !is_quote(#[trigger] t[i]) by {
            assert(p(t[i]));
        }
    }
    lemma_without_quotes_plain(t);
}

/// Taking the quotes out is a rewriting character by character.
pub proof fn lemma_without_quotes_expanded(s: Seq<char>)
    ensures
        without_quotes(s) == expanded(s, unquote()),
    decreases s.len(),
{
    if s.len() > 0 {
        lemma_without_quotes_expanded(s.drop_last());
        let rest = expanded(s.drop_last(), unquote());
        if is_quote(s.last()) {
            assert(unquote()(s.last()) == Seq::<char>::empty());
            assert(rest + Seq::<char>::empty() == rest);
        } else {
            assert(unquote()(s.last()) == seq![s.last()]);
            assert(rest + seq![s.last()] == rest.push(s.last()));
        }
    }
}

/// Normalising keeps the lines apart: the normal form of a log has as many
/// lines as the log, and each is the normal form of the line at its place.
/// This holds of every tag without a line feed, where the removal of
/// diacritics goes character by character and keeps the shape of each.
pub proof fn lemma_normalized_by_line(raw: Seq<char>, name: Seq<char>)
    requires
        holds_no_feed(name),
        without_diacritics(tag_lines(raw, name)) == plain_text(tag_lines(raw, name)),
        forall|i: int|
            0 <= i < tag_lines(raw, name).len() ==> keeps_shape(#[trigger] tag_lines(raw, name)[i]),
    ensures
        split(normalized(raw, name), '\n') == normalized_lines(split(raw, '\n'), name),
{
    let pieces = split(raw, '\n');
    let tagged = tag_each(pieces, name);
    let t = tag_lines(raw, name);
    lemma_split_free(raw, '\n', 0);
    lemma_split_from_len(raw, '\n', 0);
    assert(pieces == split_from(raw, '\n', 0));
    assert forall|i: int, j: int|
        0 <= i < tagged.len() && 0 <= j < tagged[i].len() implies #[trigger] tagged[i][j]
        != '\n' by {
        let line = pieces[i];
        let e = marker_end(line, line.len() as int);
        lemma_marker_end(line, line.len() as int);
        assert forall|q: int| 0 <= q < line.len() implies line[q] != '\n' by {
            assert(split_from(raw, '\n', 0)[i][q] != '\n');
        }
        if e != 0 {
            let head = line.take(e).push('/');
            let tail = line.skip(e);
            assert(tagged[i] == head + name + tail);
            if j < head.len() {
                if j < e {
                    assert(tagged[i][j] == line[j]);
                }
            } else if j < head.len() + name.len() {
                assert(tagged[i][j] == name[j - head.len()]);
            } else {
                assert(tagged[i][j] == tail[j - head.len() - name.len()]);
                assert(tail[j - head.len() - name.len()] == line[e + (j - head.len() - name.len())]);
            }
        }
    }
    lemma_split_join(tagged, '\n');
    let f = by_character();
    let not_feed = |c: char| c != '\n';
    assert forall|i: int| 0 <= i < t.len() && t[i] == '\n' implies f(#[trigger] t[i]) == seq![
        '\n',
    ] by {
        assert(keeps_shape(t[i]));
    }
    assert forall|i: int| 0 <= i < t.len() && t[i] != '\n' implies all_chars(
        f(#[trigger] t[i]),
        not_feed,
    ) by {
        assert(keeps_shape(t[i]));
        let made = f(t[i]);
        assert forall|k: int| 0 <= k < made.len() implies not_feed(#[trigger] made[k]) by {
            assert(is_ascii_letter(without_diacritics(seq![t[i]])[k]) || without_diacritics(
                seq![t[i]],
            )[k] == t[i]);
        }
    }
    lemma_expanded_split(t, '\n', f);
    let u = plain_text(t);
    let g = unquote();
    assert forall|i: int| 0 <= i < u.len() && u[i] == '\n' implies g(#[trigger] u[i]) == seq![
        '\n',
    ] by {}
    assert forall|i: int| 0 <= i < u.len() && u[i] != '\n' implies all_chars(
        g(#[trigger] u[i]),
        not_feed,
    ) by {}
    lemma_expanded_split(u, '\n', g);
    lemma_without_quotes_expanded(u);
    let lines = split(normalized(raw, name), '\n');
    let wanted = normalized_lines(pieces, name);
    assert(lines == expanded_each(expanded_each(tagged, f), g));
    assert forall|i: int| 0 <= i < wanted.len() implies lines[i] == wanted[i] by {
        lemma_without_quotes_expanded(plain_text(tagged[i]));
    }
    assert(lines =~= wanted);
}

/// The normal form of a raw log under the tag `name`: tagged, without
/// diacritics, without quotes. For a log and a tag in ASCII, which holds no
/// diacritics, that is the tagged log without its quotes; if they hold no
/// quotes either, every line is as it was but for the tag put in. Whatever
/// the log holds, its lines stay apart: under a tag without a line feed the
/// normal form has as many lines as the log, each the normal form of the
/// line at its place.
pub fn normalize_log(raw: &str, name: &str) -> (r: String)
    ensures
        r@ == normalized(raw@, name@),
        holds_no_feed(name@) ==> split(r@, '\n') == normalized_lines(split(raw@, '\n'), name@),
        is_ascii_text(raw@) && is_ascii_text(name@) ==> r@ == without_quotes(
            tag_lines(raw@, name@),
        ),
        is_ascii_text(raw@) && is_ascii_text(name@) && has_no_quote(raw@) && has_no_quote(name@)
            ==> r@ == tag_lines(raw@, name@),
        has_no_quote(r@),
{
    let tagged = tag_log(raw, name);
    let folded = remove_diacritics(tagged.as_str());
    proof {
        if is_ascii_text(raw@) && is_ascii_text(name@) {
            let p = |c: char| is_ascii_char(c);
            assert(all_chars(raw@, p));
            assert(all_chars(name@, p));
            lemma_tag_lines_chars(raw@, name@, p);
            assert forall|i: int| 0 <= i < tagged@.len() implies is_ascii_char(
                #[trigger] tagged@[i],
            ) by {
                assert(p(tagged@[i]));
            }
            if has_no_quote(raw@) && has_no_quote(name@) {
                lemma_normalized_plain(raw@, name@);
            }
        }
        if holds_no_feed(name@) {
            lemma_normalized_by_line(raw@, name@);
        }
        lemma_without_quotes_clean(folded@);
    }
    strip_quotes(folded.as_str())
}

/// The pieces of a list put together, nothing between them.
pub open spec fn concat(parts: Seq<Seq<char>>) -> Seq<char>
    decreases parts.len(),
{
    if parts.len() == 0 {
        seq![]
    } else {
        concat(parts.drop_last()) + parts.last()
    }
}

/// The text of a list of lines, each ended by a line feed.
pub open spec fn terminated(lines: Seq<Seq<char>>) -> Seq<char>
    decreases lines.len(),
{
    if lines.len() == 0 {
        seq![]
    } else {
        (terminated(lines.drop_last()) + lines.last()).push('\n')
    }
}

/// The merged log of a list of logs: the lines of their concatenation in
/// non-decreasing order of their timestamps, lines with the same timestamp
/// in the order in which they stand in the concatenation.
pub open spec fn sorted_log(logs: Seq<Seq<char>>) -> Seq<char> {
    terminated(stable_sort(lines_of(concat(logs))))
}

/// Merges the logs of the repositories into one log in time order: the
/// lines of all logs, in the order of the list, stably sorted by their first
/// field, each ended by a line feed.
pub fn combine_and_sort_logs(logs: &Vec<String>) -> (r: String)
    ensures
        r@ == sorted_log(string_views(logs@)),
{
    let mut combined: Vec<char> = Vec::new();
    let mut i: usize = 0;
    while i < logs.len()
        invariant
            i <= logs.len(),
            combined@ == concat(string_views(logs@).take(i as int)),
        decreases logs.len() - i,
    {
        assert(string_views(logs@).take(i + 1).drop_last() == string_views(logs@).take(i as int));
        let log = chars_of(logs[i].as_str());
        append_chars(&mut combined, &log);
        i += 1;
    }
    assert(string_views(logs@).take(logs.len() as int) == string_views(logs@));
    let all = lines(&combined);
    let order = sorted_positions(&all);
    let ghost sorted = stable_sort(views(all@));
    let mut out: Vec<char> = Vec::new();
    let mut k: usize = 0;
    while k < order.len()
        invariant
            k <= order.len(),
            order.len() == all.len(),
            forall|p: int| 0 <= p < order.len() ==> order[p] < all.len(),
            picked(views(all@), order@) == sorted,
            out@ == terminated(sorted.take(k as int)),
        decreases order.len() - k,
    {
        assert(sorted.take(k + 1).drop_last() == sorted.take(k as int));
        assert(sorted[k as int] == all@[order@[k as int] as int]@);
        append_chars(&mut out, &all[order[k]]);
        out.push('\n');
        k += 1;
    }
    assert(sorted.take(order.len() as int) == sorted);
    text_of(&out)
}

/// Why the log of a repository could not be made.
#[derive(Debug, Clone, PartialEq, Eq)]
pub enum NormalizeError {
    /// The history extractor could not be found.
    ToolMissing,
    /// The extractor could not be started; the text says why.
    Io(String),
    /// The extractor did not end with exit code zero; with the code, where
    /// it had one, and what it wrote to its diagnostics.
    ProcessFailed(Option<i32>, String),
    /// What the extractor wrote is no text.
    InvalidUtf8,
}

/// The mathematical content of a [`NormalizeError`].
pub enum NormalizeErrorView {
    ToolMissing,
    Io(Seq<char>),
    ProcessFailed(Option<i32>, Seq<char>),
    InvalidUtf8,
}

impl View for NormalizeError {
    type V = NormalizeErrorView;

    open spec fn view(&self) -> NormalizeErrorView {
        match self {
            NormalizeError::ToolMissing => NormalizeErrorView::ToolMissing,
            NormalizeError::Io(why) => NormalizeErrorView::Io(why@),
            NormalizeError::ProcessFailed(code, text) => NormalizeErrorView::ProcessFailed(
                *code,
                text@,
            ),
            NormalizeError::InvalidUtf8 => NormalizeErrorView::InvalidUtf8,
        }
    }
}

/// The command that extracts the history of the working copy in
/// `repo_dir` as a raw log on its standard output.
pub open spec fn log_command(repo_dir: Seq<char>) -> InvocationView {
    captured("gource"@, seq!["--output-custom-log"@, "-"@, repo_dir])
}

/// The command that extracts the history of a working copy, see
/// [`log_command`].
pub fn gource_log_command(repo_dir: &str) -> (r: Invocation)
    ensures
        r@ == log_command(repo_dir@),
{
    let args = with_arg(with_arg(with_arg(no_args(), "--output-custom-log"), "-"), repo_dir);
    assert(Seq::<Seq<char>>::empty().push("--output-custom-log"@).push("-"@).push(repo_dir@)
        == seq!["--output-custom-log"@, "-"@, repo_dir@]);
    Invocation {
        program: "gource".to_string(),
        args,
        dir: None,
        stdin: Stream::Inherit,
        stdout: Stream::Piped,
        stderr: Stream::Piped,
    }
}

/// The log of the repository with the identity `identity`, from the run of
/// the extractor on its working copy: the normal form of what the extractor
/// wrote, every line tagged with the identity, if it ended with exit code
/// zero and wrote text; else the error. The exit code is looked at first.
pub open spec fn log_of_run(identity: Seq<char>, run: ProcessResult) -> Result<
    Seq<char>,
    NormalizeErrorView,
> {
    match run {
        ProcessResult::NotFound => Err(NormalizeErrorView::ToolMissing),
        ProcessResult::Failed(why) => Err(NormalizeErrorView::Io(why@)),
        ProcessResult::Exited(out) => if !out.succeeded() {
            Err(NormalizeErrorView::ProcessFailed(out.code, lossy_text(out.stderr@)))
        } else if !valid_utf8(out.stdout@) {
            Err(NormalizeErrorView::InvalidUtf8)
        } else {
            Ok(normalized(decode_utf8(out.stdout@), identity))
        },
    }
}

/// Makes the log of a repository from the run of the extractor on its
/// working copy, see [`log_of_run`]. The result is what the log file of the
/// repository is to hold. Every line is tagged with the identity of the
/// repository: the full name the service gave, else owner and name with a
/// slash between them. Repositories of the same name under different owners
/// are so kept apart.
///
/// Where the extractor ended well and wrote ASCII, and the identity is
/// ASCII, the log is what was written with the identity put into every line
/// and the quotes taken out; if neither holds a quote, every line is as it
/// was written but for the identity put in. Whatever was written, its
/// lines stay apart: under an identity without a line feed the log has as
/// many lines as were written, each the normal form of the line at its
/// place. Where the extractor ended badly, diagnostics that are text stand
/// in the error as they were written.
pub fn generate_gource_log(repo: &Repo, run: &ProcessResult) -> (r: Result<String, NormalizeError>)
    ensures
        match r {
            Ok(log) => log_of_run(full_name_of(repo@), *run) == Ok::<Seq<char>, NormalizeErrorView>(
                log@,
            ),
            Err(e) => log_of_run(full_name_of(repo@), *run) == Err::<
                Seq<char>,
                NormalizeErrorView,
            >(e@),
        },
        r is Ok <==> wrote_text(*run),
        r matches Ok(log) ==> has_no_quote(log@),
        wrote_text(*run) && is_ascii_text(output_text(*run)) && is_ascii_text(full_name_of(repo@))
            ==> r is Ok && r->Ok_0@ == without_quotes(
            tag_lines(output_text(*run), full_name_of(repo@)),
        ),
        wrote_text(*run) && is_ascii_text(output_text(*run)) && is_ascii_text(full_name_of(repo@))
            && has_no_quote(output_text(*run)) && has_no_quote(full_name_of(repo@)) ==> r is Ok
            && r->Ok_0@ == tag_lines(output_text(*run), full_name_of(repo@)),
        wrote_text(*run) && holds_no_feed(full_name_of(repo@)) ==> r is Ok && split(
            r->Ok_0@,
            '\n',
        ) == normalized_lines(split(output_text(*run), '\n'), full_name_of(repo@)),
        failed_with_text(*run) ==> r is Err && r->Err_0@ == NormalizeErrorView::ProcessFailed(
            run->Exited_0.code,
            diagnostics(*run),
        ),
{
    match run {
        ProcessResult::NotFound => Err(NormalizeError::ToolMissing),
        ProcessResult::Failed(why) => Err(NormalizeError::Io(why.clone())),
        ProcessResult::Exited(out) => {
            if !out.success() {
                return Err(NormalizeError::ProcessFailed(out.code, text_lossy(&out.stderr)));
            }
            match text_strict(&out.stdout) {
                None => Err(NormalizeError::InvalidUtf8),
                Some(raw) => {
                    let identity = repo.full_name();
                    Ok(normalize_log(raw.as_str(), identity.as_str()))
                },
            }
        },
    }
}

/// Why no picture came of the log.
#[derive(Debug, Clone, PartialEq, Eq)]
pub enum RenderError {
    /// The renderer did not do its work.
    Renderer(ProcessError),
    /// The renderer did its work, the encoder did not.
    Encoder(ProcessError),
}

/// The mathematical content of a [`RenderError`].
pub enum RenderErrorView {
    Renderer(ProcessErrorView),
    Encoder(ProcessErrorView),
}

impl View for RenderError {
    type V = RenderErrorView;

    open spec fn view(&self) -> RenderErrorView {
        match self {
            RenderError::Renderer(e) => RenderErrorView::Renderer(e@),
            RenderError::Encoder(e) => RenderErrorView::Encoder(e@),
        }
    }
}

/// The command of the renderer. Without an encoder it shows the log on the
/// screen, its streams those of its caller: the arguments of the caller's
/// choice, then the log. With an encoder it writes pictures to its standard
/// output, which is captured with its diagnostics: `-o -` stands between the
/// arguments and the log.
pub open spec fn renderer_command(args: Seq<Seq<char>>, log: Seq<char>, piped: bool)
    -> InvocationView {
    if piped {
        captured("gource"@, args + seq!["-o"@, "-"@, log])
    } else {
        InvocationView {
            program: "gource"@,
            args: args.push(log),
            dir: None,
            stdin: Stream::Inherit,
            stdout: Stream::Inherit,
            stderr: Stream::Inherit,
        }
    }
}

/// The command of the encoder: it reads pictures in the portable pixmap
/// format from its standard input, sixty to the second, and writes the video
/// to `output`, encoded as the arguments of the caller's choice say. Its
/// input and its diagnostics are captured.
pub open spec fn encoder_command(args: Seq<Seq<char>>, output: Seq<char>) -> InvocationView {
    InvocationView {
        program: "ffmpeg"@,
        args: seq!["-r"@, "60"@, "-f"@, "image2pipe"@, "-c:v"@, "ppm"@, "-i"@, "-"@] + args.push(
            output,
        ),
        dir: None,
        stdin: Stream::Piped,
        stdout: Stream::Inherit,
        stderr: Stream::Piped,
    }
}

/// The command of the renderer, see [`renderer_command`].
pub fn render_command(gource_args: &Vec<String>, sorted_log: &str, piped: bool) -> (r: Invocation)
    ensures
        r@ == renderer_command(string_views(gource_args@), sorted_log@, piped),
{
    let args = with_args(no_args(), gource_args);
    assert(Seq::<Seq<char>>::empty() + string_views(gource_args@) == string_views(gource_args@));
    if piped {
        let args = with_arg(with_arg(with_arg(args, "-o"), "-"), sorted_log);
        assert(string_views(gource_args@).push("-o"@).push("-"@).push(sorted_log@) == string_views(
            gource_args@,
        ) + seq!["-o"@, "-"@, sorted_log@]);
        Invocation {
            program: "gource".to_string(),
            args,
            dir: None,
            stdin: Stream::Inherit,
            stdout: Stream::Piped,
            stderr: Stream::Piped,
        }
    } else {
        let args = with_arg(args, sorted_log);
        Invocation {
            program: "gource".to_string(),
            args,
            dir: None,
            stdin: Stream::Inherit,
            stdout: Stream::Inherit,
            stderr: Stream::Inherit,
        }
    }
}

/// The command of the encoder, see [`encoder_command`].
pub fn encode_command(ffmpeg_args: &Vec<String>, output: &str) -> (r: Invocation)
    ensures
        r@ == encoder_command(string_views(ffmpeg_args@), output@),
{
    let head = with_arg(
        with_arg(
            with_arg(
                with_arg(
                    with_arg(with_arg(with_arg(with_arg(no_args(), "-r"), "60"), "-f"), "image2pipe"),
                    "-c:v",
                ),
                "ppm",
            ),
            "-i",
        ),
        "-",
    );
    assert(string_views(head@) == seq![
        "-r"@,
        "60"@,
        "-f"@,
        "image2pipe"@,
        "-c:v"@,
        "ppm"@,
        "-i"@,
        "-"@,
    ]);
    let ghost fixed = string_views(head@);
    let args = with_arg(with_args(head, ffmpeg_args), output);
    assert((fixed + string_views(ffmpeg_args@)).push(output@) == fixed + string_views(
        ffmpeg_args@,
    ).push(output@));
    Invocation {
        program: "ffmpeg".to_string(),
        args,
        dir: None,
        stdin: Stream::Piped,
        stdout: Stream::Inherit,
        stderr: Stream::Piped,
    }
}

/// What the runs of renderer and encoder mean. The renderer is judged
/// first: where it did not do its work, that is the error, whatever the
/// encoder did. Only then the encoder is judged, where there is one.
pub open spec fn render_verdict(renderer: ProcessResult, encoder: Option<ProcessResult>) -> Result<
    (),
    RenderErrorView,
> {
    match fault_of(renderer) {
        Some(e) => Err(RenderErrorView::Renderer(e)),
        None => match encoder {
            None => Ok(()),
            Some(run) => match fault_of(run) {
                Some(e) => Err(RenderErrorView::Encoder(e)),
                None => Ok(()),
            },
        },
    }
}

/// Judges the runs of the renderer and, where there is one, of the encoder;
/// see [`render_verdict`]. Where the renderer ended with another exit code
/// than zero, what it wrote to its diagnostics stands in the error.
pub fn generate_gource_video(renderer: &ProcessResult, encoder: Option<&ProcessResult>) -> (r:
    Result<(), RenderError>)
    ensures
        failed_with_text(*renderer) ==> r is Err && r->Err_0@ == RenderErrorView::Renderer(
            text_fault(*renderer),
        ),
        match r {
            Ok(_) => render_verdict(
                *renderer,
                match encoder {
                    Some(e) => Some(*e),
                    None => None,
                },
            ) == Ok::<(), RenderErrorView>(()),
            Err(e) => render_verdict(
                *renderer,
                match encoder {
                    Some(e) => Some(*e),
                    None => None,
                },
            ) == Err::<(), RenderErrorView>(e@),
        },
{
    match judge(renderer) {
        Err(e) => Err(RenderError::Renderer(e)),
        Ok(_) => match encoder {
            None => Ok(()),
            Some(run) => match judge(run) {
                Err(e) => Err(RenderError::Encoder(e)),
                Ok(_) => Ok(()),
            },
        },
    }
}

/// Where the renderer ends with another exit code than zero, the outcome is
/// the renderer's failure with its diagnostics, whatever the encoder did:
/// the encoder is never reported as having succeeded.
pub proof fn lemma_renderer_failure_wins(out: ProcessOutput, encoder: Option<ProcessResult>)
    requires
        !out.succeeded(),
    ensures
        render_verdict(ProcessResult::Exited(out), encoder) == Err::<(), RenderErrorView>(
            RenderErrorView::Renderer(ProcessErrorView::Failed(out.code, lossy_text(out.stderr@))),
        ),
{
}

/// The work is reported done only if the renderer did its work and, where
/// there is an encoder, the encoder did too.
pub proof fn lemma_render_success(renderer: ProcessResult, encoder: Option<ProcessResult>)
    ensures
        render_verdict(renderer, encoder) is Ok <==> fault_of(renderer) is None && (encoder
            matches Some(run) ==> fault_of(run) is None),
{
}

/// The merged log holds the lines of the logs and no others, each as often
/// as the logs hold it; they stand in order of time, and those of one time
/// in the order in which the logs hold them.
pub proof fn lemma_sorted_log_lines(logs: Seq<Seq<char>>, k: Seq<char>)
    ensures
        ({
            let incoming = lines_of(concat(logs));
            let merged = stable_sort(incoming);
            &&& sorted_log(logs) == terminated(merged)
            &&& merged.to_multiset() == incoming.to_multiset()
            &&& sorted(merged)
            &&& with_key(merged, k) == with_key(incoming, k)
        }),
{
    let incoming = lines_of(concat(logs));
    lemma_sort_permutes(incoming);
    lemma_stable_sort_is_stable(incoming);
}

/// A log whose last line is ended: it is empty, or its last character is a
/// line feed.
pub open spec fn is_whole(log: Seq<char>) -> bool {
    log.len() == 0 || log.last() == '\n'
}

/// The lines of the logs of a list, log by log, in the order of the list.
pub open spec fn all_lines(logs: Seq<Seq<char>>) -> Seq<Seq<char>>
    decreases logs.len(),
{
    if logs.len() == 0 {
        seq![]
    } else {
        all_lines(logs.drop_last()) + lines_of(logs.last())
    }
}

/// Behind a log whose last line is ended, the lines of the next log begin:
/// the lines of the two put together are the lines of the first followed by
/// the lines of the second.
pub proof fn lemma_lines_of_add(a: Seq<char>, b: Seq<char>)
    requires
        is_whole(a),
    ensures
        lines_of(a + b) == lines_of(a) + lines_of(b),
{
    if a.len() == 0 {
        assert(a + b == b);
        let none = Seq::<char>::empty();
        assert(a == none);
        assert(none.subrange(0, 0) == none);
        assert(split(none, '\n') == seq![none]);
        assert(lines_of(a) =~= Seq::<Seq<char>>::empty());
        assert(lines_of(a) + lines_of(b) == lines_of(b));
    } else {
        lemma_split_after_end(a, b, '\n');
        lemma_split_from_len(b, '\n', 0);
        let pa = split(a, '\n');
        let pb = split(b, '\n');
        let both = pa.drop_last() + pb;
        assert(pb == split_from(b, '\n', 0));
        assert(split(a + b, '\n') == both);
        assert(both.last() == pb.last());
        let ended_a = Seq::new((pa.len() - 1) as nat, |i: int| chomp(pa[i]));
        let ended_b = Seq::new((pb.len() - 1) as nat, |i: int| chomp(pb[i]));
        let ended = Seq::new((both.len() - 1) as nat, |i: int| chomp(both[i]));
        assert(ended =~= ended_a + ended_b) by {
            assert forall|i: int| 0 <= i < ended.len() implies ended[i] == (ended_a + ended_b)[i] by {
                if i < pa.len() - 1 {
                    assert(both[i] == pa[i]);
                } else {
                    assert(both[i] == pb[i - (pa.len() - 1)]);
                }
            }
        }
        assert(lines_of(a) == ended_a);
        if pb.last().len() == 0 {
            assert(lines_of(b) == ended_b);
            assert(lines_of(a + b) == ended);
        } else {
            assert(lines_of(b) == ended_b.push(pb.last()));
            assert(lines_of(a + b) == ended.push(pb.last()));
            assert((ended_a + ended_b).push(pb.last()) == ended_a + ended_b.push(pb.last()));
        }
    }
}

/// Where the last line of every log is ended, no line runs from one log
/// into the next: the lines that are merged are the lines of the logs, log
/// by log, each line of each log once.
pub proof fn lemma_lines_of_concat(logs: Seq<Seq<char>>)
    requires
        forall|i: int| 0 <= i < logs.len() ==> is_whole(#[trigger] logs[i]),
    ensures
        is_whole(concat(logs)),
        lines_of(concat(logs)) == all_lines(logs),
        sorted_log(logs) == terminated(stable_sort(all_lines(logs))),
    decreases logs.len(),
{
    if logs.len() == 0 {
        let none = Seq::<char>::empty();
        assert(concat(logs) == none);
        assert(none.subrange(0, 0) == none);
        assert(split(none, '\n') == seq![none]);
        assert(lines_of(none) =~= Seq::<Seq<char>>::empty());
    } else {
        let rest = logs.drop_last();
        assert forall|i: int| 0 <= i < rest.len() implies is_whole(#[trigger] rest[i]) by {
            assert(rest[i] == logs[i]);
        }
        lemma_lines_of_concat(rest);
        assert(is_whole(logs[logs.len() - 1]));
        lemma_lines_of_add(concat(rest), logs.last());
    }
}

/// A line that holds no line feed.
pub open spec fn holds_no_feed(line: Seq<char>) -> bool {
    forall|j: int| 0 <= j < line.len() ==> #[trigger] line[j] != '\n'
}

/// A line whose last character is a carriage return.
pub open spec fn ends_with_return(line: Seq<char>) -> bool {
    line.len() > 0 && line.last() == '\r'
}

proof fn lemma_terminated_cons(line: Seq<char>, rest: Seq<Seq<char>>)
    ensures
        terminated(seq![line] + rest) == line.push('\n') + terminated(rest),
    decreases rest.len(),
{
    let all = seq![line] + rest;
    if rest.len() == 0 {
        assert(all.drop_last() == Seq::<Seq<char>>::empty());
        assert(all.last() == line);
        assert(terminated(all.drop_last()) == Seq::<char>::empty());
        assert(Seq::<char>::empty() + line == line);
        assert(line.push('\n') + Seq::<char>::empty() == line.push('\n'));
    } else {
        assert(all.drop_last() == seq![line] + rest.drop_last());
        assert(all.last() == rest.last());
        lemma_terminated_cons(line, rest.drop_last());
        let mid = terminated(rest.drop_last());
        assert(((line.push('\n') + mid) + rest.last()).push('\n') == line.push('\n') + (mid
            + rest.last()).push('\n'));
    }
}

proof fn lemma_split_terminated(ls: Seq<Seq<char>>)
    requires
        forall|i: int| 0 <= i < ls.len() ==> holds_no_feed(#[trigger] ls[i]),
    ensures
        split(terminated(ls), '\n') == ls.push(Seq::<char>::empty()),
    decreases ls.len(),
{
    if ls.len() == 0 {
        assert(terminated(ls) == Seq::<char>::empty());
        let none = Seq::<char>::empty();
        assert(none.subrange(0, 0) == none);
        assert(split(none, '\n') == seq![none]);
        assert(ls.push(none) == seq![none]);
    } else {
        let first = ls[0];
        let rest = ls.skip(1);
        assert(ls == seq![first] + rest);
        assert forall|i: int| 0 <= i < rest.len() implies holds_no_feed(#[trigger] rest[i]) by {
            assert(rest[i] == ls[i + 1]);
        }
        lemma_split_terminated(rest);
        lemma_terminated_cons(first, rest);
        assert(holds_no_feed(first));
        lemma_split_cons(first, terminated(rest), '\n');
        assert(seq![first] + rest.push(Seq::<char>::empty()) == ls.push(Seq::<char>::empty()));
    }
}

/// Lines written out, each with a line feed behind it, are read back as
/// they were, if none of them holds a line feed or ends with a carriage
/// return.
pub proof fn lemma_lines_of_terminated(ls: Seq<Seq<char>>)
    requires
        forall|i: int| 0 <= i < ls.len() ==> holds_no_feed(#[trigger] ls[i]),
        forall|i: int| 0 <= i < ls.len() ==> !ends_with_return(#[trigger] ls[i]),
    ensures
        lines_of(terminated(ls)) == ls,
{
    lemma_split_terminated(ls);
    let pieces = ls.push(Seq::<char>::empty());
    let ended = Seq::new((pieces.len() - 1) as nat, |i: int| chomp(pieces[i]));
    assert(ended == ls) by {
        assert forall|i: int| 0 <= i < ls.len() implies ended[i] == ls[i] by {
            assert(pieces[i] == ls[i]);
            assert(!ends_with_return(ls[i]));
        }
    }
    assert(pieces.last().len() == 0);
    assert(lines_of_pieces(pieces) == ended);
}

/// No line of a text holds a line feed.
pub proof fn lemma_lines_hold_no_feed(text: Seq<char>)
    ensures
        forall|i: int|
            0 <= i < lines_of(text).len() ==> holds_no_feed(#[trigger] lines_of(text)[i]),
{
    lemma_split_free(text, '\n', 0);
    lemma_split_from_len(text, '\n', 0);
    let pieces = split(text, '\n');
    let ls = lines_of(text);
    assert(pieces == split_from(text, '\n', 0));
    assert(ls == lines_of_pieces(pieces));
    assert(ls.len() <= pieces.len());
    assert forall|i: int| 0 <= i < ls.len() implies holds_no_feed(#[trigger] ls[i]) by {
        let piece = pieces[i];
        assert forall|j: int| 0 <= j < piece.len() implies #[trigger] piece[j] != '\n' by {
            assert(split_from(text, '\n', 0)[i][j] != '\n');
        }
        if i < pieces.len() - 1 {
            assert(ls[i] == chomp(piece));
            assert forall|j: int| 0 <= j < ls[i].len() implies #[trigger] ls[i][j] != '\n' by {
                assert(ls[i][j] == piece[j]);
            }
        } else {
            assert(ls[i] == piece);
        }
    }
}

/// Merging is idempotent: the merged log, merged once more by itself, is
/// the merged log. This holds where no line of the logs, as it is read,
/// ends with a carriage return. One carriage return before a line feed
/// belongs to the line ending and is no part of the line; a second one
/// before it is, and is taken for the line ending when the merged log is
/// read again.
pub proof fn lemma_sorted_log_idempotent(logs: Seq<Seq<char>>)
    requires
        forall|i: int|
            0 <= i < lines_of(concat(logs)).len() ==> !ends_with_return(
                #[trigger] lines_of(concat(logs))[i],
            ),
    ensures
        sorted_log(seq![sorted_log(logs)]) == sorted_log(logs),
{
    let incoming = lines_of(concat(logs));
    let merged = stable_sort(incoming);
    let text = terminated(merged);
    lemma_lines_hold_no_feed(concat(logs));
    lemma_sort_members(incoming);
    assert forall|i: int| 0 <= i < merged.len() implies holds_no_feed(#[trigger] merged[i])
        && !ends_with_return(merged[i]) by {
        assert(incoming.contains(merged[i]));
        let j = choose|j: int| 0 <= j < incoming.len() && incoming[j] == merged[i];
        assert(holds_no_feed(incoming[j]));
        assert(!ends_with_return(incoming[j]));
    }
    lemma_lines_of_terminated(merged);
    lemma_sort_idempotent(incoming);
    let one = seq![text];
    assert(one.drop_last() == Seq::<Seq<char>>::empty());
    assert(concat(one.drop_last()) == Seq::<char>::empty());
    assert(concat(one) == Seq::<char>::empty() + text);
    assert(Seq::<char>::empty() + text == text);
}

} // verus!
