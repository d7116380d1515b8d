//! The ignore file: rules that name repositories to leave out.
//!
//! A rule is a selector, a colon, and the value that the selector has to
//! have. The selector is one of:
//! - `*`: every repository
//! - `owner`: the owner of the repository
//! - `name`: the name of the repository
//! - `full_name`: owner and name with a slash between them
//! - `is_fork`: whether the repository is a fork, `true` or `false`
//!
//! A rule with a leading `!` is an inverted rule.
//!
//! Examples:
//! - `*:*`
//! - `name:rust`
//! - `!owner:rust-lang`
//! - `full_name:rust-lang/rust`
//! - `is_fork:true`

use crate::gh::{full_name_of, Repo, RepoView};
use crate::rules::bool_text;
use crate::text::{
    append_chars, chars_are, chars_of, debug_quote, debug_quoted, decimal, decimal_chars, find,
    find_char_from, lines, lines_of, slice_of, text_of, trim, trimmed, views,
};
use vstd::prelude::*;

verus! {

/// The field of a repository that a rule looks at.
#[derive(Debug, Clone, Copy, PartialEq, Eq)]
pub enum IgnoreSelector {
    All,
    Owner,
    Name,
    FullName,
    IsFork,
}

/// One rule: a selector and the value it asks for.
#[derive(Debug, Clone, PartialEq, Eq)]
pub struct IgnoreEntry {
    pub selector: IgnoreSelector,
    pub value: String,
}

/// The mathematical content of an [`IgnoreEntry`].
pub struct IgnoreEntryView {
    pub selector: IgnoreSelector,
    pub value: Seq<char>,
}

impl View for IgnoreEntry {
    type V = IgnoreEntryView;

    open spec fn view(&self) -> IgnoreEntryView {
        IgnoreEntryView { selector: self.selector, value: self.value@ }
    }
}

/// Why a rule could not be read.
#[derive(Debug, Clone, PartialEq, Eq)]
pub enum IgnoreFileErrorKind {
    /// What stands before the colon is no selector.
    InvalidSelector(Option<String>),
    /// `is_fork` with a value other than `true` or `false`.
    InvalidBool(String),
    /// A selector with nothing behind it.
    MissingValue(String),
}

/// The mathematical content of an [`IgnoreFileErrorKind`].
pub enum IgnoreFileErrorKindView {
    InvalidSelector(Option<Seq<char>>),
    InvalidBool(Seq<char>),
    MissingValue(Seq<char>),
}

impl View for IgnoreFileErrorKind {
    type V = IgnoreFileErrorKindView;

    open spec fn view(&self) -> IgnoreFileErrorKindView {
        match self {
            IgnoreFileErrorKind::InvalidSelector(Some(s)) => IgnoreFileErrorKindView::InvalidSelector(
                Some(s@),
            ),
            IgnoreFileErrorKind::InvalidSelector(None) => IgnoreFileErrorKindView::InvalidSelector(
                None,
            ),
            IgnoreFileErrorKind::InvalidBool(s) => IgnoreFileErrorKindView::InvalidBool(s@),
            IgnoreFileErrorKind::MissingValue(s) => IgnoreFileErrorKindView::MissingValue(s@),
        }
    }
}

/// A rule that could not be read, and the number of its line, counted from 1.
#[derive(Debug, Clone, PartialEq, Eq)]
pub struct IgnoreFileError {
    pub kind: IgnoreFileErrorKind,
    pub line: usize,
}

/// The mathematical content of an [`IgnoreFileError`].
pub struct IgnoreFileErrorView {
    pub kind: IgnoreFileErrorKindView,
    pub line: nat,
}

impl View for IgnoreFileError {
    type V = IgnoreFileErrorView;

    open spec fn view(&self) -> IgnoreFileErrorView {
        IgnoreFileErrorView { kind: self.kind@, line: self.line as nat }
    }
}

/// The rules of an ignore file: the plain ones and the inverted ones, each
/// list in the order of the file.
#[derive(Debug, Clone, PartialEq, Eq)]
pub struct IgnoreFile {
    pub entries: Vec<IgnoreEntry>,
    pub inverted_entries: Vec<IgnoreEntry>,
}

/// The mathematical content of an [`IgnoreFile`].
pub struct IgnoreFileView {
    pub entries: Seq<IgnoreEntryView>,
    pub inverted_entries: Seq<IgnoreEntryView>,
}

/// The views of a list of rules.
pub open spec fn ignore_views(entries: Seq<IgnoreEntry>) -> Seq<IgnoreEntryView> {
    Seq::new(entries.len(), |i: int| entries[i]@)
}

impl View for IgnoreFile {
    type V = IgnoreFileView;

    open spec fn view(&self) -> IgnoreFileView {
        IgnoreFileView {
            entries: ignore_views(self.entries@),
            inverted_entries: ignore_views(self.inverted_entries@),
        }
    }
}

/// What an ignore file says of one repository.
pub enum FilterResult<'a> {
    /// An inverted rule applies and no plain rule does.
    Keep(&'a IgnoreEntry),
    /// An inverted rule applies, and a plain rule too.
    Ignore(&'a IgnoreEntry, &'a IgnoreEntry),
    /// No inverted rule applies.
    Default,
}

/// The mathematical content of a [`FilterResult`].
pub enum FilterVerdict {
    Keep(IgnoreEntryView),
    Ignore(IgnoreEntryView, IgnoreEntryView),
    Default,
}

impl<'a> View for FilterResult<'a> {
    type V = FilterVerdict;

    open spec fn view(&self) -> FilterVerdict {
        match self {
            FilterResult::Keep(a) => FilterVerdict::Keep(a@),
            FilterResult::Ignore(a, b) => FilterVerdict::Ignore(a@, b@),
            FilterResult::Default => FilterVerdict::Default,
        }
    }
}

/// The selector that a token names.
pub open spec fn ignore_selector_of(token: Seq<char>) -> Option<IgnoreSelector> {
    if token == "*"@ {
        Some(IgnoreSelector::All)
    } else if token == "owner"@ {
        Some(IgnoreSelector::Owner)
    } else if token == "name"@ {
        Some(IgnoreSelector::Name)
    } else if token == "full_name"@ {
        Some(IgnoreSelector::FullName)
    } else if token == "is_fork"@ {
        Some(IgnoreSelector::IsFork)
    } else {
        None
    }
}

/// The rules so far with one more line read; `number` is the number of the
/// line. Blank lines and lines that start with `#` change nothing. The
/// selector is what stands before the first colon, the value all that
/// follows it, which may not be empty; a `!` before the selector makes the
/// rule an inverted one.
pub open spec fn read_ignore_line(acc: IgnoreFileView, raw: Seq<char>, number: nat) -> Result<
    IgnoreFileView,
    IgnoreFileErrorView,
> {
    let line = trimmed(raw);
    if line.len() == 0 || line[0] == '#' {
        Ok(acc)
    } else {
        let colon = find(line, ':');
        let head = line.take(colon);
        let inverted = head.len() > 0 && head[0] == '!';
        let token = if inverted {
            head.skip(1)
        } else {
            head
        };
        match ignore_selector_of(token) {
            None => Err(
                IgnoreFileErrorView {
                    kind: IgnoreFileErrorKindView::InvalidSelector(Some(token)),
                    line: number,
                },
            ),
            Some(selector) => {
                if colon + 1 >= line.len() {
                    Err(
                        IgnoreFileErrorView {
                            kind: IgnoreFileErrorKindView::MissingValue(line),
                            line: number,
                        },
                    )
                } else {
                    let value = line.skip(colon + 1);
                    if selector == IgnoreSelector::IsFork && value != "true"@ && value
                        != "false"@ {
                        Err(
                            IgnoreFileErrorView {
                                kind: IgnoreFileErrorKindView::InvalidBool(value),
                                line: number,
                            },
                        )
                    } else if inverted {
                        Ok(
                            IgnoreFileView {
                                entries: acc.entries,
                                inverted_entries: acc.inverted_entries.push(
                                    IgnoreEntryView { selector, value },
                                ),
                            },
                        )
                    } else {
                        Ok(
                            IgnoreFileView {
                                entries: acc.entries.push(IgnoreEntryView { selector, value }),
                                inverted_entries: acc.inverted_entries,
                            },
                        )
                    }
                }
            },
        }
    }
}

/// The rules of a list of lines, or the error of the first line that cannot
/// be read, with its number.
pub open spec fn read_ignore_lines(ls: Seq<Seq<char>>) -> Result<
    IgnoreFileView,
    IgnoreFileErrorView,
>
    decreases ls.len(),
{
    if ls.len() == 0 {
        Ok(IgnoreFileView { entries: seq![], inverted_entries: seq![] })
    } else {
        match read_ignore_lines(ls.drop_last()) {
            Ok(acc) => read_ignore_line(acc, ls.last(), ls.len()),
            Err(e) => Err(e),
        }
    }
}

/// The rules that the text of an ignore file holds, one to a line.
pub open spec fn parse_ignore_file(text: Seq<char>) -> Result<IgnoreFileView, IgnoreFileErrorView> {
    read_ignore_lines(lines_of(text))
}

/// Whether a rule applies to a repository. `*` applies to all; `owner` and
/// `name` compare texts; `full_name` compares the identity of the
/// repository, which is the full name the service gave, else owner and name
/// with a slash between them; `is_fork` compares the text of the flag.
pub open spec fn ignore_matches(e: IgnoreEntryView, r: RepoView) -> bool {
    match e.selector {
        IgnoreSelector::All => true,
        IgnoreSelector::Owner => r.owner == e.value,
        IgnoreSelector::Name => r.name == e.value,
        IgnoreSelector::FullName => full_name_of(r) == e.value,
        IgnoreSelector::IsFork => bool_text(r.fork) == e.value,
    }
}

/// The index of the first rule at or after `i` that applies to `r`.
pub open spec fn first_ignore_from(entries: Seq<IgnoreEntryView>, r: RepoView, i: int) -> Option<
    int,
>
    decreases entries.len() - i,
{
    if i < 0 || i >= entries.len() {
        None
    } else if ignore_matches(entries[i], r) {
        Some(i)
    } else {
        first_ignore_from(entries, r, i + 1)
    }
}

/// What an ignore file says of a repository: nothing where no inverted rule
/// applies; else keep it where no plain rule applies; else leave it out.
pub open spec fn filter_verdict(file: IgnoreFileView, r: RepoView) -> FilterVerdict {
    match first_ignore_from(file.inverted_entries, r, 0) {
        None => FilterVerdict::Default,
        Some(i) => match first_ignore_from(file.entries, r, 0) {
            None => FilterVerdict::Keep(file.inverted_entries[i]),
            Some(j) => FilterVerdict::Ignore(file.inverted_entries[i], file.entries[j]),
        },
    }
}

/// A rule in words.
pub open spec fn ignore_described(e: IgnoreEntryView) -> Seq<char> {
    match e.selector {
        IgnoreSelector::All => "* is enabled"@,
        IgnoreSelector::Owner => "owner is "@ + debug_quoted(e.value),
        IgnoreSelector::Name => "name is "@ + debug_quoted(e.value),
        IgnoreSelector::FullName => "full_name is "@ + debug_quoted(e.value),
        IgnoreSelector::IsFork => "repository is a fork"@,
    }
}

/// Why a rule could not be read, in words.
pub open spec fn ignore_kind_message(k: IgnoreFileErrorKindView) -> Seq<char> {
    match k {
        IgnoreFileErrorKindView::InvalidSelector(Some(token)) => "Invalid selector: Some("@
            + debug_quoted(token) + ")"@,
        IgnoreFileErrorKindView::InvalidSelector(None) => "Invalid selector: None"@,
        IgnoreFileErrorKindView::InvalidBool(value) => "Value must be a bool: "@ + value,
        IgnoreFileErrorKindView::MissingValue(line) => "Selector has no value: "@ + line,
    }
}

/// A rule that could not be read, in words: the number of the line, then
/// what is wrong with it.
pub open spec fn ignore_error_message(e: IgnoreFileErrorView) -> Seq<char> {
    "line "@ + decimal(e.line) + ": "@ + ignore_kind_message(e.kind)
}

/// Once a line cannot be read, the lines behind it change nothing.
pub proof fn lemma_read_ignore_lines_error(ls: Seq<Seq<char>>, i: int)
    requires
        0 <= i <= ls.len(),
        read_ignore_lines(ls.take(i)) is Err,
    ensures
        read_ignore_lines(ls) == read_ignore_lines(ls.take(i)),
    decreases ls.len() - i,
{
    if i < ls.len() {
        assert(ls.take(i + 1).drop_last() == ls.take(i));
        lemma_read_ignore_lines_error(ls, i + 1);
    } else {
        assert(ls.take(i) == ls);
    }
}

/// The first match is a rule that applies, and no rule before it does.
pub proof fn lemma_first_ignore_from(entries: Seq<IgnoreEntryView>, r: RepoView, i: int)
    requires
        0 <= i <= entries.len(),
    ensures
        match first_ignore_from(entries, r, i) {
            Some(k) => i <= k < entries.len() && ignore_matches(entries[k], r) && forall|j: int|
                i <= j < k ==> !ignore_matches(#[trigger] entries[j], r),
            None => forall|j: int|
                i <= j < entries.len() ==> !ignore_matches(#[trigger] entries[j], r),
        },
    decreases entries.len() - i,
{
    if i < entries.len() && !ignore_matches(entries[i], r) {
        lemma_first_ignore_from(entries, r, i + 1);
    }
}

/// A repository is kept exactly if an inverted rule applies to it and no
/// plain rule does.
pub proof fn lemma_filter_keeps(file: IgnoreFileView, r: RepoView)
    ensures
        filter_verdict(file, r) is Keep <==> (exists|i: int|
            0 <= i < file.inverted_entries.len() && ignore_matches(
                #[trigger] file.inverted_entries[i],
                r,
            )) && (forall|j: int|
            0 <= j < file.entries.len() ==> !ignore_matches(#[trigger] file.entries[j], r)),
{
    lemma_first_ignore_from(file.inverted_entries, r, 0);
    lemma_first_ignore_from(file.entries, r, 0);
}

impl<'a> FilterResult<'a> {
    /// Whether the repository is kept.
    pub fn keep(&self) -> (b: bool)
        ensures
            b == (self@ is Keep),
    {
        match self {
            FilterResult::Keep(_) => true,
            _ => false,
        }
    }
}

/// `true` or `false`, as text.
fn bool_string(b: bool) -> (r: String)
    ensures
        r@ == bool_text(b),
{
    if b {
        "true".to_string()
    } else {
        "false".to_string()
    }
}

impl IgnoreEntry {
    /// The rule in words, as [`ignore_described`] gives it.
    pub fn describe(&self) -> (r: String)
        ensures
            r@ == ignore_described(self@),
    {
        let name = match self.selector {
            IgnoreSelector::All => {
                return "* is enabled".to_string();
            },
            IgnoreSelector::Owner => "owner is ",
            IgnoreSelector::Name => "name is ",
            IgnoreSelector::FullName => "full_name is ",
            IgnoreSelector::IsFork => {
                return "repository is a fork".to_string();
            },
        };
        let mut r = name.to_string();
        let quoted = debug_quote(self.value.as_str());
        r.append(quoted.as_str());
        r
    }

    /// A rule with the given selector and value. Nothing is asked of the
    /// value.
    pub fn new(selector: IgnoreSelector, value: &str) -> (e: IgnoreEntry)
        ensures
            e@ == (IgnoreEntryView { selector, value: value@ }),
    {
        IgnoreEntry { selector, value: value.to_string() }
    }

    /// Whether the rule applies to the repository, see [`ignore_matches`].
    pub fn matches(&self, repo: &Repo) -> (b: bool)
        ensures
            b == ignore_matches(self@, repo@),
    {
        match self.selector {
            IgnoreSelector::All => true,
            IgnoreSelector::Owner => repo.owner.login == self.value,
            IgnoreSelector::Name => repo.name == self.value,
            IgnoreSelector::FullName => repo.full_name() == self.value,
            IgnoreSelector::IsFork => bool_string(repo.fork) == self.value,
        }
    }
}

/// The first rule of a list that applies to the repository.
fn find_ignore(entries: &Vec<IgnoreEntry>, repo: &Repo) -> (r: Option<usize>)
    ensures
        match r {
            Some(i) => first_ignore_from(ignore_views(entries@), repo@, 0) == Some(i as int) && i
                < entries.len(),
            None => first_ignore_from(ignore_views(entries@), repo@, 0) == None::<int>,
        },
{
    let mut i: usize = 0;
    while i < entries.len()
        invariant
            i <= entries.len(),
            first_ignore_from(ignore_views(entries@), repo@, i as int) == first_ignore_from(
                ignore_views(entries@),
                repo@,
                0,
            ),
        decreases entries.len() - i,
    {
        if entries[i].matches(repo) {
            return Some(i);
        }
        i += 1;
    }
    None
}

impl IgnoreFile {
    /// An ignore file without rules.
    pub fn new() -> (r: IgnoreFile)
        ensures
            r.entries@.len() == 0,
            r.inverted_entries@.len() == 0,
    {
        IgnoreFile { entries: Vec::new(), inverted_entries: Vec::new() }
    }

    /// Reads the rules of an ignore file; see [`parse_ignore_file`]. Every
    /// text gives either rules or the error of its first bad line.
    pub fn parse(text: &str) -> (r: Result<IgnoreFile, IgnoreFileError>)
        ensures
            match r {
                Ok(file) => parse_ignore_file(text@) == Ok::<IgnoreFileView, IgnoreFileErrorView>(
                    file@,
                ),
                Err(e) => parse_ignore_file(text@) == Err::<IgnoreFileView, IgnoreFileErrorView>(
                    e@,
                ),
            },
    {
        let chars = chars_of(text);
        let ls = lines(&chars);
        let ghost all = views(ls@);
        let mut file = IgnoreFile::new();
        let mut i: usize = 0;
        assert(file@.entries == Seq::<IgnoreEntryView>::empty());
        assert(file@.inverted_entries == Seq::<IgnoreEntryView>::empty());
        while i < ls.len()
            invariant
                i <= ls.len(),
                all == views(ls@),
                all == lines_of(text@),
                read_ignore_lines(all.take(i as int)) == Ok::<IgnoreFileView, IgnoreFileErrorView>(
                    file@,
                ),
            decreases ls.len() - i,
        {
            proof {
                assert(all.take(i + 1).drop_last() == all.take(i as int));
                assert(all.take(i + 1).last() == ls@[i as int]@);
            }
            let line = trim(&ls[i]);
            if line.len() == 0 || line[0] == '#' {
            } else {
                let colon = find_char_from(&line, ':', 0);
                let head = slice_of(&line, 0, colon);
                let inverted = head.len() > 0 && head[0] == '!';
                let token = if inverted {
                    slice_of(&head, 1, head.len())
                } else {
                    slice_of(&head, 0, head.len())
                };
                assert(!inverted ==> token@ == head@) by {
                    assert(head@.subrange(0, head.len() as int) == head@);
                }
                let found = if chars_are(&token, "*") {
                    Some(IgnoreSelector::All)
                } else if chars_are(&token, "owner") {
                    Some(IgnoreSelector::Owner)
                } else if chars_are(&token, "name") {
                    Some(IgnoreSelector::Name)
                } else if chars_are(&token, "full_name") {
                    Some(IgnoreSelector::FullName)
                } else if chars_are(&token, "is_fork") {
                    Some(IgnoreSelector::IsFork)
                } else {
                    None
                };
                let bad = match found {
                    None => Some(IgnoreFileErrorKind::InvalidSelector(Some(text_of(&token)))),
                    Some(selector) => {
                        if colon >= line.len() || colon + 1 >= line.len() {
                            Some(IgnoreFileErrorKind::MissingValue(text_of(&line)))
                        } else {
                            let value = slice_of(&line, colon + 1, line.len());
                            let is_fork = match selector {
                                IgnoreSelector::IsFork => true,
                                _ => false,
                            };
                            if is_fork && !chars_are(&value, "true") && !chars_are(
                                &value,
                                "false",
                            ) {
                                Some(IgnoreFileErrorKind::InvalidBool(text_of(&value)))
                            } else {
                                let entry = IgnoreEntry { selector, value: text_of(&value) };
                                if inverted {
                                    let ghost before = ignore_views(file.inverted_entries@);
                                    file.inverted_entries.push(entry);
                                    assert(ignore_views(file.inverted_entries@) == before.push(
                                        entry@,
                                    ));
                                } else {
                                    let ghost before = ignore_views(file.entries@);
                                    file.entries.push(entry);
                                    assert(ignore_views(file.entries@) == before.push(entry@));
                                }
                                None
                            }
                        }
                    },
                };
                match bad {
                    Some(kind) => {
                        let e = IgnoreFileError { kind, line: i + 1 };
                        proof {
                            assert(read_ignore_lines(all.take(i + 1)) == Err::<
                                IgnoreFileView,
                                IgnoreFileErrorView,
                            >(e@));
                            lemma_read_ignore_lines_error(all, i + 1);
                        }
                        return Err(e);
                    },
                    None => {},
                }
            }
            i += 1;
        }
        proof {
            assert(all.take(ls.len() as int) == all);
        }
        Ok(file)
    }

    /// What the ignore file says of a repository, with the rules that
    /// decide it; see [`filter_verdict`].
    pub fn is_ignored<'a>(&'a self, repo: &Repo) -> (r: FilterResult<'a>)
        ensures
            r@ == filter_verdict(self@, repo@),
    {
        match find_ignore(&self.inverted_entries, repo) {
            None => FilterResult::Default,
            Some(i) => match find_ignore(&self.entries, repo) {
                None => FilterResult::Keep(&self.inverted_entries[i]),
                Some(j) => FilterResult::Ignore(&self.inverted_entries[i], &self.entries[j]),
            },
        }
    }
}

impl IgnoreFileErrorKind {
    /// What is wrong with the rule, in words; see [`ignore_kind_message`].
    pub fn message(&self) -> (r: String)
        ensures
            r@ == ignore_kind_message(self@),
    {
        match self {
            IgnoreFileErrorKind::InvalidSelector(Some(token)) => {
                let mut r = "Invalid selector: Some(".to_string();
                r.append(debug_quote(token.as_str()).as_str());
                r.append(")");
                r
            },
            IgnoreFileErrorKind::InvalidSelector(None) => "Invalid selector: None".to_string(),
            IgnoreFileErrorKind::InvalidBool(value) => {
                let mut r = "Value must be a bool: ".to_string();
                r.append(value.as_str());
                r
            },
            IgnoreFileErrorKind::MissingValue(line) => {
                let mut r = "Selector has no value: ".to_string();
                r.append(line.as_str());
                r
            },
        }
    }
}

impl IgnoreFileError {
    /// The error in words, with the number of its line; see
    /// [`ignore_error_message`].
    pub fn message(&self) -> (r: String)
        ensures
            r@ == ignore_error_message(self@),
    {
        let mut buf = chars_of("line ");
        let digits = decimal_chars(self.line as u64);
        append_chars(&mut buf, &digits);
        let mut r = text_of(&buf);
        r.append(": ");
        r.append(self.kind.message().as_str());
        r
    }
}

impl Default for IgnoreFile {
    fn default() -> (r: IgnoreFile)
        ensures
            r.entries@.len() == 0,
            r.inverted_entries@.len() == 0,
    {
        IgnoreFile::new()
    }
}

impl From<(usize, IgnoreFileErrorKind)> for IgnoreFileError {
    fn from(at: (usize, IgnoreFileErrorKind)) -> (e: IgnoreFileError) {
        IgnoreFileError { kind: at.1, line: at.0 }
    }
}

impl vstd::std_specs::convert::FromSpecImpl<(usize, IgnoreFileErrorKind)> for IgnoreFileError {
    open spec fn obeys_from_spec() -> bool {
        true
    }

    open spec fn from_spec(at: (usize, IgnoreFileErrorKind)) -> IgnoreFileError {
        IgnoreFileError { kind: at.1, line: at.0 }
    }
}

impl core::str::FromStr for IgnoreFile {
    type Err = IgnoreFileError;

    /// Reads the rules of an ignore file; see [`parse_ignore_file`].
    fn from_str(text: &str) -> (r: Result<IgnoreFile, IgnoreFileError>)
        ensures
            match r {
                Ok(file) => parse_ignore_file(text@) == Ok::<IgnoreFileView, IgnoreFileErrorView>(
                    file@,
                ),
                Err(e) => parse_ignore_file(text@) == Err::<IgnoreFileView, IgnoreFileErrorView>(
                    e@,
                ),
            },
    {
        IgnoreFile::parse(text)
    }
}

} // verus!
