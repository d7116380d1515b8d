//! The rules that select repositories.
//!
//! A rule is a selector, a colon, and the value that the selector has to
//! have. The selector is one of:
//! - `*`: every repository
//! - `owner`: the owner of the repository
//! - `name`: the name of the repository
//! - `full_name`: owner and name with a slash between them
//! - `is_fork`: whether the repository is a fork, `true` or `false`
//! - `public`: whether the repository is public, `true` or `false`
//!
//! A rule with a leading `!` takes repositories out again. A repository is
//! kept if a rule selects it and none takes it out; one that no rule selects
//! is dropped.
//!
//! Examples:
//! - `*:*`
//! - `name:rust`
//! - `!owner:rust-lang`
//! - `full_name:rust-lang/rust`
//! - `is_fork:true`
//! - `public:false`

use crate::github::{full_name_of, Repo, RepoView};
use crate::text::{
    append_chars, chars_are, chars_of, debug_quote, debug_quoted, decimal, decimal_chars, find,
    find_char_from, lines, lines_of, slice_of, string_views, text_of, trim, trimmed, views,
};
use vstd::prelude::*;

verus! {

/// The field of a repository that a rule looks at.
#[derive(Debug, Clone, Copy, PartialEq, Eq)]
pub enum Selector {
    All,
    Owner,
    Name,
    FullName,
    IsFork,
    Public,
}

/// One rule: a selector and the value it asks for.
#[derive(Debug, Clone, PartialEq, Eq)]
pub struct Entry {
    pub selector: Selector,
    pub value: String,
}

/// The mathematical content of an [`Entry`].
pub struct EntryView {
    pub selector: Selector,
    pub value: Seq<char>,
}

impl View for Entry {
    type V = EntryView;

    open spec fn view(&self) -> EntryView {
        EntryView { selector: self.selector, value: self.value@ }
    }
}

/// Why a rule could not be read.
#[derive(Debug, Clone, PartialEq, Eq)]
pub enum ErrorKind {
    /// What stands before the colon is no selector.
    InvalidSelector(Option<String>),
    /// `is_fork` or `public` with a value other than `true` or `false`.
    InvalidBool(String),
    /// A selector with nothing behind it.
    MissingValue(String),
}

/// The mathematical content of an [`ErrorKind`].
pub enum ErrorKindView {
    InvalidSelector(Option<Seq<char>>),
    InvalidBool(Seq<char>),
    MissingValue(Seq<char>),
}

impl View for ErrorKind {
    type V = ErrorKindView;

    open spec fn view(&self) -> ErrorKindView {
        match self {
            ErrorKind::InvalidSelector(Some(s)) => ErrorKindView::InvalidSelector(Some(s@)),
            ErrorKind::InvalidSelector(None) => ErrorKindView::InvalidSelector(None),
            ErrorKind::InvalidBool(s) => ErrorKindView::InvalidBool(s@),
            ErrorKind::MissingValue(s) => ErrorKindView::MissingValue(s@),
        }
    }
}

/// A rule that could not be read, and the number of its line, counted from 1.
#[derive(Debug, Clone, PartialEq, Eq)]
pub struct Error {
    pub kind: ErrorKind,
    pub line: usize,
}

/// The mathematical content of an [`Error`].
pub struct ErrorView {
    pub kind: ErrorKindView,
    pub line: nat,
}

impl View for Error {
    type V = ErrorView;

    open spec fn view(&self) -> ErrorView {
        ErrorView { kind: self.kind@, line: self.line as nat }
    }
}

/// The rules of one or more sources: those that select, and those that take
/// out again, each list in the order in which the rules were read.
#[derive(Debug, Clone, PartialEq, Eq)]
pub struct RuleSet {
    pub includes: Vec<Entry>,
    pub excludes: Vec<Entry>,
}

/// The mathematical content of a [`RuleSet`].
pub struct RuleSetView {
    pub includes: Seq<EntryView>,
    pub excludes: Seq<EntryView>,
}

/// The views of a list of rules.
pub open spec fn entry_views(entries: Seq<Entry>) -> Seq<EntryView> {
    Seq::new(entries.len(), |i: int| entries[i]@)
}

impl View for RuleSet {
    type V = RuleSetView;

    open spec fn view(&self) -> RuleSetView {
        RuleSetView {
            includes: entry_views(self.includes@),
            excludes: entry_views(self.excludes@),
        }
    }
}

/// What the rules say of one repository.
pub enum IncludeResult<'a> {
    /// A rule selects the repository and none takes it out.
    Include(&'a Entry),
    /// A rule selects the repository but another takes it out.
    Exclude(&'a Entry, &'a Entry),
    /// No rule selects the repository, so it is dropped.
    Default,
}

/// The mathematical content of an [`IncludeResult`].
pub enum Verdict {
    Include(EntryView),
    Exclude(EntryView, EntryView),
    Default,
}

impl<'a> View for IncludeResult<'a> {
    type V = Verdict;

    open spec fn view(&self) -> Verdict {
        match self {
            IncludeResult::Include(a) => Verdict::Include(a@),
            IncludeResult::Exclude(a, b) => Verdict::Exclude(a@, b@),
            IncludeResult::Default => Verdict::Default,
        }
    }
}

/// The selector that a token names.
pub open spec fn selector_of(token: Seq<char>) -> Option<Selector> {
    if token == "*"@ {
        Some(Selector::All)
    } else if token == "owner"@ {
        Some(Selector::Owner)
    } else if token == "name"@ {
        Some(Selector::Name)
    } else if token == "full_name"@ {
        Some(Selector::FullName)
    } else if token == "is_fork"@ {
        Some(Selector::IsFork)
    } else if token == "public"@ {
        Some(Selector::Public)
    } else {
        None
    }
}

/// The selectors whose value is `true` or `false`.
pub open spec fn is_bool_selector(s: Selector) -> bool {
    s == Selector::IsFork || s == Selector::Public
}

/// The text of a truth value.
pub open spec fn bool_text(b: bool) -> Seq<char> {
    if b {
        "true"@
    } else {
        "false"@
    }
}

/// What a rule reads as. The selector is what stands before the first colon
/// and has to be one of the six tokens, exactly. The value is all that
/// follows that colon, further colons too, and may not be empty; for
/// `is_fork` and `public` it is `true` or `false`.
pub open spec fn parse_entry(line: Seq<char>) -> Result<EntryView, ErrorKindView> {
    let colon = find(line, ':');
    let token = line.take(colon);
    match selector_of(token) {
        None => Err(ErrorKindView::InvalidSelector(Some(token))),
        Some(selector) => {
            if colon + 1 >= line.len() {
                Err(ErrorKindView::MissingValue(line))
            } else {
                let value = line.skip(colon + 1);
                if is_bool_selector(selector) && value != "true"@ && value != "false"@ {
                    Err(ErrorKindView::InvalidBool(value))
                } else {
                    Ok(EntryView { selector, value })
                }
            }
        },
    }
}

/// A rule as a rule file can hold it: the value is not empty, and that of
/// `is_fork` and `public` is `true` or `false`.
pub open spec fn well_formed(e: EntryView) -> bool {
    &&& e.value.len() > 0
    &&& is_bool_selector(e.selector) ==> e.value == "true"@ || e.value == "false"@
}

/// The rules so far with one more line read. Blank lines and lines that
/// start with `#` change nothing; a line that starts with `!` adds to the
/// rules that take out, any other to those that select.
pub open spec fn read_line(acc: RuleSetView, raw: Seq<char>, number: nat) -> Result<
    RuleSetView,
    ErrorView,
> {
    let line = trimmed(raw);
    if line.len() == 0 || line[0] == '#' {
        Ok(acc)
    } else if line[0] == '!' {
        match parse_entry(line.skip(1)) {
            Ok(e) => Ok(RuleSetView { includes: acc.includes, excludes: acc.excludes.push(e) }),
            Err(kind) => Err(ErrorView { kind, line: number }),
        }
    } else {
        match parse_entry(line) {
            Ok(e) => Ok(RuleSetView { includes: acc.includes.push(e), excludes: acc.excludes }),
            Err(kind) => Err(ErrorView { kind, line: number }),
        }
    }
}

/// The rules of a list of lines, or the error of the first line that cannot
/// be read, with its number.
pub open spec fn read_lines(ls: Seq<Seq<char>>) -> Result<RuleSetView, ErrorView>
    decreases ls.len(),
{
    if ls.len() == 0 {
        Ok(RuleSetView { includes: seq![], excludes: seq![] })
    } else {
        match read_lines(ls.drop_last()) {
            Ok(acc) => read_line(acc, ls.last(), ls.len()),
            Err(e) => Err(e),
        }
    }
}

/// The rules that a text holds, one to a line.
pub open spec fn parse_rules(text: Seq<char>) -> Result<RuleSetView, ErrorView> {
    read_lines(lines_of(text))
}

/// Whether a rule applies to a repository. `*` applies to all; `owner`,
/// `name` and `full_name` compare texts; `is_fork` and `public` compare the
/// text of the repository's flag.
pub open spec fn entry_matches(e: EntryView, r: RepoView) -> bool {
    match e.selector {
        Selector::All => true,
        Selector::Owner => r.owner == e.value,
        Selector::Name => r.name == e.value,
        Selector::FullName => full_name_of(r) == e.value,
        Selector::IsFork => bool_text(r.fork) == e.value,
        Selector::Public => bool_text(!r.private) == e.value,
    }
}

/// The index of the first rule at or after `i` that applies to `r`.
pub open spec fn first_match_from(entries: Seq<EntryView>, r: RepoView, i: int) -> Option<int>
    decreases entries.len() - i,
{
    if i < 0 || i >= entries.len() {
        None
    } else if entry_matches(entries[i], r) {
        Some(i)
    } else {
        first_match_from(entries, r, i + 1)
    }
}

/// The index of the first rule that applies to `r`.
pub open spec fn first_match(entries: Seq<EntryView>, r: RepoView) -> Option<int> {
    first_match_from(entries, r, 0)
}

/// What the rules say of a repository: dropped by default where no rule
/// selects it; else taken out where a rule takes it out; else kept.
pub open spec fn evaluate(rules: RuleSetView, r: RepoView) -> Verdict {
    match first_match(rules.includes, r) {
        None => Verdict::Default,
        Some(i) => match first_match(rules.excludes, r) {
            None => Verdict::Include(rules.includes[i]),
            Some(j) => Verdict::Exclude(rules.includes[i], rules.excludes[j]),
        },
    }
}

/// Whether the rules keep a repository.
pub open spec fn keeps(rules: RuleSetView, r: RepoView) -> bool {
    evaluate(rules, r) is Include
}

/// The repositories of a list that the rules keep, in their order.
pub open spec fn kept(rules: RuleSetView, repos: Seq<Repo>) -> Seq<Repo>
    decreases repos.len(),
{
    if repos.len() == 0 {
        seq![]
    } else if keeps(rules, repos.last()@) {
        kept(rules, repos.drop_last()).push(repos.last())
    } else {
        kept(rules, repos.drop_last())
    }
}

/// The name of a selector in a rule file.
pub open spec fn selector_name(s: Selector) -> Seq<char> {
    match s {
        Selector::All => "*"@,
        Selector::Owner => "owner"@,
        Selector::Name => "name"@,
        Selector::FullName => "full_name"@,
        Selector::IsFork => "is_fork"@,
        Selector::Public => "public"@,
    }
}

/// A rule in words: the selector, ` is `, and the value in quotes.
pub open spec fn described(e: EntryView) -> Seq<char> {
    match e.selector {
        Selector::All => "* is enabled"@,
        _ => selector_name(e.selector) + " is "@ + debug_quoted(e.value),
    }
}

/// The name under which a decision speaks of a repository: the full name
/// that the service gave, else the plain name.
pub open spec fn label_of(r: RepoView) -> Seq<char> {
    match r.full_name {
        Some(n) => n,
        None => r.name,
    }
}

/// The decision on a repository in words, with the rules that made it.
pub open spec fn explanation(rules: RuleSetView, r: RepoView) -> Seq<char> {
    match evaluate(rules, r) {
        Verdict::Include(a) => "including repo "@ + label_of(r) + ": "@ + described(a),
        Verdict::Exclude(a, b) => "excluding repo "@ + label_of(r) + ": "@ + described(a)
            + " but "@ + described(b),
        Verdict::Default => "ignoring repo "@ + label_of(r) + ": no rules matched"@,
    }
}

/// Why a rule could not be read, in words.
pub open spec fn kind_message(k: ErrorKindView) -> Seq<char> {
    match k {
        ErrorKindView::InvalidSelector(Some(token)) => "Invalid selector: Some("@ + debug_quoted(
            token,
        ) + ")"@,
        ErrorKindView::InvalidSelector(None) => "Invalid selector: None"@,
        ErrorKindView::InvalidBool(value) => "Value must be a bool: "@ + value,
        ErrorKindView::MissingValue(line) => "Selector has no value: "@ + line,
    }
}

/// A rule that could not be read, in words: the number of the line, then
/// what is wrong with it.
pub open spec fn error_message(e: ErrorView) -> Seq<char> {
    "line "@ + decimal(e.line) + ": "@ + kind_message(e.kind)
}

/// The decisions on the repositories of a list in words, one for each, in
/// the order of the list.
pub open spec fn explanations(rules: RuleSetView, repos: Seq<Repo>) -> Seq<Seq<char>> {
    Seq::new(repos.len(), |i: int| explanation(rules, repos[i]@))
}

/// The first match is a rule that applies, and no rule before it does.
pub proof fn lemma_first_match_from(entries: Seq<EntryView>, r: RepoView, i: int)
    requires
        0 <= i <= entries.len(),
    ensures
        match first_match_from(entries, r, i) {
            Some(k) => i <= k < entries.len() && entry_matches(entries[k], r) && forall|j: int|
                i <= j < k ==> !entry_matches(#[trigger] entries[j], r),
            None => forall|j: int| i <= j < entries.len() ==> !entry_matches(#[trigger] entries[j], r),
        },
    decreases entries.len() - i,
{
    if i < entries.len() && !entry_matches(entries[i], r) {
        lemma_first_match_from(entries, r, i + 1);
    }
}

/// A rule that takes a repository out wins over every rule that selects it.
pub proof fn lemma_exclude_overrides(rules: RuleSetView, r: RepoView, i: int, j: int)
    requires
        0 <= i < rules.includes.len(),
        0 <= j < rules.excludes.len(),
        entry_matches(rules.includes[i], r),
        entry_matches(rules.excludes[j], r),
    ensures
        evaluate(rules, r) is Exclude,
        !keeps(rules, r),
{
    lemma_first_match_from(rules.includes, r, 0);
    lemma_first_match_from(rules.excludes, r, 0);
}

/// A repository that no rule selects is dropped by default, whatever the
/// rules that take out say.
pub proof fn lemma_default_without_match(rules: RuleSetView, r: RepoView)
    requires
        forall|i: int| 0 <= i < rules.includes.len() ==> !entry_matches(rules.includes[i], r),
    ensures
        evaluate(rules, r) is Default,
        !keeps(rules, r),
{
    lemma_first_match_from(rules.includes, r, 0);
}

/// A repository is kept exactly if some rule selects it and none takes it
/// out; the order of the rules plays no part in that.
pub proof fn lemma_keeps(rules: RuleSetView, r: RepoView)
    ensures
        keeps(rules, r) <==> (exists|i: int|
            0 <= i < rules.includes.len() && entry_matches(#[trigger] rules.includes[i], r))
            && (forall|j: int|
            0 <= j < rules.excludes.len() ==> !entry_matches(#[trigger] rules.excludes[j], r)),
{
    lemma_first_match_from(rules.includes, r, 0);
    lemma_first_match_from(rules.excludes, r, 0);
}

/// The rules of two sources as one: the rules of the second behind those of
/// the first, list by list.
pub open spec fn rules_of_both(a: RuleSetView, b: RuleSetView) -> RuleSetView {
    RuleSetView { includes: a.includes + b.includes, excludes: a.excludes + b.excludes }
}

/// Which source comes first makes no difference to what is kept. And what
/// the rules of both sources keep, the rules of one of them keep already: a
/// second source can take repositories out, but it puts none in that its own
/// rules do not keep.
pub proof fn lemma_merge_order_is_free(a: RuleSetView, b: RuleSetView, r: RepoView)
    ensures
        keeps(rules_of_both(a, b), r) <==> keeps(rules_of_both(b, a), r),
        keeps(rules_of_both(a, b), r) ==> keeps(a, r) || keeps(b, r),
{
    let ab = rules_of_both(a, b);
    let ba = rules_of_both(b, a);
    lemma_keeps(ab, r);
    lemma_keeps(ba, r);
    lemma_keeps(a, r);
    lemma_keeps(b, r);
    if keeps(ab, r) {
        let i = choose|i: int| 0 <= i < ab.includes.len() && entry_matches(ab.includes[i], r);
        if i < a.includes.len() {
            assert(ba.includes[b.includes.len() + i] == a.includes[i]);
            assert(entry_matches(a.includes[i], r));
        } else {
            assert(ba.includes[i - a.includes.len()] == b.includes[i - a.includes.len()]);
            assert(entry_matches(b.includes[i - a.includes.len()], r));
        }
        assert forall|j: int| 0 <= j < ba.excludes.len() implies !entry_matches(
            #[trigger] ba.excludes[j],
            r,
        ) by {
            if j < b.excludes.len() {
                assert(ab.excludes[a.excludes.len() + j] == ba.excludes[j]);
            } else {
                assert(ab.excludes[j - b.excludes.len()] == ba.excludes[j]);
            }
        }
        assert forall|j: int| 0 <= j < a.excludes.len() implies !entry_matches(
            #[trigger] a.excludes[j],
            r,
        ) by {
            assert(ab.excludes[j] == a.excludes[j]);
        }
        assert forall|j: int| 0 <= j < b.excludes.len() implies !entry_matches(
            #[trigger] b.excludes[j],
            r,
        ) by {
            assert(ab.excludes[a.excludes.len() + j] == b.excludes[j]);
        }
    }
    if keeps(ba, r) {
        let i = choose|i: int| 0 <= i < ba.includes.len() && entry_matches(ba.includes[i], r);
        if i < b.includes.len() {
            assert(ab.includes[a.includes.len() + i] == b.includes[i]);
        } else {
            assert(ab.includes[i - b.includes.len()] == a.includes[i - b.includes.len()]);
        }
        assert forall|j: int| 0 <= j < ab.excludes.len() implies !entry_matches(
            #[trigger] ab.excludes[j],
            r,
        ) by {
            if j < a.excludes.len() {
                assert(ba.excludes[b.excludes.len() + j] == ab.excludes[j]);
            } else {
                assert(ba.excludes[j - a.excludes.len()] == ab.excludes[j]);
            }
        }
    }
}

/// Without rules, and with rules that only take out, every repository is
/// dropped.
pub proof fn lemma_empty_rules_drop_all(rules: RuleSetView, r: RepoView)
    requires
        rules.includes.len() == 0,
    ensures
        evaluate(rules, r) is Default,
{
}

/// Rules none of which selects keep no repository of a list, whatever the
/// list holds.
pub proof fn lemma_kept_without_rules(rules: RuleSetView, repos: Seq<Repo>)
    requires
        rules.includes.len() == 0,
    ensures
        kept(rules, repos) == Seq::<Repo>::empty(),
    decreases repos.len(),
{
    if repos.len() > 0 {
        lemma_kept_without_rules(rules, repos.drop_last());
        lemma_empty_rules_drop_all(rules, repos.last()@);
    }
}

/// The rule `*` with nothing taken out keeps every repository.
pub proof fn lemma_all_keeps(rules: RuleSetView, r: RepoView, i: int)
    requires
        0 <= i < rules.includes.len(),
        rules.includes[i].selector == Selector::All,
        rules.excludes.len() == 0,
    ensures
        keeps(rules, r),
{
    lemma_keeps(rules, r);
}

/// Reading is a function of the text: the same text gives the same rules or
/// the same error.
pub proof fn lemma_parse_deterministic(a: Seq<char>, b: Seq<char>)
    requires
        a == b,
    ensures
        parse_rules(a) == parse_rules(b),
{
}

/// Once a line cannot be read, the lines behind it change nothing.
pub proof fn lemma_read_lines_error(ls: Seq<Seq<char>>, i: int)
    requires
        0 <= i <= ls.len(),
        read_lines(ls.take(i)) is Err,
    ensures
        read_lines(ls) == read_lines(ls.take(i)),
    decreases ls.len() - i,
{
    if i < ls.len() {
        assert(ls.take(i + 1).drop_last() == ls.take(i));
        lemma_read_lines_error(ls, i + 1);
    } else {
        assert(ls.take(i) == ls);
    }
}

/// A rule that was read is well-formed.
pub proof fn lemma_parse_entry_well_formed(line: Seq<char>)
    ensures
        parse_entry(line) matches Ok(e) ==> well_formed(e),
{
    crate::text::lemma_find_from(line, ':', 0);
}

/// Rules that are all well-formed.
pub open spec fn all_well_formed(rules: RuleSetView) -> bool {
    &&& forall|i: int| 0 <= i < rules.includes.len() ==> well_formed(#[trigger] rules.includes[i])
    &&& forall|i: int| 0 <= i < rules.excludes.len() ==> well_formed(#[trigger] rules.excludes[i])
}

/// All rules that were read from lines are well-formed.
pub proof fn lemma_read_lines_well_formed(ls: Seq<Seq<char>>)
    ensures
        read_lines(ls) matches Ok(rules) ==> all_well_formed(rules),
    decreases ls.len(),
{
    if ls.len() > 0 {
        lemma_read_lines_well_formed(ls.drop_last());
        let line = trimmed(ls.last());
        lemma_parse_entry_well_formed(line);
        lemma_parse_entry_well_formed(line.skip(1));
    }
}

impl Entry {
    /// A rule with the given selector and value. Nothing is asked of the
    /// value.
    #[must_use]
    pub fn new(selector: Selector, value: &str) -> (e: Entry)
        ensures
            e@ == (EntryView { selector, value: value@ }),
    {
        Entry { selector, value: value.to_string() }
    }

    /// Reads one rule, without a leading `!`; see [`parse_entry`].
    pub fn parse(line: &str) -> (r: Result<Entry, ErrorKind>)
        ensures
            match r {
                Ok(e) => parse_entry(line@) == Ok::<EntryView, ErrorKindView>(e@),
                Err(k) => parse_entry(line@) == Err::<EntryView, ErrorKindView>(k@),
            },
    {
        let chars = chars_of(line);
        Entry::parse_chars(&chars)
    }

    /// Reads one rule from its characters; see [`parse_entry`].
    pub fn parse_chars(line: &Vec<char>) -> (r: Result<Entry, ErrorKind>)
        ensures
            match r {
                Ok(e) => parse_entry(line@) == Ok::<EntryView, ErrorKindView>(e@),
                Err(k) => parse_entry(line@) == Err::<EntryView, ErrorKindView>(k@),
            },
    {
        let colon = find_char_from(line, ':', 0);
        let token = slice_of(line, 0, colon);
        let selector = if chars_are(&token, "*") {
            Selector::All
        } else if chars_are(&token, "owner") {
            Selector::Owner
        } else if chars_are(&token, "name") {
            Selector::Name
        } else if chars_are(&token, "full_name") {
            Selector::FullName
        } else if chars_are(&token, "is_fork") {
            Selector::IsFork
        } else if chars_are(&token, "public") {
            Selector::Public
        } else {
            return Err(ErrorKind::InvalidSelector(Some(text_of(&token))));
        };
        if colon >= line.len() || colon + 1 >= line.len() {
            assert(line@.subrange(0, line.len() as int) == line@);
            return Err(ErrorKind::MissingValue(text_of(line)));
        }
        let value = slice_of(line, colon + 1, line.len());
        let is_bool = match selector {
            Selector::IsFork => true,
            Selector::Public => true,
            _ => false,
        };
        if is_bool && !chars_are(&value, "true") && !chars_are(&value, "false") {
            return Err(ErrorKind::InvalidBool(text_of(&value)));
        }
        Ok(Entry { selector, value: text_of(&value) })
    }

    /// The rule in words, as [`described`] gives it.
    #[must_use]
    pub fn describe(&self) -> (r: String)
        ensures
            r@ == described(self@),
    {
        let name = match self.selector {
            Selector::All => {
                return "* is enabled".to_string();
            },
            Selector::Owner => "owner",
            Selector::Name => "name",
            Selector::FullName => "full_name",
            Selector::IsFork => "is_fork",
            Selector::Public => "public",
        };
        let mut r = name.to_string();
        r.append(" is ");
        let quoted = debug_quote(self.value.as_str());
        r.append(quoted.as_str());
        r
    }

    /// Whether the rule applies to the repository, see [`entry_matches`].
    #[must_use]
    pub fn matches(&self, repo: &Repo) -> (b: bool)
        ensures
            b == entry_matches(self@, repo@),
    {
        match self.selector {
            Selector::All => true,
            Selector::Owner => repo.owner.login == self.value,
            Selector::Name => repo.name == self.value,
            Selector::FullName => repo.full_name() == self.value,
            Selector::IsFork => bool_string(repo.fork) == self.value,
            Selector::Public => bool_string(!repo.private) == self.value,
        }
    }
}

/// `true` or `false`, as text.
fn bool_string(b: bool) -> (r: String)
    ensures
        r@ == bool_text(b),
{
    if b {
        "true".to_string()
    } else {
        "false".to_string()
    }
}

/// The first rule of a list that applies to the repository.
fn find_match(entries: &Vec<Entry>, repo: &Repo) -> (r: Option<usize>)
    ensures
        match r {
            Some(i) => first_match(entry_views(entries@), repo@) == Some(i as int) && i
                < entries.len(),
            None => first_match(entry_views(entries@), repo@) == None::<int>,
        },
{
    let mut i: usize = 0;
    while i < entries.len()
        invariant
            i <= entries.len(),
            first_match_from(entry_views(entries@), repo@, i as int) == first_match(
                entry_views(entries@),
                repo@,
            ),
        decreases entries.len() - i,
    {
        if entries[i].matches(repo) {
            return Some(i);
        }
        i += 1;
    }
    None
}

impl<'a> IncludeResult<'a> {
    /// Whether the repository is kept: only where a rule selects it and
    /// none takes it out.
    #[inline]
    #[must_use]
    pub fn keep(&self) -> (b: bool)
        ensures
            b == (self@ is Include),
    {
        match self {
            IncludeResult::Include(_) => true,
            _ => false,
        }
    }
}

impl RuleSet {
    /// No rules at all.
    #[must_use]
    pub fn new() -> (r: RuleSet)
        ensures
            r@.includes.len() == 0,
            r@.excludes.len() == 0,
            r.includes@.len() == 0,
            r.excludes@.len() == 0,
    {
        RuleSet { includes: Vec::new(), excludes: Vec::new() }
    }

    /// Reads the rules of a text, one to a line; see [`parse_rules`]. Every
    /// text gives either rules or the error of its first bad line, and every
    /// rule read is well-formed.
    pub fn parse(text: &str) -> (r: Result<RuleSet, Error>)
        ensures
            match r {
                Ok(rules) => parse_rules(text@) == Ok::<RuleSetView, ErrorView>(rules@),
                Err(e) => parse_rules(text@) == Err::<RuleSetView, ErrorView>(e@),
            },
            r matches Ok(rules) ==> all_well_formed(rules@),
    {
        let chars = chars_of(text);
        let ls = lines(&chars);
        let ghost all = views(ls@);
        let mut rules = RuleSet::new();
        let mut i: usize = 0;
        assert(rules@.includes == Seq::<EntryView>::empty());
        assert(rules@.excludes == Seq::<EntryView>::empty());
        while i < ls.len()
            invariant
                i <= ls.len(),
                all == views(ls@),
                all == lines_of(text@),
                read_lines(all.take(i as int)) == Ok::<RuleSetView, ErrorView>(rules@),
            decreases ls.len() - i,
        {
            proof {
                assert(all.take(i + 1).drop_last() == all.take(i as int));
                assert(all.take(i + 1).last() == ls@[i as int]@);
            }
            let line = trim(&ls[i]);
            if line.len() == 0 || line[0] == '#' {
            } else if line[0] == '!' {
                let body = slice_of(&line, 1, line.len());
                match Entry::parse_chars(&body) {
                    Ok(e) => {
                        let ghost before = entry_views(rules.excludes@);
                        rules.excludes.push(e);
                        assert(entry_views(rules.excludes@) == before.push(e@));
                    },
                    Err(kind) => {
                        let e = Error { kind, line: i + 1 };
                        proof {
                            assert(read_lines(all.take(i + 1)) == Err::<RuleSetView, ErrorView>(e@));
                            lemma_read_lines_error(all, i + 1);
                        }
                        return Err(e);
                    },
                }
            } else {
                match Entry::parse_chars(&line) {
                    Ok(e) => {
                        let ghost before = entry_views(rules.includes@);
                        rules.includes.push(e);
                        assert(entry_views(rules.includes@) == before.push(e@));
                    },
                    Err(kind) => {
                        let e = Error { kind, line: i + 1 };
                        proof {
                            assert(read_lines(all.take(i + 1)) == Err::<RuleSetView, ErrorView>(e@));
                            lemma_read_lines_error(all, i + 1);
                        }
                        return Err(e);
                    },
                }
            }
            i += 1;
        }
        proof {
            assert(all.take(ls.len() as int) == all);
            lemma_read_lines_well_formed(all);
        }
        Ok(rules)
    }

    /// Adds the rules of another source behind those of this one, list by
    /// list.
    pub fn merge(&mut self, other: RuleSet)
        ensures
            final(self)@ == rules_of_both(old(self)@, other@),
    {
        let mut other = other;
        let ghost a = entry_views(self.includes@);
        let ghost b = entry_views(self.excludes@);
        let ghost c = entry_views(other.includes@);
        let ghost d = entry_views(other.excludes@);
        self.includes.append(&mut other.includes);
        self.excludes.append(&mut other.excludes);
        assert(entry_views(self.includes@) == a + c);
        assert(entry_views(self.excludes@) == b + d);
    }

    /// What the rules say of a repository, with the rules that decide it;
    /// see [`evaluate`].
    #[must_use]
    pub fn test<'a>(&'a self, repo: &Repo) -> (r: IncludeResult<'a>)
        ensures
            r@ == evaluate(self@, repo@),
    {
        match find_match(&self.includes, repo) {
            None => IncludeResult::Default,
            Some(i) => match find_match(&self.excludes, repo) {
                None => IncludeResult::Include(&self.includes[i]),
                Some(j) => IncludeResult::Exclude(&self.includes[i], &self.excludes[j]),
            },
        }
    }

    /// The decision on a repository in words, with the rules that made it.
    pub fn explain(&self, repo: &Repo) -> (r: String)
        ensures
            r@ == explanation(self@, repo@),
    {
        let label = match &repo.full_name {
            Some(n) => n.as_str(),
            None => repo.name.as_str(),
        };
        match self.test(repo) {
            IncludeResult::Include(a) => {
                let mut r = "including repo ".to_string();
                r.append(label);
                r.append(": ");
                r.append(a.describe().as_str());
                r
            },
            IncludeResult::Exclude(a, b) => {
                let mut r = "excluding repo ".to_string();
                r.append(label);
                r.append(": ");
                r.append(a.describe().as_str());
                r.append(" but ");
                r.append(b.describe().as_str());
                r
            },
            IncludeResult::Default => {
                let mut r = "ignoring repo ".to_string();
                r.append(label);
                r.append(": no rules matched");
                r
            },
        }
    }

    /// Drops from the list every repository that the rules do not keep; the
    /// others stay, in their order. What is returned says of every
    /// repository of the list as it was, in order, what was decided and by
    /// which rules; see [`explanation`].
    pub fn apply(&self, repos: &mut Vec<Repo>) -> (said: Vec<String>)
        ensures
            final(repos)@ == kept(self@, old(repos)@),
            string_views(said@) == explanations(self@, old(repos)@),
    {
        let mut all: Vec<Repo> = Vec::new();
        core::mem::swap(repos, &mut all);
        let ghost before = all@;
        let mut said: Vec<String> = Vec::new();
        for r in it: all
            invariant
                it.seq() == before,
                repos@ == kept(self@, before.take(it.index() as int)),
                string_views(said@) == explanations(self@, before.take(it.index() as int)),
        {
            let ghost i = it.index() as int;
            let ghost had = string_views(said@);
            assert(before.take(i + 1).drop_last() == before.take(i));
            assert(before.take(i + 1).last() == r);
            said.push(self.explain(&r));
            assert(string_views(said@) == had.push(explanation(self@, r@)));
            if self.test(&r).keep() {
                repos.push(r);
            }
        }
        assert(before.take(before.len() as int) == before);
        said
    }
}

impl ErrorKind {
    /// What is wrong with the rule, in words; see [`kind_message`].
    pub fn message(&self) -> (r: String)
        ensures
            r@ == kind_message(self@),
    {
        match self {
            ErrorKind::InvalidSelector(Some(token)) => {
                let mut r = "Invalid selector: Some(".to_string();
                r.append(debug_quote(token.as_str()).as_str());
                r.append(")");
                r
            },
            ErrorKind::InvalidSelector(None) => "Invalid selector: None".to_string(),
            ErrorKind::InvalidBool(value) => {
                let mut r = "Value must be a bool: ".to_string();
                r.append(value.as_str());
                r
            },
            ErrorKind::MissingValue(line) => {
                let mut r = "Selector has no value: ".to_string();
                r.append(line.as_str());
                r
            },
        }
    }
}

impl Error {
    /// The error in words, with the number of its line; see
    /// [`error_message`].
    pub fn message(&self) -> (r: String)
        ensures
            r@ == error_message(self@),
    {
        let mut buf = chars_of("line ");
        let digits = decimal_chars(self.line as u64);
        append_chars(&mut buf, &digits);
        let mut r = text_of(&buf);
        r.append(": ");
        r.append(self.kind.message().as_str());
        r
    }
}

impl Default for RuleSet {
    fn default() -> (r: RuleSet)
        ensures
            r@.includes.len() == 0,
            r@.excludes.len() == 0,
    {
        RuleSet::new()
    }
}

impl From<(usize, ErrorKind)> for Error {
    fn from(at: (usize, ErrorKind)) -> (e: Error) {
        Error { kind: at.1, line: at.0 }
    }
}

impl vstd::std_specs::convert::FromSpecImpl<(usize, ErrorKind)> for Error {
    open spec fn obeys_from_spec() -> bool {
        true
    }

    open spec fn from_spec(at: (usize, ErrorKind)) -> Error {
        Error { kind: at.1, line: at.0 }
    }
}

impl core::str::FromStr for Entry {
    type Err = ErrorKind;

    /// Reads one rule, without a leading `!`; see [`parse_entry`].
    fn from_str(line: &str) -> (r: Result<Entry, ErrorKind>)
        ensures
            match r {
                Ok(e) => parse_entry(line@) == Ok::<EntryView, ErrorKindView>(e@),
                Err(k) => parse_entry(line@) == Err::<EntryView, ErrorKindView>(k@),
            },
    {
        Entry::parse(line)
    }
}

impl core::str::FromStr for RuleSet {
    type Err = Error;

    /// Reads the rules of a text, one to a line; see [`parse_rules`].
    fn from_str(text: &str) -> (r: Result<RuleSet, Error>)
        ensures
            match r {
                Ok(rules) => parse_rules(text@) == Ok::<RuleSetView, ErrorView>(rules@),
                Err(e) => parse_rules(text@) == Err::<RuleSetView, ErrorView>(e@),
            },
            r matches Ok(rules) ==> all_well_formed(rules@),
    {
        RuleSet::parse(text)
    }
}

} // verus!
