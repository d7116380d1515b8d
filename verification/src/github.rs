//! Repository descriptors as the hosting service lists them, and the rules
//! for walking its paged listing and for keeping a local copy in step.

use crate::process::{
    captured, diagnostics, failed_with_text, lossy_text, no_args, text_lossy, with_arg, Invocation,
    InvocationView, ProcessResult, Stream,
};
use crate::text::{append_chars, chars_of, decimal, decimal_chars, text_of, trim, trimmed};
use vstd::prelude::*;

verus! {

/// The account a repository belongs to.
#[derive(Debug, Clone, PartialEq, Eq)]
pub struct Owner {
    pub login: String,
}

/// One repository of the catalogue.
#[derive(Debug, Clone, PartialEq, Eq)]
pub struct Repo {
    pub name: String,
    pub full_name: Option<String>,
    pub ssh_url: String,
    pub owner: Owner,
    pub fork: bool,
    pub private: bool,
}

/// The mathematical content of a [`Repo`].
pub struct RepoView {
    pub name: Seq<char>,
    pub full_name: Option<Seq<char>>,
    pub ssh_url: Seq<char>,
    pub owner: Seq<char>,
    pub fork: bool,
    pub private: bool,
}

impl View for Owner {
    type V = Seq<char>;

    open spec fn view(&self) -> Seq<char> {
        self.login@
    }
}

impl View for Repo {
    type V = RepoView;

    open spec fn view(&self) -> RepoView {
        RepoView {
            name: self.name@,
            full_name: match self.full_name {
                Some(n) => Some(n@),
                None => None,
            },
            ssh_url: self.ssh_url@,
            owner: self.owner@,
            fork: self.fork,
            private: self.private,
        }
    }
}

/// The views of a list of repositories.
pub open spec fn repo_views(repos: Seq<Repo>) -> Seq<RepoView> {
    Seq::new(repos.len(), |i: int| repos[i]@)
}

/// The identity of a repository: the full name the service gave, or owner
/// and name with a slash between them.
pub open spec fn full_name_of(r: RepoView) -> Seq<char> {
    match r.full_name {
        Some(n) => n,
        None => r.owner.push('/') + r.name,
    }
}

/// `s` with every slash replaced by two underscores.
pub open spec fn path_friendly(s: Seq<char>) -> Seq<char>
    decreases s.len(),
{
    if s.len() == 0 {
        seq![]
    } else if s.last() == '/' {
        path_friendly(s.drop_last()).push('_').push('_')
    } else {
        path_friendly(s.drop_last()).push(s.last())
    }
}

/// A path-friendly name holds no slash, and a name without a slash is
/// path-friendly as it stands.
pub proof fn lemma_path_friendly(s: Seq<char>)
    ensures
        forall|i: int| 0 <= i < path_friendly(s).len() ==> path_friendly(s)[i] != '/',
        (forall|i: int| 0 <= i < s.len() ==> s[i] != '/') ==> path_friendly(s) == s,
    decreases s.len(),
{
    if s.len() > 0 {
        lemma_path_friendly(s.drop_last());
        let prev = path_friendly(s.drop_last());
        assert forall|i: int| 0 <= i < path_friendly(s).len() implies path_friendly(s)[i]
            != '/' by {
            if i < prev.len() {
                assert(path_friendly(s)[i] == prev[i]);
            }
        }
        if forall|i: int| 0 <= i < s.len() ==> s[i] != '/' {
            assert(path_friendly(s.drop_last()) == s.drop_last());
            assert(s.drop_last().push(s.last()) == s);
        }
    }
}

impl Repo {
    /// The identity of the repository, see [`full_name_of`].
    #[must_use]
    pub fn full_name(&self) -> (r: String)
        ensures
            r@ == full_name_of(self@),
    {
        match &self.full_name {
            Some(n) => n.clone(),
            None => {
                let mut buf = chars_of(self.owner.login.as_str());
                buf.push('/');
                let name = chars_of(self.name.as_str());
                append_chars(&mut buf, &name);
                text_of(&buf)
            },
        }
    }

    /// The identity of the repository in a form that can name a file: no
    /// slash is left in it.
    #[must_use]
    pub fn full_name_path_friendly(&self) -> (r: String)
        ensures
            r@ == path_friendly(full_name_of(self@)),
            forall|i: int| 0 <= i < r@.len() ==> r@[i] != '/',
    {
        let full = self.full_name();
        let chars = chars_of(full.as_str());
        let mut out: Vec<char> = Vec::new();
        let mut i: usize = 0;
        while i < chars.len()
            invariant
                i <= chars.len(),
                out@ == path_friendly(chars@.take(i as int)),
            decreases chars.len() - i,
        {
            assert(chars@.take(i + 1).drop_last() == chars@.take(i as int));
            if chars[i] == '/' {
                out.push('_');
                out.push('_');
            } else {
                out.push(chars[i]);
            }
            i += 1;
        }
        proof {
            assert(chars@.take(chars.len() as int) == chars@);
            lemma_path_friendly(chars@);
        }
        text_of(&out)
    }
}

/// A header of a request: its name and its value.
#[derive(Debug, Clone, PartialEq, Eq)]
pub struct Header {
    pub name: String,
    pub value: String,
}

/// The views of a list of headers: name and value of each.
pub open spec fn header_views(v: Seq<Header>) -> Seq<(Seq<char>, Seq<char>)> {
    Seq::new(v.len(), |i: int| (v[i].name@, v[i].value@))
}

/// The headers that go with every request to the service: the token as a
/// bearer credential, the name of this program, the version of the
/// interface, and the form of the answers asked for.
pub open spec fn listing_headers(token: Seq<char>) -> Seq<(Seq<char>, Seq<char>)> {
    seq![
        ("Authorization"@, "Bearer "@ + token),
        ("User-Agent"@, "gourcers-ng"@),
        ("X-GitHub-Api-Version"@, "2022-11-28"@),
        ("Accept"@, "application/vnd.github+json"@),
    ]
}

/// The address of one page of the listing, a hundred repositories to the
/// page.
pub open spec fn page_address(page: nat) -> Seq<char> {
    "https://api.github.com/user/repos?per_page=100&page="@ + decimal(page)
}

/// The headers for the requests of a listing, see [`listing_headers`].
pub fn request_headers(token: &str) -> (r: Vec<Header>)
    ensures
        header_views(r@) == listing_headers(token@),
{
    let mut bearer = "Bearer ".to_string();
    bearer.append(token);
    let mut r: Vec<Header> = Vec::new();
    r.push(Header { name: "Authorization".to_string(), value: bearer });
    r.push(Header { name: "User-Agent".to_string(), value: "gourcers-ng".to_string() });
    r.push(Header { name: "X-GitHub-Api-Version".to_string(), value: "2022-11-28".to_string() });
    r.push(Header { name: "Accept".to_string(), value: "application/vnd.github+json".to_string() });
    r
}

/// The address of a page of the listing, see [`page_address`].
pub fn page_url(page: u64) -> (r: String)
    ensures
        r@ == page_address(page as nat),
{
    let mut buf = chars_of("https://api.github.com/user/repos?per_page=100&page=");
    let digits = decimal_chars(page);
    append_chars(&mut buf, &digits);
    text_of(&buf)
}

/// A listing under way: the number of the page to ask for next, what the
/// pages so far held, and whether the end was reached.
#[derive(Debug, Clone, PartialEq, Eq)]
pub struct Listing<R> {
    pub page: u64,
    pub repos: Vec<R>,
    pub done: bool,
}

impl<R> Listing<R> {
    /// A listing of which nothing was read yet: the first page has the
    /// number 1.
    pub fn new() -> (r: Listing<R>)
        ensures
            r.page == 1,
            r.repos@.len() == 0,
            !r.done,
    {
        Listing { page: 1, repos: Vec::new(), done: false }
    }

    /// The address to ask next, none when the listing is complete.
    pub fn request(&self) -> (r: Option<String>)
        ensures
            r is None <==> self.done,
            r matches Some(url) ==> url@ == page_address(self.page as nat),
    {
        if self.done {
            None
        } else {
            Some(page_url(self.page))
        }
    }

    /// Takes in the page that was asked for and says what to ask next. An
    /// empty page ends the listing. Any other page is added behind what was
    /// listed so far, and the page with the next number is asked for; after
    /// the page with the greatest number that can be written the listing
    /// ends too. A listing that is complete stays as it is.
    pub fn turn(&mut self, page: Vec<R>) -> (next: Option<String>)
        ensures
            old(self).done ==> *final(self) == *old(self) && next is None,
            !old(self).done ==> final(self).repos@ == old(self).repos@ + page@,
            !old(self).done ==> final(self).done == (page@.len() == 0 || old(self).page
                == u64::MAX),
            !old(self).done ==> final(self).page == (if final(self).done {
                old(self).page as int
            } else {
                old(self).page + 1
            }),
            next is None <==> final(self).done,
            next matches Some(url) ==> url@ == page_address(final(self).page as nat),
    {
        if self.done {
            return None;
        }
        if page.len() == 0 {
            self.done = true;
            return None;
        }
        let mut page = page;
        self.repos.append(&mut page);
        if self.page == u64::MAX {
            self.done = true;
            return None;
        }
        self.page = self.page + 1;
        Some(page_url(self.page))
    }
}

/// One step of listing the repositories of the account: takes in the page
/// that was fetched and gives the address of the page to fetch next, none
/// when the listing is complete. See [`Listing::turn`].
pub fn list_repos(listing: &mut Listing<Repo>, page: Vec<Repo>) -> (next: Option<String>)
    ensures
        old(listing).done ==> *final(listing) == *old(listing) && next is None,
        !old(listing).done ==> final(listing).repos@ == old(listing).repos@ + page@,
        !old(listing).done ==> final(listing).done == (page@.len() == 0 || old(listing).page
            == u64::MAX),
        !old(listing).done ==> final(listing).page == (if final(listing).done {
            old(listing).page as int
        } else {
            old(listing).page + 1
        }),
        next is None <==> final(listing).done,
        next matches Some(url) ==> url@ == page_address(final(listing).page as nat),
{
    listing.turn(page)
}

/// Whether no two repositories of the list have the same identity.
pub open spec fn distinct_names(repos: Seq<RepoView>) -> bool {
    forall|i: int, j: int|
        0 <= i < j < repos.len() ==> full_name_of(#[trigger] repos[i]) != full_name_of(
            #[trigger] repos[j],
        )
}

/// Whether a repository before position `j` has the identity of the one at
/// `j`.
pub open spec fn has_earlier_twin(repos: Seq<RepoView>, j: int) -> bool {
    exists|i: int| 0 <= i < j && full_name_of(#[trigger] repos[i]) == full_name_of(repos[j])
}

/// The position of a repository whose identity an earlier one of the list
/// has too; none if and only if all identities differ.
pub fn first_duplicate(repos: &Vec<Repo>) -> (r: Option<usize>)
    ensures
        r is None <==> distinct_names(repo_views(repos@)),
        r matches Some(j) ==> j < repos.len() && has_earlier_twin(repo_views(repos@), j as int)
            && distinct_names(repo_views(repos@).take(j as int)),
{
    let mut names: Vec<String> = Vec::new();
    let mut j: usize = 0;
    while j < repos.len()
        invariant
            j <= repos.len(),
            names.len() == j,
            forall|k: int| 0 <= k < j ==> (#[trigger] names[k])@ == full_name_of(repos[k]@),
            distinct_names(repo_views(repos@).take(j as int)),
        decreases repos.len() - j,
    {
        let name = repos[j].full_name();
        let mut i: usize = 0;
        while i < j
            invariant
                i <= j < repos.len(),
                names.len() == j,
                name@ == full_name_of(repos[j as int]@),
                forall|k: int| 0 <= k < j ==> (#[trigger] names[k])@ == full_name_of(repos[k]@),
                forall|k: int| 0 <= k < i ==> full_name_of(#[trigger] repos[k]@) != name@,
                distinct_names(repo_views(repos@).take(j as int)),
            decreases j - i,
        {
            if names[i] == name {
                proof {
                    let all = repo_views(repos@);
                    assert(all[i as int] == repos[i as int]@);
                    assert(all[j as int] == repos[j as int]@);
                }
                return Some(j);
            }
            i += 1;
        }
        proof {
            let all = repo_views(repos@);
            let next = all.take(j + 1);
            assert forall|a: int, b: int| 0 <= a < b < next.len() implies full_name_of(
                #[trigger] next[a],
            ) != full_name_of(#[trigger] next[b]) by {
                if b < j {
                    assert(all.take(j as int)[a] == next[a]);
                    assert(all.take(j as int)[b] == next[b]);
                } else {
                    assert(next[a] == repos[a]@);
                    assert(next[b] == repos[j as int]@);
                }
            }
        }
        names.push(name);
        j += 1;
    }
    assert(repo_views(repos@).take(repos.len() as int) == repo_views(repos@));
    None
}

/// Why the local copy of a repository could not be brought in step.
#[derive(Debug, Clone, PartialEq, Eq)]
pub enum FetchError {
    /// The version-control client could not be found.
    ToolMissing,
    /// The client could not be started; the text says why.
    Io(String),
    /// The client ended with another exit code than zero; with the code,
    /// where it had one, and what it wrote to its diagnostics.
    ProcessFailed(Option<i32>, String),
}

/// The mathematical content of a [`FetchError`].
pub enum FetchErrorView {
    ToolMissing,
    Io(Seq<char>),
    ProcessFailed(Option<i32>, Seq<char>),
}

impl View for FetchError {
    type V = FetchErrorView;

    open spec fn view(&self) -> FetchErrorView {
        match self {
            FetchError::ToolMissing => FetchErrorView::ToolMissing,
            FetchError::Io(why) => FetchErrorView::Io(why@),
            FetchError::ProcessFailed(code, text) => FetchErrorView::ProcessFailed(*code, text@),
        }
    }
}

/// The command that brings the local copy of a repository in step: where
/// the copy exists, `git pull` in its directory; where it does not,
/// `git clone` of the repository's address into that directory. Output and
/// diagnostics are captured either way.
pub open spec fn fetch_command(repo: RepoView, dir: Seq<char>, exists: bool) -> InvocationView {
    if exists {
        InvocationView {
            program: "git"@,
            args: seq!["pull"@],
            dir: Some(dir),
            stdin: Stream::Inherit,
            stdout: Stream::Piped,
            stderr: Stream::Piped,
        }
    } else {
        captured("git"@, seq!["clone"@, repo.ssh_url, dir])
    }
}

/// What the run of a fetch command means: success if the client ended with
/// exit code zero; else the error, with the diagnostics of the client, white
/// space at their ends cut.
pub open spec fn fetch_verdict(run: ProcessResult) -> Result<(), FetchErrorView> {
    match run {
        ProcessResult::NotFound => Err(FetchErrorView::ToolMissing),
        ProcessResult::Failed(why) => Err(FetchErrorView::Io(why@)),
        ProcessResult::Exited(out) => if out.succeeded() {
            Ok(())
        } else {
            Err(FetchErrorView::ProcessFailed(out.code, trimmed(lossy_text(out.stderr@))))
        },
    }
}

/// The command that clones the repository into `repo_dir`, or pulls where
/// `exists` says that the directory is there already; see
/// [`fetch_command`]. Fetching twice does no harm: the second time it
/// pulls.
pub fn fetch_repo(repo: &Repo, repo_dir: &str, exists: bool) -> (r: Invocation)
    ensures
        r@ == fetch_command(repo@, repo_dir@, exists),
{
    if exists {
        let args = with_arg(no_args(), "pull");
        Invocation {
            program: "git".to_string(),
            args,
            dir: Some(repo_dir.to_string()),
            stdin: Stream::Inherit,
            stdout: Stream::Piped,
            stderr: Stream::Piped,
        }
    } else {
        let args = with_arg(
            with_arg(with_arg(no_args(), "clone"), repo.ssh_url.as_str()),
            repo_dir,
        );
        assert(Seq::<Seq<char>>::empty().push("clone"@).push(repo.ssh_url@).push(repo_dir@)
            == seq!["clone"@, repo.ssh_url@, repo_dir@]);
        Invocation {
            program: "git".to_string(),
            args,
            dir: None,
            stdin: Stream::Inherit,
            stdout: Stream::Piped,
            stderr: Stream::Piped,
        }
    }
}

/// Judges the run of a fetch command, see [`fetch_verdict`]. Diagnostics
/// that are text stand in the error as they were written, white space at
/// their ends cut.
pub fn fetch_outcome(run: &ProcessResult) -> (r: Result<(), FetchError>)
    ensures
        match r {
            Ok(_) => fetch_verdict(*run) == Ok::<(), FetchErrorView>(()),
            Err(e) => fetch_verdict(*run) == Err::<(), FetchErrorView>(e@),
        },
        failed_with_text(*run) ==> r is Err && r->Err_0@ == FetchErrorView::ProcessFailed(
            run->Exited_0.code,
            trimmed(diagnostics(*run)),
        ),
{
    match run {
        ProcessResult::NotFound => Err(FetchError::ToolMissing),
        ProcessResult::Failed(why) => Err(FetchError::Io(why.clone())),
        ProcessResult::Exited(out) => {
            if out.success() {
                Ok(())
            } else {
                let text = text_lossy(&out.stderr);
                let chars = chars_of(text.as_str());
                let cut = trim(&chars);
                Err(FetchError::ProcessFailed(out.code, text_of(&cut)))
            }
        },
    }
}

} // verus!
