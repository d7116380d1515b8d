//! Repository descriptors in the shape the first listing gave them: without
//! the visibility flag.

use crate::github::{header_views, page_address, FetchError, FetchErrorView, Header, Listing};
use crate::process::{
    captured, diagnostics, failed_with_text, lossy_text, no_args, text_lossy, with_arg, Invocation,
    InvocationView, ProcessResult, Stream,
};
use crate::text::{append_chars, chars_of, decimal, decimal_chars, text_of};
use vstd::prelude::*;

verus! {

/// The account a repository belongs to.
#[derive(Debug, Clone, PartialEq, Eq)]
pub struct Owner {
    pub login: String,
}

/// One repository of the catalogue.
#[derive(Debug, Clone, PartialEq, Eq)]
pub struct Repo {
    pub name: String,
    pub full_name: Option<String>,
    pub ssh_url: String,
    pub owner: Owner,
    pub fork: bool,
}

/// The mathematical content of a [`Repo`].
pub struct RepoView {
    pub name: Seq<char>,
    pub full_name: Option<Seq<char>>,
    pub ssh_url: Seq<char>,
    pub owner: Seq<char>,
    pub fork: bool,
}

impl View for Owner {
    type V = Seq<char>;

    open spec fn view(&self) -> Seq<char> {
        self.login@
    }
}

impl View for Repo {
    type V = RepoView;

    open spec fn view(&self) -> RepoView {
        RepoView {
            name: self.name@,
            full_name: match self.full_name {
                Some(n) => Some(n@),
                None => None,
            },
            ssh_url: self.ssh_url@,
            owner: self.owner@,
            fork: self.fork,
        }
    }
}

/// The identity of a repository: the full name the service gave, or owner
/// and name with a slash between them.
pub open spec fn full_name_of(r: RepoView) -> Seq<char> {
    match r.full_name {
        Some(n) => n,
        None => r.owner.push('/') + r.name,
    }
}

impl Repo {
    /// The identity of the repository, see [`full_name_of`].
    #[must_use]
    pub fn full_name(&self) -> (r: String)
        ensures
            r@ == full_name_of(self@),
    {
        match &self.full_name {
            Some(n) => n.clone(),
            None => {
                let mut buf = chars_of(self.owner.login.as_str());
                buf.push('/');
                let name = chars_of(self.name.as_str());
                append_chars(&mut buf, &name);
                text_of(&buf)
            },
        }
    }
}

/// The headers that go with every request to the service: the token as a
/// bearer credential, the name of this program, the version of the
/// interface, and the form of the answers asked for.
pub open spec fn listing_headers(token: Seq<char>) -> Seq<(Seq<char>, Seq<char>)> {
    seq![
        ("Authorization"@, "Bearer "@ + token),
        ("User-Agent"@, "gourcers"@),
        ("X-GitHub-Api-Version"@, "2022-11-28"@),
        ("Accept"@, "application/vnd.github+json"@),
    ]
}

/// The headers for the requests of a listing, see [`listing_headers`].
pub fn request_headers(token: &str) -> (r: Vec<Header>)
    ensures
        header_views(r@) == listing_headers(token@),
{
    let mut bearer = "Bearer ".to_string();
    bearer.append(token);
    let mut r: Vec<Header> = Vec::new();
    r.push(Header { name: "Authorization".to_string(), value: bearer });
    r.push(Header { name: "User-Agent".to_string(), value: "gourcers".to_string() });
    r.push(Header { name: "X-GitHub-Api-Version".to_string(), value: "2022-11-28".to_string() });
    r.push(Header { name: "Accept".to_string(), value: "application/vnd.github+json".to_string() });
    assert(header_views(r@) == listing_headers(token@));
    r
}

/// The name of the file that keeps the answer to the request for a page,
/// where answers are kept.
pub open spec fn dump_name(page: nat) -> Seq<char> {
    "api_page"@ + decimal(page) + ".json"@
}

/// The name of the file for the answer to the request for a page, see
/// [`dump_name`].
pub fn dump_file(page: u64) -> (r: String)
    ensures
        r@ == dump_name(page as nat),
{
    let mut buf = chars_of("api_page");
    let digits = decimal_chars(page);
    append_chars(&mut buf, &digits);
    let end = chars_of(".json");
    append_chars(&mut buf, &end);
    text_of(&buf)
}

/// One step of listing the repositories of the account: takes in the page
/// that was fetched and gives the address of the page to fetch next, none
/// when the listing is complete. See [`Listing::turn`].
pub fn get_user_repos(listing: &mut Listing<Repo>, page: Vec<Repo>) -> (next: Option<String>)
    ensures
        old(listing).done ==> *final(listing) == *old(listing) && next is None,
        !old(listing).done ==> final(listing).repos@ == old(listing).repos@ + page@,
        !old(listing).done ==> final(listing).done == (page@.len() == 0 || old(listing).page
            == u64::MAX),
        !old(listing).done ==> final(listing).page == (if final(listing).done {
            old(listing).page as int
        } else {
            old(listing).page + 1
        }),
        next is None <==> final(listing).done,
        next matches Some(url) ==> url@ == page_address(final(listing).page as nat),
{
    listing.turn(page)
}

/// The command that brings the local copy of a repository in step: where
/// the folder exists, `git pull origin` in it; where it does not,
/// `git clone` of the repository's address into it.
pub open spec fn fetch_command(repo: RepoView, folder: Seq<char>, exists: bool) -> InvocationView {
    if exists {
        InvocationView {
            program: "git"@,
            args: seq!["pull"@, "origin"@],
            dir: Some(folder),
            stdin: Stream::Inherit,
            stdout: Stream::Piped,
            stderr: Stream::Piped,
        }
    } else {
        captured("git"@, seq!["clone"@, repo.ssh_url, folder])
    }
}

/// What the run of a fetch command means: success if the client ended with
/// exit code zero; else the error, with the diagnostics of the client.
pub open spec fn fetch_verdict(run: ProcessResult) -> Result<(), FetchErrorView> {
    match run {
        ProcessResult::NotFound => Err(FetchErrorView::ToolMissing),
        ProcessResult::Failed(why) => Err(FetchErrorView::Io(why@)),
        ProcessResult::Exited(out) => if out.succeeded() {
            Ok(())
        } else {
            Err(FetchErrorView::ProcessFailed(out.code, lossy_text(out.stderr@)))
        },
    }
}

/// The command that clones the repository into `folder` if it does not
/// exist, and pulls if it does; see [`fetch_command`].
pub fn fetch_repo(repo: &Repo, folder: &str, exists: bool) -> (r: Invocation)
    ensures
        r@ == fetch_command(repo@, folder@, exists),
{
    if exists {
        let args = with_arg(with_arg(no_args(), "pull"), "origin");
        assert(Seq::<Seq<char>>::empty().push("pull"@).push("origin"@) == seq![
            "pull"@,
            "origin"@,
        ]);
        Invocation {
            program: "git".to_string(),
            args,
            dir: Some(folder.to_string()),
            stdin: Stream::Inherit,
            stdout: Stream::Piped,
            stderr: Stream::Piped,
        }
    } else {
        let args = with_arg(with_arg(with_arg(no_args(), "clone"), repo.ssh_url.as_str()), folder);
        assert(Seq::<Seq<char>>::empty().push("clone"@).push(repo.ssh_url@).push(folder@) == seq![
            "clone"@,
            repo.ssh_url@,
            folder@,
        ]);
        Invocation {
            program: "git".to_string(),
            args,
            dir: None,
            stdin: Stream::Inherit,
            stdout: Stream::Piped,
            stderr: Stream::Piped,
        }
    }
}

/// Judges the run of a fetch command, see [`fetch_verdict`]. Diagnostics
/// that are text stand in the error as they were written.
pub fn fetch_outcome(run: &ProcessResult) -> (r: Result<(), FetchError>)
    ensures
        match r {
            Ok(_) => fetch_verdict(*run) == Ok::<(), FetchErrorView>(()),
            Err(e) => fetch_verdict(*run) == Err::<(), FetchErrorView>(e@),
        },
        failed_with_text(*run) ==> r is Err && r->Err_0@ == FetchErrorView::ProcessFailed(
            run->Exited_0.code,
            diagnostics(*run),
        ),
{
    match run {
        ProcessResult::NotFound => Err(FetchError::ToolMissing),
        ProcessResult::Failed(why) => Err(FetchError::Io(why.clone())),
        ProcessResult::Exited(out) => {
            if out.success() {
                Ok(())
            } else {
                Err(FetchError::ProcessFailed(out.code, text_lossy(&out.stderr)))
            }
        },
    }
}

} // verus!
