use gourcers::gh;
use gourcers::github::{
    fetch_outcome, fetch_repo, first_duplicate, list_repos, page_url, request_headers, FetchError,
    Header, Listing, Owner, Repo,
};
use gourcers::process::{Invocation, ProcessOutput, ProcessResult, Stream};

fn repo(owner: &str, name: &str) -> Repo {
    Repo {
        name: name.to_string(),
        full_name: None,
        ssh_url: format!("git@github.com:{owner}/{name}.git"),
        owner: Owner { login: owner.to_string() },
        fork: false,
        private: false,
    }
}

fn old_repo(owner: &str, name: &str) -> gh::Repo {
    gh::Repo {
        name: name.to_string(),
        full_name: None,
        ssh_url: format!("git@github.com:{owner}/{name}.git"),
        owner: gh::Owner { login: owner.to_string() },
        fork: false,
    }
}

fn exited(code: Option<i32>, stderr: &[u8]) -> ProcessResult {
    ProcessResult::Exited(ProcessOutput { code, stdout: Vec::new(), stderr: stderr.to_vec() })
}

#[test]
fn full_name_is_given_or_made() {
    let mut r = repo("rust-lang", "rust");
    assert_eq!(r.full_name(), "rust-lang/rust");
    assert_eq!(r.full_name_path_friendly(), "rust-lang__rust");
    r.full_name = Some("Some/Other/Name".to_string());
    assert_eq!(r.full_name(), "Some/Other/Name");
    assert_eq!(r.full_name_path_friendly(), "Some__Other__Name");
    r.full_name = Some(String::new());
    assert_eq!(r.full_name(), "");
    assert_eq!(r.full_name_path_friendly(), "");
    let plain = Repo { full_name: Some("plain".into()), ..repo("a", "b") };
    assert_eq!(plain.full_name_path_friendly(), "plain");
}

#[test]
fn listing_stops_at_the_first_empty_page() {
    let mut listing: Listing<Repo> = Listing::new();
    assert_eq!(
        listing.request().as_deref(),
        Some("https://api.github.com/user/repos?per_page=100&page=1")
    );
    let next = list_repos(&mut listing, vec![repo("a", "one"), repo("a", "two")]);
    assert_eq!(next.as_deref(), Some("https://api.github.com/user/repos?per_page=100&page=2"));
    let next = list_repos(&mut listing, vec![repo("a", "three")]);
    assert_eq!(next.as_deref(), Some("https://api.github.com/user/repos?per_page=100&page=3"));
    assert!(!listing.done);
    let next = list_repos(&mut listing, Vec::new());
    assert_eq!(next, None);
    assert!(listing.done);
    assert_eq!(listing.request(), None);
    let names: Vec<&str> = listing.repos.iter().map(|r| r.name.as_str()).collect();
    assert_eq!(names, vec!["one", "two", "three"]);

    // a page that comes after the end changes nothing
    let before = listing.clone();
    assert_eq!(list_repos(&mut listing, vec![repo("a", "late")]), None);
    assert_eq!(listing, before);
}

#[test]
fn listing_ends_at_the_last_page_number() {
    let mut listing: Listing<Repo> = Listing { page: u64::MAX, repos: Vec::new(), done: false };
    assert_eq!(
        listing.request().as_deref(),
        Some("https://api.github.com/user/repos?per_page=100&page=18446744073709551615")
    );
    assert_eq!(list_repos(&mut listing, vec![repo("a", "b")]), None);
    assert!(listing.done);
    assert_eq!(listing.repos.len(), 1);
    assert_eq!(page_url(0), "https://api.github.com/user/repos?per_page=100&page=0");
}

#[test]
fn the_first_listing_works_the_same() {
    let mut listing: Listing<gh::Repo> = Listing::new();
    let next = gh::get_user_repos(&mut listing, vec![old_repo("a", "one")]);
    assert_eq!(next.as_deref(), Some("https://api.github.com/user/repos?per_page=100&page=2"));
    assert_eq!(gh::get_user_repos(&mut listing, Vec::new()), None);
    assert_eq!(listing.repos, vec![old_repo("a", "one")]);
    assert_eq!(gh::dump_file(12), "api_page12.json");
    let headers = gh::request_headers("t0ken");
    assert_eq!(headers[0].value, "Bearer t0ken");
    assert_eq!(headers[1], Header { name: "User-Agent".into(), value: "gourcers".into() });
}

#[test]
fn headers_of_a_request() {
    let headers = request_headers("abc");
    let pairs: Vec<(&str, &str)> =
        headers.iter().map(|h| (h.name.as_str(), h.value.as_str())).collect();
    assert_eq!(
        pairs,
        vec![
            ("Authorization", "Bearer abc"),
            ("User-Agent", "gourcers-ng"),
            ("X-GitHub-Api-Version", "2022-11-28"),
            ("Accept", "application/vnd.github+json"),
        ]
    );
}

#[test]
fn duplicates_are_found() {
    assert_eq!(first_duplicate(&Vec::new()), None);
    assert_eq!(first_duplicate(&vec![repo("a", "x"), repo("a", "y"), repo("b", "x")]), None);
    assert_eq!(
        first_duplicate(&vec![repo("a", "x"), repo("a", "y"), repo("a", "x"), repo("a", "y")]),
        Some(2)
    );
    let named = Repo { full_name: Some("a/x".into()), ..repo("q", "r") };
    assert_eq!(first_duplicate(&vec![repo("a", "x"), named]), Some(1));
}

#[test]
fn fetch_clones_what_is_absent_and_pulls_what_is_there() {
    let r = repo("acme", "rocket");
    assert_eq!(
        fetch_repo(&r, "/data/repos/acme__rocket", false),
        Invocation {
            program: "git".into(),
            args: vec![
                "clone".into(),
                "git@github.com:acme/rocket.git".into(),
                "/data/repos/acme__rocket".into()
            ],
            dir: None,
            stdin: Stream::Inherit,
            stdout: Stream::Piped,
            stderr: Stream::Piped,
        }
    );
    assert_eq!(
        fetch_repo(&r, "/data/repos/acme__rocket", true),
        Invocation {
            program: "git".into(),
            args: vec!["pull".into()],
            dir: Some("/data/repos/acme__rocket".into()),
            stdin: Stream::Inherit,
            stdout: Stream::Piped,
            stderr: Stream::Piped,
        }
    );
    let o = old_repo("acme", "rocket");
    assert_eq!(gh::fetch_repo(&o, "dir", true).args, vec!["pull", "origin"]);
    assert_eq!(gh::fetch_repo(&o, "dir", true).dir.as_deref(), Some("dir"));
    assert_eq!(
        gh::fetch_repo(&o, "dir", false).args,
        vec!["clone", "git@github.com:acme/rocket.git", "dir"]
    );
}

#[test]
fn fetch_outcomes() {
    assert_eq!(fetch_outcome(&exited(Some(0), b"warning\n")), Ok(()));
    assert_eq!(fetch_outcome(&ProcessResult::NotFound), Err(FetchError::ToolMissing));
    assert_eq!(
        fetch_outcome(&ProcessResult::Failed("permission denied".into())),
        Err(FetchError::Io("permission denied".into()))
    );
    assert_eq!(
        fetch_outcome(&exited(Some(128), b"  fatal: not a repo\n\n")),
        Err(FetchError::ProcessFailed(Some(128), "fatal: not a repo".into()))
    );
    assert_eq!(
        fetch_outcome(&exited(None, b"killed \xff!")),
        Err(FetchError::ProcessFailed(None, "killed \u{fffd}!".into()))
    );
    assert_eq!(
        gh::fetch_outcome(&exited(Some(1), b" oops\n")),
        Err(FetchError::ProcessFailed(Some(1), " oops\n".into()))
    );
    assert_eq!(gh::fetch_outcome(&exited(Some(0), b"")), Ok(()));
    assert_eq!(gh::fetch_outcome(&ProcessResult::NotFound), Err(FetchError::ToolMissing));
    assert_eq!(
        gh::fetch_outcome(&ProcessResult::Failed("x".into())),
        Err(FetchError::Io("x".into()))
    );
}
