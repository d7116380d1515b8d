use gourcers::gh::{Owner, Repo};
use gourcers::ignore::{
    FilterResult, IgnoreEntry, IgnoreFile, IgnoreFileError, IgnoreFileErrorKind, IgnoreSelector,
};

fn repo(owner: &str, name: &str, full_name: Option<&str>, fork: bool) -> Repo {
    Repo {
        name: name.to_string(),
        full_name: full_name.map(|s| s.to_string()),
        ssh_url: String::new(),
        owner: Owner { login: owner.to_string() },
        fork,
    }
}

#[test]
fn test_ignore_syntax() {
    let input = r#"
    # This is a comment
    owner:foo
    name:bar
    full_name:baz
    !owner:fizz
    !name:buzz

    !full_name:qux
    "#;
    let expected = IgnoreFile {
        entries: vec![
            IgnoreEntry::new(IgnoreSelector::Owner, "foo"),
            IgnoreEntry::new(IgnoreSelector::Name, "bar"),
            IgnoreEntry::new(IgnoreSelector::FullName, "baz"),
        ],
        inverted_entries: vec![
            IgnoreEntry::new(IgnoreSelector::Owner, "fizz"),
            IgnoreEntry::new(IgnoreSelector::Name, "buzz"),
            IgnoreEntry::new(IgnoreSelector::FullName, "qux"),
        ],
    };

    assert_eq!(input.parse::<IgnoreFile>().unwrap(), expected);
}

#[test]
fn ignore_errors_carry_the_line_number() {
    assert_eq!(
        IgnoreFile::parse("owner:a\npublic:true\n").unwrap_err(),
        IgnoreFileError {
            kind: IgnoreFileErrorKind::InvalidSelector(Some("public".to_string())),
            line: 2
        }
    );
    let e = IgnoreFile::parse("owner:foo\nbogus:x").unwrap_err();
    assert_eq!(e.kind, IgnoreFileErrorKind::InvalidSelector(Some("bogus".to_string())));
    assert_eq!(e.line, 2);
    assert_eq!(e.message(), "line 2: Invalid selector: Some(\"bogus\")");
    assert_eq!(
        IgnoreFile::parse("!owner").unwrap_err(),
        IgnoreFileError { kind: IgnoreFileErrorKind::MissingValue("!owner".to_string()), line: 1 }
    );
    assert_eq!(
        IgnoreFile::parse("\n\n!is_fork:maybe").unwrap_err(),
        IgnoreFileError { kind: IgnoreFileErrorKind::InvalidBool("maybe".to_string()), line: 3 }
    );
    assert_eq!(
        IgnoreFileError::from((3, IgnoreFileErrorKind::InvalidBool("x".into()))).line,
        3
    );
}

#[test]
fn ignore_value_may_not_be_empty() {
    assert_eq!(
        IgnoreFile::parse("owner:").unwrap_err(),
        IgnoreFileError { kind: IgnoreFileErrorKind::MissingValue("owner:".to_string()), line: 1 }
    );
    assert_eq!(
        IgnoreFile::parse("name:x\n!*:\n").unwrap_err(),
        IgnoreFileError { kind: IgnoreFileErrorKind::MissingValue("!*:".to_string()), line: 2 }
    );
    let file = IgnoreFile::parse("owner: \n!*:*\nname:a:b\n").unwrap_err();
    // the line is trimmed before it is read, so a value of white space alone is none
    assert_eq!(file.kind, IgnoreFileErrorKind::MissingValue("owner:".to_string()));
    let file = IgnoreFile::parse("!*:*\nname:a:b\n").unwrap();
    assert_eq!(file.entries, vec![IgnoreEntry::new(IgnoreSelector::Name, "a:b")]);
    assert_eq!(file.inverted_entries, vec![IgnoreEntry::new(IgnoreSelector::All, "*")]);
    assert_eq!(IgnoreFile::parse("").unwrap(), IgnoreFile::new());
    assert_eq!(IgnoreFile::default(), IgnoreFile::new());
}

#[test]
fn ignore_verdicts() {
    let file = IgnoreFile::parse("name:gone\n!owner:acme\n").unwrap();
    let kept = repo("acme", "rocket", None, false);
    let gone = repo("acme", "gone", None, false);
    let other = repo("zeta", "gone", None, false);
    match file.is_ignored(&kept) {
        FilterResult::Keep(a) => assert_eq!(a, &IgnoreEntry::new(IgnoreSelector::Owner, "acme")),
        _ => panic!("expected to keep"),
    }
    assert!(file.is_ignored(&kept).keep());
    match file.is_ignored(&gone) {
        FilterResult::Ignore(a, b) => {
            assert_eq!(a, &IgnoreEntry::new(IgnoreSelector::Owner, "acme"));
            assert_eq!(b, &IgnoreEntry::new(IgnoreSelector::Name, "gone"));
        }
        _ => panic!("expected to ignore"),
    }
    assert!(!file.is_ignored(&gone).keep());
    assert!(matches!(file.is_ignored(&other), FilterResult::Default));
    assert!(!file.is_ignored(&other).keep());
}

#[test]
fn ignore_entries_match_and_describe() {
    let with = repo("acme", "rocket", Some("acme/rocket"), true);
    let without = repo("acme", "rocket", None, false);
    assert!(IgnoreEntry::new(IgnoreSelector::All, "x").matches(&with));
    assert!(IgnoreEntry::new(IgnoreSelector::Owner, "acme").matches(&with));
    assert!(IgnoreEntry::new(IgnoreSelector::Name, "rocket").matches(&with));
    assert!(IgnoreEntry::new(IgnoreSelector::FullName, "acme/rocket").matches(&with));
    // without a full name from the service, the identity is owner and name
    assert!(IgnoreEntry::new(IgnoreSelector::FullName, "acme/rocket").matches(&without));
    assert!(!IgnoreEntry::new(IgnoreSelector::FullName, "rocket").matches(&without));
    let renamed = repo("acme", "rocket", Some("Acme/Rocket"), false);
    assert!(!IgnoreEntry::new(IgnoreSelector::FullName, "acme/rocket").matches(&renamed));
    assert!(IgnoreEntry::new(IgnoreSelector::FullName, "Acme/Rocket").matches(&renamed));
    let app = repo("acme", "app", None, false);
    assert!(IgnoreEntry::new(IgnoreSelector::FullName, "acme/app").matches(&app));
    assert_eq!(app.full_name(), "acme/app");
    assert_eq!(renamed.full_name(), "Acme/Rocket");
    assert!(IgnoreEntry::new(IgnoreSelector::IsFork, "true").matches(&with));
    assert!(IgnoreEntry::new(IgnoreSelector::IsFork, "false").matches(&without));

    assert_eq!(IgnoreEntry::new(IgnoreSelector::All, "x").describe(), "* is enabled");
    assert_eq!(IgnoreEntry::new(IgnoreSelector::Owner, "acme").describe(), "owner is \"acme\"");
    assert_eq!(IgnoreEntry::new(IgnoreSelector::Name, "a\\b").describe(), "name is \"a\\\\b\"");
    assert_eq!(IgnoreEntry::new(IgnoreSelector::FullName, "a/b").describe(), "full_name is \"a/b\"");
    assert_eq!(IgnoreEntry::new(IgnoreSelector::IsFork, "false").describe(), "repository is a fork");
}

#[test]
fn ignore_errors_in_words() {
    let e = IgnoreFileError {
        kind: IgnoreFileErrorKind::InvalidSelector(Some("public".into())),
        line: 1,
    };
    assert_eq!(e.message(), "line 1: Invalid selector: Some(\"public\")");
    assert_eq!(
        IgnoreFileErrorKind::InvalidSelector(None).message(),
        "Invalid selector: None"
    );
    assert_eq!(IgnoreFileErrorKind::InvalidBool("no".into()).message(), "Value must be a bool: no");
    assert_eq!(
        IgnoreFileErrorKind::MissingValue("!owner".into()).message(),
        "Selector has no value: !owner"
    );
}
