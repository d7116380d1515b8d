use gourcers::github::{Owner, Repo};
use gourcers::rules::{Entry, Error, ErrorKind, IncludeResult, RuleSet, Selector};

fn repo(owner: &str, name: &str, fork: bool, private: bool) -> Repo {
    Repo {
        name: name.to_string(),
        full_name: None,
        ssh_url: format!("git@github.com:{owner}/{name}.git"),
        owner: Owner { login: owner.to_string() },
        fork,
        private,
    }
}

#[test]
fn test_parse_rule() {
    const CASES: &[&str] = &[
        // valid cases
        "*:*",
        "owner:rust-lang",
        "name:rust",
        "full_name:rust-lang/rust",
        "is_fork:true",
        "public:false",
        "owner:rust-lang:extra",
        "owner:spaces are allowed",
        // invalid cases
        "invalid",
        "owner",
        "owner:",
        "is_fork:no",
        "public:yes",
    ];

    let expected = vec![
        Ok(Entry::new(Selector::All, &"*")),
        Ok(Entry::new(Selector::Owner, &"rust-lang")),
        Ok(Entry::new(Selector::Name, &"rust")),
        Ok(Entry::new(Selector::FullName, &"rust-lang/rust")),
        Ok(Entry::new(Selector::IsFork, &"true")),
        Ok(Entry::new(Selector::Public, &"false")),
        Ok(Entry::new(Selector::Owner, &"rust-lang:extra")),
        Ok(Entry::new(Selector::Owner, &"spaces are allowed")),
        Err(ErrorKind::InvalidSelector(Some("invalid".into()))),
        Err(ErrorKind::MissingValue("owner".into())),
        Err(ErrorKind::MissingValue("owner:".into())),
        Err(ErrorKind::InvalidBool("no".into())),
        Err(ErrorKind::InvalidBool("yes".into())),
    ];

    for (case, expected) in CASES.iter().zip(expected) {
        let actual = case.parse::<Entry>();
        assert_eq!(actual, expected);
    }
}

#[test]
fn test_parse_file() {
    const CONTENTS: &str = r"
# include all repos
*:*
# exclude any private repos
!public:false
# exclude forks
!is_fork:true
# exclude rust-lang repos
!owner:rust-lang
        ";

    let contents = CONTENTS.trim();

    let expected = RuleSet {
        includes: vec![Entry::new(Selector::All, &"*")],
        excludes: vec![
            Entry::new(Selector::Public, &"false"),
            Entry::new(Selector::IsFork, &"true"),
            Entry::new(Selector::Owner, &"rust-lang"),
        ],
    };

    let actual = contents.parse::<RuleSet>().unwrap();

    assert_eq!(actual, expected);
}

#[test]
fn error_carries_one_based_line_number() {
    let err = RuleSet::parse("*:*\n\n# note\n  owner\n!is_fork:no\n").unwrap_err();
    assert_eq!(err, Error { kind: ErrorKind::MissingValue("owner".into()), line: 4 });
    let err = RuleSet::parse("is_fork:no").unwrap_err();
    assert_eq!(err, Error { kind: ErrorKind::InvalidBool("no".into()), line: 1 });
    let err = RuleSet::parse("*:*\r\n!Owner:x\r\n").unwrap_err();
    assert_eq!(err, Error { kind: ErrorKind::InvalidSelector(Some("Owner".into())), line: 2 });
}

#[test]
fn verdicts_of_the_usual_rule_file() {
    let rules = RuleSet::parse("*:*\n!public:false\n!is_fork:true\n!owner:rust-lang\n").unwrap();

    let theirs = repo("rust-lang", "rust", false, false);
    match rules.test(&theirs) {
        IncludeResult::Exclude(a, b) => {
            assert_eq!(a, &Entry::new(Selector::All, "*"));
            assert_eq!(b, &Entry::new(Selector::Owner, "rust-lang"));
        }
        _ => panic!("expected an exclusion"),
    }

    let ours = repo("acme", "rocket", false, false);
    match rules.test(&ours) {
        IncludeResult::Include(a) => assert_eq!(a, &Entry::new(Selector::All, "*")),
        _ => panic!("expected an inclusion"),
    }
    assert!(rules.test(&ours).keep());

    let hidden = repo("acme", "secret", false, true);
    match rules.test(&hidden) {
        IncludeResult::Exclude(_, b) => assert_eq!(b, &Entry::new(Selector::Public, "false")),
        _ => panic!("expected an exclusion"),
    }
    assert!(!rules.test(&hidden).keep());
}

#[test]
fn default_when_no_rule_selects() {
    let rules = RuleSet::parse("!owner:acme\n").unwrap();
    let ours = repo("acme", "rocket", false, false);
    assert!(matches!(rules.test(&ours), IncludeResult::Default));
    assert!(!rules.test(&ours).keep());

    let none = RuleSet::new();
    assert!(matches!(none.test(&ours), IncludeResult::Default));
    assert_eq!(RuleSet::default(), none);
}

#[test]
fn exclusion_wins_whatever_the_order() {
    let first = RuleSet::parse("!name:rocket\nname:rocket\n*:*\n").unwrap();
    let second = RuleSet::parse("*:*\nname:rocket\n!name:rocket\n").unwrap();
    let ours = repo("acme", "rocket", false, false);
    assert!(matches!(first.test(&ours), IncludeResult::Exclude(_, _)));
    assert!(matches!(second.test(&ours), IncludeResult::Exclude(_, _)));
    match second.test(&ours) {
        IncludeResult::Exclude(a, _) => assert_eq!(a.selector, Selector::All),
        _ => unreachable!(),
    }
}

#[test]
fn parsing_twice_gives_equal_rules() {
    let text = "# c\n*:*\n!public:false\nowner:a:b\n";
    assert_eq!(RuleSet::parse(text), RuleSet::parse(text));
    assert_eq!(RuleSet::parse("nope"), RuleSet::parse("nope"));
}

#[test]
fn each_selector_matches_its_field() {
    let mut r = repo("rust-lang", "rust", true, true);
    assert!(Entry::new(Selector::All, "anything").matches(&r));
    assert!(Entry::new(Selector::Owner, "rust-lang").matches(&r));
    assert!(!Entry::new(Selector::Owner, "rust").matches(&r));
    assert!(Entry::new(Selector::Name, "rust").matches(&r));
    assert!(!Entry::new(Selector::Name, "Rust").matches(&r));
    assert!(Entry::new(Selector::FullName, "rust-lang/rust").matches(&r));
    assert!(Entry::new(Selector::IsFork, "true").matches(&r));
    assert!(!Entry::new(Selector::IsFork, "false").matches(&r));
    assert!(Entry::new(Selector::Public, "false").matches(&r));
    assert!(!Entry::new(Selector::Public, "true").matches(&r));
    assert!(!Entry::new(Selector::Public, "yes").matches(&r));
    r.full_name = Some("Rust-Lang/Rust".to_string());
    assert!(!Entry::new(Selector::FullName, "rust-lang/rust").matches(&r));
    assert!(Entry::new(Selector::FullName, "Rust-Lang/Rust").matches(&r));
}

#[test]
fn rules_are_described_with_quoted_values() {
    assert_eq!(Entry::new(Selector::All, "*").describe(), "* is enabled");
    assert_eq!(Entry::new(Selector::Owner, "rust-lang").describe(), "owner is \"rust-lang\"");
    assert_eq!(Entry::new(Selector::Name, "a\"b").describe(), "name is \"a\\\"b\"");
    assert_eq!(Entry::new(Selector::FullName, "a/b").describe(), "full_name is \"a/b\"");
    assert_eq!(Entry::new(Selector::IsFork, "true").describe(), "is_fork is \"true\"");
    assert_eq!(Entry::new(Selector::Public, "false").describe(), "public is \"false\"");
}

#[test]
fn decisions_are_explained() {
    let rules = RuleSet::parse("owner:acme\n!is_fork:true\n").unwrap();
    let kept = repo("acme", "rocket", false, false);
    let fork = repo("acme", "fork", true, false);
    let mut other = repo("zeta", "thing", false, false);
    other.full_name = Some("zeta/thing".to_string());
    assert_eq!(rules.explain(&kept), "including repo rocket: owner is \"acme\"");
    assert_eq!(
        rules.explain(&fork),
        "excluding repo fork: owner is \"acme\" but is_fork is \"true\""
    );
    assert_eq!(rules.explain(&other), "ignoring repo zeta/thing: no rules matched");
}

#[test]
fn apply_keeps_the_included_in_order() {
    let rules = RuleSet::parse("*:*\n!public:false\n!is_fork:true\n!owner:rust-lang\n").unwrap();
    let mut repos = vec![
        repo("acme", "a", false, false),
        repo("rust-lang", "rust", false, false),
        repo("acme", "b", true, false),
        repo("acme", "c", false, true),
        repo("zeta", "d", false, false),
    ];
    let said = rules.apply(&mut repos);
    let names: Vec<&str> = repos.iter().map(|r| r.name.as_str()).collect();
    assert_eq!(names, vec!["a", "d"]);
    assert_eq!(
        said,
        vec![
            "including repo a: * is enabled",
            "excluding repo rust: * is enabled but owner is \"rust-lang\"",
            "excluding repo b: * is enabled but is_fork is \"true\"",
            "excluding repo c: * is enabled but public is \"false\"",
            "including repo d: * is enabled",
        ]
    );

    let mut all = vec![repo("acme", "a", false, false)];
    assert_eq!(RuleSet::new().apply(&mut all), vec!["ignoring repo a: no rules matched"]);
    assert!(all.is_empty());
    assert!(RuleSet::new().apply(&mut all).is_empty());
}

#[test]
fn merge_appends_list_by_list() {
    let mut file = RuleSet::parse("owner:a\n!name:x\n").unwrap();
    let line = RuleSet::parse("!name:y\nowner:b\nowner:c\n").unwrap();
    file.merge(line);
    assert_eq!(
        file,
        RuleSet {
            includes: vec![
                Entry::new(Selector::Owner, "a"),
                Entry::new(Selector::Owner, "b"),
                Entry::new(Selector::Owner, "c"),
            ],
            excludes: vec![Entry::new(Selector::Name, "x"), Entry::new(Selector::Name, "y")],
        }
    );
}

#[test]
fn lines_are_trimmed_and_comments_skipped() {
    let rules = RuleSet::parse("  \t*:*  \n\n   # owner:x\n\u{a0}!name: spaced \u{3000}\n#\n").unwrap();
    assert_eq!(rules.includes, vec![Entry::new(Selector::All, "*")]);
    assert_eq!(rules.excludes, vec![Entry::new(Selector::Name, " spaced")]);
    assert_eq!(RuleSet::parse("").unwrap(), RuleSet::new());
    assert_eq!(RuleSet::parse("\n\n").unwrap(), RuleSet::new());
}

#[test]
fn selectors_are_exact() {
    assert_eq!(
        Entry::parse(" owner:x"),
        Err(ErrorKind::InvalidSelector(Some(" owner".to_string())))
    );
    assert_eq!(Entry::parse(""), Err(ErrorKind::InvalidSelector(Some(String::new()))));
    assert_eq!(Entry::parse(":x"), Err(ErrorKind::InvalidSelector(Some(String::new()))));
    assert_eq!(Entry::parse("*"), Err(ErrorKind::MissingValue("*".to_string())));
    assert_eq!(Entry::parse("public:True"), Err(ErrorKind::InvalidBool("True".to_string())));
    assert_eq!(
        RuleSet::parse("!!owner:x").unwrap_err(),
        Error { kind: ErrorKind::InvalidSelector(Some("!owner".to_string())), line: 1 }
    );
    assert_eq!(Error::from((7, ErrorKind::InvalidBool("no".into()))).line, 7);
}

#[test]
fn errors_in_words() {
    let e = Error { kind: ErrorKind::InvalidSelector(Some("inv\"alid".into())), line: 3 };
    assert_eq!(e.message(), "line 3: Invalid selector: Some(\"inv\\\"alid\")");
    assert_eq!(
        e.kind.message(),
        format!("Invalid selector: {:?}", Some("inv\"alid".to_string()))
    );
    assert_eq!(
        ErrorKind::InvalidSelector(None).message(),
        format!("Invalid selector: {:?}", None::<String>)
    );
    assert_eq!(ErrorKind::InvalidBool("no".into()).message(), "Value must be a bool: no");
    assert_eq!(ErrorKind::MissingValue("owner:".into()).message(), "Selector has no value: owner:");
    let far = Error { kind: ErrorKind::InvalidBool("x".into()), line: 120 };
    assert_eq!(far.message(), "line 120: Value must be a bool: x");
}
