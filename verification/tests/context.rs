use gourcers::context::{
    join_lines, join_path, split_args, Cli, Context, ContextError, OutputDir,
};
use gourcers::github::{Owner, Repo};
use gourcers::rules::{Entry, Error, ErrorKind, RuleSet, Selector};

fn cli() -> Cli {
    Cli {
        token: "t0ken".to_string(),
        data_dir: Some("/data".to_string()),
        temp: false,
        output: "./gource.mp4".to_string(),
        skip_clone: false,
        inline_rules: Vec::new(),
        include_file: None,
        ffmpeg_args: "-c:v libx264 -preset ultrafast -crf 1 -bf 0".to_string(),
        gource_args: "--hide root -a 1 -s 1 -c 4 --key --multi-sampling -1920x1080".to_string(),
    }
}

fn repo(owner: &str, name: &str) -> Repo {
    Repo {
        name: name.to_string(),
        full_name: None,
        ssh_url: String::new(),
        owner: Owner { login: owner.to_string() },
        fork: false,
        private: false,
    }
}

#[test]
fn paths_of_the_data_directory() {
    let dir = OutputDir::Specified("/data".to_string());
    let r = repo("rust-lang", "rust");
    assert_eq!(dir.path(), "/data");
    assert_eq!(dir.repos_dir(), "/data/repos");
    assert_eq!(dir.repo_dir(&r), "/data/repos/rust-lang__rust");
    assert_eq!(dir.gource_dir(), "/data/gource");
    assert_eq!(dir.gource_log(&r), "/data/gource/rust-lang__rust.txt");
    assert_eq!(dir.sorted_log(), "/data/sorted.txt");

    let temp = OutputDir::Temp("/tmp/t1/".to_string());
    assert_eq!(temp.path(), "/tmp/t1/");
    assert_eq!(temp.repos_dir(), "/tmp/t1/repos");
    assert_eq!(temp.sorted_log(), "/tmp/t1/sorted.txt");

    let here = OutputDir::Specified(String::new());
    assert_eq!(here.gource_log(&r), "gource/rust-lang__rust.txt");
}

#[test]
fn paths_join_as_in_the_standard_library() {
    for (base, part) in [("/a", "b"), ("/a/", "b"), ("", "b"), ("a/b", "c.txt"), ("/", "x"), ("a", "")] {
        let expected = std::path::Path::new(base).join(part);
        assert_eq!(join_path(base, part), expected.to_str().unwrap(), "{base:?} {part:?}");
    }
}

#[test]
fn arguments_are_cut_at_white_space() {
    assert_eq!(
        split_args("-c:v libx264  -preset\tultrafast\n"),
        vec!["-c:v", "libx264", "-preset", "ultrafast"]
    );
    assert_eq!(split_args("   "), Vec::<String>::new());
    assert_eq!(join_lines(&vec!["a".to_string(), "b".to_string()]), "a\nb");
    assert_eq!(join_lines(&Vec::new()), "");
}

#[test]
fn settings_without_rules() {
    let cx = Context::from_cli(cli(), None, None).unwrap();
    assert_eq!(cx.token, "t0ken");
    assert_eq!(cx.data_dir, OutputDir::Specified("/data".to_string()));
    assert_eq!(cx.output, "./gource.mp4");
    assert!(!cx.skip_clone);
    assert_eq!(cx.includes, None);
    assert_eq!(
        cx.ffmpeg_args,
        vec!["-c:v", "libx264", "-preset", "ultrafast", "-crf", "1", "-bf", "0"]
    );
    assert_eq!(
        cx.gource_args,
        vec!["--hide", "root", "-a", "1", "-s", "1", "-c", "4", "--key", "--multi-sampling", "-1920x1080"]
    );
}

#[test]
fn the_named_directory_comes_before_the_temporary_one() {
    let cx = Context::from_cli(cli(), Some("/tmp/x".to_string()), None).unwrap();
    assert_eq!(cx.data_dir, OutputDir::Specified("/data".to_string()));

    let unnamed = Cli { data_dir: None, skip_clone: true, ..cli() };
    assert!(unnamed.needs_confirmation());
    assert!(unnamed.needs_temp_dir());
    let cx = Context::from_cli(unnamed.clone(), Some("/tmp/x".to_string()), None).unwrap();
    assert_eq!(cx.data_dir, OutputDir::Temp("/tmp/x".to_string()));
    assert!(cx.skip_clone);
    assert_eq!(Context::from_cli(unnamed, None, None), Err(ContextError::NoDataDir));

    assert!(!Cli { data_dir: None, temp: true, ..cli() }.needs_confirmation());
    assert!(!cli().needs_confirmation());
    assert!(!cli().needs_temp_dir());
}

#[test]
fn rules_of_file_and_command_line_are_merged() {
    let lines = Cli {
        inline_rules: vec!["owner:acme".to_string(), "!name:x".to_string()],
        ..cli()
    };
    let file = "*:*\n!is_fork:true\n".to_string();

    let both = Context::from_cli(lines.clone(), None, Some(file.clone())).unwrap();
    assert_eq!(
        both.includes,
        Some(RuleSet {
            includes: vec![Entry::new(Selector::All, "*"), Entry::new(Selector::Owner, "acme")],
            excludes: vec![Entry::new(Selector::IsFork, "true"), Entry::new(Selector::Name, "x")],
        })
    );

    let only_file = Context::from_cli(cli(), None, Some(file)).unwrap();
    assert_eq!(only_file.includes, Some(RuleSet::parse("*:*\n!is_fork:true\n").unwrap()));

    let only_lines = Context::from_cli(lines, None, None).unwrap();
    assert_eq!(only_lines.includes, Some(RuleSet::parse("owner:acme\n!name:x\n").unwrap()));

    let empty_file = Context::from_cli(cli(), None, Some(String::new())).unwrap();
    assert_eq!(empty_file.includes, Some(RuleSet::new()));
}

#[test]
fn bad_rules_are_told_apart_by_their_source() {
    let lines = Cli { inline_rules: vec!["*:*".to_string(), "is_fork:no".to_string()], ..cli() };
    assert_eq!(
        Context::from_cli(lines.clone(), None, None),
        Err(ContextError::CommandLine(Error {
            kind: ErrorKind::InvalidBool("no".to_string()),
            line: 2
        }))
    );
    assert_eq!(
        Context::from_cli(lines, None, Some("\nowner\n".to_string())),
        Err(ContextError::IncludeFile(Error {
            kind: ErrorKind::MissingValue("owner".to_string()),
            line: 2
        }))
    );
    let nowhere = Cli { data_dir: None, inline_rules: vec!["bad".to_string()], ..cli() };
    assert_eq!(Context::from_cli(nowhere, None, None), Err(ContextError::NoDataDir));
}

#[test]
fn without_a_rule_source_nothing_is_selected() {
    let cx = Context::from_cli(cli(), None, None).unwrap();
    assert_eq!(cx.includes, None);
    let mut repos = vec![repo("acme", "a"), repo("rust-lang", "rust")];
    let said = cx.select(&mut repos);
    assert!(repos.is_empty());
    assert_eq!(
        said,
        vec!["ignoring repo a: no rules matched", "ignoring repo rust: no rules matched"]
    );

    // the same as with a source that holds no rule, or only rules that take out
    let empty = Context::from_cli(cli(), None, Some("# nothing\n".to_string())).unwrap();
    let mut repos = vec![repo("acme", "a")];
    assert_eq!(empty.select(&mut repos), vec!["ignoring repo a: no rules matched"]);
    assert!(repos.is_empty());
    let only_out = Context::from_cli(cli(), None, Some("!owner:zeta\n".to_string())).unwrap();
    let mut repos = vec![repo("acme", "a")];
    only_out.select(&mut repos);
    assert!(repos.is_empty());
}

#[test]
fn the_rules_in_force_select_the_catalogue() {
    let lines = Cli { inline_rules: vec!["!name:b".to_string()], ..cli() };
    let cx = Context::from_cli(lines, None, Some("owner:acme\n".to_string())).unwrap();
    let mut repos = vec![repo("acme", "a"), repo("zeta", "z"), repo("acme", "b"), repo("acme", "c")];
    let said = cx.select(&mut repos);
    let names: Vec<&str> = repos.iter().map(|r| r.name.as_str()).collect();
    assert_eq!(names, vec!["a", "c"]);
    assert_eq!(
        said,
        vec![
            "including repo a: owner is \"acme\"",
            "ignoring repo z: no rules matched",
            "excluding repo b: owner is \"acme\" but name is \"b\"",
            "including repo c: owner is \"acme\"",
        ]
    );
}
