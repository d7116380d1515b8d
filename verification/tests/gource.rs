use gourcers::github::{Owner, Repo};
use gourcers::gource::{
    combine_and_sort_logs, encode_command, generate_gource_log, generate_gource_video,
    gource_log_command, normalize_log, render_command, strip_quotes, tag_log, NormalizeError,
    RenderError,
};
use gourcers::process::{Invocation, ProcessError, ProcessOutput, ProcessResult, Stream};

fn repo(name: &str) -> Repo {
    Repo {
        name: name.to_string(),
        full_name: None,
        ssh_url: String::new(),
        owner: Owner { login: "acme".to_string() },
        fork: false,
        private: false,
    }
}

fn exited(code: Option<i32>, stdout: &[u8], stderr: &[u8]) -> ProcessResult {
    ProcessResult::Exited(ProcessOutput { code, stdout: stdout.to_vec(), stderr: stderr.to_vec() })
}

fn strings(items: &[&str]) -> Vec<String> {
    items.iter().map(|s| s.to_string()).collect()
}

#[test]
fn lines_are_tagged_behind_the_type_field() {
    assert_eq!(
        tag_log("1275543595|andrew|A|/src/main.rs\n", "rocket"),
        "1275543595|andrew|A|/rocket/src/main.rs\n"
    );
    assert_eq!(
        tag_log("1|a|A|/x\n2|b|M|/y|FF0000\n3|c|D|/z", "r"),
        "1|a|A|/r/x\n2|b|M|/r/y|FF0000\n3|c|D|/r/z"
    );
    // the last field of one character counts
    assert_eq!(tag_log("1|a|M|/p|q|/r", "n"), "1|a|M|/p|q|/n/r");
    assert_eq!(tag_log("|||", "n"), "|||/n");
    assert_eq!(tag_log("||||", "n"), "||||/n");
    assert_eq!(tag_log("a|b|", "n"), "a|b|/n");
    // lines without such a field stay
    assert_eq!(tag_log("", "n"), "");
    assert_eq!(tag_log("\n\n", "n"), "\n\n");
    assert_eq!(tag_log("1|andrew|AM|/x\nplain\n||\n", "n"), "1|andrew|AM|/x\nplain\n||\n");
    // a carriage return is a character like any other
    assert_eq!(tag_log("1|a|A|/x\r\n|\r|", "n"), "1|a|A|/n/x\r\n|\r|/n");
    // the name goes in as it is
    assert_eq!(tag_log("1|a|A|/x", "$1 and $2"), "1|a|A|/$1 and $2/x");
    assert_eq!(tag_log("1|a|A|/x", ""), "1|a|A|//x");
}

#[test]
fn quotes_are_stripped() {
    assert_eq!(strip_quotes("it's a \"test\" of `quotes`"), "its a test of quotes");
    assert_eq!(strip_quotes("'\"`"), "");
    assert_eq!(strip_quotes("plain\ntext|1"), "plain\ntext|1");
    assert_eq!(strip_quotes(""), "");
    assert_eq!(strip_quotes("\u{2019}\u{201c}"), "\u{2019}\u{201c}");
}

#[test]
fn logs_are_normalized() {
    assert_eq!(
        normalize_log("1|José|A|/src/Crème Brûlée's.txt\n", "café"),
        "1|Jose|A|/cafe/src/Creme Brulees.txt\n"
    );
    assert_eq!(normalize_log("1|a|A|/TÅRÖÄÆØ", "n"), "1|a|A|/n/TAROAAO");
    // combining marks go, ligatures are spelled out
    assert_eq!(normalize_log("e\u{301}|\u{153}", "n"), "e|oe");
}

#[test]
fn clean_lines_change_only_by_the_name() {
    let raw = "1275543595|andrew|A|/src/main.rs\n1275543596|bob|M|/README.md|00FF00\nnothing\n";
    let out = normalize_log(raw, "rocket");
    assert_eq!(
        out,
        "1275543595|andrew|A|/rocket/src/main.rs\n1275543596|bob|M|/rocket/README.md|00FF00\nnothing\n"
    );
    assert_eq!(out, tag_log(raw, "rocket"));
    assert_eq!(out.replace("/rocket", ""), raw);
}

#[test]
fn logs_are_merged_in_time_order() {
    let a = "1|ann|A|/a/x\n3|ann|M|/a/x\n5|ann|D|/a/x\n";
    let b = "2|bob|A|/b/y\n3|bob|M|/b/y\n4|bob|M|/b/z\n";
    assert_eq!(
        combine_and_sort_logs(&strings(&[a, b])),
        "1|ann|A|/a/x\n2|bob|A|/b/y\n3|ann|M|/a/x\n3|bob|M|/b/y\n4|bob|M|/b/z\n5|ann|D|/a/x\n"
    );
    assert_eq!(
        combine_and_sort_logs(&strings(&[b, a])),
        "1|ann|A|/a/x\n2|bob|A|/b/y\n3|bob|M|/b/y\n3|ann|M|/a/x\n4|bob|M|/b/z\n5|ann|D|/a/x\n"
    );
    assert_eq!(combine_and_sort_logs(&Vec::new()), "");
    assert_eq!(combine_and_sort_logs(&strings(&["", ""])), "");
    // keys are compared as text
    assert_eq!(combine_and_sort_logs(&strings(&["9|a\n10|b\n"])), "10|b\n9|a\n");
    // logs are put together as they are: a log without a last line feed runs into the next
    assert_eq!(combine_and_sort_logs(&strings(&["2|a", "1|b\n0|c"])), "0|c\n2|a1|b\n");
    // line endings with a carriage return are taken as line endings
    assert_eq!(combine_and_sort_logs(&strings(&["2|a\r\n1|b\r\n"])), "1|b\n2|a\n");
}

#[test]
fn merging_a_sorted_log_changes_nothing() {
    let logs = strings(&["3|c\n1|a\n2|x\n1|b\n", "2|y\n1|c\n"]);
    let once = combine_and_sort_logs(&logs);
    assert_eq!(once, "1|a\n1|b\n1|c\n2|x\n2|y\n3|c\n");
    let twice = combine_and_sort_logs(&vec![once.clone()]);
    assert_eq!(twice, once);

    // line endings with a carriage return are line endings, so such logs merge the same way
    let dos = strings(&["3|c\r\n1|a\r\n", "2|x\r\n1|b"]);
    let once = combine_and_sort_logs(&dos);
    assert_eq!(once, "1|a\n1|b\n2|x\n3|c\n");
    assert_eq!(combine_and_sort_logs(&vec![once.clone()]), once);

    // a second carriage return before the line ending is part of the line, and is lost
    // when the merged log is read again
    let odd = combine_and_sort_logs(&strings(&["1|a\r\r\n"]));
    assert_eq!(odd, "1|a\r\n");
    assert_eq!(combine_and_sort_logs(&vec![odd]), "1|a\n");
}

#[test]
fn the_log_of_a_repository_comes_from_the_run() {
    let r = repo("rocket");
    assert_eq!(
        generate_gource_log(&r, &exited(Some(0), "1|José|A|/x\n".as_bytes(), b"")),
        Ok("1|Jose|A|/acme/rocket/x\n".to_string())
    );
    assert_eq!(
        generate_gource_log(&r, &exited(Some(0), b"", b"noise")),
        Ok(String::new())
    );
    assert_eq!(
        generate_gource_log(&r, &exited(Some(0), b"1|a|A|/\xff\n", b"")),
        Err(NormalizeError::InvalidUtf8)
    );
    assert_eq!(
        generate_gource_log(&r, &exited(Some(2), b"\xff", b"no such directory\n")),
        Err(NormalizeError::ProcessFailed(Some(2), "no such directory\n".into()))
    );
    assert_eq!(
        generate_gource_log(&r, &exited(None, b"", b"\xc3(")),
        Err(NormalizeError::ProcessFailed(None, "\u{fffd}(".into()))
    );
    // ASCII output without quotes changes only by the name put in
    let raw = "1275543595|andrew|A|/src/main.rs\n1275543596|bob|M|/README.md|00FF00\n";
    assert_eq!(
        generate_gource_log(&r, &exited(Some(0), raw.as_bytes(), b"")),
        Ok("1275543595|andrew|A|/acme/rocket/src/main.rs\n\
            1275543596|bob|M|/acme/rocket/README.md|00FF00\n"
            .to_string())
    );
    assert_eq!(
        generate_gource_log(&r, &exited(Some(0), b"1|o'brien|A|/it's \"x\"\n", b"")),
        Ok("1|obrien|A|/acme/rocket/its x\n".to_string())
    );
    assert_eq!(generate_gource_log(&r, &ProcessResult::NotFound), Err(NormalizeError::ToolMissing));
    assert_eq!(
        generate_gource_log(&r, &ProcessResult::Failed("busy".into())),
        Err(NormalizeError::Io("busy".into()))
    );
}

#[test]
fn commands_of_the_renderer_and_the_encoder() {
    assert_eq!(
        gource_log_command("/data/repos/acme__rocket"),
        Invocation {
            program: "gource".into(),
            args: strings(&["--output-custom-log", "-", "/data/repos/acme__rocket"]),
            dir: None,
            stdin: Stream::Inherit,
            stdout: Stream::Piped,
            stderr: Stream::Piped,
        }
    );
    let args = strings(&["--hide", "root", "-a", "1"]);
    assert_eq!(
        render_command(&args, "/data/sorted.txt", false),
        Invocation {
            program: "gource".into(),
            args: strings(&["--hide", "root", "-a", "1", "/data/sorted.txt"]),
            dir: None,
            stdin: Stream::Inherit,
            stdout: Stream::Inherit,
            stderr: Stream::Inherit,
        }
    );
    assert_eq!(
        render_command(&args, "/data/sorted.txt", true),
        Invocation {
            program: "gource".into(),
            args: strings(&["--hide", "root", "-a", "1", "-o", "-", "/data/sorted.txt"]),
            dir: None,
            stdin: Stream::Inherit,
            stdout: Stream::Piped,
            stderr: Stream::Piped,
        }
    );
    assert_eq!(
        encode_command(&strings(&["-c:v", "libx264", "-crf", "1"]), "./gource.mp4"),
        Invocation {
            program: "ffmpeg".into(),
            args: strings(&[
                "-r", "60", "-f", "image2pipe", "-c:v", "ppm", "-i", "-", "-c:v", "libx264",
                "-crf", "1", "./gource.mp4"
            ]),
            dir: None,
            stdin: Stream::Piped,
            stdout: Stream::Inherit,
            stderr: Stream::Piped,
        }
    );
    assert_eq!(render_command(&Vec::new(), "log", false).args, strings(&["log"]));
    assert_eq!(encode_command(&Vec::new(), "out").args.len(), 9);
}

#[test]
fn a_failed_renderer_is_the_outcome_whatever_the_encoder_did() {
    let bad = exited(Some(1), b"", b"gource: could not open display\n");
    let error = RenderError::Renderer(ProcessError::Failed(
        Some(1),
        "gource: could not open display\n".into(),
    ));
    let encoders = [
        exited(Some(0), b"", b""),
        exited(Some(1), b"", b"ffmpeg: broken pipe"),
        ProcessResult::NotFound,
        ProcessResult::Failed("x".into()),
    ];
    assert_eq!(generate_gource_video(&bad, None), Err(error.clone()));
    for encoder in &encoders {
        assert_eq!(generate_gource_video(&bad, Some(encoder)), Err(error.clone()));
    }
    assert_eq!(
        generate_gource_video(&ProcessResult::NotFound, Some(&encoders[0])),
        Err(RenderError::Renderer(ProcessError::ToolMissing))
    );
}

#[test]
fn the_encoder_is_judged_after_the_renderer() {
    let good = exited(Some(0), b"", b"");
    assert_eq!(generate_gource_video(&good, None), Ok(()));
    assert_eq!(generate_gource_video(&good, Some(&good)), Ok(()));
    assert_eq!(
        generate_gource_video(&good, Some(&exited(Some(69), b"", b"bad codec"))),
        Err(RenderError::Encoder(ProcessError::Failed(Some(69), "bad codec".into())))
    );
    assert_eq!(
        generate_gource_video(&good, Some(&ProcessResult::NotFound)),
        Err(RenderError::Encoder(ProcessError::ToolMissing))
    );
    assert_eq!(
        generate_gource_video(&good, Some(&ProcessResult::Failed("io".into()))),
        Err(RenderError::Encoder(ProcessError::Io("io".into())))
    );
}

#[test]
fn tagging_is_what_the_pattern_does() {
    let pattern = lazy_regex::Regex::new(r"(.*\|.{1}\|)(.*)").unwrap();
    let dequote = lazy_regex::Regex::new(r#"['"`]"#).unwrap();
    let mut logs: Vec<String> = vec![
        "",
        "\n",
        "1275543595|andrew|A|/src/main.rs\n1275543596|bob|M|/README.md|00FF00\n",
        "1|a|A|/x",
        "|||",
        "||||",
        "|||||\n||\n|a|\n|ab|\nx|y|z",
        "1|a|M|/p|q|/r\r\n2|b|D|/s\r\n",
        "|\r|\n|\n|",
        "no pipes at all\n\nnone here either",
        "1|é|A|/ü|x|/y\n",
        "a|b|c|d|e|f|g\n|1|2|3|\n",
    ]
    .into_iter()
    .map(String::from)
    .collect();
    let mut seed: u64 = 0x9E3779B97F4A7C15;
    for _ in 0..300 {
        let mut text = String::new();
        for _ in 0..40 {
            seed ^= seed << 13;
            seed ^= seed >> 7;
            seed ^= seed << 17;
            text.push(['|', '|', '|', 'a', 'b', '/', '\n', '\r', 'é', '\'', '"'][(seed % 11) as usize]);
        }
        logs.push(text);
    }
    for log in &logs {
        for name in ["rocket", "", "a/b", "r|s"] {
            let replacement = format!("${{1}}/{name}${{2}}");
            let theirs = pattern.replace_all(log, replacement.as_str());
            assert_eq!(tag_log(log, name), theirs, "{log:?} {name:?}");
        }
        assert_eq!(strip_quotes(log), dequote.replace_all(log, ""), "{log:?}");
    }
}

#[test]
fn ascii_is_left_alone_but_for_quotes() {
    let mut all = String::new();
    for n in 0u8..128 {
        let c = n as char;
        let text = c.to_string();
        let expected = if c == '\'' || c == '"' || c == '`' { String::new() } else { text.clone() };
        assert_eq!(normalize_log(&text, "x"), expected, "{c:?}");
        all.push(c);
    }
    // as one line, the only stretch of the shape |c| is the pipe itself, which is not enough
    assert_eq!(normalize_log(&all, "x"), all.replace(['\'', '"', '`'], ""));
}

#[test]
fn logs_are_tagged_with_the_identity() {
    let run = exited(Some(0), b"1|ann|A|/src/lib.rs\n2|ann|M|/src/lib.rs\n", b"");

    // the full name that the service gave
    let given = Repo { full_name: Some("Acme/Rocket".to_string()), ..repo("rocket") };
    assert_eq!(
        generate_gource_log(&given, &run),
        Ok("1|ann|A|/Acme/Rocket/src/lib.rs\n2|ann|M|/Acme/Rocket/src/lib.rs\n".to_string())
    );

    // else owner and name
    assert_eq!(
        generate_gource_log(&repo("rocket"), &run),
        Ok("1|ann|A|/acme/rocket/src/lib.rs\n2|ann|M|/acme/rocket/src/lib.rs\n".to_string())
    );

    // two repositories of one name are kept apart
    let other = Repo { owner: Owner { login: "zeta".to_string() }, ..repo("rocket") };
    let ours = generate_gource_log(&repo("rocket"), &run).unwrap();
    let theirs = generate_gource_log(&other, &run).unwrap();
    assert_ne!(ours, theirs);
    assert_eq!(theirs, "1|ann|A|/zeta/rocket/src/lib.rs\n2|ann|M|/zeta/rocket/src/lib.rs\n");

    // a clean line changes by the identity alone
    for (identity, log) in [("acme/rocket", &ours), ("zeta/rocket", &theirs)] {
        assert_eq!(log.replace(&format!("/{identity}"), ""), "1|ann|A|/src/lib.rs\n2|ann|M|/src/lib.rs\n");
    }

    // diacritics and quotes of the identity go as those of the log do
    let accented = Repo { full_name: Some("caf\u{e9}/it's".to_string()), ..repo("x") };
    assert_eq!(
        generate_gource_log(&accented, &exited(Some(0), b"1|a|A|/f\n", b"")),
        Ok("1|a|A|/cafe/its/f\n".to_string())
    );
}

#[test]
fn lines_stay_apart_whatever_they_hold() {
    let raws = [
        "1|José|A|/src/Crème Brûlée's.txt\n2|Zoë|M|/a\u{301}\"b\"\n\n3|x|D|/ꜳ|`q`\n",
        "no marker\n\u{300}\u{36f}\n'\n|é|",
        "",
        "\n",
        "1|a|A|/œ\r\n2|b|M|/Ǆ",
    ];
    for raw in raws {
        for name in ["acme/rocket", "café/it's", ""] {
            let whole = normalize_log(raw, name);
            let by_line: Vec<String> = raw.split('\n').map(|l| normalize_log(l, name)).collect();
            let lines: Vec<&str> = whole.split('\n').collect();
            assert_eq!(lines, by_line, "{raw:?} {name:?}");
            assert_eq!(whole.matches('\n').count(), raw.matches('\n').count());
        }
    }
}

#[test]
fn diacritics_go_character_by_character() {
    // no field of one character in it, so that nothing is tagged
    let text = "TÅRÖÄÆØ čďêƒíó e\u{300} Ꜳꜳ Œœ ẞß 1|/a.b\n\u{1ab0}\u{1dff}x";
    let mut by_character = String::new();
    for c in text.chars() {
        let one = normalize_log(&c.to_string(), "");
        // what stands for a character is ASCII letters, or the character itself, or nothing
        assert!(one.chars().all(|d| d.is_ascii_alphabetic() || d == c), "{c:?} {one:?}");
        by_character.push_str(&one);
    }
    assert_eq!(normalize_log(text, ""), by_character);
    assert_eq!(by_character, "TAROAAO cdefio e AAaa OEoe Ss 1|/a.b\nx");
}

#[test]
fn whole_logs_give_their_lines_and_no_others() {
    let logs = strings(&["3|c\n1|a\n", "", "2|x\r\n1|b\n", "\n", "4|d\n"]);
    let merged = combine_and_sort_logs(&logs);
    assert_eq!(merged, "\n1|a\n1|b\n2|x\n3|c\n4|d\n");
    let count: usize = logs.iter().map(|l| l.lines().count()).sum();
    assert_eq!(merged.lines().count(), count);
    for log in &logs {
        for line in log.lines() {
            assert!(merged.lines().any(|m| m == line), "{line:?}");
        }
    }
}
