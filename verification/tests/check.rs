use gourcers::check::{
    check_for_cmd, check_for_dependencies, check_tools, dependency_probes, probe_of,
    required_tools, DependencyError, Tool,
};
use gourcers::process::{ProcessOutput, ProcessResult, Stream};
use gourcers::qsv;

fn exited(code: Option<i32>) -> ProcessResult {
    ProcessResult::Exited(ProcessOutput { code, stdout: Vec::new(), stderr: Vec::new() })
}

fn fine() -> ProcessResult {
    exited(Some(0))
}

#[test]
fn every_tool_is_asked_for_its_version() {
    let probes = dependency_probes();
    let lines: Vec<(String, Vec<String>)> =
        probes.iter().map(|p| (p.program.clone(), p.args.clone())).collect();
    assert_eq!(
        lines,
        vec![
            ("git".to_string(), vec!["--version".to_string()]),
            ("gource".to_string(), vec!["-h".to_string()]),
            ("ffmpeg".to_string(), vec!["-version".to_string()]),
            ("qsv".to_string(), vec!["--version".to_string()]),
        ]
    );
    assert!(probes.iter().all(|p| p.dir.is_none() && p.stdout == Stream::Piped));
}

#[test]
fn one_probe() {
    assert_eq!(check_for_cmd(&fine(), DependencyError::GitNotFound), Ok(()));
    assert_eq!(
        check_for_cmd(&ProcessResult::NotFound, DependencyError::QsvNotFound),
        Err(DependencyError::QsvNotFound)
    );
    assert_eq!(
        check_for_cmd(&ProcessResult::Failed("denied".into()), DependencyError::GitNotFound),
        Err(DependencyError::IoError("denied".into()))
    );
    assert_eq!(
        check_for_cmd(&exited(Some(3)), DependencyError::GitNotFound),
        Err(DependencyError::NonzeroExitCode(Some(3)))
    );
    assert_eq!(
        check_for_cmd(&exited(None), DependencyError::GitNotFound),
        Err(DependencyError::NonzeroExitCode(None))
    );
}

#[test]
fn all_missing_tools_are_listed_at_once() {
    assert_eq!(check_for_dependencies(&fine(), &fine(), &fine(), &fine()), Ok(()));
    assert_eq!(
        check_for_dependencies(
            &ProcessResult::NotFound,
            &ProcessResult::NotFound,
            &ProcessResult::NotFound,
            &ProcessResult::NotFound
        ),
        Err(vec![
            DependencyError::GitNotFound,
            DependencyError::GourceNotFound,
            DependencyError::FfmpegNotFound,
            DependencyError::QsvNotFound,
        ])
    );
    assert_eq!(
        check_for_dependencies(&fine(), &ProcessResult::NotFound, &exited(Some(1)), &fine()),
        Err(vec![DependencyError::GourceNotFound, DependencyError::NonzeroExitCode(Some(1))])
    );
    assert_eq!(
        check_for_dependencies(&fine(), &fine(), &fine(), &ProcessResult::Failed("x".into())),
        Err(vec![DependencyError::IoError("x".into())])
    );
}

#[test]
fn the_sort_utility_is_planned_and_judged() {
    let logs = vec!["2|b\n".to_string(), "1|a\n".to_string()];
    let plan = qsv::combine_and_sort_logs(&logs, "/data/sorted.txt");
    assert_eq!(plan.input, "2|b\n1|a\n");
    assert_eq!(plan.sort.program, "qsv");
    assert_eq!(plan.sort.args, vec!["sort", "-d", "|", "-n", "-s", "1"]);
    assert_eq!(
        (plan.sort.stdin, plan.sort.stdout, plan.sort.stderr),
        (Stream::Piped, Stream::Piped, Stream::Piped)
    );
    assert_eq!(plan.format.program, "qsv");
    assert_eq!(plan.format.args, vec!["fmt", "-t", "|", "-o", "/data/sorted.txt"]);
    assert_eq!(
        (plan.format.stdin, plan.format.stdout, plan.format.stderr),
        (Stream::Piped, Stream::Inherit, Stream::Piped)
    );

    let bad = |text: &str| {
        ProcessResult::Exited(ProcessOutput {
            code: Some(1),
            stdout: Vec::new(),
            stderr: text.as_bytes().to_vec(),
        })
    };
    assert_eq!(qsv::sort_outcome(&fine(), &fine()), Ok(()));
    assert_eq!(
        qsv::sort_outcome(&bad("sort broke"), &fine()),
        Err(qsv::SortError::Sort(gourcers::process::ProcessError::Failed(
            Some(1),
            "sort broke".into()
        )))
    );
    assert_eq!(
        qsv::sort_outcome(&bad("sort broke"), &bad("fmt broke")),
        Err(qsv::SortError::Sort(gourcers::process::ProcessError::Failed(
            Some(1),
            "sort broke".into()
        )))
    );
    assert_eq!(
        qsv::sort_outcome(&fine(), &bad("fmt broke")),
        Err(qsv::SortError::Format(gourcers::process::ProcessError::Failed(
            Some(1),
            "fmt broke".into()
        )))
    );
}

#[test]
fn dependency_errors_in_words() {
    assert_eq!(DependencyError::FfmpegNotFound.message(), "ffmpeg not found");
    assert_eq!(DependencyError::GourceNotFound.message(), "gource not found");
    assert_eq!(DependencyError::GitNotFound.message(), "git not found");
    assert_eq!(DependencyError::QsvNotFound.message(), "qsv not found");
    assert_eq!(DependencyError::IoError("denied".into()).message(), "io error: denied");
    for code in [Some(0), Some(1), Some(-1), Some(127), Some(i32::MAX), Some(i32::MIN), None] {
        assert_eq!(
            DependencyError::NonzeroExitCode(code).message(),
            format!("nonzero exit code: {:?}", code)
        );
    }
}

#[test]
fn only_the_tools_that_are_needed_are_asked_for() {
    assert_eq!(required_tools(false, true, false), vec![Tool::Git, Tool::Gource, Tool::Ffmpeg]);
    assert_eq!(required_tools(true, false, false), vec![Tool::Gource]);
    assert_eq!(
        required_tools(false, true, true),
        vec![Tool::Git, Tool::Gource, Tool::Qsv, Tool::Ffmpeg]
    );
    assert_eq!(probe_of(Tool::Git), dependency_probes()[0]);
    assert_eq!(probe_of(Tool::Gource), dependency_probes()[1]);
    assert_eq!(probe_of(Tool::Ffmpeg), dependency_probes()[2]);
    assert_eq!(probe_of(Tool::Qsv), dependency_probes()[3]);

    assert_eq!(check_tools(&Vec::new()), Ok(()));
    assert_eq!(check_tools(&vec![(Tool::Git, fine()), (Tool::Gource, fine())]), Ok(()));
    assert_eq!(
        check_tools(&vec![
            (Tool::Ffmpeg, ProcessResult::NotFound),
            (Tool::Git, fine()),
            (Tool::Gource, ProcessResult::NotFound),
            (Tool::Qsv, exited(Some(2))),
        ]),
        Err(vec![
            DependencyError::FfmpegNotFound,
            DependencyError::GourceNotFound,
            DependencyError::NonzeroExitCode(Some(2)),
        ])
    );
}
