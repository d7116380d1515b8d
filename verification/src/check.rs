//! Whether the outside tools are there, found out before any work starts.

use crate::process::{
    captured, invocation_views, no_args, with_arg, Invocation, InvocationView, ProcessResult,
    Stream,
};
use crate::text::{append_chars, chars_of, signed_decimal, signed_decimal_chars, text_of};
use vstd::prelude::*;

verus! {

/// What is wrong with one of the tools.
#[derive(Debug, Clone, PartialEq, Eq)]
pub enum DependencyError {
    FfmpegNotFound,
    GourceNotFound,
    GitNotFound,
    QsvNotFound,
    /// The tool could not be started for another reason than its absence;
    /// the text says why.
    IoError(String),
    /// The tool ran, and ended with this exit code instead of zero.
    NonzeroExitCode(Option<i32>),
}

/// The mathematical content of a [`DependencyError`].
pub enum DependencyErrorView {
    FfmpegNotFound,
    GourceNotFound,
    GitNotFound,
    QsvNotFound,
    IoError(Seq<char>),
    NonzeroExitCode(Option<i32>),
}

impl View for DependencyError {
    type V = DependencyErrorView;

    open spec fn view(&self) -> DependencyErrorView {
        match self {
            DependencyError::FfmpegNotFound => DependencyErrorView::FfmpegNotFound,
            DependencyError::GourceNotFound => DependencyErrorView::GourceNotFound,
            DependencyError::GitNotFound => DependencyErrorView::GitNotFound,
            DependencyError::QsvNotFound => DependencyErrorView::QsvNotFound,
            DependencyError::IoError(s) => DependencyErrorView::IoError(s@),
            DependencyError::NonzeroExitCode(c) => DependencyErrorView::NonzeroExitCode(*c),
        }
    }
}

/// The views of a list of errors.
pub open spec fn error_views(v: Seq<DependencyError>) -> Seq<DependencyErrorView> {
    Seq::new(v.len(), |i: int| v[i]@)
}

/// What is wrong with a tool, in words.
pub open spec fn dependency_message(e: DependencyErrorView) -> Seq<char> {
    match e {
        DependencyErrorView::FfmpegNotFound => "ffmpeg not found"@,
        DependencyErrorView::GourceNotFound => "gource not found"@,
        DependencyErrorView::GitNotFound => "git not found"@,
        DependencyErrorView::QsvNotFound => "qsv not found"@,
        DependencyErrorView::IoError(why) => "io error: "@ + why,
        DependencyErrorView::NonzeroExitCode(Some(code)) => "nonzero exit code: Some("@
            + signed_decimal(code as int) + ")"@,
        DependencyErrorView::NonzeroExitCode(None) => "nonzero exit code: None"@,
    }
}

impl DependencyError {
    /// What is wrong with the tool, in words; see [`dependency_message`].
    pub fn message(&self) -> (r: String)
        ensures
            r@ == dependency_message(self@),
    {
        match self {
            DependencyError::FfmpegNotFound => "ffmpeg not found".to_string(),
            DependencyError::GourceNotFound => "gource not found".to_string(),
            DependencyError::GitNotFound => "git not found".to_string(),
            DependencyError::QsvNotFound => "qsv not found".to_string(),
            DependencyError::IoError(why) => {
                let mut r = "io error: ".to_string();
                r.append(why.as_str());
                r
            },
            DependencyError::NonzeroExitCode(Some(code)) => {
                let mut buf = chars_of("nonzero exit code: Some(");
                let digits = signed_decimal_chars(*code);
                append_chars(&mut buf, &digits);
                buf.push(')');
                let r = text_of(&buf);
                proof {
                    reveal_strlit(")");
                    assert(")"@ == seq![')']);
                    assert(buf@ == "nonzero exit code: Some("@ + signed_decimal(*code as int)
                        + ")"@);
                }
                r
            },
            DependencyError::NonzeroExitCode(None) => "nonzero exit code: None".to_string(),
        }
    }
}

/// What the probe of one tool shows: nothing if the tool ran and ended with
/// exit code zero; `missing` if it was not found; the reason if it could not
/// be started otherwise; its exit code if that was not zero.
pub open spec fn probe_error(run: ProcessResult, missing: DependencyErrorView) -> Option<
    DependencyErrorView,
> {
    match run {
        ProcessResult::NotFound => Some(missing),
        ProcessResult::Failed(why) => Some(DependencyErrorView::IoError(why@)),
        ProcessResult::Exited(out) => if out.succeeded() {
            None
        } else {
            Some(DependencyErrorView::NonzeroExitCode(out.code))
        },
    }
}

/// The errors of the four probes, in the order git, gource, ffmpeg, qsv.
pub open spec fn probe_errors(
    git: ProcessResult,
    gource: ProcessResult,
    ffmpeg: ProcessResult,
    qsv: ProcessResult,
) -> Seq<DependencyErrorView> {
    listed(probe_error(git, DependencyErrorView::GitNotFound)) + listed(
        probe_error(gource, DependencyErrorView::GourceNotFound),
    ) + listed(probe_error(ffmpeg, DependencyErrorView::FfmpegNotFound)) + listed(
        probe_error(qsv, DependencyErrorView::QsvNotFound),
    )
}

/// The list of what an option holds.
pub open spec fn listed(e: Option<DependencyErrorView>) -> Seq<DependencyErrorView> {
    match e {
        Some(e) => seq![e],
        None => seq![],
    }
}

/// One of the outside tools.
#[derive(Debug, Clone, Copy, PartialEq, Eq)]
pub enum Tool {
    /// The version-control client.
    Git,
    /// The history extractor and renderer.
    Gource,
    /// The video encoder.
    Ffmpeg,
    /// The sort utility.
    Qsv,
}

/// The error that stands for the absence of a tool.
pub open spec fn missing(tool: Tool) -> DependencyErrorView {
    match tool {
        Tool::Git => DependencyErrorView::GitNotFound,
        Tool::Gource => DependencyErrorView::GourceNotFound,
        Tool::Ffmpeg => DependencyErrorView::FfmpegNotFound,
        Tool::Qsv => DependencyErrorView::QsvNotFound,
    }
}

/// The command that shows whether a tool is there.
pub open spec fn probe_command(tool: Tool) -> InvocationView {
    match tool {
        Tool::Git => captured("git"@, seq!["--version"@]),
        Tool::Gource => captured("gource"@, seq!["-h"@]),
        Tool::Ffmpeg => captured("ffmpeg"@, seq!["-version"@]),
        Tool::Qsv => captured("qsv"@, seq!["--version"@]),
    }
}

/// The tools that a run cannot do without, in the order in which it turns
/// to them: the version-control client unless the working copies are taken
/// as they are, the renderer always, the encoder if a video is made, the
/// sort utility if the merge is left to it.
pub open spec fn needed(skip_clone: bool, encode: bool, outside_sort: bool) -> Seq<Tool> {
    (if skip_clone {
        seq![]
    } else {
        seq![Tool::Git]
    }) + seq![Tool::Gource] + (if outside_sort {
        seq![Tool::Qsv]
    } else {
        seq![]
    }) + (if encode {
        seq![Tool::Ffmpeg]
    } else {
        seq![]
    })
}

/// The errors of a list of probes, each with the tool it was for, in the
/// order of the list.
pub open spec fn tool_errors(runs: Seq<(Tool, ProcessResult)>) -> Seq<DependencyErrorView>
    decreases runs.len(),
{
    if runs.len() == 0 {
        seq![]
    } else {
        tool_errors(runs.drop_last()) + listed(probe_error(runs.last().1, missing(runs.last().0)))
    }
}

/// The tools that a run cannot do without, see [`needed`].
pub fn required_tools(skip_clone: bool, encode: bool, outside_sort: bool) -> (r: Vec<Tool>)
    ensures
        r@ == needed(skip_clone, encode, outside_sort),
{
    let mut r: Vec<Tool> = Vec::new();
    if !skip_clone {
        r.push(Tool::Git);
    }
    r.push(Tool::Gource);
    if outside_sort {
        r.push(Tool::Qsv);
    }
    if encode {
        r.push(Tool::Ffmpeg);
    }
    assert(r@ == needed(skip_clone, encode, outside_sort));
    r
}

/// The command that shows whether a tool is there, see [`probe_command`].
pub fn probe_of(tool: Tool) -> (r: Invocation)
    ensures
        r@ == probe_command(tool),
{
    match tool {
        Tool::Git => probe("git", "--version"),
        Tool::Gource => probe("gource", "-h"),
        Tool::Ffmpeg => probe("ffmpeg", "-version"),
        Tool::Qsv => probe("qsv", "--version"),
    }
}

/// Judges the probes of a list of tools at once: fine if every tool is
/// there, else the errors of all tools that are not, in the order of the
/// list.
pub fn check_tools(runs: &Vec<(Tool, ProcessResult)>) -> (r: Result<(), Vec<DependencyError>>)
    ensures
        match r {
            Ok(_) => tool_errors(runs@).len() == 0,
            Err(errs) => errs.len() > 0 && error_views(errs@) == tool_errors(runs@),
        },
{
    let mut errs: Vec<DependencyError> = Vec::new();
    assert(error_views(errs@) == Seq::<DependencyErrorView>::empty());
    let mut i: usize = 0;
    while i < runs.len()
        invariant
            i <= runs.len(),
            error_views(errs@) == tool_errors(runs@.take(i as int)),
        decreases runs.len() - i,
    {
        let ghost had = error_views(errs@);
        assert(runs@.take(i + 1).drop_last() == runs@.take(i as int));
        assert(runs@.take(i + 1).last() == runs@[i as int]);
        let err = match runs[i].0 {
            Tool::Git => DependencyError::GitNotFound,
            Tool::Gource => DependencyError::GourceNotFound,
            Tool::Ffmpeg => DependencyError::FfmpegNotFound,
            Tool::Qsv => DependencyError::QsvNotFound,
        };
        match check_for_cmd(&runs[i].1, err) {
            Err(e) => {
                errs.push(e);
                assert(error_views(errs@) == had + seq![e@]);
            },
            Ok(_) => {
                assert(had + Seq::<DependencyErrorView>::empty() == had);
            },
        }
        i += 1;
    }
    assert(runs@.take(runs.len() as int) == runs@);
    if errs.len() > 0 {
        Err(errs)
    } else {
        Ok(())
    }
}

/// The four commands that show whether git, gource, ffmpeg and qsv are
/// there, in that order: each tool asked for its version or its help.
pub open spec fn probe_commands() -> Seq<InvocationView> {
    seq![
        captured("git"@, seq!["--version"@]),
        captured("gource"@, seq!["-h"@]),
        captured("ffmpeg"@, seq!["-version"@]),
        captured("qsv"@, seq!["--version"@]),
    ]
}

/// One probe: `bin` with the single argument `arg`.
fn probe(bin: &str, arg: &str) -> (r: Invocation)
    ensures
        r@ == captured(bin@, seq![arg@]),
{
    let args = with_arg(no_args(), arg);
    assert(Seq::<Seq<char>>::empty().push(arg@) == seq![arg@]);
    Invocation {
        program: bin.to_string(),
        args,
        dir: None,
        stdin: Stream::Inherit,
        stdout: Stream::Piped,
        stderr: Stream::Piped,
    }
}

/// The commands to run before [`check_for_dependencies`], see
/// [`probe_commands`].
pub fn dependency_probes() -> (r: Vec<Invocation>)
    ensures
        invocation_views(r@) == probe_commands(),
{
    let mut r: Vec<Invocation> = Vec::new();
    r.push(probe("git", "--version"));
    r.push(probe("gource", "-h"));
    r.push(probe("ffmpeg", "-version"));
    r.push(probe("qsv", "--version"));
    assert(invocation_views(r@) == probe_commands());
    r
}

/// Judges the probe of one tool, see [`probe_error`]; `err` is the error
/// that stands for the absence of the tool.
pub fn check_for_cmd(run: &ProcessResult, err: DependencyError) -> (r: Result<(), DependencyError>)
    ensures
        match r {
            Ok(_) => probe_error(*run, err@) == None::<DependencyErrorView>,
            Err(e) => probe_error(*run, err@) == Some(e@),
        },
{
    match run {
        ProcessResult::NotFound => Err(err),
        ProcessResult::Failed(why) => Err(DependencyError::IoError(why.clone())),
        ProcessResult::Exited(out) => {
            if out.success() {
                Ok(())
            } else {
                Err(DependencyError::NonzeroExitCode(out.code))
            }
        },
    }
}

/// Judges the probes of all four tools at once: fine if every tool is
/// there, else the errors of all tools that are not, in the order git,
/// gource, ffmpeg, qsv.
pub fn check_for_dependencies(
    git: &ProcessResult,
    gource: &ProcessResult,
    ffmpeg: &ProcessResult,
    qsv: &ProcessResult,
) -> (r: Result<(), Vec<DependencyError>>)
    ensures
        match r {
            Ok(_) => probe_errors(*git, *gource, *ffmpeg, *qsv).len() == 0,
            Err(errs) => errs.len() > 0 && error_views(errs@) == probe_errors(
                *git,
                *gource,
                *ffmpeg,
                *qsv,
            ),
        },
{
    let mut errs: Vec<DependencyError> = Vec::new();
    assert(error_views(errs@) == Seq::<DependencyErrorView>::empty());
    let ghost a = listed(probe_error(*git, DependencyErrorView::GitNotFound));
    let ghost b = listed(probe_error(*gource, DependencyErrorView::GourceNotFound));
    let ghost c = listed(probe_error(*ffmpeg, DependencyErrorView::FfmpegNotFound));
    let ghost d = listed(probe_error(*qsv, DependencyErrorView::QsvNotFound));
    match check_for_cmd(git, DependencyError::GitNotFound) {
        Err(e) => {
            errs.push(e);
        },
        Ok(_) => {},
    }
    assert(error_views(errs@) == a);
    match check_for_cmd(gource, DependencyError::GourceNotFound) {
        Err(e) => {
            errs.push(e);
        },
        Ok(_) => {},
    }
    assert(error_views(errs@) == a + b);
    match check_for_cmd(ffmpeg, DependencyError::FfmpegNotFound) {
        Err(e) => {
            errs.push(e);
        },
        Ok(_) => {},
    }
    assert(error_views(errs@) == a + b + c);
    match check_for_cmd(qsv, DependencyError::QsvNotFound) {
        Err(e) => {
            errs.push(e);
        },
        Ok(_) => {},
    }
    assert(error_views(errs@) == a + b + c + d);
    if errs.len() > 0 {
        Err(errs)
    } else {
        Ok(())
    }
}

} // verus!
