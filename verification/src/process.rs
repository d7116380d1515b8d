//! Commands for the outside tools and what came of running them, as plain
//! values: the caller runs a command and reports back.

use crate::text::string_views;
use vstd::prelude::*;
use vstd::utf8::{decode_utf8, valid_utf8};

verus! {

/// Where a stream of a process leads.
#[derive(Debug, Clone, Copy, PartialEq, Eq)]
pub enum Stream {
    /// To the stream of the same name of the process that starts it.
    Inherit,
    /// Into a pipe that the starting process holds the other end of.
    Piped,
}

/// A command line: the program, its arguments in order, the directory to
/// run it in where that matters, and where its three streams lead.
#[derive(Debug, Clone, PartialEq, Eq)]
pub struct Invocation {
    pub program: String,
    pub args: Vec<String>,
    pub dir: Option<String>,
    pub stdin: Stream,
    pub stdout: Stream,
    pub stderr: Stream,
}

/// The mathematical content of an [`Invocation`].
pub struct InvocationView {
    pub program: Seq<char>,
    pub args: Seq<Seq<char>>,
    pub dir: Option<Seq<char>>,
    pub stdin: Stream,
    pub stdout: Stream,
    pub stderr: Stream,
}

impl View for Invocation {
    type V = InvocationView;

    open spec fn view(&self) -> InvocationView {
        InvocationView {
            program: self.program@,
            args: string_views(self.args@),
            dir: match self.dir {
                Some(d) => Some(d@),
                None => None,
            },
            stdin: self.stdin,
            stdout: self.stdout,
            stderr: self.stderr,
        }
    }
}

/// A command that runs in the directory of its caller, its input inherited,
/// its output and its diagnostics captured.
pub open spec fn captured(program: Seq<char>, args: Seq<Seq<char>>) -> InvocationView {
    InvocationView {
        program,
        args,
        dir: None,
        stdin: Stream::Inherit,
        stdout: Stream::Piped,
        stderr: Stream::Piped,
    }
}

/// The views of a list of commands.
pub open spec fn invocation_views(v: Seq<Invocation>) -> Seq<InvocationView> {
    Seq::new(v.len(), |i: int| v[i]@)
}

/// What a finished process left behind.
#[derive(Debug, Clone, PartialEq, Eq)]
pub struct ProcessOutput {
    /// The exit code; `None` where the process ended without one.
    pub code: Option<i32>,
    pub stdout: Vec<u8>,
    pub stderr: Vec<u8>,
}

/// What came of running a command.
#[derive(Debug, Clone, PartialEq, Eq)]
pub enum ProcessResult {
    /// The program could not be found.
    NotFound,
    /// The program could not be started or waited for; the text says why.
    Failed(String),
    /// The program ran to its end.
    Exited(ProcessOutput),
}

impl ProcessOutput {
    /// A process succeeded if it ended with exit code zero.
    pub open spec fn succeeded(&self) -> bool {
        self.code == Some(0i32)
    }

    /// Whether the process ended with exit code zero.
    pub fn success(&self) -> (ok: bool)
        ensures
            ok == self.succeeded(),
    {
        match self.code {
            Some(c) => c == 0,
            None => false,
        }
    }
}

/// What a lossy reading of bytes as UTF-8 gives: the text they encode, with a
/// replacement character for every stretch that encodes none.
pub uninterp spec fn lossy_text(bytes: Seq<u8>) -> Seq<char>;

/// `String::from_utf8_lossy` of the standard library. The result depends on
/// the bytes alone, and bytes that are valid UTF-8 come back as the text they
/// encode.
#[verifier::external_body]
pub(crate) fn text_lossy(bytes: &Vec<u8>) -> (r: String)
    ensures
        r@ == lossy_text(bytes@),
        valid_utf8(bytes@) ==> r@ == decode_utf8(bytes@),
{
    String::from_utf8_lossy(bytes).into_owned()
}

/// `String::from_utf8` of the standard library: the text that the bytes
/// encode, if and only if they are valid UTF-8.
#[verifier::external_body]
pub(crate) fn text_strict(bytes: &Vec<u8>) -> (r: Option<String>)
    ensures
        r is Some <==> valid_utf8(bytes@),
        r matches Some(s) ==> s@ == decode_utf8(bytes@),
{
    String::from_utf8(bytes.clone()).ok()
}

/// Why a tool did not do its work.
#[derive(Debug, Clone, PartialEq, Eq)]
pub enum ProcessError {
    /// The tool could not be found.
    ToolMissing,
    /// The tool could not be started or waited for; the text says why.
    Io(String),
    /// The tool did not end with exit code zero; with the code, where it
    /// had one, and what it wrote to its diagnostics.
    Failed(Option<i32>, String),
}

/// The mathematical content of a [`ProcessError`].
pub enum ProcessErrorView {
    ToolMissing,
    Io(Seq<char>),
    Failed(Option<i32>, Seq<char>),
}

impl View for ProcessError {
    type V = ProcessErrorView;

    open spec fn view(&self) -> ProcessErrorView {
        match self {
            ProcessError::ToolMissing => ProcessErrorView::ToolMissing,
            ProcessError::Io(why) => ProcessErrorView::Io(why@),
            ProcessError::Failed(code, text) => ProcessErrorView::Failed(*code, text@),
        }
    }
}

/// What is wrong with a run, if anything: nothing only where the tool ran
/// and ended with exit code zero.
pub open spec fn fault_of(run: ProcessResult) -> Option<ProcessErrorView> {
    match run {
        ProcessResult::NotFound => Some(ProcessErrorView::ToolMissing),
        ProcessResult::Failed(why) => Some(ProcessErrorView::Io(why@)),
        ProcessResult::Exited(out) => if out.succeeded() {
            None
        } else {
            Some(ProcessErrorView::Failed(out.code, lossy_text(out.stderr@)))
        },
    }
}

/// A run that ended with another exit code than zero and whose diagnostics
/// are text.
pub open spec fn failed_with_text(run: ProcessResult) -> bool {
    run matches ProcessResult::Exited(out) && !out.succeeded() && valid_utf8(out.stderr@)
}

/// What a run that ended wrote to its diagnostics, where that is text.
pub open spec fn diagnostics(run: ProcessResult) -> Seq<char>
    recommends
        run is Exited,
{
    decode_utf8(run->Exited_0.stderr@)
}

/// A run that ended with exit code zero and whose output is text.
pub open spec fn wrote_text(run: ProcessResult) -> bool {
    run matches ProcessResult::Exited(out) && out.succeeded() && valid_utf8(out.stdout@)
}

/// What a run that ended wrote to its output, where that is text.
pub open spec fn output_text(run: ProcessResult) -> Seq<char>
    recommends
        run is Exited,
{
    decode_utf8(run->Exited_0.stdout@)
}

/// The error of a run that ended badly, where its diagnostics are text: the
/// exit code, and the diagnostics as they were written.
pub open spec fn text_fault(run: ProcessResult) -> ProcessErrorView
    recommends
        run is Exited,
{
    ProcessErrorView::Failed(run->Exited_0.code, decode_utf8(run->Exited_0.stderr@))
}

/// Judges a run, see [`fault_of`]. Diagnostics that are text stand in the
/// error as they were written.
pub fn judge(run: &ProcessResult) -> (r: Result<(), ProcessError>)
    ensures
        match r {
            Ok(_) => fault_of(*run) == None::<ProcessErrorView>,
            Err(e) => fault_of(*run) == Some(e@),
        },
        failed_with_text(*run) ==> r is Err && r->Err_0@ == text_fault(*run),
{
    match run {
        ProcessResult::NotFound => Err(ProcessError::ToolMissing),
        ProcessResult::Failed(why) => Err(ProcessError::Io(why.clone())),
        ProcessResult::Exited(out) => {
            if out.success() {
                Ok(())
            } else {
                Err(ProcessError::Failed(out.code, text_lossy(&out.stderr)))
            }
        },
    }
}

/// No arguments.
pub fn no_args() -> (r: Vec<String>)
    ensures
        string_views(r@) == Seq::<Seq<char>>::empty(),
{
    let r: Vec<String> = Vec::new();
    assert(string_views(r@) == Seq::<Seq<char>>::empty());
    r
}

/// A list of strings with one more at its end.
pub fn with_arg(mut args: Vec<String>, arg: &str) -> (r: Vec<String>)
    ensures
        string_views(r@) == string_views(args@).push(arg@),
{
    let ghost before = string_views(args@);
    args.push(arg.to_string());
    assert(string_views(args@) == before.push(arg@));
    args
}

/// A list of strings with the strings of another behind them.
pub fn with_args(mut args: Vec<String>, more: &Vec<String>) -> (r: Vec<String>)
    ensures
        string_views(r@) == string_views(args@) + string_views(more@),
{
    let ghost before = string_views(args@);
    let mut i: usize = 0;
    while i < more.len()
        invariant
            i <= more.len(),
            string_views(args@) == before + string_views(more@).take(i as int),
        decreases more.len() - i,
    {
        let ghost had = string_views(args@);
        args.push(more[i].clone());
        assert(string_views(args@) == had.push(more@[i as int]@));
        assert(string_views(more@).take(i + 1) == string_views(more@).take(i as int).push(
            more@[i as int]@,
        ));
        i += 1;
    }
    assert(string_views(more@).take(more.len() as int) == string_views(more@));
    args
}

} // verus!
