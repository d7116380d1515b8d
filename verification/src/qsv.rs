//! Merging the logs with the help of an outside sort utility: the utility
//! sorts what it is fed on its standard input by the first column, and a
//! second run of it writes the result, in the renderer's format, to the file
//! of the merged log.
//!
//! What the two commands do together is this pipeline of a shell:
//!
//! ```sh
//! cat $LOGS_DIR/*.log | qsv sort -d \| -n -s 1 | qsv fmt -t \| -o $SORTED_LOG
//! ```

use crate::gource::concat;
use crate::process::{
    fault_of, judge, no_args, with_arg, Invocation, InvocationView, ProcessError, ProcessErrorView,
    ProcessResult, Stream,
};
use crate::text::{append_chars, chars_of, string_views, text_of};
use vstd::prelude::*;

verus! {

/// What it takes to merge the logs: the text to feed to the sorting
/// command, the sorting command, and the formatting command that is fed
/// what the sorting command writes.
#[derive(Debug, Clone, PartialEq, Eq)]
pub struct SortPlan {
    pub input: String,
    pub sort: Invocation,
    pub format: Invocation,
}

/// Why the logs were not merged.
#[derive(Debug, Clone, PartialEq, Eq)]
pub enum SortError {
    /// The sorting command did not do its work.
    Sort(ProcessError),
    /// The sorting command did its work, the formatting command did not.
    Format(ProcessError),
}

/// The mathematical content of a [`SortError`].
pub enum SortErrorView {
    Sort(ProcessErrorView),
    Format(ProcessErrorView),
}

impl View for SortError {
    type V = SortErrorView;

    open spec fn view(&self) -> SortErrorView {
        match self {
            SortError::Sort(e) => SortErrorView::Sort(e@),
            SortError::Format(e) => SortErrorView::Format(e@),
        }
    }
}

/// The sorting command: the fields are delimited by `|`, the order is that
/// of the numbers in the first column. All three streams are captured.
pub open spec fn sort_command() -> InvocationView {
    InvocationView {
        program: "qsv"@,
        args: seq!["sort"@, "-d"@, "|"@, "-n"@, "-s"@, "1"@],
        dir: None,
        stdin: Stream::Piped,
        stdout: Stream::Piped,
        stderr: Stream::Piped,
    }
}

/// The formatting command: it writes its input to `target`, the fields
/// delimited by `|`. Its input and its diagnostics are captured.
pub open spec fn format_command(target: Seq<char>) -> InvocationView {
    InvocationView {
        program: "qsv"@,
        args: seq!["fmt"@, "-t"@, "|"@, "-o"@, target],
        dir: None,
        stdin: Stream::Piped,
        stdout: Stream::Inherit,
        stderr: Stream::Piped,
    }
}

/// What the runs of the two commands mean. The sorting command is judged
/// first: where it did not do its work, that is the error, whatever the
/// formatting command did.
pub open spec fn sort_verdict(sort: ProcessResult, format: ProcessResult) -> Result<
    (),
    SortErrorView,
> {
    match fault_of(sort) {
        Some(e) => Err(SortErrorView::Sort(e)),
        None => match fault_of(format) {
            Some(e) => Err(SortErrorView::Format(e)),
            None => Ok(()),
        },
    }
}

/// Plans the merge of the logs into the file `sorted_log`: the logs, in the
/// order of the list, put together with nothing between them, are the input
/// of [`sort_command`], whose output is the input of [`format_command`].
pub fn combine_and_sort_logs(logs: &Vec<String>, sorted_log: &str) -> (plan: SortPlan)
    ensures
        plan.input@ == concat(string_views(logs@)),
        plan.sort@ == sort_command(),
        plan.format@ == format_command(sorted_log@),
{
    let mut combined: Vec<char> = Vec::new();
    let mut i: usize = 0;
    while i < logs.len()
        invariant
            i <= logs.len(),
            combined@ == concat(string_views(logs@).take(i as int)),
        decreases logs.len() - i,
    {
        assert(string_views(logs@).take(i + 1).drop_last() == string_views(logs@).take(i as int));
        let log = chars_of(logs[i].as_str());
        append_chars(&mut combined, &log);
        i += 1;
    }
    assert(string_views(logs@).take(logs.len() as int) == string_views(logs@));
    let sort_args = with_arg(
        with_arg(
            with_arg(with_arg(with_arg(with_arg(no_args(), "sort"), "-d"), "|"), "-n"),
            "-s",
        ),
        "1",
    );
    assert(string_views(sort_args@) == seq!["sort"@, "-d"@, "|"@, "-n"@, "-s"@, "1"@]);
    let format_args = with_arg(
        with_arg(with_arg(with_arg(with_arg(no_args(), "fmt"), "-t"), "|"), "-o"),
        sorted_log,
    );
    assert(string_views(format_args@) == seq!["fmt"@, "-t"@, "|"@, "-o"@, sorted_log@]);
    SortPlan {
        input: text_of(&combined),
        sort: Invocation {
            program: "qsv".to_string(),
            args: sort_args,
            dir: None,
            stdin: Stream::Piped,
            stdout: Stream::Piped,
            stderr: Stream::Piped,
        },
        format: Invocation {
            program: "qsv".to_string(),
            args: format_args,
            dir: None,
            stdin: Stream::Piped,
            stdout: Stream::Inherit,
            stderr: Stream::Piped,
        },
    }
}

/// Judges the runs of the two commands, see [`sort_verdict`].
pub fn sort_outcome(sort: &ProcessResult, format: &ProcessResult) -> (r: Result<(), SortError>)
    ensures
        match r {
            Ok(_) => sort_verdict(*sort, *format) == Ok::<(), SortErrorView>(()),
            Err(e) => sort_verdict(*sort, *format) == Err::<(), SortErrorView>(e@),
        },
{
    match judge(sort) {
        Err(e) => Err(SortError::Sort(e)),
        Ok(_) => match judge(format) {
            Err(e) => Err(SortError::Format(e)),
            Ok(_) => Ok(()),
        },
    }
}

} // verus!
