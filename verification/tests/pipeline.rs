use gourcers::gource::combine_and_sort_logs;
use gourcers::pipeline::{
    Action, Event, FailurePolicy, Phase, Pipeline, Relay, RelayAction, RelayError, RelayEvent,
    TaskState,
};
use gourcers::process::{ProcessError, ProcessOutput};

fn ended(index: usize, ok: bool) -> Event {
    Event::TaskEnded { index, ok }
}

fn out(code: Option<i32>, stderr: &[u8]) -> ProcessOutput {
    ProcessOutput { code, stdout: Vec::new(), stderr: stderr.to_vec() }
}

#[test]
fn a_run_starts_every_task() {
    let (p, actions) = Pipeline::begin(3, false, FailurePolicy::Isolate);
    assert_eq!(p.tasks, vec![TaskState::Fetching; 3]);
    assert_eq!(p.phase, Phase::Working);
    assert_eq!(actions, vec![Action::Fetch(0), Action::Fetch(1), Action::Fetch(2)]);

    let (p, actions) = Pipeline::begin(2, true, FailurePolicy::Abort);
    assert_eq!(p.tasks, vec![TaskState::Normalizing; 2]);
    assert_eq!(p.policy, FailurePolicy::Abort);
    assert_eq!(actions, vec![Action::Normalize(0), Action::Normalize(1)]);

    let (p, actions) = Pipeline::begin(0, false, FailurePolicy::Isolate);
    assert_eq!(p.phase, Phase::Merging);
    assert_eq!(actions, vec![Action::Merge(Vec::new())]);
}

#[test]
fn the_merge_waits_for_every_task() {
    let (mut p, _) = Pipeline::begin(3, false, FailurePolicy::Isolate);
    assert_eq!(p.step(ended(2, true)), Action::Normalize(2));
    assert_eq!(p.step(ended(0, true)), Action::Normalize(0));
    assert_eq!(p.step(ended(2, true)), Action::Wait);
    assert_eq!(p.tasks, vec![TaskState::Normalizing, TaskState::Fetching, TaskState::Done]);
    // the merge cannot be reported as ended before it started
    assert_eq!(p.step(Event::MergeEnded { ok: true }), Action::Ignored);
    assert_eq!(p.step(Event::RenderEnded { ok: true }), Action::Ignored);
    assert_eq!(p.step(ended(0, true)), Action::Wait);
    assert_eq!(p.step(ended(1, true)), Action::Normalize(1));
    assert_eq!(p.phase, Phase::Working);
    assert_eq!(p.step(ended(1, true)), Action::Merge(vec![0, 1, 2]));
    assert_eq!(p.phase, Phase::Merging);
    assert_eq!(p.step(Event::MergeEnded { ok: true }), Action::Render);
    assert_eq!(p.step(Event::RenderEnded { ok: true }), Action::Stop { ok: true });
    assert_eq!(p.phase, Phase::Succeeded);
    assert_eq!(p.step(Event::RenderEnded { ok: true }), Action::Ignored);
}

#[test]
fn one_failed_fetch_leaves_the_others_in() {
    let logs = ["1|a|A|/zero/x\n4|a|M|/zero/x\n", "2|b|A|/one/y\n", "3|c|A|/two/z\n"];
    let (mut p, _) = Pipeline::begin(3, false, FailurePolicy::Isolate);
    assert_eq!(p.step(ended(0, true)), Action::Normalize(0));
    assert_eq!(p.step(ended(1, false)), Action::Wait);
    assert_eq!(p.tasks[1], TaskState::Failed);
    assert_eq!(p.phase, Phase::Working);
    assert_eq!(p.step(ended(2, true)), Action::Normalize(2));
    assert_eq!(p.step(ended(2, true)), Action::Wait);
    // the task that failed stays failed
    assert_eq!(p.step(ended(1, true)), Action::Ignored);
    let action = p.step(ended(0, true));
    assert_eq!(action, Action::Merge(vec![0, 2]));
    let merged = match action {
        Action::Merge(list) => {
            let picked: Vec<String> = list.iter().map(|&i| logs[i].to_string()).collect();
            combine_and_sort_logs(&picked)
        }
        _ => unreachable!(),
    };
    assert_eq!(merged, "1|a|A|/zero/x\n3|c|A|/two/z\n4|a|M|/zero/x\n");
    assert!(!merged.contains("/one/"));
}

#[test]
fn the_last_task_to_end_may_be_the_one_that_fails() {
    let (mut p, _) = Pipeline::begin(2, true, FailurePolicy::Isolate);
    assert_eq!(p.step(ended(0, true)), Action::Wait);
    assert_eq!(p.step(ended(1, false)), Action::Merge(vec![0]));
    let (mut p, _) = Pipeline::begin(1, false, FailurePolicy::Isolate);
    assert_eq!(p.step(ended(0, false)), Action::Merge(Vec::new()));
    assert_eq!(p.phase, Phase::Merging);
}

#[test]
fn under_abort_a_failure_ends_the_run() {
    let (mut p, _) = Pipeline::begin(3, false, FailurePolicy::Abort);
    assert_eq!(p.step(ended(0, true)), Action::Normalize(0));
    assert_eq!(p.step(ended(1, false)), Action::Stop { ok: false });
    assert_eq!(p.phase, Phase::Failed);
    assert_eq!(p.step(ended(0, true)), Action::Ignored);
    assert_eq!(p.step(Event::MergeEnded { ok: true }), Action::Ignored);
}

#[test]
fn merge_and_render_failures_end_the_run() {
    let (mut p, _) = Pipeline::begin(0, false, FailurePolicy::Isolate);
    assert_eq!(p.step(Event::MergeEnded { ok: false }), Action::Stop { ok: false });
    assert_eq!(p.phase, Phase::Failed);
    let (mut p, _) = Pipeline::begin(0, false, FailurePolicy::Isolate);
    assert_eq!(p.step(Event::MergeEnded { ok: true }), Action::Render);
    assert_eq!(p.step(Event::RenderEnded { ok: false }), Action::Stop { ok: false });
    assert_eq!(p.phase, Phase::Failed);
}

#[test]
fn reports_that_do_not_fit_are_ignored() {
    let (mut p, _) = Pipeline::begin(1, false, FailurePolicy::Isolate);
    let before = p.clone();
    assert_eq!(p.step(ended(1, true)), Action::Ignored);
    assert_eq!(p.step(ended(usize::MAX, false)), Action::Ignored);
    assert_eq!(p, before);
}

#[test]
fn a_pipe_runs_sink_first_and_judges_the_source_first() {
    let (mut relay, first) = Relay::begin();
    assert_eq!(first, RelayAction::StartSink);
    assert_eq!(relay.step(RelayEvent::Started), RelayAction::StartSource);
    assert_eq!(relay.step(RelayEvent::Started), RelayAction::Stream);
    assert_eq!(relay.step(RelayEvent::Exited(out(Some(0), b""))), RelayAction::Ignored);
    assert_eq!(relay.step(RelayEvent::StreamEnded), RelayAction::CloseAndWaitSource);
    assert_eq!(relay.step(RelayEvent::Exited(out(Some(0), b"warn"))), RelayAction::WaitSink);
    assert_eq!(relay, Relay::AwaitingSink);
    assert_eq!(relay.step(RelayEvent::Exited(out(Some(0), b""))), RelayAction::Finish(Ok(())));
    assert_eq!(relay, Relay::Finished);
    assert_eq!(relay.step(RelayEvent::Exited(out(Some(0), b""))), RelayAction::Ignored);
}

#[test]
fn a_failed_source_finishes_the_pipe() {
    let (mut relay, _) = Relay::begin();
    relay.step(RelayEvent::Started);
    relay.step(RelayEvent::Started);
    relay.step(RelayEvent::StreamEnded);
    assert_eq!(
        relay.step(RelayEvent::Exited(out(Some(1), b"no display \xff"))),
        RelayAction::Finish(Err(RelayError::Source(ProcessError::Failed(
            Some(1),
            "no display \u{fffd}".into()
        ))))
    );
    assert_eq!(relay, Relay::Finished);
    // whatever the sink reports now, it is never reported as having succeeded
    assert_eq!(relay.step(RelayEvent::Exited(out(Some(0), b""))), RelayAction::Ignored);
}

#[test]
fn every_way_a_pipe_can_break() {
    let run = |events: Vec<RelayEvent>| {
        let (mut relay, _) = Relay::begin();
        let mut last = RelayAction::Ignored;
        for e in events {
            last = relay.step(e);
        }
        (relay, last)
    };
    let missing = || RelayEvent::Broke(ProcessError::ToolMissing);
    let io = || RelayEvent::Broke(ProcessError::Io("gone".into()));
    assert_eq!(
        run(vec![missing()]),
        (Relay::Finished, RelayAction::Finish(Err(RelayError::Sink(ProcessError::ToolMissing))))
    );
    assert_eq!(
        run(vec![RelayEvent::Started, missing()]),
        (Relay::Finished, RelayAction::Finish(Err(RelayError::Source(ProcessError::ToolMissing))))
    );
    assert_eq!(
        run(vec![RelayEvent::Started, RelayEvent::Started, RelayEvent::CopyFailed("pipe".into())]),
        (Relay::Finished, RelayAction::Finish(Err(RelayError::Copy("pipe".into()))))
    );
    assert_eq!(
        run(vec![RelayEvent::Started, RelayEvent::Started, RelayEvent::StreamEnded, io()]),
        (Relay::Finished, RelayAction::Finish(Err(RelayError::Source(ProcessError::Io("gone".into())))))
    );
    assert_eq!(
        run(vec![
            RelayEvent::Started,
            RelayEvent::Started,
            RelayEvent::StreamEnded,
            RelayEvent::Exited(out(Some(0), b"")),
            io()
        ]),
        (Relay::Finished, RelayAction::Finish(Err(RelayError::Sink(ProcessError::Io("gone".into())))))
    );
    assert_eq!(
        run(vec![
            RelayEvent::Started,
            RelayEvent::Started,
            RelayEvent::StreamEnded,
            RelayEvent::Exited(out(Some(0), b"")),
            RelayEvent::Exited(out(None, b"killed"))
        ]),
        (
            Relay::Finished,
            RelayAction::Finish(Err(RelayError::Sink(ProcessError::Failed(None, "killed".into()))))
        )
    );
    assert_eq!(run(vec![RelayEvent::StreamEnded]), (Relay::StartingSink, RelayAction::Ignored));
}
