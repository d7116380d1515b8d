//! The course of a run, as decisions: what to start when something ends.
//!
//! The work on one repository is a task: fetch its working copy, then make
//! its log. Tasks run side by side, in no order. Only when every task has
//! ended, well or badly, the logs of those that ended well are merged; then
//! the merged log is rendered. The caller starts what it is told to start
//! and reports what ended; nothing here runs or waits.
//!
//! Rendering into an encoder is a second course of the same kind: two
//! processes, the output of the first piped into the second.

use crate::gource::{all_lines, is_whole, lemma_lines_of_concat, sorted_log, terminated};
use crate::process::{
    failed_with_text, lossy_text, text_fault, text_lossy, ProcessError, ProcessErrorView,
    ProcessOutput, ProcessResult,
};
use crate::sort::{lemma_sort_members, lemma_sort_permutes, stable_sort};
use vstd::prelude::*;

verus! {

/// What the failure of one task means for the run.
#[derive(Debug, Clone, Copy, PartialEq, Eq)]
pub enum FailurePolicy {
    /// The repository is left out of the merge; the other tasks go on.
    Isolate,
    /// The run ends.
    Abort,
}

/// How far the work on one repository has come.
#[derive(Debug, Clone, Copy, PartialEq, Eq)]
pub enum TaskState {
    /// The working copy is being fetched.
    Fetching,
    /// The log is being made.
    Normalizing,
    /// The log is there.
    Done,
    /// Fetching or making the log failed.
    Failed,
}

/// How far the run has come.
#[derive(Debug, Clone, Copy, PartialEq, Eq)]
pub enum Phase {
    /// Tasks are under way.
    Working,
    /// All tasks have ended; the logs are being merged.
    Merging,
    /// The merged log is being rendered.
    Rendering,
    /// The run ended well.
    Succeeded,
    /// The run ended badly.
    Failed,
}

/// What the caller reports.
#[derive(Debug, Clone, Copy, PartialEq, Eq)]
pub enum Event {
    /// What the task at `index` was doing has ended, well or not.
    TaskEnded { index: usize, ok: bool },
    /// The merge has ended, well or not.
    MergeEnded { ok: bool },
    /// The rendering has ended, well or not.
    RenderEnded { ok: bool },
}

/// What the caller is to do.
#[derive(Debug, Clone, PartialEq, Eq)]
pub enum Action {
    /// Nothing new: tasks are still under way.
    Wait,
    /// Fetch the working copy of the repository at this position.
    Fetch(usize),
    /// Make the log of the repository at this position.
    Normalize(usize),
    /// Merge the logs of the repositories at these positions, in this order.
    Merge(Vec<usize>),
    /// Render the merged log.
    Render,
    /// End the run, well or badly.
    Stop { ok: bool },
    /// The report does not fit the state of the run; nothing has changed.
    Ignored,
}

/// The mathematical content of an [`Action`].
pub enum ActionView {
    Wait,
    Fetch(usize),
    Normalize(usize),
    Merge(Seq<usize>),
    Render,
    Stop { ok: bool },
    Ignored,
}

impl View for Action {
    type V = ActionView;

    open spec fn view(&self) -> ActionView {
        match self {
            Action::Wait => ActionView::Wait,
            Action::Fetch(i) => ActionView::Fetch(*i),
            Action::Normalize(i) => ActionView::Normalize(*i),
            Action::Merge(list) => ActionView::Merge(list@),
            Action::Render => ActionView::Render,
            Action::Stop { ok } => ActionView::Stop { ok: *ok },
            Action::Ignored => ActionView::Ignored,
        }
    }
}

/// The views of a list of actions.
pub open spec fn action_views(v: Seq<Action>) -> Seq<ActionView> {
    Seq::new(v.len(), |i: int| v[i]@)
}

/// The state of a run: one task for each repository of the catalogue, in
/// the order of the catalogue.
#[derive(Debug, Clone, PartialEq, Eq)]
pub struct Pipeline {
    pub tasks: Vec<TaskState>,
    pub policy: FailurePolicy,
    pub phase: Phase,
}

/// The mathematical content of a [`Pipeline`].
pub struct PipelineView {
    pub tasks: Seq<TaskState>,
    pub policy: FailurePolicy,
    pub phase: Phase,
}

impl View for Pipeline {
    type V = PipelineView;

    open spec fn view(&self) -> PipelineView {
        PipelineView { tasks: self.tasks@, policy: self.policy, phase: self.phase }
    }
}

/// A task that has ended, well or badly.
pub open spec fn terminal(t: TaskState) -> bool {
    t is Done || t is Failed
}

/// Whether every task has ended.
pub open spec fn all_terminal(tasks: Seq<TaskState>) -> bool {
    forall|i: int| 0 <= i < tasks.len() ==> terminal(#[trigger] tasks[i])
}

/// The positions of the tasks that ended well, in rising order.
pub open spec fn survivors(tasks: Seq<TaskState>) -> Seq<usize>
    decreases tasks.len(),
{
    if tasks.len() == 0 {
        seq![]
    } else if tasks.last() is Done {
        survivors(tasks.drop_last()).push((tasks.len() - 1) as usize)
    } else {
        survivors(tasks.drop_last())
    }
}

/// The state in which a run starts: every task fetching, or making its log
/// where the working copies are taken as they are. A run without tasks
/// starts at the merge.
pub open spec fn started(count: nat, skip_fetch: bool, policy: FailurePolicy) -> PipelineView {
    PipelineView {
        tasks: Seq::new(
            count,
            |i: int|
                if skip_fetch {
                    TaskState::Normalizing
                } else {
                    TaskState::Fetching
                },
        ),
        policy,
        phase: if count == 0 {
            Phase::Merging
        } else {
            Phase::Working
        },
    }
}

/// What to do at the start of a run: start every task; without tasks,
/// merge nothing.
pub open spec fn first_actions(count: nat, skip_fetch: bool) -> Seq<ActionView> {
    if count == 0 {
        seq![ActionView::Merge(seq![])]
    } else {
        Seq::new(
            count,
            |i: int|
                if skip_fetch {
                    ActionView::Normalize(i as usize)
                } else {
                    ActionView::Fetch(i as usize)
                },
        )
    }
}

/// The run once a task has ended and the tasks are as given: when all tasks
/// have ended, the logs of those that ended well are merged; until then
/// there is nothing new to do.
pub open spec fn at_barrier(s: PipelineView, tasks: Seq<TaskState>) -> (PipelineView, ActionView) {
    if all_terminal(tasks) {
        (
            PipelineView { tasks, policy: s.policy, phase: Phase::Merging },
            ActionView::Merge(survivors(tasks)),
        )
    } else {
        (PipelineView { tasks, policy: s.policy, phase: Phase::Working }, ActionView::Wait)
    }
}

/// The state after a report, and what to do then.
///
/// While tasks are under way, the end of what a task was doing moves that
/// task on and no other: from fetching to making the log, from there to
/// done, from either to failed. A failure ends the run under
/// [`FailurePolicy::Abort`] and leaves the others alone under
/// [`FailurePolicy::Isolate`]. The merge is followed by the rendering, the
/// rendering by the end of the run; a failure of either ends the run. A
/// report that does not fit the state changes nothing.
pub open spec fn step(s: PipelineView, e: Event) -> (PipelineView, ActionView) {
    match (s.phase, e) {
        (Phase::Working, Event::TaskEnded { index, ok }) => {
            if index >= s.tasks.len() || terminal(s.tasks[index as int]) {
                (s, ActionView::Ignored)
            } else if !ok {
                let tasks = s.tasks.update(index as int, TaskState::Failed);
                if s.policy is Abort {
                    (
                        PipelineView { tasks, policy: s.policy, phase: Phase::Failed },
                        ActionView::Stop { ok: false },
                    )
                } else {
                    at_barrier(s, tasks)
                }
            } else if s.tasks[index as int] is Fetching {
                (
                    PipelineView {
                        tasks: s.tasks.update(index as int, TaskState::Normalizing),
                        policy: s.policy,
                        phase: Phase::Working,
                    },
                    ActionView::Normalize(index),
                )
            } else {
                at_barrier(s, s.tasks.update(index as int, TaskState::Done))
            }
        },
        (Phase::Merging, Event::MergeEnded { ok }) => {
            if ok {
                (
                    PipelineView { tasks: s.tasks, policy: s.policy, phase: Phase::Rendering },
                    ActionView::Render,
                )
            } else {
                (
                    PipelineView { tasks: s.tasks, policy: s.policy, phase: Phase::Failed },
                    ActionView::Stop { ok: false },
                )
            }
        },
        (Phase::Rendering, Event::RenderEnded { ok }) => {
            if ok {
                (
                    PipelineView { tasks: s.tasks, policy: s.policy, phase: Phase::Succeeded },
                    ActionView::Stop { ok: true },
                )
            } else {
                (
                    PipelineView { tasks: s.tasks, policy: s.policy, phase: Phase::Failed },
                    ActionView::Stop { ok: false },
                )
            }
        },
        _ => (s, ActionView::Ignored),
    }
}

/// The barrier: while tasks are under way, not all have ended; once the
/// merge has started, all have.
pub open spec fn barrier_holds(s: PipelineView) -> bool {
    &&& s.phase is Working ==> !all_terminal(s.tasks)
    &&& s.phase is Merging || s.phase is Rendering || s.phase is Succeeded ==> all_terminal(
        s.tasks,
    )
}

/// A run starts with the barrier in place.
pub proof fn lemma_started_barrier(count: nat, skip_fetch: bool, policy: FailurePolicy)
    ensures
        barrier_holds(started(count, skip_fetch, policy)),
{
    let s = started(count, skip_fetch, policy);
    if count > 0 {
        assert(!terminal(s.tasks[0]));
    }
}

/// No report moves the run past the barrier before its time: the barrier
/// holds after every step if it held before.
pub proof fn lemma_step_keeps_barrier(s: PipelineView, e: Event)
    requires
        barrier_holds(s),
    ensures
        barrier_holds(step(s, e).0),
{
    let next = step(s, e).0;
    match (s.phase, e) {
        (Phase::Working, Event::TaskEnded { index, ok }) => {
            if index < s.tasks.len() && !terminal(s.tasks[index as int]) && ok && s.tasks[index as int] is Fetching {
                assert(!terminal(next.tasks[index as int]));
            }
        },
        _ => {},
    }
}

/// The merge is told to start only at the barrier: with every task ended,
/// and with the positions of those that ended well, in the order of the
/// catalogue.
pub proof fn lemma_merge_only_at_barrier(s: PipelineView, e: Event)
    ensures
        step(s, e).1 matches ActionView::Merge(list) ==> s.phase is Working && step(s, e).0.phase
            is Merging && all_terminal(step(s, e).0.tasks) && list == survivors(step(s, e).0.tasks),
{
}

/// The end of a task touches no other task, under either policy.
pub proof fn lemma_step_touches_one_task(s: PipelineView, e: Event, j: int)
    requires
        0 <= j < s.tasks.len(),
        !(e matches Event::TaskEnded { index, .. } && index == j),
    ensures
        step(s, e).0.tasks.len() == s.tasks.len(),
        step(s, e).0.tasks[j] == s.tasks[j],
{
}

/// Under [`FailurePolicy::Isolate`] the failure of a task does not end the
/// run: the task is marked as failed, and the run waits for the others or,
/// if this was the last one, goes on to the merge.
pub proof fn lemma_failure_is_isolated(s: PipelineView, index: usize)
    requires
        s.phase is Working,
        s.policy is Isolate,
        index < s.tasks.len() <= usize::MAX,
        !terminal(s.tasks[index as int]),
    ensures
        ({
            let (next, action) = step(s, Event::TaskEnded { index, ok: false });
            &&& next.tasks == s.tasks.update(index as int, TaskState::Failed)
            &&& next.phase is Working || next.phase is Merging
            &&& action is Wait || action is Merge
            &&& action matches ActionView::Merge(list) ==> !list.contains(index)
        }),
{
    let tasks = s.tasks.update(index as int, TaskState::Failed);
    lemma_survivors(tasks);
}

/// Under [`FailurePolicy::Abort`] the failure of a task ends the run.
pub proof fn lemma_failure_aborts(s: PipelineView, index: usize)
    requires
        s.phase is Working,
        s.policy is Abort,
        index < s.tasks.len(),
        !terminal(s.tasks[index as int]),
    ensures
        step(s, Event::TaskEnded { index, ok: false }).0.phase is Failed,
        step(s, Event::TaskEnded { index, ok: false }).1 == (ActionView::Stop { ok: false }),
{
}

/// Once a task has ended, its outcome stands: a further report on it is
/// ignored.
pub proof fn lemma_outcome_stands(s: PipelineView, index: usize, ok: bool)
    requires
        index < s.tasks.len(),
        terminal(s.tasks[index as int]),
    ensures
        step(s, Event::TaskEnded { index, ok }) == (s, ActionView::Ignored),
{
}

/// What is merged: exactly the positions of the tasks that ended well, each
/// once, in rising order.
pub proof fn lemma_survivors(tasks: Seq<TaskState>)
    requires
        tasks.len() <= usize::MAX,
    ensures
        survivors(tasks).len() <= tasks.len(),
        forall|k: int|
            0 <= k < survivors(tasks).len() ==> (#[trigger] survivors(tasks)[k]) < tasks.len()
                && tasks[survivors(tasks)[k] as int] is Done,
        forall|k: int, l: int|
            0 <= k < l < survivors(tasks).len() ==> survivors(tasks)[k] < survivors(tasks)[l],
        forall|i: usize|
            survivors(tasks).contains(i) <==> i < tasks.len() && tasks[i as int] is Done,
    decreases tasks.len(),
{
    if tasks.len() > 0 {
        let rest = tasks.drop_last();
        lemma_survivors(rest);
        let s = survivors(tasks);
        let r = survivors(rest);
        assert forall|k: int| 0 <= k < s.len() implies (#[trigger] s[k]) < tasks.len() && tasks[s[k] as int] is Done by {
            if k < r.len() {
                assert(s[k] == r[k]);
                assert(rest[r[k] as int] == tasks[r[k] as int]);
            }
        }
        assert forall|k: int, l: int| 0 <= k < l < s.len() implies s[k] < s[l] by {
            if l < r.len() {
                assert(r[k] < r[l]);
            } else {
                assert(s[k] == r[k]);
                assert(r[k] < rest.len());
            }
        }
        assert forall|i: usize| s.contains(i) <==> i < tasks.len() && tasks[i as int] is Done by {
            if s.contains(i) {
                let k = choose|k: int| 0 <= k < s.len() && s[k] == i;
                assert(s[k] < tasks.len() && tasks[s[k] as int] is Done);
            }
            if i < tasks.len() && tasks[i as int] is Done {
                if i < rest.len() {
                    assert(rest[i as int] == tasks[i as int]);
                    assert(r.contains(i));
                    let k = choose|k: int| 0 <= k < r.len() && r[k] == i;
                    assert(s[k] == i);
                } else {
                    assert(s[s.len() - 1] == i);
                }
            }
        }
    }
}

/// One failure among the tasks: where every task has ended and all but the
/// one at `failed` ended well, the logs of all the others are merged, in
/// the order of the catalogue, and that of the failed one is not.
pub proof fn lemma_one_failure(tasks: Seq<TaskState>, failed: int)
    requires
        0 <= failed < tasks.len() <= usize::MAX,
        tasks[failed] is Failed,
        forall|i: int| 0 <= i < tasks.len() && i != failed ==> tasks[i] is Done,
    ensures
        all_terminal(tasks),
        survivors(tasks).len() == tasks.len() - 1,
        !survivors(tasks).contains(failed as usize),
        forall|i: usize| i < tasks.len() && i != failed ==> survivors(tasks).contains(i),
        forall|k: int|
            0 <= k < survivors(tasks).len() ==> #[trigger] survivors(tasks)[k] == (if k < failed {
                k
            } else {
                k + 1
            }),
{
    lemma_survivors(tasks);
    lemma_survivors_around(tasks, failed);
}

/// The logs that a merge takes in: those at the given positions, in the
/// order given.
pub open spec fn merge_inputs(logs: Seq<Seq<char>>, list: Seq<usize>) -> Seq<Seq<char>> {
    Seq::new(list.len(), |k: int| logs[list[k] as int])
}

/// One failure among the tasks leaves the other logs in and its own out:
/// where every task has ended and all but the one at `failed` ended well,
/// the merge takes in the logs of all the others, in the order of the
/// catalogue, and the merged log is that of those logs alone. Whatever the
/// repository that failed left behind plays no part in it.
pub proof fn lemma_one_failure_is_left_out(
    tasks: Seq<TaskState>,
    logs: Seq<Seq<char>>,
    failed: int,
)
    requires
        0 <= failed < tasks.len() <= usize::MAX,
        logs.len() == tasks.len(),
        tasks[failed] is Failed,
        forall|i: int| 0 <= i < tasks.len() && i != failed ==> tasks[i] is Done,
    ensures
        merge_inputs(logs, survivors(tasks)) == logs.remove(failed),
        sorted_log(merge_inputs(logs, survivors(tasks))) == sorted_log(logs.remove(failed)),
{
    lemma_one_failure(tasks, failed);
    let list = survivors(tasks);
    assert(merge_inputs(logs, list) =~= logs.remove(failed));
}

/// One failure among the tasks, and logs whose last lines are ended: the
/// merged log holds the lines of every other log, each as often as that log
/// holds it, and no line besides; their number is the sum of the numbers of
/// lines of those logs.
pub proof fn lemma_one_failure_keeps_the_lines(
    tasks: Seq<TaskState>,
    logs: Seq<Seq<char>>,
    failed: int,
)
    requires
        0 <= failed < tasks.len() <= usize::MAX,
        logs.len() == tasks.len(),
        tasks[failed] is Failed,
        forall|i: int| 0 <= i < tasks.len() && i != failed ==> tasks[i] is Done,
        forall|i: int| 0 <= i < logs.len() && i != failed ==> is_whole(#[trigger] logs[i]),
    ensures
        ({
            let others = all_lines(logs.remove(failed));
            let merged = stable_sort(others);
            &&& sorted_log(merge_inputs(logs, survivors(tasks))) == terminated(merged)
            &&& merged.to_multiset() == others.to_multiset()
            &&& merged.len() == others.len()
        }),
{
    lemma_one_failure_is_left_out(tasks, logs, failed);
    let rest = logs.remove(failed);
    assert forall|i: int| 0 <= i < rest.len() implies is_whole(#[trigger] rest[i]) by {
        if i < failed {
            assert(rest[i] == logs[i]);
        } else {
            assert(rest[i] == logs[i + 1]);
        }
    }
    lemma_lines_of_concat(rest);
    lemma_sort_permutes(all_lines(rest));
    lemma_sort_members(all_lines(rest));
}

/// The survivors of a list in which only the task at `failed`, if it lies in
/// the list, did not end well.
proof fn lemma_survivors_around(tasks: Seq<TaskState>, failed: int)
    requires
        0 <= failed,
        tasks.len() <= usize::MAX,
        failed < tasks.len() ==> !(tasks[failed] is Done),
        forall|i: int| 0 <= i < tasks.len() && i != failed ==> tasks[i] is Done,
    ensures
        survivors(tasks).len() == (if failed < tasks.len() {
            tasks.len() - 1
        } else {
            tasks.len() as int
        }),
        forall|k: int|
            0 <= k < survivors(tasks).len() ==> #[trigger] survivors(tasks)[k] == (if k < failed {
                k
            } else {
                k + 1
            }),
    decreases tasks.len(),
{
    if tasks.len() > 0 {
        let rest = tasks.drop_last();
        assert forall|i: int| 0 <= i < rest.len() && i != failed implies rest[i] is Done by {
            assert(rest[i] == tasks[i]);
        }
        if failed < rest.len() {
            assert(rest[failed] == tasks[failed]);
        }
        lemma_survivors_around(rest, failed);
    }
}

impl Pipeline {
    /// Starts a run over `count` repositories; see [`started`] and
    /// [`first_actions`] for the state and for what to do first.
    pub fn begin(count: usize, skip_fetch: bool, policy: FailurePolicy) -> (r: (
        Pipeline,
        Vec<Action>,
    ))
        ensures
            r.0@ == started(count as nat, skip_fetch, policy),
            action_views(r.1@) == first_actions(count as nat, skip_fetch),
    {
        let mut tasks: Vec<TaskState> = Vec::new();
        let mut actions: Vec<Action> = Vec::new();
        let mut i: usize = 0;
        while i < count
            invariant
                i <= count,
                tasks.len() == i,
                actions.len() == i,
                forall|j: int|
                    0 <= j < i ==> tasks[j] == (if skip_fetch {
                        TaskState::Normalizing
                    } else {
                        TaskState::Fetching
                    }),
                forall|j: int|
                    0 <= j < i ==> (#[trigger] actions[j])@ == (if skip_fetch {
                        ActionView::Normalize(j as usize)
                    } else {
                        ActionView::Fetch(j as usize)
                    }),
            decreases count - i,
        {
            if skip_fetch {
                tasks.push(TaskState::Normalizing);
                actions.push(Action::Normalize(i));
            } else {
                tasks.push(TaskState::Fetching);
                actions.push(Action::Fetch(i));
            }
            i += 1;
        }
        let phase = if count == 0 {
            let none: Vec<usize> = Vec::new();
            assert(none@ == Seq::<usize>::empty());
            actions.push(Action::Merge(none));
            Phase::Merging
        } else {
            Phase::Working
        };
        let p = Pipeline { tasks, policy, phase };
        assert(p@.tasks == started(count as nat, skip_fetch, policy).tasks);
        assert(action_views(actions@) == first_actions(count as nat, skip_fetch));
        (p, actions)
    }

    /// The positions of the tasks that ended well, if every task has ended.
    fn at_barrier(&self) -> (r: Option<Vec<usize>>)
        ensures
            r is Some <==> all_terminal(self.tasks@),
            r matches Some(list) ==> list@ == survivors(self.tasks@),
    {
        let mut list: Vec<usize> = Vec::new();
        let mut i: usize = 0;
        while i < self.tasks.len()
            invariant
                i <= self.tasks.len(),
                all_terminal(self.tasks@.take(i as int)),
                list@ == survivors(self.tasks@.take(i as int)),
            decreases self.tasks.len() - i,
        {
            let ghost next = self.tasks@.take(i + 1);
            assert(next.drop_last() == self.tasks@.take(i as int));
            match self.tasks[i] {
                TaskState::Done => {
                    list.push(i);
                },
                TaskState::Failed => {},
                _ => {
                    assert(!terminal(self.tasks@[i as int]));
                    return None;
                },
            }
            assert forall|j: int| 0 <= j < next.len() implies terminal(#[trigger] next[j]) by {
                if j < i {
                    assert(self.tasks@.take(i as int)[j] == next[j]);
                }
            }
            i += 1;
        }
        assert(self.tasks@.take(self.tasks.len() as int) == self.tasks@);
        Some(list)
    }

    /// Takes in a report and says what to do, see [`step`].
    pub fn step(&mut self, event: Event) -> (action: Action)
        ensures
            (final(self)@, action@) == step(old(self)@, event),
    {
        match (self.phase, event) {
            (Phase::Working, Event::TaskEnded { index, ok }) => {
                if index >= self.tasks.len() {
                    return Action::Ignored;
                }
                let next = match (self.tasks[index], ok) {
                    (TaskState::Done, _) => {
                        return Action::Ignored;
                    },
                    (TaskState::Failed, _) => {
                        return Action::Ignored;
                    },
                    (_, false) => TaskState::Failed,
                    (TaskState::Fetching, true) => TaskState::Normalizing,
                    (TaskState::Normalizing, true) => TaskState::Done,
                };
                self.tasks.set(index, next);
                match next {
                    TaskState::Normalizing => Action::Normalize(index),
                    TaskState::Failed => {
                        match self.policy {
                            FailurePolicy::Abort => {
                                self.phase = Phase::Failed;
                                Action::Stop { ok: false }
                            },
                            FailurePolicy::Isolate => self.pass_barrier(),
                        }
                    },
                    _ => self.pass_barrier(),
                }
            },
            (Phase::Merging, Event::MergeEnded { ok }) => {
                if ok {
                    self.phase = Phase::Rendering;
                    Action::Render
                } else {
                    self.phase = Phase::Failed;
                    Action::Stop { ok: false }
                }
            },
            (Phase::Rendering, Event::RenderEnded { ok }) => {
                if ok {
                    self.phase = Phase::Succeeded;
                    Action::Stop { ok: true }
                } else {
                    self.phase = Phase::Failed;
                    Action::Stop { ok: false }
                }
            },
            _ => Action::Ignored,
        }
    }

    /// Goes on to the merge if every task has ended, see [`at_barrier`].
    fn pass_barrier(&mut self) -> (action: Action)
        requires
            old(self).phase is Working,
        ensures
            (final(self)@, action@) == at_barrier(old(self)@, old(self)@.tasks),
    {
        match self.at_barrier() {
            Some(list) => {
                self.phase = Phase::Merging;
                Action::Merge(list)
            },
            None => Action::Wait,
        }
    }
}

/// Why a pipe of two processes did not do its work.
#[derive(Debug, Clone, PartialEq, Eq)]
pub enum RelayError {
    /// The process that writes did not do its work.
    Source(ProcessError),
    /// The process that writes did its work, the one that reads did not.
    Sink(ProcessError),
    /// Copying from the one to the other failed; the text says why.
    Copy(String),
}

/// The mathematical content of a [`RelayError`].
pub enum RelayErrorView {
    Source(ProcessErrorView),
    Sink(ProcessErrorView),
    Copy(Seq<char>),
}

impl View for RelayError {
    type V = RelayErrorView;

    open spec fn view(&self) -> RelayErrorView {
        match self {
            RelayError::Source(e) => RelayErrorView::Source(e@),
            RelayError::Sink(e) => RelayErrorView::Sink(e@),
            RelayError::Copy(why) => RelayErrorView::Copy(why@),
        }
    }
}

/// How far a pipe of two processes has come. The source writes, the sink
/// reads what the source writes.
#[derive(Debug, Clone, Copy, PartialEq, Eq)]
pub enum Relay {
    /// The sink is being started, its input held open by the caller.
    StartingSink,
    /// The sink runs; the source is being started.
    StartingSource,
    /// Both run; what the source writes is copied to the sink as it comes,
    /// and the diagnostics of both are read as they come.
    Streaming,
    /// The source has closed its output; its exit is awaited.
    AwaitingSource,
    /// The source ended well and the input of the sink is closed; the exit
    /// of the sink is awaited.
    AwaitingSink,
    /// The outcome was given.
    Finished,
}

/// What the caller reports of a pipe.
#[derive(Debug, Clone, PartialEq, Eq)]
pub enum RelayEvent {
    /// The process that was to be started runs.
    Started,
    /// The process that was to be started, or waited for, could not be.
    Broke(ProcessError),
    /// The source has closed its output, and all of it was copied.
    StreamEnded,
    /// Copying failed; the text says why.
    CopyFailed(String),
    /// The process that was waited for has ended.
    Exited(ProcessOutput),
}

/// What the caller is to do with a pipe.
#[derive(Debug, PartialEq, Eq)]
pub enum RelayAction {
    /// Start the sink, with its input and its diagnostics captured.
    StartSink,
    /// Start the source, with its output and its diagnostics captured.
    StartSource,
    /// Copy what the source writes to the sink until the source closes its
    /// output, and read the diagnostics of both meanwhile.
    Stream,
    /// Close the input of the sink, so that it sees the end, and wait for
    /// the source to end.
    CloseAndWaitSource,
    /// Wait for the sink to end.
    WaitSink,
    /// The outcome.
    Finish(Result<(), RelayError>),
    /// The report does not fit the state of the pipe; nothing has changed.
    Ignored,
}

/// The mathematical content of a [`RelayAction`].
pub enum RelayActionView {
    StartSink,
    StartSource,
    Stream,
    CloseAndWaitSource,
    WaitSink,
    Finish(Result<(), RelayErrorView>),
    Ignored,
}

impl View for RelayAction {
    type V = RelayActionView;

    open spec fn view(&self) -> RelayActionView {
        match self {
            RelayAction::StartSink => RelayActionView::StartSink,
            RelayAction::StartSource => RelayActionView::StartSource,
            RelayAction::Stream => RelayActionView::Stream,
            RelayAction::CloseAndWaitSource => RelayActionView::CloseAndWaitSource,
            RelayAction::WaitSink => RelayActionView::WaitSink,
            RelayAction::Finish(Ok(_)) => RelayActionView::Finish(Ok(())),
            RelayAction::Finish(Err(e)) => RelayActionView::Finish(Err(e@)),
            RelayAction::Ignored => RelayActionView::Ignored,
        }
    }
}

/// The error of a process that ended with another exit code than zero.
pub open spec fn exit_error(out: ProcessOutput) -> ProcessErrorView {
    ProcessErrorView::Failed(out.code, lossy_text(out.stderr@))
}

/// The state of a pipe after a report, and what to do then.
///
/// The sink is started first, then the source, then the copying. When the
/// source has closed its output, the input of the sink is closed and the
/// source is waited for. The exit of the source is judged first: if it is
/// not zero, that is the outcome, and the sink is not waited for. Else the
/// sink is waited for and judged. A process that cannot be started or
/// waited for, and a copy that fails, end the pipe with that error.
pub open spec fn relay_step(s: Relay, e: RelayEvent) -> (Relay, RelayActionView) {
    match (s, e) {
        (Relay::StartingSink, RelayEvent::Started) => (
            Relay::StartingSource,
            RelayActionView::StartSource,
        ),
        (Relay::StartingSink, RelayEvent::Broke(why)) => (
            Relay::Finished,
            RelayActionView::Finish(Err(RelayErrorView::Sink(why@))),
        ),
        (Relay::StartingSource, RelayEvent::Started) => (Relay::Streaming, RelayActionView::Stream),
        (Relay::StartingSource, RelayEvent::Broke(why)) => (
            Relay::Finished,
            RelayActionView::Finish(Err(RelayErrorView::Source(why@))),
        ),
        (Relay::Streaming, RelayEvent::StreamEnded) => (
            Relay::AwaitingSource,
            RelayActionView::CloseAndWaitSource,
        ),
        (Relay::Streaming, RelayEvent::CopyFailed(why)) => (
            Relay::Finished,
            RelayActionView::Finish(Err(RelayErrorView::Copy(why@))),
        ),
        (Relay::AwaitingSource, RelayEvent::Exited(out)) => if out.succeeded() {
            (Relay::AwaitingSink, RelayActionView::WaitSink)
        } else {
            (
                Relay::Finished,
                RelayActionView::Finish(Err(RelayErrorView::Source(exit_error(out)))),
            )
        },
        (Relay::AwaitingSource, RelayEvent::Broke(why)) => (
            Relay::Finished,
            RelayActionView::Finish(Err(RelayErrorView::Source(why@))),
        ),
        (Relay::AwaitingSink, RelayEvent::Exited(out)) => if out.succeeded() {
            (Relay::Finished, RelayActionView::Finish(Ok(())))
        } else {
            (Relay::Finished, RelayActionView::Finish(Err(RelayErrorView::Sink(exit_error(out)))))
        },
        (Relay::AwaitingSink, RelayEvent::Broke(why)) => (
            Relay::Finished,
            RelayActionView::Finish(Err(RelayErrorView::Sink(why@))),
        ),
        _ => (s, RelayActionView::Ignored),
    }
}

/// The report, made while the source is waited for, that it ended with
/// another exit code than zero, its diagnostics being text.
pub open spec fn source_failed_with_text(s: Relay, e: RelayEvent) -> bool {
    s is AwaitingSource && e is Exited && failed_with_text(ProcessResult::Exited(e->Exited_0))
}

/// The state of a pipe after a list of reports, from its start.
pub open spec fn relay_after(events: Seq<RelayEvent>) -> Relay
    decreases events.len(),
{
    if events.len() == 0 {
        Relay::StartingSink
    } else {
        relay_step(relay_after(events.drop_last()), events.last()).0
    }
}

/// The report of a process that ended with exit code zero.
pub open spec fn ended_well(e: RelayEvent) -> bool {
    e matches RelayEvent::Exited(out) && out.succeeded()
}

/// Whether the source is known to have ended with exit code zero: the
/// reports hold its exit, made while it was waited for.
pub open spec fn source_ended_well(events: Seq<RelayEvent>) -> bool {
    exists|i: int|
        0 <= i < events.len() && relay_after(events.take(i)) is AwaitingSource && ended_well(
            #[trigger] events[i],
        )
}

/// Where the source ends with another exit code than zero, the outcome is
/// the failure of the source, with its diagnostics, and the pipe is
/// finished: the sink is not waited for.
pub proof fn lemma_source_failure_wins(out: ProcessOutput)
    requires
        !out.succeeded(),
    ensures
        relay_step(Relay::AwaitingSource, RelayEvent::Exited(out)) == (
            Relay::Finished,
            RelayActionView::Finish(
                Err(RelayErrorView::Source(ProcessErrorView::Failed(out.code, lossy_text(out.stderr@)))),
            ),
        ),
{
}

/// A finished pipe stays finished and gives no second outcome.
pub proof fn lemma_finished_stays(e: RelayEvent)
    ensures
        relay_step(Relay::Finished, e) == (Relay::Finished, RelayActionView::Ignored),
{
}

/// Success is reported at one place only: when the sink, waited for after
/// the source ended well, ends with exit code zero.
pub proof fn lemma_success_is_earned(s: Relay, e: RelayEvent)
    ensures
        relay_step(s, e).1 == RelayActionView::Finish(Ok(())) ==> s is AwaitingSink && ended_well(e),
        relay_step(s, e).0 is AwaitingSink && !(s is AwaitingSink) ==> s is AwaitingSource
            && ended_well(e),
{
}

/// Whatever is reported, and in whatever order: the sink is waited for, and
/// so can be reported as having succeeded, only after the source was seen
/// to end with exit code zero.
pub proof fn lemma_sink_waits_for_source(events: Seq<RelayEvent>)
    requires
        relay_after(events) is AwaitingSink,
    ensures
        source_ended_well(events),
    decreases events.len(),
{
    if events.len() > 0 {
        let before = events.drop_last();
        let s = relay_after(before);
        lemma_success_is_earned(s, events.last());
        if s is AwaitingSink {
            lemma_sink_waits_for_source(before);
            let i = choose|i: int|
                0 <= i < before.len() && relay_after(before.take(i)) is AwaitingSource
                    && ended_well(#[trigger] before[i]);
            assert(events.take(i) == before.take(i));
            assert(events[i] == before[i]);
        } else {
            let i = events.len() - 1;
            assert(events.take(i) == before);
            assert(events[i] == events.last());
        }
    }
}

impl Relay {
    /// A pipe at its start, and what to do first: start the sink.
    pub fn begin() -> (r: (Relay, RelayAction))
        ensures
            r.0 == Relay::StartingSink,
            r.1@ == RelayActionView::StartSink,
    {
        (Relay::StartingSink, RelayAction::StartSink)
    }

    /// Takes in a report and says what to do, see [`relay_step`]. Where
    /// the source ended with another exit code than zero, what it wrote to
    /// its diagnostics stands in the error.
    pub fn step(&mut self, event: RelayEvent) -> (action: RelayAction)
        ensures
            (*final(self), action@) == relay_step(*old(self), event),
            source_failed_with_text(*old(self), event) ==> action@ == RelayActionView::Finish(
                Err(RelayErrorView::Source(text_fault(ProcessResult::Exited(event->Exited_0)))),
            ),
    {
        match (*self, event) {
            (Relay::StartingSink, RelayEvent::Started) => {
                *self = Relay::StartingSource;
                RelayAction::StartSource
            },
            (Relay::StartingSink, RelayEvent::Broke(why)) => {
                *self = Relay::Finished;
                RelayAction::Finish(Err(RelayError::Sink(why)))
            },
            (Relay::StartingSource, RelayEvent::Started) => {
                *self = Relay::Streaming;
                RelayAction::Stream
            },
            (Relay::StartingSource, RelayEvent::Broke(why)) => {
                *self = Relay::Finished;
                RelayAction::Finish(Err(RelayError::Source(why)))
            },
            (Relay::Streaming, RelayEvent::StreamEnded) => {
                *self = Relay::AwaitingSource;
                RelayAction::CloseAndWaitSource
            },
            (Relay::Streaming, RelayEvent::CopyFailed(why)) => {
                *self = Relay::Finished;
                RelayAction::Finish(Err(RelayError::Copy(why)))
            },
            (Relay::AwaitingSource, RelayEvent::Exited(out)) => {
                if out.success() {
                    *self = Relay::AwaitingSink;
                    RelayAction::WaitSink
                } else {
                    *self = Relay::Finished;
                    let text = text_lossy(&out.stderr);
                    RelayAction::Finish(Err(RelayError::Source(ProcessError::Failed(out.code, text))))
                }
            },
            (Relay::AwaitingSource, RelayEvent::Broke(why)) => {
                *self = Relay::Finished;
                RelayAction::Finish(Err(RelayError::Source(why)))
            },
            (Relay::AwaitingSink, RelayEvent::Exited(out)) => {
                *self = Relay::Finished;
                if out.success() {
                    RelayAction::Finish(Ok(()))
                } else {
                    let text = text_lossy(&out.stderr);
                    RelayAction::Finish(Err(RelayError::Sink(ProcessError::Failed(out.code, text))))
                }
            },
            (Relay::AwaitingSink, RelayEvent::Broke(why)) => {
                *self = Relay::Finished;
                RelayAction::Finish(Err(RelayError::Sink(why)))
            },
            _ => RelayAction::Ignored,
        }
    }
}

} // verus!
