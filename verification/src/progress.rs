//! Tasks, the sink that their progress is reported to, and the runner that
//! executes a batch of them.

use vstd::prelude::*;
use vstd::string::StringExecFns;
use indexmap::IndexMap;
use std::sync::Arc;
use crate::display::StepStatus;
use crate::ordered_map::{lookup, pairs_get, pairs_insert, pairs_new, pairs_of, upsert};
use crate::text::{chars_of, decimal, push_char, push_decimal, string_of_range};
use crate::version::{split_on, split_positions};

verus! {

/// The name under which a step is reported.
#[derive(Clone, Debug, PartialEq, Eq, Hash)]
pub struct StepId(String);

impl View for StepId {
    type V = Seq<char>;

    closed spec fn view(&self) -> Seq<char> {
        self.0@
    }
}

impl StepId {
    pub fn new(id: &str) -> (r: Self)
        ensures
            r@ == id@,
    {
        StepId(id.to_owned())
    }

    pub fn as_str(&self) -> (r: &str)
        ensures
            r@ == self@,
    {
        self.0.as_str()
    }

    /// A copy of the id.
    pub fn duplicate(&self) -> (r: Self)
        ensures
            r@ == self@,
    {
        StepId(self.0.clone())
    }
}

/// How a task ended that did not fail.
#[derive(Clone, Copy, Debug, PartialEq, Eq, Structural)]
pub enum StepOutcome {
    Done,
    Cached,
}

/// How a sink wants the output of commands to reach it.
#[derive(Clone, Copy, Debug, PartialEq, Eq, Structural)]
pub enum OutputPolicy {
    /// The child writes straight to the parent's terminal.
    Inherit,
    /// The output is captured, so that it can be multiplexed or formatted.
    Capture,
}

impl OutputPolicy {
    /// Whether output is captured under this policy.
    pub fn captures(self) -> (r: bool)
        ensures
            r == (self == OutputPolicy::Capture),
    {
        match self {
            OutputPolicy::Inherit => false,
            OutputPolicy::Capture => true,
        }
    }
}

/// What bytes are as text, every invalid sequence replaced by the
/// replacement character.
pub uninterp spec fn utf8_lossy(bytes: Seq<u8>) -> Seq<char>;

/// The bytes as text.
///
/// Trusted: `String::from_utf8_lossy` of the standard library, whose result
/// depends on the bytes alone.
#[verifier::external_body]
pub(crate) fn text_of_bytes(bytes: &[u8]) -> (r: String)
    ensures
        r@ == utf8_lossy(bytes@),
{
    String::from_utf8_lossy(bytes).into_owned()
}

/// Where the progress of steps is reported to.
pub trait ProgressLogger: Send + Sync {
    fn register_step(&self, id: &StepId, label: &str);

    fn start(&self, id: &StepId);

    fn finish(&self, id: &StepId, status: StepStatus);

    fn append_output(&self, id: &StepId, line: String);

    /// Takes a chunk of raw output. Unless a sink assembles lines itself, a
    /// chunk that is not empty is passed on as text.
    fn append_output_chunk(&self, id: &StepId, chunk: &[u8]) {
        if chunk.len() == 0 {
            return ;
        }
        let text = text_of_bytes(chunk);
        self.append_output(id, text);
    }

    /// Releases output that is held back for the step.
    fn flush_output(&self, _id: &StepId) {
    }

    /// How the sink wants the output of commands: captured, unless the
    /// sink states another policy.
    open spec fn policy(&self) -> OutputPolicy {
        OutputPolicy::Capture
    }

    /// Says how the sink wants the output of commands.
    fn output_policy(&self) -> (r: OutputPolicy)
        ensures
            r == self.policy(),
    ;
}

/// What a task is given to report its output.
pub struct StepContext<S: ProgressLogger + ?Sized = dyn ProgressLogger> {
    pub sink: Arc<S>,
    pub step_id: StepId,
}

impl<S: ProgressLogger + ?Sized> StepContext<S> {
    pub fn append_output(&self, line: String) {
        self.sink.append_output(&self.step_id, line);
    }
}

/// Sees to it that a step that runs is reported as over, once.
pub struct StepGuard<S: ProgressLogger + ?Sized = dyn ProgressLogger> {
    sink: Arc<S>,
    id: StepId,
    reported: Option<StepStatus>,
}

impl<S: ProgressLogger + ?Sized> StepGuard<S> {
    /// The status that was reported for the step, if one was.
    pub closed spec fn reported(&self) -> Option<StepStatus> {
        self.reported
    }

    /// The step that the guard watches.
    pub closed spec fn step(&self) -> Seq<char> {
        self.id@
    }

    /// A guard for a step that runs; nothing is reported yet.
    pub fn new(sink: Arc<S>, id: StepId) -> (r: Self)
        ensures
            r.reported() is None,
            r.step() == id@,
    {
        StepGuard { sink, id, reported: None }
    }

    pub fn done(self) {
        let mut guard = self;
        guard.finish_with(StepStatus::Done);
    }

    pub fn cached(self) {
        let mut guard = self;
        guard.finish_with(StepStatus::Cached);
    }

    pub fn fail(self) {
        let mut guard = self;
        guard.finish_with(StepStatus::Failed);
    }

    /// Reports the status to the sink, unless a status was reported before.
    pub fn finish_with(&mut self, status: StepStatus)
        ensures
            final(self).step() == old(self).step(),
            final(self).reported() == (match old(self).reported() {
                Some(first) => Some(first),
                None => Some(status),
            }),
    {
        if self.reported.is_some() {
            return ;
        }
        self.sink.finish(&self.id, status);
        self.reported = Some(status);
    }

    /// Whether a status was reported.
    pub fn is_finished(&self) -> (r: bool)
        ensures
            r == self.reported() is Some,
    {
        self.reported.is_some()
    }
}

/// The status that the outcome of a task is reported with.
pub open spec fn status_of<E>(outcome: Result<StepOutcome, E>) -> StepStatus {
    match outcome {
        Ok(StepOutcome::Done) => StepStatus::Done,
        Ok(StepOutcome::Cached) => StepStatus::Cached,
        Err(_) => StepStatus::Failed,
    }
}

/// The failure that the outcome of a task with the given label adds to the
/// failures of its batch.
pub open spec fn failure_of<E>(label: Seq<char>, outcome: Result<StepOutcome, E>) -> Option<
    (Seq<char>, E),
> {
    match outcome {
        Ok(_) => None,
        Err(e) => Some((label, e)),
    }
}

/// The failures of the first `n` tasks, in order.
pub open spec fn failures_of<E>(
    labels: Seq<Seq<char>>,
    outcomes: Seq<Result<StepOutcome, E>>,
    n: int,
) -> Seq<(Seq<char>, E)>
    decreases n,
{
    if n <= 0 {
        Seq::empty()
    } else {
        match failure_of(labels[n - 1], outcomes[n - 1]) {
            Some(f) => failures_of(labels, outcomes, n - 1).push(f),
            None => failures_of(labels, outcomes, n - 1),
        }
    }
}

/// The failures as plain values.
pub open spec fn failures_view<E>(failures: Seq<(String, E)>) -> Seq<(Seq<char>, E)> {
    Seq::new(failures.len(), |i: int| (failures[i].0@, failures[i].1))
}

/// One unit of work.
pub struct Task<F> {
    pub id: StepId,
    pub label: String,
    pub work: F,
}

impl<F> Task<F> {
    pub fn new(id: StepId, label: &str, work: F) -> (r: Self)
        ensures
            r.id == id,
            r.label@ == label@,
            r.work == work,
    {
        Task { id, label: label.to_owned(), work }
    }
}

/// The labels of the tasks, in order.
pub open spec fn labels_of<F>(tasks: Seq<Task<F>>) -> Seq<Seq<char>> {
    Seq::new(tasks.len(), |i: int| tasks[i].label@)
}

/// How a task ended: the status that was reported for its step, and its
/// failure if it failed.
pub struct TaskEnd<E> {
    pub status: StepStatus,
    pub failure: Option<(String, E)>,
}

/// How the tasks of a batch ended: the status that was reported for each,
/// in the order of the tasks, and the failures.
pub struct BatchEnd<E> {
    pub statuses: Vec<StepStatus>,
    pub failures: Vec<(String, E)>,
}

/// The statuses that the first `n` outcomes are reported with.
pub open spec fn statuses_of<E>(outcomes: Seq<Result<StepOutcome, E>>) -> Seq<StepStatus> {
    Seq::new(outcomes.len(), |i: int| status_of(outcomes[i]))
}

/// Whether `outcome` is what the work of the task can give when it is run
/// for the task's own step.
pub open spec fn ran_with<
    S: ProgressLogger + ?Sized,
    E,
    F: FnOnce(StepContext<S>) -> Result<StepOutcome, E>,
>(task: Task<F>, outcome: Result<StepOutcome, E>) -> bool {
    exists|ctx: StepContext<S>|
        ctx.step_id@ == task.id@ && #[trigger] task.work.ensures((ctx,), outcome)
}

/// Runs batches of tasks and reports their progress to a sink.
pub struct TaskRunner<S: ProgressLogger + ?Sized = dyn ProgressLogger> {
    sink: Arc<S>,
    parallelism: Option<usize>,
}

impl<S: ProgressLogger + ?Sized> TaskRunner<S> {
    /// The bound on the tasks that run at the same time, if there is one.
    pub closed spec fn bound(&self) -> Option<usize> {
        self.parallelism
    }

    /// The sink that the runner reports to.
    pub closed spec fn target(&self) -> Arc<S> {
        self.sink
    }

    /// A runner without a bound on parallelism: one task at a time.
    pub fn new(sink: Arc<S>) -> (r: Self)
        ensures
            r.bound() is None,
            r.target() == sink,
    {
        TaskRunner { sink, parallelism: None }
    }

    pub fn with_parallelism(self, parallelism: Option<usize>) -> (r: Self)
        ensures
            r.bound() == parallelism,
            r.target() == self.target(),
    {
        TaskRunner { sink: self.sink, parallelism }
    }

    /// The bound on the tasks that run at the same time.
    pub fn parallelism(&self) -> (r: Option<usize>)
        ensures
            r == self.bound(),
    {
        self.parallelism
    }

    /// The sink that progress is reported to: another handle to the sink
    /// that the runner was made with.
    pub fn sink(&self) -> (r: Arc<S>)
        ensures
            r == self.target(),
    {
        Arc::clone(&self.sink)
    }

    /// Makes the steps of the tasks known to the sink, before any of them
    /// runs.
    pub fn register<F>(&self, tasks: &Vec<Task<F>>) {
        let mut i: usize = 0;
        while i < tasks.len()
            invariant
                i <= tasks.len(),
            decreases tasks.len() - i,
        {
            self.sink.register_step(&tasks[i].id, tasks[i].label.as_str());
            i = i + 1;
        }
    }

    /// Runs one task: reports its start, runs its work, and reports how it
    /// ended: done or cached as the work says, failed where the work failed.
    /// A failure is returned with the label of the task.
    pub fn run_one<E, F: FnOnce(StepContext<S>) -> Result<StepOutcome, E>>(
        &self,
        task: Task<F>,
    ) -> (r: TaskEnd<E>)
        requires
            forall|ctx: StepContext<S>| task.work.requires((ctx,)),
        ensures
            exists|outcome: Result<StepOutcome, E>|
                {
                    &&& #[trigger] ran_with::<S, E, F>(task, outcome)
                    &&& r.status == status_of(outcome)
                    &&& match r.failure {
                        Some(f) => failure_of(task.label@, outcome) == Some((f.0@, f.1)),
                        None => failure_of(task.label@, outcome) is None,
                    }
                },
    {
        let Task { id, label, work } = task;
        self.sink.start(&id);
        let mut guard = StepGuard::new(Arc::clone(&self.sink), id.duplicate());
        let ctx = StepContext { sink: Arc::clone(&self.sink), step_id: id.duplicate() };
        let ghost given = ctx;
        let result = work(ctx);
        let (status, failure) = match result {
            Ok(StepOutcome::Done) => (StepStatus::Done, None),
            Ok(StepOutcome::Cached) => (StepStatus::Cached, None),
            Err(err) => (StepStatus::Failed, Some((label, err))),
        };
        guard.finish_with(status);
        proof {
            assert(given.step_id@ == task.id@);
            assert(task.work.ensures((given,), result));
            assert(ran_with::<S, E, F>(task, result));
            assert(guard.reported() == Some(status_of(result)));
        }
        TaskEnd { status, failure }
    }

    /// Runs the tasks one after another, in the order in which they were
    /// given. A task that fails does not stop the tasks after it: every task
    /// runs and is reported with the status of its outcome, and the failures
    /// are returned together, each with the label of its task.
    pub fn run_all<E, F: FnOnce(StepContext<S>) -> Result<StepOutcome, E>>(
        &self,
        tasks: Vec<Task<F>>,
    ) -> (r: BatchEnd<E>)
        requires
            forall|i: int, ctx: StepContext<S>|
                0 <= i < tasks.len() ==> #[trigger] tasks[i].work.requires((ctx,)),
        ensures
            exists|outcomes: Seq<Result<StepOutcome, E>>|
                {
                    &&& outcomes.len() == tasks.len()
                    &&& forall|i: int|
                        0 <= i < tasks.len() ==> ran_with::<S, E, F>(
                            #[trigger] tasks[i],
                            outcomes[i],
                        )
                    &&& r.statuses@ == statuses_of(outcomes)
                    &&& failures_view(r.failures@) == failures_of(
                        labels_of(tasks@),
                        outcomes,
                        tasks.len() as int,
                    )
                },
            r.statuses.len() == tasks.len(),
            forall|i: int|
                0 <= i < r.statuses.len() ==> crate::display::is_terminal(#[trigger] r.statuses[i]),
    {
        self.register(&tasks);
        let mut failures: Vec<(String, E)> = Vec::new();
        let mut statuses: Vec<StepStatus> = Vec::new();
        let ghost mut outcomes: Seq<Result<StepOutcome, E>> = Seq::empty();
        let ghost labels = labels_of(tasks@);
        assert(failures_view(failures@) =~= failures_of(labels, outcomes, 0));
        assert(statuses@ =~= statuses_of(outcomes));
        for task in it: tasks.into_iter()
            invariant
                it.seq() == tasks@,
                labels == labels_of(tasks@),
                forall|i: int, ctx: StepContext<S>|
                    0 <= i < tasks.len() ==> #[trigger] tasks[i].work.requires((ctx,)),
                outcomes.len() == it.index(),
                forall|i: int|
                    0 <= i < it.index() ==> ran_with::<S, E, F>(#[trigger] tasks[i], outcomes[i]),
                statuses@ == statuses_of(outcomes),
                failures_view(failures@) == failures_of(labels, outcomes, it.index() as int),
        {
            let ghost k = it.index() as int;
            let ghost before = failures_view(failures@);
            let ghost earlier = outcomes;
            assert(task == tasks[k]);
            let end = self.run_one(task);
            proof {
                let outcome = choose|outcome: Result<StepOutcome, E>|
                    {
                        &&& #[trigger] ran_with::<S, E, F>(task, outcome)
                        &&& end.status == status_of(outcome)
                        &&& match end.failure {
                            Some(f) => failure_of(task.label@, outcome) == Some((f.0@, f.1)),
                            None => failure_of(task.label@, outcome) is None,
                        }
                    };
                outcomes = outcomes.push(outcome);
                assert(labels[k] == task.label@);
                assert forall|i: int| 0 <= i < k + 1 implies ran_with::<S, E, F>(
                    #[trigger] tasks[i],
                    outcomes[i],
                ) by {
                    if i < k {
                        assert(outcomes[i] == earlier[i]);
                    }
                }
                lemma_failures_prefix(labels, earlier, outcomes, k);
            }
            statuses.push(end.status);
            assert(statuses@ =~= statuses_of(outcomes));
            match end.failure {
                Some(f) => {
                    failures.push(f);
                    assert(failures_view(failures@) =~= before.push((f.0@, f.1)));
                },
                None => {},
            }
        }
        BatchEnd { statuses, failures }
    }

    /// Runs the tasks one after another and returns the failures; see
    /// `run_all`.
    pub fn run<E, F: FnOnce(StepContext<S>) -> Result<StepOutcome, E>>(
        &self,
        tasks: Vec<Task<F>>,
    ) -> (r: Vec<(String, E)>)
        requires
            forall|i: int, ctx: StepContext<S>|
                0 <= i < tasks.len() ==> #[trigger] tasks[i].work.requires((ctx,)),
        ensures
            exists|outcomes: Seq<Result<StepOutcome, E>>|
                {
                    &&& outcomes.len() == tasks.len()
                    &&& forall|i: int|
                        0 <= i < tasks.len() ==> ran_with::<S, E, F>(
                            #[trigger] tasks[i],
                            outcomes[i],
                        )
                    &&& failures_view(r@) == failures_of(
                        labels_of(tasks@),
                        outcomes,
                        tasks.len() as int,
                    )
                },
    {
        self.run_all(tasks).failures
    }
}

/// The failures of the first tasks depend on the outcomes of these tasks
/// alone.
proof fn lemma_failures_prefix<E>(
    labels: Seq<Seq<char>>,
    a: Seq<Result<StepOutcome, E>>,
    b: Seq<Result<StepOutcome, E>>,
    n: int,
)
    requires
        0 <= n <= a.len(),
        n <= b.len(),
        forall|i: int| 0 <= i < n ==> a[i] == b[i],
    ensures
        failures_of(labels, a, n) == failures_of(labels, b, n),
    decreases n,
{
    if n > 0 {
        lemma_failures_prefix(labels, a, b, n - 1);
    }
}

/// A task that fails hides no other: whatever the outcomes are, every
/// task has a status that is final, and the failures hold the label and
/// the error of each task that failed, and of no other.
pub proof fn lemma_failures_are_the_failed<E>(
    labels: Seq<Seq<char>>,
    outcomes: Seq<Result<StepOutcome, E>>,
    n: int,
)
    requires
        0 <= n <= labels.len(),
        n <= outcomes.len(),
    ensures
        statuses_of(outcomes).len() == outcomes.len(),
        forall|i: int|
            0 <= i < outcomes.len() ==> crate::display::is_terminal(
                #[trigger] statuses_of(outcomes)[i],
            ),
        failures_of(labels, outcomes, n).len() <= n,
        forall|i: int|
            0 <= i < n && (#[trigger] outcomes[i]) is Err ==> failures_of(
                labels,
                outcomes,
                n,
            ).contains((labels[i], outcomes[i]->Err_0)),
        forall|k: int|
            0 <= k < failures_of(labels, outcomes, n).len() ==> exists|i: int|
                0 <= i < n && #[trigger] failure_of(labels[i], outcomes[i]) == Some(
                    #[trigger] failures_of(labels, outcomes, n)[k],
                ),
    decreases n,
{
    if n > 0 {
        lemma_failures_are_the_failed(labels, outcomes, n - 1);
        let before = failures_of(labels, outcomes, n - 1);
        let now = failures_of(labels, outcomes, n);
        assert forall|i: int| 0 <= i < n && (#[trigger] outcomes[i]) is Err implies now.contains(
            (labels[i], outcomes[i]->Err_0),
        ) by {
            if i < n - 1 {
                let k = choose|k: int|
                    0 <= k < before.len() && before[k] == (labels[i], outcomes[i]->Err_0);
                assert(now[k] == before[k]);
            } else {
                assert(now[now.len() - 1] == (labels[i], outcomes[i]->Err_0));
            }
        }
        assert forall|k: int| 0 <= k < now.len() implies exists|i: int|
            0 <= i < n && #[trigger] failure_of(labels[i], outcomes[i]) == Some(
                #[trigger] now[k],
            ) by {
            if k < before.len() {
                assert(now[k] == before[k]);
                let i = choose|i: int|
                    0 <= i < n - 1 && #[trigger] failure_of(labels[i], outcomes[i]) == Some(
                        before[k],
                    );
                assert(failure_of(labels[i], outcomes[i]) == Some(now[k]));
            } else {
                assert(failure_of(labels[n - 1], outcomes[n - 1]) == Some(now[k]));
            }
        }
    }
}

/// The lines of a text that are complete: those that end with a line
/// feed, without it.
pub open spec fn complete_lines(text: Seq<char>) -> Seq<Seq<char>> {
    split_on(text, '\n').drop_last()
}

/// What follows the last line feed of a text: the line that is not
/// complete yet.
pub open spec fn pending_line(text: Seq<char>) -> Seq<char> {
    split_on(text, '\n').last()
}

proof fn lemma_split_nonempty(s: Seq<char>, sep: char)
    ensures
        split_on(s, sep).len() >= 1,
    decreases s.len(),
{
    if s.len() > 0 {
        lemma_split_nonempty(s.drop_last(), sep);
    }
}

/// Adds `text` to what is pending in `buffer`, takes the complete lines
/// out and leaves the rest pending.
pub fn take_complete_lines(buffer: &mut String, text: &str) -> (lines: Vec<String>)
    ensures
        lines.deep_view() == complete_lines(old(buffer)@ + text@),
        final(buffer)@ == pending_line(old(buffer)@ + text@),
{
    buffer.append(text);
    let v = chars_of(buffer.as_str());
    let pieces = split_positions(&v, '\n');
    proof {
        lemma_split_nonempty(v@, '\n');
    }
    let ghost all = split_on(v@, '\n');
    let mut lines: Vec<String> = Vec::new();
    let mut i: usize = 0;
    while i + 1 < pieces.len()
        invariant
            i + 1 <= pieces.len(),
            pieces.len() == all.len(),
            all == split_on(v@, '\n'),
            forall|k: int|
                0 <= k < pieces.len() ==> (#[trigger] pieces[k]).0 <= pieces[k].1 <= v.len()
                    && all[k] == v@.subrange(pieces[k].0 as int, pieces[k].1 as int),
            lines.len() == i,
            forall|k: int| 0 <= k < i ==> (#[trigger] lines[k])@ == all[k],
        decreases pieces.len() - i,
    {
        let (from, to) = pieces[i];
        lines.push(string_of_range(&v, from, to));
        i = i + 1;
    }
    let (from, to) = pieces[pieces.len() - 1];
    *buffer = string_of_range(&v, from, to);
    assert(lines.deep_view() =~= all.drop_last());
    lines
}

/// The output of steps that is held back until its line is complete.
pub struct PartialLines {
    buffers: IndexMap<String, String>,
}

impl PartialLines {
    /// What is held back, by step.
    pub closed spec fn held(&self) -> Seq<(Seq<char>, Seq<char>)> {
        pairs_of(self.buffers)
    }

    /// What is held back for a step; nothing for a step that is not known.
    pub open spec fn pending(&self, id: Seq<char>) -> Seq<char> {
        match lookup(self.held(), id) {
            Some(text) => text,
            None => Seq::empty(),
        }
    }

    /// Nothing is held back.
    pub fn new() -> (r: Self)
        ensures
            r.held() == Seq::<(Seq<char>, Seq<char>)>::empty(),
    {
        PartialLines { buffers: pairs_new() }
    }

    /// Takes a chunk of raw output of a step and releases the lines that it
    /// completes. An empty chunk changes nothing.
    pub fn append_chunk(&mut self, id: &StepId, chunk: &[u8]) -> (lines: Vec<String>)
        ensures
            chunk@.len() == 0 ==> lines@.len() == 0 && final(self).held() == old(self).held(),
            chunk@.len() > 0 ==> lines.deep_view() == complete_lines(
                old(self).pending(id@) + utf8_lossy(chunk@),
            ) && final(self).held() == upsert(
                old(self).held(),
                id@,
                pending_line(old(self).pending(id@) + utf8_lossy(chunk@)),
            ),
    {
        if chunk.len() == 0 {
            return Vec::new();
        }
        let text = text_of_bytes(chunk);
        let mut buffer = match pairs_get(&self.buffers, id.as_str()) {
            Some(pending) => pending.clone(),
            None => String::new(),
        };
        let lines = take_complete_lines(&mut buffer, text.as_str());
        pairs_insert(&mut self.buffers, id.as_str().to_owned(), buffer);
        lines
    }

    /// Releases what is held back for a step, if anything is.
    pub fn flush(&mut self, id: &StepId) -> (r: Option<String>)
        ensures
            match r {
                Some(line) => {
                    &&& line@ == old(self).pending(id@)
                    &&& line@.len() > 0
                    &&& final(self).held() == upsert(old(self).held(), id@, Seq::empty())
                },
                None => {
                    &&& old(self).pending(id@).len() == 0
                    &&& final(self).held() == old(self).held()
                },
            },
    {
        let held = match pairs_get(&self.buffers, id.as_str()) {
            Some(pending) => pending.clone(),
            None => String::new(),
        };
        if held.as_str().is_empty() {
            return None;
        }
        pairs_insert(&mut self.buffers, id.as_str().to_owned(), String::new());
        Some(held)
    }
}

/// The first line of a summary of failures.
pub open spec fn summary_header(count: nat, phase: Seq<char>) -> Seq<char> {
    "error summary: "@ + decimal(count) + " failure"@ + (if count == 1 {
        Seq::empty()
    } else {
        seq!['s']
    }) + " during "@ + phase
}

/// The line of one failure in a summary.
pub open spec fn summary_entry(number: nat, label: Seq<char>, message: Seq<char>) -> Seq<char> {
    "  "@ + decimal(number) + ". "@ + label + ": "@ + message
}

/// The lines of the summary of the failures of a phase: none where
/// nothing failed; else a header with the count and one numbered line for
/// each failure, with its label and its message.
pub open spec fn summary_lines(errors: Seq<(Seq<char>, Seq<char>)>, phase: Seq<char>) -> Seq<
    Seq<char>,
> {
    if errors.len() == 0 {
        Seq::empty()
    } else {
        seq![summary_header(errors.len(), phase)] + Seq::new(
            errors.len(),
            |i: int| summary_entry((i + 1) as nat, errors[i].0, errors[i].1),
        )
    }
}

/// The lines of the summary of the failures of a phase.
pub fn summarize_errors(errors: &Vec<(String, String)>, phase: &str) -> (lines: Vec<String>)
    ensures
        lines.deep_view() == summary_lines(errors.deep_view(), phase@),
{
    let mut lines: Vec<String> = Vec::new();
    if errors.len() == 0 {
        assert(lines.deep_view() =~= summary_lines(errors.deep_view(), phase@));
        return lines;
    }
    let count = errors.len();
    let mut header = String::from_str("error summary: ");
    push_decimal(&mut header, count as u64);
    header.append(" failure");
    if count != 1 {
        push_char(&mut header, 's');
    }
    header.append(" during ");
    header.append(phase);
    assert(header@ =~= summary_header(count as nat, phase@));
    lines.push(header);
    let ghost want = summary_lines(errors.deep_view(), phase@);
    let mut i: usize = 0;
    while i < errors.len()
        invariant
            i <= errors.len(),
            errors.len() > 0,
            want == summary_lines(errors.deep_view(), phase@),
            lines.len() == i + 1,
            forall|k: int| 0 <= k < i + 1 ==> (#[trigger] lines[k])@ == want[k],
        decreases errors.len() - i,
    {
        assert(errors.deep_view()[i as int] == (errors[i as int].0@, errors[i as int].1@));
        let mut entry = String::from_str("  ");
        push_decimal(&mut entry, (i as u64) + 1);
        entry.append(". ");
        entry.append(errors[i].0.as_str());
        entry.append(": ");
        entry.append(errors[i].1.as_str());
        assert(entry@ =~= summary_entry((i + 1) as nat, errors[i as int].0@, errors[i as int].1@));
        lines.push(entry);
        i = i + 1;
    }
    assert(lines.deep_view() =~= want);
    lines
}

/// What the plain sink says of the steps: it announces a step by its label
/// when the step starts, and notes how a step ended where it was not simply
/// done.
pub struct PlainProgressLogger {
    labels: IndexMap<String, String>,
}

impl PlainProgressLogger {
    /// The labels of the steps, by id.
    pub closed spec fn labels(&self) -> Seq<(Seq<char>, Seq<char>)> {
        pairs_of(self.labels)
    }

    /// A sink that knows no step.
    pub fn new() -> (r: Self)
        ensures
            r.labels() == Seq::<(Seq<char>, Seq<char>)>::empty(),
    {
        PlainProgressLogger { labels: pairs_new() }
    }

    /// Notes the label of a step.
    pub fn register_step(&mut self, id: &StepId, label: &str)
        ensures
            final(self).labels() == upsert(old(self).labels(), id@, label@),
    {
        pairs_insert(&mut self.labels, id.as_str().to_owned(), label.to_owned());
    }

    /// What is announced when the step starts: its label, if the step is
    /// known.
    pub fn start(&self, id: &StepId) -> (r: Option<String>)
        ensures
            match r {
                Some(label) => lookup(self.labels(), id@) == Some(label@),
                None => lookup(self.labels(), id@) is None,
            },
    {
        match pairs_get(&self.labels, id.as_str()) {
            Some(label) => Some(label.clone()),
            None => None,
        }
    }

    /// What is noted when a step ends: `cached` or `failed`, and nothing
    /// for a step that is done.
    pub fn finish(&self, status: StepStatus) -> (r: Option<String>)
        ensures
            match r {
                Some(detail) => (status == StepStatus::Cached && detail@ == "cached"@) || (status
                    == StepStatus::Failed && detail@ == "failed"@),
                None => status != StepStatus::Cached && status != StepStatus::Failed,
            },
    {
        match status {
            StepStatus::Cached => Some(String::from_str("cached")),
            StepStatus::Failed => Some(String::from_str("failed")),
            _ => None,
        }
    }

    /// The plain sink lets commands write straight to the terminal.
    pub fn output_policy(&self) -> (r: OutputPolicy)
        ensures
            r == OutputPolicy::Inherit,
    {
        OutputPolicy::Inherit
    }
}

} // verus!
