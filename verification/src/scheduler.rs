//! The run of one file, one invocation at a time.

use crate::collector::{
    node_views, task_views, CollectorFile, FileView, HookFailure, HookFailureView, NodeView,
};
use crate::mode::{CollectorMode, CollectorState, StateView};
use crate::plan::{
    build_plan, effective_node_mode, effective_node_modes, effective_task_mode, enclosing,
    file_plan, has_only, has_only_task, has_task_step, invokes_task,
    lemma_plan_invokes_every_running_task, lemma_plan_invokes_no_idle_task,
    lemma_plan_steps_are_valid, lemma_tasks_run_in_registration_order, node_has_only,
    node_has_only_task, step_valid,
    task_mode_in_effect, ExecutionStep, StepKind,
};
use vstd::prelude::*;

verus! {

/// What the engine reports of one invocation.
#[derive(Debug)]
pub enum InvocationOutcome {
    /// The callback ran to its end.
    Completed,
    /// The callback raised; the text is the error as the engine gave it.
    Failed(String),
}

/// The mathematical value of an [`InvocationOutcome`].
pub enum OutcomeView {
    Completed,
    Failed(Seq<char>),
}

impl View for InvocationOutcome {
    type V = OutcomeView;

    open spec fn view(&self) -> OutcomeView {
        match *self {
            InvocationOutcome::Completed => OutcomeView::Completed,
            InvocationOutcome::Failed(error) => OutcomeView::Failed(error@),
        }
    }
}

impl OutcomeView {
    /// The state of a task whose body had this outcome.
    pub open spec fn verdict(self) -> StateView {
        match self {
            OutcomeView::Completed => StateView::Pass,
            OutcomeView::Failed(error) => StateView::Fail(error),
        }
    }
}

/// Whether `step` names a suite of the file and, if it invokes a task, a task
/// of that suite.
pub open spec fn step_fits(file: FileView, step: ExecutionStep) -> bool {
    &&& step.node < file.nodes.len()
    &&& step.kind is Task ==> step.index < file.nodes[step.node as int].tasks.len()
}

/// The file after one invocation. The outcome of a task body becomes the
/// state of that task: passed, or failed with the error. A hook that failed
/// is put on record with the suite that owns it; a hook that ran to its end
/// leaves no trace. Nothing else changes: no other task, no other suite, and
/// nothing that was on record before.
pub open spec fn apply_step(file: FileView, step: ExecutionStep, outcome: OutcomeView) -> FileView {
    if !step_fits(file, step) {
        file
    } else {
        match step.kind {
            StepKind::Task => file.with_task_state(
                step.node as int,
                step.index as int,
                outcome.verdict(),
            ),
            StepKind::Hook(hook) => match outcome {
                OutcomeView::Completed => file,
                OutcomeView::Failed(error) => file.with_hook_failure(
                    step.node as int,
                    HookFailureView { hook, error },
                ),
            },
        }
    }
}

/// The file after the first `upto` invocations of `plan`, of which
/// `outcomes` holds the outcomes in order.
pub open spec fn run(
    start: FileView,
    plan: Seq<ExecutionStep>,
    outcomes: Seq<OutcomeView>,
    upto: int,
) -> FileView
    decreases upto,
{
    if upto <= 0 {
        start
    } else {
        apply_step(run(start, plan, outcomes, upto - 1), plan[upto - 1], outcomes[upto - 1])
    }
}

/// The state that task `t` of suite `n` has before anything is invoked: a
/// task that is skipped is in state `Skip`, a task that is yet to be written
/// in state `Todo`, and a task that will run keeps the state it has.
pub open spec fn settled_state(file: FileView, n: int, t: int) -> StateView {
    match effective_task_mode(file, n, t) {
        CollectorMode::Skip => StateView::Custom(CollectorMode::Skip),
        CollectorMode::Todo => StateView::Custom(CollectorMode::Todo),
        _ => file.nodes[n].tasks[t].state,
    }
}

/// The file with the states settled of all tasks of the suites before `n`
/// and of the tasks before `t` of suite `n`.
pub open spec fn prepared_upto(file: FileView, n: int, t: int) -> FileView {
    FileView {
        nodes: Seq::new(
            file.nodes.len(),
            |i: int|
                NodeView {
                    tasks: Seq::new(
                        file.nodes[i].tasks.len(),
                        |k: int|
                            if i < n || (i == n && k < t) {
                                file.nodes[i].tasks[k].with_state(settled_state(file, i, k))
                            } else {
                                file.nodes[i].tasks[k]
                            },
                    ),
                    ..file.nodes[i]
                },
        ),
        ..file
    }
}

/// The file as a run starts on it: every task that will not run is in its
/// final state. In a file that could not be evaluated nothing is touched.
pub open spec fn prepared(file: FileView) -> FileView {
    if file.error is Some {
        file
    } else {
        prepared_upto(file, file.nodes.len() as int, 0)
    }
}

/// The file after a run in which the invocations had `outcomes`, in order.
pub open spec fn executed(file: FileView, outcomes: Seq<OutcomeView>) -> FileView {
    run(prepared(file), file_plan(file), outcomes, outcomes.len() as int)
}

/// Whether two files have as many suites, and suite by suite as many tasks.
pub open spec fn same_shape(a: FileView, b: FileView) -> bool {
    &&& a.nodes.len() == b.nodes.len()
    &&& forall|n: int|
        0 <= n < a.nodes.len() ==> (#[trigger] a.nodes[n]).tasks.len() == b.nodes[n].tasks.len()
}

proof fn lemma_apply_keeps_shape(file: FileView, step: ExecutionStep, outcome: OutcomeView)
    ensures
        same_shape(apply_step(file, step, outcome), file),
        apply_step(file, step, outcome).error == file.error,
{
}

proof fn lemma_run_keeps_shape(
    start: FileView,
    plan: Seq<ExecutionStep>,
    outcomes: Seq<OutcomeView>,
    upto: int,
)
    ensures
        same_shape(run(start, plan, outcomes, upto), start),
    decreases upto,
{
    if upto > 0 {
        lemma_run_keeps_shape(start, plan, outcomes, upto - 1);
        lemma_apply_keeps_shape(
            run(start, plan, outcomes, upto - 1),
            plan[upto - 1],
            outcomes[upto - 1],
        );
    }
}

proof fn lemma_run_reads_a_prefix(
    start: FileView,
    plan: Seq<ExecutionStep>,
    first: Seq<OutcomeView>,
    second: Seq<OutcomeView>,
    upto: int,
)
    requires
        forall|k: int| 0 <= k < upto ==> first[k] == second[k],
    ensures
        run(start, plan, first, upto) == run(start, plan, second, upto),
    decreases upto,
{
    if upto > 0 {
        lemma_run_reads_a_prefix(start, plan, first, second, upto - 1);
    }
}

/// Puts every task that will not run into its final state: `Skip` for a
/// task that is skipped, `Todo` for one that is yet to be written. Nothing is
/// invoked for this. In a file that could not be evaluated nothing is
/// touched.
fn settle(file: &mut CollectorFile)
    ensures
        final(file)@ == prepared(old(file)@),
{
    if file.error().is_some() {
        return ;
    }
    let ghost initial = file@;
    let modes = effective_node_modes(file);
    let node_count = file.nodes().len();
    let mut n: usize = 0;
    assert(file@ =~~= prepared_upto(initial, 0, 0));
    while n < node_count
        invariant
            n <= node_count,
            node_count == initial.nodes.len(),
            modes@.len() == initial.nodes.len(),
            forall|k: int|
                0 <= k < modes@.len() ==> #[trigger] modes@[k] == effective_node_mode(initial, k),
            file@ == prepared_upto(initial, n as int, 0),
        decreases node_count - n,
    {
        assert(file@.nodes[n as int] =~~= initial.nodes[n as int]);
        let nodes = file.nodes();
        assert(node_views(nodes@).len() == initial.nodes.len());
        assert(nodes@[n as int]@ == node_views(nodes@)[n as int]);
        let node_mode = modes[n];
        let only_beside = node_has_only_task(&nodes[n]);
        let task_count = nodes[n].tasks().len();
        let mut t: usize = 0;
        while t < task_count
            invariant
                n < node_count,
                t <= task_count,
                node_count == initial.nodes.len(),
                task_count == initial.nodes[n as int].tasks.len(),
                node_mode == effective_node_mode(initial, n as int),
                only_beside == has_only_task(initial.nodes[n as int]),
                file@ == prepared_upto(initial, n as int, t as int),
            decreases task_count - t,
        {
            let current_nodes = file.nodes();
            assert(node_views(current_nodes@).len() == initial.nodes.len());
            let current_tasks = current_nodes[n].tasks();
            assert(current_nodes@[n as int]@ == node_views(current_nodes@)[n as int]);
            assert(task_views(current_tasks@).len() == initial.nodes[n as int].tasks.len());
            let declared = current_tasks[t].mode();
            assert(current_tasks@[t as int]@ == task_views(current_tasks@)[t as int]);
            assert(declared == initial.nodes[n as int].tasks[t as int].mode);
            let mode = task_mode_in_effect(declared, node_mode, only_beside);
            match mode {
                CollectorMode::Skip => {
                    file.set_task_state(n, t, CollectorState::Custom(CollectorMode::Skip));
                },
                CollectorMode::Todo => {
                    file.set_task_state(n, t, CollectorState::Custom(CollectorMode::Todo));
                },
                _ => {},
            }
            assert(file@ =~~= prepared_upto(initial, n as int, t + 1));
            t += 1;
        }
        assert(file@ =~~= prepared_upto(initial, n + 1, 0));
        n += 1;
    }
}

/// What the scheduler asks of its driver next.
#[derive(Clone, Copy, Debug, PartialEq, Eq, Structural)]
pub enum SchedulerAction {
    /// Invoke this callback in the engine and report the outcome.
    Invoke(ExecutionStep),
    /// Nothing is left to invoke.
    Finished,
}

/// The run of one file. It owns the file, says which callback is to be
/// invoked next, and writes each outcome where it belongs. It is the only
/// writer of task states. The order of the invocations is fixed when the
/// run starts: no outcome cancels or reorders anything.
pub struct Scheduler {
    file: CollectorFile,
    plan: Vec<ExecutionStep>,
    cursor: usize,
    initial: Ghost<FileView>,
    history: Ghost<Seq<OutcomeView>>,
}

impl Scheduler {
    /// The file as it was handed to the scheduler.
    pub closed spec fn initial(&self) -> FileView {
        self.initial@
    }

    /// The outcomes reported so far, in order.
    pub closed spec fn history(&self) -> Seq<OutcomeView> {
        self.history@
    }

    /// The scheduler holds what its file, its plan and its history call for.
    pub closed spec fn wf(&self) -> bool {
        &&& self.initial@.indexable()
        &&& self.plan@ == file_plan(self.initial@)
        &&& self.cursor == self.history@.len()
        &&& self.cursor <= self.plan@.len()
        &&& self.file@ == executed(self.initial@, self.history@)
    }

    /// What is to be done next: the invocation that follows those already
    /// reported, or nothing once all are.
    pub open spec fn pending(&self) -> SchedulerAction {
        if self.history().len() < file_plan(self.initial()).len() {
            SchedulerAction::Invoke(file_plan(self.initial())[self.history().len() as int])
        } else {
            SchedulerAction::Finished
        }
    }

    /// No more outcomes are on record than the run has invocations, and the
    /// file that the run started from is one that was in memory.
    pub proof fn lemma_history_fits(&self)
        requires
            self.wf(),
        ensures
            self.history().len() <= file_plan(self.initial()).len(),
            self.initial().indexable(),
    {
    }

    /// Starts the run of `file`: lays out the invocations and settles the
    /// tasks that will not run.
    pub fn new(file: CollectorFile) -> (scheduler: Self)
        ensures
            scheduler.wf(),
            scheduler.initial() == file@,
            scheduler.history() == Seq::<OutcomeView>::empty(),
    {
        let mut file = file;
        let ghost initial = file@;
        proof {
            file.lemma_indexable();
        }
        let plan = build_plan(&file);
        settle(&mut file);
        Scheduler { file, plan, cursor: 0, initial: Ghost(initial), history: Ghost(Seq::empty()) }
    }

    /// What is to be done next.
    pub fn next_action(&self) -> (action: SchedulerAction)
        requires
            self.wf(),
        ensures
            action == self.pending(),
    {
        if self.cursor < self.plan.len() {
            SchedulerAction::Invoke(self.plan[self.cursor])
        } else {
            SchedulerAction::Finished
        }
    }

    /// Whether every invocation of the run was reported.
    pub fn is_finished(&self) -> (finished: bool)
        requires
            self.wf(),
        ensures
            finished == (self.pending() == SchedulerAction::Finished),
    {
        self.cursor >= self.plan.len()
    }

    /// Takes the outcome of the invocation that `next_action` asked for and
    /// writes it where it belongs. Once the run is finished there is nothing
    /// to report: the call is refused and changes nothing.
    pub fn record(&mut self, outcome: InvocationOutcome) -> (accepted: bool)
        requires
            old(self).wf(),
        ensures
            final(self).wf(),
            final(self).initial() == old(self).initial(),
            accepted == (old(self).pending() != SchedulerAction::Finished),
            final(self).history() == if accepted {
                old(self).history().push(outcome@)
            } else {
                old(self).history()
            },
    {
        if self.cursor >= self.plan.len() {
            return false;
        }
        let step = self.plan[self.cursor];
        let ghost outcome_view = outcome@;
        let ghost before = self.file@;
        let ghost outcomes = self.history@.push(outcome_view);
        proof {
            let start = prepared(self.initial@);
            let plan = file_plan(self.initial@);
            lemma_plan_steps_are_valid(self.initial@);
            assert(step_valid(self.initial@, plan[self.cursor as int]));
            lemma_run_keeps_shape(start, plan, self.history@, self.cursor as int);
            assert(same_shape(start, self.initial@));
            lemma_run_reads_a_prefix(start, plan, self.history@, outcomes, self.cursor as int);
            assert(step_fits(before, step));
        }
        match step.kind {
            StepKind::Task => {
                let state = match outcome {
                    InvocationOutcome::Completed => CollectorState::Pass,
                    InvocationOutcome::Failed(error) => CollectorState::Fail(error),
                };
                self.file.set_task_state(step.node, step.index, state);
            },
            StepKind::Hook(hook) => {
                match outcome {
                    InvocationOutcome::Completed => {},
                    InvocationOutcome::Failed(error) => {
                        self.file.record_hook_failure(step.node, HookFailure { hook, error });
                    },
                }
            },
        }
        assert(self.file@ == apply_step(before, step, outcome_view));
        self.cursor = self.cursor + 1;
        self.history = Ghost(outcomes);
        true
    }

    /// The file as the run has left it so far.
    pub fn file(&self) -> (file: &CollectorFile)
        requires
            self.wf(),
        ensures
            file@ == executed(self.initial(), self.history()),
    {
        &self.file
    }

    /// Ends the run and hands the file back, as the run has left it.
    pub fn finish(self) -> (file: CollectorFile)
        requires
            self.wf(),
        ensures
            file@ == executed(self.initial(), self.history()),
    {
        self.file
    }
}

proof fn lemma_apply_touches_one_task(
    file: FileView,
    step: ExecutionStep,
    outcome: OutcomeView,
    n: int,
    t: int,
)
    requires
        0 <= n < file.nodes.len(),
        0 <= t < file.nodes[n].tasks.len(),
    ensures
        invokes_task(step, n, t) ==> apply_step(file, step, outcome).nodes[n].tasks[t].state
            == outcome.verdict(),
        !invokes_task(step, n, t) ==> apply_step(file, step, outcome).nodes[n].tasks[t].state
            == file.nodes[n].tasks[t].state,
{
}

proof fn lemma_run_task_state(
    start: FileView,
    plan: Seq<ExecutionStep>,
    outcomes: Seq<OutcomeView>,
    upto: int,
    n: int,
    t: int,
)
    requires
        0 <= n < start.nodes.len(),
        0 <= t < start.nodes[n].tasks.len(),
        0 <= upto <= plan.len(),
    ensures
        has_task_step(plan.take(upto), n, t) ==> run(
            start,
            plan,
            outcomes,
            upto,
        ).nodes[n].tasks[t].state.is_terminal(),
        !has_task_step(plan.take(upto), n, t) ==> run(
            start,
            plan,
            outcomes,
            upto,
        ).nodes[n].tasks[t].state == start.nodes[n].tasks[t].state,
    decreases upto,
{
    if upto > 0 {
        let earlier = run(start, plan, outcomes, upto - 1);
        lemma_run_task_state(start, plan, outcomes, upto - 1, n, t);
        lemma_run_keeps_shape(start, plan, outcomes, upto - 1);
        lemma_apply_touches_one_task(earlier, plan[upto - 1], outcomes[upto - 1], n, t);
        let now = plan.take(upto);
        let before = plan.take(upto - 1);
        if invokes_task(plan[upto - 1], n, t) {
            assert(invokes_task(now[upto - 1], n, t));
        } else if has_task_step(before, n, t) {
            let k = choose|k: int| 0 <= k < before.len() && invokes_task(#[trigger] before[k], n, t);
            assert(invokes_task(now[k], n, t));
        } else {
            assert forall|k: int| 0 <= k < now.len() implies !invokes_task(#[trigger] now[k], n, t) by {
                if k < upto - 1 {
                    assert(before[k] == now[k]);
                }
            }
        }
    } else {
        assert(plan.take(0).len() == 0);
    }
}

/// A task that runs ends passed or failed: once every invocation of the run
/// of a file has been reported, whatever the outcomes were, each task whose
/// mode at the time of the run is `Run` or `Only` is in state `Pass` or
/// `Fail`.
pub proof fn lemma_running_task_ends_passed_or_failed(
    file: FileView,
    outcomes: Seq<OutcomeView>,
    n: int,
    t: int,
)
    requires
        file.indexable(),
        file.error is None,
        outcomes.len() == file_plan(file).len(),
        0 <= n < file.nodes.len(),
        0 <= t < file.nodes[n].tasks.len(),
        effective_task_mode(file, n, t).is_runnable(),
    ensures
        executed(file, outcomes).nodes[n].tasks[t].state.is_terminal(),
{
    let plan = file_plan(file);
    lemma_plan_invokes_every_running_task(file, n, t);
    assert(plan.take(plan.len() as int) =~= plan);
    lemma_run_task_state(prepared(file), plan, outcomes, plan.len() as int, n, t);
}

proof fn lemma_nothing_is_skipped_without_cause(file: FileView, n: int)
    requires
        !has_only(file),
        forall|k: int|
            0 <= k < file.nodes.len() ==> (#[trigger] file.nodes[k]).mode != CollectorMode::Skip,
        0 <= n < file.nodes.len(),
    ensures
        effective_node_mode(file, n) == file.nodes[n].mode,
    decreases n,
{
    match enclosing(file, n) {
        Some(parent) => {
            lemma_nothing_is_skipped_without_cause(file, parent);
        },
        None => {},
    }
}

/// In a file that was evaluated, in which nothing is marked `Only` and no
/// suite is marked `Skip`, every task that is declared in mode `Run` ends
/// passed or failed, whatever the outcomes of the invocations were.
pub proof fn lemma_every_run_task_ends_passed_or_failed(file: FileView, outcomes: Seq<OutcomeView>)
    requires
        file.indexable(),
        file.error is None,
        !has_only(file),
        forall|n: int|
            0 <= n < file.nodes.len() ==> (#[trigger] file.nodes[n]).mode != CollectorMode::Skip,
        outcomes.len() == file_plan(file).len(),
    ensures
        forall|n: int, t: int|
            0 <= n < file.nodes.len() && 0 <= t < file.nodes[n].tasks.len() && file.nodes[n].tasks[t].mode
                == CollectorMode::Run ==> (#[trigger] executed(
                file,
                outcomes,
            ).nodes[n].tasks[t]).state.is_terminal(),
{
    assert forall|n: int, t: int|
        0 <= n < file.nodes.len() && 0 <= t < file.nodes[n].tasks.len() && file.nodes[n].tasks[t].mode
            == CollectorMode::Run implies (#[trigger] executed(
        file,
        outcomes,
    ).nodes[n].tasks[t]).state.is_terminal() by {
        assert(!node_has_only(file.nodes[n]));
        lemma_nothing_is_skipped_without_cause(file, n);
        assert(effective_task_mode(file, n, t) == CollectorMode::Run);
        lemma_running_task_ends_passed_or_failed(file, outcomes, n, t);
    }
}

/// A task that does not run is never invoked and keeps the state in which
/// the start of the run put it, however far the run has got and whatever the
/// outcomes were.
pub proof fn lemma_idle_task_is_left_alone(
    file: FileView,
    outcomes: Seq<OutcomeView>,
    n: int,
    t: int,
)
    requires
        file.indexable(),
        outcomes.len() <= file_plan(file).len(),
        0 <= n < file.nodes.len(),
        0 <= t < file.nodes[n].tasks.len(),
        !effective_task_mode(file, n, t).is_runnable(),
    ensures
        !has_task_step(file_plan(file), n, t),
        executed(file, outcomes).nodes[n].tasks[t].state == prepared(file).nodes[n].tasks[t].state,
{
    let plan = file_plan(file);
    lemma_plan_invokes_no_idle_task(file, n, t);
    let done = plan.take(outcomes.len() as int);
    assert forall|k: int| 0 <= k < done.len() implies !invokes_task(#[trigger] done[k], n, t) by {
        assert(done[k] == plan[k]);
    }
    lemma_run_task_state(prepared(file), plan, outcomes, outcomes.len() as int, n, t);
}

/// A task that is declared in mode `Skip` short-circuits: its body is never
/// invoked, and in a file that was evaluated its state is `Skip`, however far
/// the run has got and whatever the outcomes were.
pub proof fn lemma_skip_task_is_never_invoked(
    file: FileView,
    outcomes: Seq<OutcomeView>,
    n: int,
    t: int,
)
    requires
        file.indexable(),
        outcomes.len() <= file_plan(file).len(),
        0 <= n < file.nodes.len(),
        0 <= t < file.nodes[n].tasks.len(),
        file.nodes[n].tasks[t].mode == CollectorMode::Skip,
    ensures
        !has_task_step(file_plan(file), n, t),
        file.error is None ==> executed(file, outcomes).nodes[n].tasks[t].state == StateView::Custom(
            CollectorMode::Skip,
        ),
{
    lemma_idle_task_is_left_alone(file, outcomes, n, t);
}

/// A file that could not be evaluated is left as it is: nothing is invoked
/// and nothing is written.
pub proof fn lemma_failed_file_is_not_run(file: FileView, outcomes: Seq<OutcomeView>)
    requires
        file.error is Some,
        outcomes.len() <= file_plan(file).len(),
    ensures
        file_plan(file).len() == 0,
        executed(file, outcomes) == file,
{
}

/// A task marked `Only` skips the tasks beside it: in a file that was
/// evaluated, once every invocation has been reported, a task of the same
/// suite that is not marked `Only` is in state `Skip`, and the task marked
/// `Only` has passed or failed.
pub proof fn lemma_only_task_skips_its_siblings(
    file: FileView,
    outcomes: Seq<OutcomeView>,
    n: int,
    plain: int,
    only: int,
)
    requires
        file.indexable(),
        file.error is None,
        outcomes.len() == file_plan(file).len(),
        0 <= n < file.nodes.len(),
        0 <= plain < file.nodes[n].tasks.len(),
        0 <= only < file.nodes[n].tasks.len(),
        file.nodes[n].tasks[plain].mode != CollectorMode::Only,
        file.nodes[n].tasks[only].mode == CollectorMode::Only,
    ensures
        executed(file, outcomes).nodes[n].tasks[plain].state == StateView::Custom(
            CollectorMode::Skip,
        ),
        executed(file, outcomes).nodes[n].tasks[only].state.is_terminal(),
{
    assert(has_only_task(file.nodes[n]));
    lemma_idle_task_is_left_alone(file, outcomes, n, plain);
    lemma_running_task_ends_passed_or_failed(file, outcomes, n, only);
}

/// The outcome of a hook touches no task: whatever a hook comes to, every
/// task of the file is after it as it was before, a failure on record
/// included.
pub proof fn lemma_hook_outcome_touches_no_task(
    file: FileView,
    step: ExecutionStep,
    outcome: OutcomeView,
)
    requires
        step.kind is Hook,
    ensures
        forall|n: int|
            0 <= n < file.nodes.len() ==> (#[trigger] apply_step(file, step, outcome).nodes[n]).tasks
                == file.nodes[n].tasks,
{
}

proof fn lemma_run_keeps_verdict(
    start: FileView,
    plan: Seq<ExecutionStep>,
    outcomes: Seq<OutcomeView>,
    upto: int,
    at: int,
    n: int,
    t: int,
)
    requires
        0 <= n < start.nodes.len(),
        0 <= t < start.nodes[n].tasks.len(),
        0 <= at < upto <= plan.len(),
        invokes_task(plan[at], n, t),
        forall|later: int| at < later < upto ==> !invokes_task(#[trigger] plan[later], n, t),
    ensures
        run(start, plan, outcomes, upto).nodes[n].tasks[t].state == outcomes[at].verdict(),
    decreases upto,
{
    let earlier = run(start, plan, outcomes, upto - 1);
    lemma_run_keeps_shape(start, plan, outcomes, upto - 1);
    lemma_apply_touches_one_task(earlier, plan[upto - 1], outcomes[upto - 1], n, t);
    if at < upto - 1 {
        lemma_run_keeps_verdict(start, plan, outcomes, upto - 1, at, n, t);
    }
}

/// The state of a task that ran is the outcome of its body: once every
/// invocation of the run of a file has been reported, the task whose body
/// was invocation `at` has passed if that invocation ran to its end, and
/// has failed with the error of that invocation otherwise. Nothing that was
/// reported before or after changes this.
pub proof fn lemma_task_state_is_the_outcome_of_its_body(
    file: FileView,
    outcomes: Seq<OutcomeView>,
    at: int,
)
    requires
        file.indexable(),
        outcomes.len() == file_plan(file).len(),
        0 <= at < file_plan(file).len(),
        file_plan(file)[at].kind is Task,
    ensures
        ({
            let step = file_plan(file)[at];
            executed(file, outcomes).nodes[step.node as int].tasks[step.index as int].state
                == outcomes[at].verdict()
        }),
{
    let plan = file_plan(file);
    let step = plan[at];
    let n = step.node as int;
    let t = step.index as int;
    lemma_plan_steps_are_valid(file);
    assert(step_valid(file, plan[at]));
    assert forall|later: int| at < later < plan.len() implies !invokes_task(
        #[trigger] plan[later],
        n,
        t,
    ) by {
        if plan[later].kind is Task && plan[later].node == plan[at].node {
            lemma_tasks_run_in_registration_order(file, at, later);
        }
    }
    assert(same_shape(prepared(file), file));
    lemma_run_keeps_verdict(prepared(file), plan, outcomes, plan.len() as int, at, n, t);
}

/// A run leaves no task undecided: once every invocation of the run of a
/// file that was evaluated has been reported, each task has passed or failed
/// or is in state `Skip` or `Todo`, according to its mode at the time of the
/// run.
pub proof fn lemma_every_task_ends_decided(
    file: FileView,
    outcomes: Seq<OutcomeView>,
    n: int,
    t: int,
)
    requires
        file.indexable(),
        file.error is None,
        outcomes.len() == file_plan(file).len(),
        0 <= n < file.nodes.len(),
        0 <= t < file.nodes[n].tasks.len(),
    ensures
        match effective_task_mode(file, n, t) {
            CollectorMode::Skip => executed(file, outcomes).nodes[n].tasks[t].state
                == StateView::Custom(CollectorMode::Skip),
            CollectorMode::Todo => executed(file, outcomes).nodes[n].tasks[t].state
                == StateView::Custom(CollectorMode::Todo),
            _ => executed(file, outcomes).nodes[n].tasks[t].state.is_terminal(),
        },
{
    if effective_task_mode(file, n, t).is_runnable() {
        lemma_running_task_ends_passed_or_failed(file, outcomes, n, t);
    } else {
        lemma_idle_task_is_left_alone(file, outcomes, n, t);
    }
}

/// The failures that the first `upto` invocations of `plan` put on record
/// for suite `n`: one for each hook of that suite that failed, in the order
/// of the run.
pub open spec fn recorded_failures(
    plan: Seq<ExecutionStep>,
    outcomes: Seq<OutcomeView>,
    n: int,
    upto: int,
) -> Seq<HookFailureView>
    decreases upto,
{
    if upto <= 0 {
        Seq::empty()
    } else {
        let earlier = recorded_failures(plan, outcomes, n, upto - 1);
        match (plan[upto - 1].kind, outcomes[upto - 1]) {
            (StepKind::Hook(hook), OutcomeView::Failed(error)) => if plan[upto - 1].node == n {
                earlier.push(HookFailureView { hook, error })
            } else {
                earlier
            },
            _ => earlier,
        }
    }
}

proof fn lemma_run_records_failures(
    start: FileView,
    plan: Seq<ExecutionStep>,
    outcomes: Seq<OutcomeView>,
    upto: int,
    n: int,
)
    requires
        0 <= n < start.nodes.len(),
    ensures
        run(start, plan, outcomes, upto).nodes[n].hook_failures == start.nodes[n].hook_failures
            + recorded_failures(plan, outcomes, n, upto),
    decreases upto,
{
    if upto > 0 {
        lemma_run_records_failures(start, plan, outcomes, upto - 1, n);
        lemma_run_keeps_shape(start, plan, outcomes, upto - 1);
        let earlier = run(start, plan, outcomes, upto - 1);
        let now = apply_step(earlier, plan[upto - 1], outcomes[upto - 1]);
        assert(now.nodes[n].hook_failures =~= start.nodes[n].hook_failures + recorded_failures(
            plan,
            outcomes,
            n,
            upto,
        ));
    } else {
        assert(start.nodes[n].hook_failures + recorded_failures(plan, outcomes, n, upto)
            =~= start.nodes[n].hook_failures);
    }
}

/// A hook that fails is put on record with the suite that owns it, and
/// nothing that was on record is lost: after a run the failures on record
/// for a suite are those that it had before, followed by one for each of its
/// hooks that failed, in the order of the run.
pub proof fn lemma_failed_hooks_are_on_record(file: FileView, outcomes: Seq<OutcomeView>, n: int)
    requires
        0 <= n < file.nodes.len(),
    ensures
        executed(file, outcomes).nodes[n].hook_failures == file.nodes[n].hook_failures
            + recorded_failures(file_plan(file), outcomes, n, outcomes.len() as int),
{
    lemma_run_records_failures(
        prepared(file),
        file_plan(file),
        outcomes,
        outcomes.len() as int,
        n,
    );
}

} // verus!
