//! The order of a run: which callbacks the run of a frozen file invokes, and
//! in which order.
//!
//! A file holds its suites in one sequence, in registration order. A suite
//! may name a suite that was registered before it as the one that encloses
//! it. The hooks of a suite bracket its tasks and then the suites that it
//! encloses, each with all that it encloses in turn; its `BeforeEach` and
//! `AfterEach` hooks run around their tasks as around its own; and if it is
//! skipped, so are they, unless they are marked `Only`.

use crate::collector::{node_views, task_views, CollectorFile, CollectorNode, FileView, NodeView};
use crate::hooks::{LifetimeHook, TestCallback};
use crate::mode::CollectorMode;
use vstd::prelude::*;

verus! {

/// What one step of a run invokes: a hook of a suite, or the body of a task.
#[derive(Clone, Copy, Debug, PartialEq, Eq, Structural)]
pub enum StepKind {
    Hook(LifetimeHook),
    Task,
}

/// One invocation that a run asks of the engine.
#[derive(Clone, Copy, Debug, PartialEq, Eq, Structural)]
pub struct ExecutionStep {
    pub kind: StepKind,
    /// The suite that owns the callback, by its index in the file.
    pub node: usize,
    /// For a hook, its place in the suite's list for that hook; for a task,
    /// its place among the suite's tasks.
    pub index: usize,
    pub callback: TestCallback,
}

/// The mode of a suite at the time of the run. A suite marked `Only` runs
/// whatever surrounds it. Any other suite is skipped if it is marked `Skip`,
/// if anything in the file is marked `Only`, or if the suite that encloses
/// it is skipped. Otherwise the suite has the mode that it declares.
pub open spec fn node_mode_rule(
    declared: CollectorMode,
    only_in_file: bool,
    enclosing_skipped: bool,
) -> CollectorMode {
    if declared == CollectorMode::Only {
        CollectorMode::Only
    } else if declared == CollectorMode::Skip || only_in_file || enclosing_skipped {
        CollectorMode::Skip
    } else {
        declared
    }
}

/// The mode of a task at the time of the run. A task marked `Only` runs
/// whatever surrounds it. Any other task is skipped if its suite is skipped
/// or if a task beside it is marked `Only`. Otherwise the task has the mode
/// that it declares.
pub open spec fn task_mode_rule(
    declared: CollectorMode,
    node_mode: CollectorMode,
    only_beside: bool,
) -> CollectorMode {
    if declared == CollectorMode::Only {
        CollectorMode::Only
    } else if node_mode == CollectorMode::Skip || only_beside {
        CollectorMode::Skip
    } else {
        declared
    }
}

/// Whether a task of the suite is marked `Only`.
pub open spec fn has_only_task(node: NodeView) -> bool {
    exists|t: int| 0 <= t < node.tasks.len() && (#[trigger] node.tasks[t]).mode == CollectorMode::Only
}

/// Whether the suite, or a task of it, is marked `Only`.
pub open spec fn node_has_only(node: NodeView) -> bool {
    node.mode == CollectorMode::Only || has_only_task(node)
}

/// Whether anything in the file is marked `Only`.
pub open spec fn has_only(file: FileView) -> bool {
    exists|n: int| 0 <= n < file.nodes.len() && node_has_only(#[trigger] file.nodes[n])
}

/// The suite that encloses suite `n`, if one does. A suite is enclosed by
/// the suite that it names, which was registered before it; a suite that
/// names itself or a later suite is enclosed by none.
pub open spec fn enclosing(file: FileView, n: int) -> Option<int> {
    match file.nodes[n].parent {
        Some(parent) => if parent < n {
            Some(parent as int)
        } else {
            None
        },
        None => None,
    }
}

/// The mode of suite `n` at the time of the run.
pub open spec fn effective_node_mode(file: FileView, n: int) -> CollectorMode
    decreases n,
{
    let enclosing_skipped = match enclosing(file, n) {
        Some(parent) => effective_node_mode(file, parent) == CollectorMode::Skip,
        None => false,
    };
    node_mode_rule(file.nodes[n].mode, has_only(file), enclosing_skipped)
}

/// The mode of task `t` of suite `n` at the time of the run.
pub open spec fn effective_task_mode(file: FileView, n: int, t: int) -> CollectorMode {
    task_mode_rule(
        file.nodes[n].tasks[t].mode,
        effective_node_mode(file, n),
        has_only_task(file.nodes[n]),
    )
}

/// The invocations of the hooks of one kind of suite `n`, in registration
/// order.
pub open spec fn hook_steps(file: FileView, n: int, hook: LifetimeHook) -> Seq<ExecutionStep> {
    let callbacks = file.nodes[n].hooks.get(hook);
    Seq::new(
        callbacks.len(),
        |k: int|
            ExecutionStep {
                kind: StepKind::Hook(hook),
                node: n as usize,
                index: k as usize,
                callback: callbacks[k],
            },
    )
}

/// The per-task hooks of one kind that run around a task of suite `n`:
/// those of the outermost enclosing suite first, and so on inwards to those
/// of the suite itself.
pub open spec fn each_steps(file: FileView, n: int, hook: LifetimeHook) -> Seq<ExecutionStep>
    decreases n,
{
    match enclosing(file, n) {
        Some(parent) => each_steps(file, parent, hook) + hook_steps(file, n, hook),
        None => hook_steps(file, n, hook),
    }
}

/// The invocation of the body of task `t` of suite `n`.
pub open spec fn task_step(file: FileView, n: int, t: int) -> ExecutionStep {
    ExecutionStep {
        kind: StepKind::Task,
        node: n as usize,
        index: t as usize,
        callback: file.nodes[n].tasks[t].callback,
    }
}

/// What task `t` of suite `n` contributes to the run. A task that runs has
/// its `BeforeEach` hooks, its body and its `AfterEach` hooks invoked, in
/// that order. Any other task has nothing invoked.
pub open spec fn task_steps(file: FileView, n: int, t: int) -> Seq<ExecutionStep> {
    if effective_task_mode(file, n, t).is_runnable() {
        each_steps(file, n, LifetimeHook::BeforeEach).push(task_step(file, n, t)) + each_steps(
            file,
            n,
            LifetimeHook::AfterEach,
        )
    } else {
        Seq::empty()
    }
}

/// What the first `upto` tasks of suite `n` contribute, in registration
/// order.
pub open spec fn tasks_steps(file: FileView, n: int, upto: int) -> Seq<ExecutionStep>
    decreases upto,
{
    if upto <= 0 {
        Seq::empty()
    } else {
        tasks_steps(file, n, upto - 1) + task_steps(file, n, upto - 1)
    }
}

/// `body` between the `BeforeAll` and the `AfterAll` hooks of suite `n`. A
/// skipped suite has none of its own hooks invoked.
pub open spec fn bracketed(file: FileView, n: int, body: Seq<ExecutionStep>) -> Seq<ExecutionStep> {
    if effective_node_mode(file, n) == CollectorMode::Skip {
        body
    } else {
        hook_steps(file, n, LifetimeHook::BeforeAll) + body + hook_steps(
            file,
            n,
            LifetimeHook::AfterAll,
        )
    }
}

/// What suite `n` contributes to the run with all that it encloses: between
/// its `BeforeAll` and its `AfterAll` hooks first its own tasks, then the
/// suites that it encloses, in registration order.
pub open spec fn subtree_steps(file: FileView, n: int) -> Seq<ExecutionStep>
    decreases file.nodes.len() - n, file.nodes.len() + 1,
{
    if 0 <= n < file.nodes.len() {
        bracketed(
            file,
            n,
            tasks_steps(file, n, file.nodes[n].tasks.len() as int) + children_steps(
                file,
                Some(n),
                file.nodes.len() as int,
            ),
        )
    } else {
        Seq::empty()
    }
}

/// What the suites before `upto` that `parent` encloses contribute, each
/// with all that it encloses, in registration order. With no `parent`,
/// these are the suites that no suite encloses.
pub open spec fn children_steps(file: FileView, parent: Option<int>, upto: int) -> Seq<ExecutionStep>
    decreases
        file.nodes.len() - (match parent {
            Some(p) => p,
            None => -1,
        }),
        upto,
{
    if upto <= 0 || upto > file.nodes.len() {
        Seq::empty()
    } else if enclosing(file, upto - 1) == parent {
        children_steps(file, parent, upto - 1) + subtree_steps(file, upto - 1)
    } else {
        children_steps(file, parent, upto - 1)
    }
}

/// Every invocation of a run of the file, in order. A file that could not be
/// evaluated has nothing invoked. Otherwise the suites that no suite
/// encloses follow one another, each with all that it encloses.
pub open spec fn file_plan(file: FileView) -> Seq<ExecutionStep> {
    if file.error is Some {
        Seq::empty()
    } else {
        children_steps(file, None, file.nodes.len() as int)
    }
}

/// The mode of a suite at the time of the run, from what it declares and
/// what surrounds it.
pub fn node_mode_in_effect(
    declared: CollectorMode,
    only_in_file: bool,
    enclosing_skipped: bool,
) -> (mode: CollectorMode)
    ensures
        mode == node_mode_rule(declared, only_in_file, enclosing_skipped),
{
    if declared == CollectorMode::Only {
        CollectorMode::Only
    } else if declared == CollectorMode::Skip || only_in_file || enclosing_skipped {
        CollectorMode::Skip
    } else {
        declared
    }
}

/// The mode of a task at the time of the run, from what it declares and
/// what surrounds it.
pub fn task_mode_in_effect(
    declared: CollectorMode,
    node_mode: CollectorMode,
    only_beside: bool,
) -> (mode: CollectorMode)
    ensures
        mode == task_mode_rule(declared, node_mode, only_beside),
{
    if declared == CollectorMode::Only {
        CollectorMode::Only
    } else if node_mode == CollectorMode::Skip || only_beside {
        CollectorMode::Skip
    } else {
        declared
    }
}

/// Whether a task of the suite is marked `Only`.
pub fn node_has_only_task(node: &CollectorNode) -> (found: bool)
    ensures
        found == has_only_task(node@),
{
    let tasks = node.tasks();
    let mut t: usize = 0;
    while t < tasks.len()
        invariant
            t <= tasks.len(),
            task_views(tasks@) == node@.tasks,
            forall|k: int| 0 <= k < t ==> (#[trigger] node@.tasks[k]).mode != CollectorMode::Only,
        decreases tasks.len() - t,
    {
        if tasks[t].mode() == CollectorMode::Only {
            assert(node@.tasks[t as int].mode == CollectorMode::Only);
            return true;
        }
        t += 1;
    }
    false
}

/// Whether anything in the file is marked `Only`.
pub fn file_has_only(file: &CollectorFile) -> (found: bool)
    ensures
        found == has_only(file@),
{
    let nodes = file.nodes();
    let mut n: usize = 0;
    while n < nodes.len()
        invariant
            n <= nodes.len(),
            node_views(nodes@) == file@.nodes,
            forall|k: int| 0 <= k < n ==> !node_has_only(#[trigger] file@.nodes[k]),
        decreases nodes.len() - n,
    {
        if nodes[n].mode() == CollectorMode::Only || node_has_only_task(&nodes[n]) {
            assert(node_has_only(file@.nodes[n as int]));
            return true;
        }
        n += 1;
    }
    false
}

/// The suite that encloses suite `n`, if one does.
pub fn enclosing_suite(file: &CollectorFile, n: usize) -> (parent: Option<usize>)
    requires
        n < file@.nodes.len(),
    ensures
        match parent {
            Some(p) => enclosing(file@, n as int) == Some(p as int),
            None => enclosing(file@, n as int) is None,
        },
{
    let nodes = file.nodes();
    assert(nodes@[n as int]@ == node_views(nodes@)[n as int]);
    match nodes[n].parent() {
        Some(parent) => if parent < n {
            Some(parent)
        } else {
            None
        },
        None => None,
    }
}

/// The mode of every suite of the file at the time of the run.
pub fn effective_node_modes(file: &CollectorFile) -> (modes: Vec<CollectorMode>)
    ensures
        modes@.len() == file@.nodes.len(),
        forall|n: int| 0 <= n < modes@.len() ==> #[trigger] modes@[n] == effective_node_mode(file@, n),
{
    let only_in_file = file_has_only(file);
    let count = file.nodes().len();
    let mut modes: Vec<CollectorMode> = Vec::new();
    let mut n: usize = 0;
    while n < count
        invariant
            n <= count,
            count == file@.nodes.len(),
            only_in_file == has_only(file@),
            modes@.len() == n,
            forall|k: int| 0 <= k < n ==> #[trigger] modes@[k] == effective_node_mode(file@, k),
        decreases count - n,
    {
        let enclosing_skipped = match enclosing_suite(file, n) {
            Some(parent) => modes[parent] == CollectorMode::Skip,
            None => false,
        };
        let nodes = file.nodes();
        assert(nodes@[n as int]@ == node_views(nodes@)[n as int]);
        modes.push(node_mode_in_effect(nodes[n].mode(), only_in_file, enclosing_skipped));
        n += 1;
    }
    modes
}

fn push_hook_steps(plan: &mut Vec<ExecutionStep>, file: &CollectorFile, n: usize, hook: LifetimeHook)
    requires
        n < file@.nodes.len(),
    ensures
        final(plan)@ == old(plan)@ + hook_steps(file@, n as int, hook),
{
    let nodes = file.nodes();
    let callbacks = nodes[n].hooks(hook);
    let ghost before = plan@;
    let ghost steps = hook_steps(file@, n as int, hook);
    let mut k: usize = 0;
    assert(plan@ =~= before + steps.take(0));
    while k < callbacks.len()
        invariant
            k <= callbacks.len(),
            callbacks@ == file@.nodes[n as int].hooks.get(hook),
            steps == hook_steps(file@, n as int, hook),
            plan@ == before + steps.take(k as int),
        decreases callbacks.len() - k,
    {
        plan.push(
            ExecutionStep { kind: StepKind::Hook(hook), node: n, index: k, callback: callbacks[k] },
        );
        assert(steps.take(k + 1) =~= steps.take(k as int).push(steps[k as int]));
        assert(plan@ =~= before + steps.take(k + 1));
        k += 1;
    }
    assert(steps.take(callbacks.len() as int) =~= steps);
}

fn push_each_steps(plan: &mut Vec<ExecutionStep>, file: &CollectorFile, n: usize, hook: LifetimeHook)
    requires
        n < file@.nodes.len(),
    ensures
        final(plan)@ == old(plan)@ + each_steps(file@, n as int, hook),
    decreases n,
{
    let ghost before = plan@;
    match enclosing_suite(file, n) {
        Some(parent) => {
            push_each_steps(plan, file, parent, hook);
        },
        None => {},
    }
    push_hook_steps(plan, file, n, hook);
    assert(plan@ =~= before + each_steps(file@, n as int, hook));
}

fn push_task_steps(
    plan: &mut Vec<ExecutionStep>,
    file: &CollectorFile,
    n: usize,
    t: usize,
    mode: CollectorMode,
)
    requires
        n < file@.nodes.len(),
        t < file@.nodes[n as int].tasks.len(),
        mode == effective_task_mode(file@, n as int, t as int),
    ensures
        final(plan)@ == old(plan)@ + task_steps(file@, n as int, t as int),
{
    let ghost before = plan@;
    if mode.runnable() {
        push_each_steps(plan, file, n, LifetimeHook::BeforeEach);
        let nodes = file.nodes();
        let tasks = nodes[n].tasks();
        let callback = tasks[t].callback();
        assert(callback == file@.nodes[n as int].tasks[t as int].callback);
        plan.push(ExecutionStep { kind: StepKind::Task, node: n, index: t, callback });
        push_each_steps(plan, file, n, LifetimeHook::AfterEach);
    }
    assert(plan@ =~= before + task_steps(file@, n as int, t as int));
}

fn push_tasks_steps(
    plan: &mut Vec<ExecutionStep>,
    file: &CollectorFile,
    n: usize,
    node_mode: CollectorMode,
)
    requires
        n < file@.nodes.len(),
        node_mode == effective_node_mode(file@, n as int),
    ensures
        final(plan)@ == old(plan)@ + tasks_steps(
            file@,
            n as int,
            file@.nodes[n as int].tasks.len() as int,
        ),
{
    let ghost before = plan@;
    let nodes = file.nodes();
    let only_beside = node_has_only_task(&nodes[n]);
    let tasks = nodes[n].tasks();
    let mut t: usize = 0;
    assert(plan@ =~= before + tasks_steps(file@, n as int, 0));
    while t < tasks.len()
        invariant
            t <= tasks.len(),
            n < file@.nodes.len(),
            task_views(tasks@) == file@.nodes[n as int].tasks,
            node_mode == effective_node_mode(file@, n as int),
            only_beside == has_only_task(file@.nodes[n as int]),
            plan@ == before + tasks_steps(file@, n as int, t as int),
        decreases tasks.len() - t,
    {
        let mode = task_mode_in_effect(tasks[t].mode(), node_mode, only_beside);
        assert(tasks[t as int]@.mode == file@.nodes[n as int].tasks[t as int].mode);
        push_task_steps(plan, file, n, t, mode);
        assert(plan@ =~= before + tasks_steps(file@, n as int, t + 1));
        t += 1;
    }
}

proof fn lemma_no_child_before_its_parent(file: FileView, parent: int, upto: int)
    requires
        upto <= parent + 1,
    ensures
        children_steps(file, Some(parent), upto) == Seq::<ExecutionStep>::empty(),
    decreases upto,
{
    if 0 < upto <= file.nodes.len() {
        lemma_no_child_before_its_parent(file, parent, upto - 1);
    }
}

fn push_subtree_steps(
    plan: &mut Vec<ExecutionStep>,
    file: &CollectorFile,
    n: usize,
    modes: &Vec<CollectorMode>,
)
    requires
        n < file@.nodes.len(),
        modes@.len() == file@.nodes.len(),
        forall|k: int| 0 <= k < modes@.len() ==> #[trigger] modes@[k] == effective_node_mode(file@, k),
    ensures
        final(plan)@ == old(plan)@ + subtree_steps(file@, n as int),
    decreases file@.nodes.len() - n,
{
    let ghost before = plan@;
    let count = file.nodes().len();
    let node_mode = modes[n];
    let skipped = node_mode == CollectorMode::Skip;
    if !skipped {
        push_hook_steps(plan, file, n, LifetimeHook::BeforeAll);
    }
    push_tasks_steps(plan, file, n, node_mode);
    let ghost own = plan@;
    let mut child: usize = n + 1;
    proof {
        lemma_no_child_before_its_parent(file@, n as int, n + 1);
        assert(plan@ =~= own + children_steps(file@, Some(n as int), n + 1));
    }
    while child < count
        invariant
            n < child <= count,
            count == file@.nodes.len(),
            modes@.len() == file@.nodes.len(),
            forall|k: int|
                0 <= k < modes@.len() ==> #[trigger] modes@[k] == effective_node_mode(file@, k),
            plan@ == own + children_steps(file@, Some(n as int), child as int),
        decreases count - child,
    {
        let ghost earlier = plan@;
        match enclosing_suite(file, child) {
            Some(parent) => {
                if parent == n {
                    push_subtree_steps(plan, file, child, modes);
                }
            },
            None => {},
        }
        assert(plan@ =~= own + children_steps(file@, Some(n as int), child + 1));
        child += 1;
    }
    if !skipped {
        push_hook_steps(plan, file, n, LifetimeHook::AfterAll);
    }
    assert(plan@ =~= before + subtree_steps(file@, n as int));
}

/// Lays out every invocation of a run of the file, in order.
pub fn build_plan(file: &CollectorFile) -> (plan: Vec<ExecutionStep>)
    ensures
        plan@ == file_plan(file@),
{
    let mut plan: Vec<ExecutionStep> = Vec::new();
    if file.error().is_some() {
        return plan;
    }
    let modes = effective_node_modes(file);
    let count = file.nodes().len();
    let mut n: usize = 0;
    assert(plan@ =~= children_steps(file@, None, 0));
    while n < count
        invariant
            n <= count,
            count == file@.nodes.len(),
            modes@.len() == file@.nodes.len(),
            forall|k: int|
                0 <= k < modes@.len() ==> #[trigger] modes@[k] == effective_node_mode(file@, k),
            plan@ == children_steps(file@, None, n as int),
        decreases count - n,
    {
        if enclosing_suite(file, n).is_none() {
            push_subtree_steps(&mut plan, file, n, &modes);
        }
        assert(plan@ =~= children_steps(file@, None, n + 1));
        n += 1;
    }
    plan
}

/// What holds of every invocation of a run: it names a suite of the file;
/// a task body belongs to a task that runs, and a hook is one that its suite
/// registered; the hooks that bracket a suite are those of a suite that is
/// not skipped.
pub open spec fn step_valid(file: FileView, step: ExecutionStep) -> bool {
    &&& step.node < file.nodes.len()
    &&& match step.kind {
        StepKind::Task => {
            &&& step.index < file.nodes[step.node as int].tasks.len()
            &&& effective_task_mode(file, step.node as int, step.index as int).is_runnable()
            &&& step.callback == file.nodes[step.node as int].tasks[step.index as int].callback
        },
        StepKind::Hook(hook) => {
            &&& file.nodes[step.node as int].hooks.get(hook).contains(step.callback)
            &&& hook == LifetimeHook::BeforeAll || hook == LifetimeHook::AfterAll
                ==> effective_node_mode(file, step.node as int) != CollectorMode::Skip
        },
    }
}

/// Whether `step_valid` holds of every step.
pub open spec fn all_valid(file: FileView, steps: Seq<ExecutionStep>) -> bool {
    forall|k: int| 0 <= k < steps.len() ==> step_valid(file, #[trigger] steps[k])
}

proof fn lemma_all_valid_add(file: FileView, a: Seq<ExecutionStep>, b: Seq<ExecutionStep>)
    requires
        all_valid(file, a),
        all_valid(file, b),
    ensures
        all_valid(file, a + b),
{
    assert forall|k: int| 0 <= k < (a + b).len() implies step_valid(file, #[trigger] (a + b)[k]) by {
        if k < a.len() {
            assert((a + b)[k] == a[k]);
        } else {
            assert((a + b)[k] == b[k - a.len()]);
        }
    }
}

proof fn lemma_hook_steps_valid(file: FileView, n: int, hook: LifetimeHook)
    requires
        file.indexable(),
        0 <= n < file.nodes.len(),
        hook == LifetimeHook::BeforeAll || hook == LifetimeHook::AfterAll ==> effective_node_mode(
            file,
            n,
        ) != CollectorMode::Skip,
    ensures
        all_valid(file, hook_steps(file, n, hook)),
{
    let steps = hook_steps(file, n, hook);
    let callbacks = file.nodes[n].hooks.get(hook);
    assert forall|k: int| 0 <= k < steps.len() implies step_valid(file, #[trigger] steps[k]) by {
        assert(callbacks[k] == steps[k].callback);
    }
}

proof fn lemma_each_steps_valid(file: FileView, n: int, hook: LifetimeHook)
    requires
        file.indexable(),
        0 <= n < file.nodes.len(),
        hook == LifetimeHook::BeforeEach || hook == LifetimeHook::AfterEach,
    ensures
        all_valid(file, each_steps(file, n, hook)),
    decreases n,
{
    lemma_hook_steps_valid(file, n, hook);
    match enclosing(file, n) {
        Some(parent) => {
            lemma_each_steps_valid(file, parent, hook);
            lemma_all_valid_add(file, each_steps(file, parent, hook), hook_steps(file, n, hook));
        },
        None => {},
    }
}

proof fn lemma_task_steps_valid(file: FileView, n: int, t: int)
    requires
        file.indexable(),
        0 <= n < file.nodes.len(),
        0 <= t < file.nodes[n].tasks.len(),
    ensures
        all_valid(file, task_steps(file, n, t)),
{
    if effective_task_mode(file, n, t).is_runnable() {
        let before = each_steps(file, n, LifetimeHook::BeforeEach);
        let after = each_steps(file, n, LifetimeHook::AfterEach);
        lemma_each_steps_valid(file, n, LifetimeHook::BeforeEach);
        lemma_each_steps_valid(file, n, LifetimeHook::AfterEach);
        let middle = seq![task_step(file, n, t)];
        assert(all_valid(file, middle));
        lemma_all_valid_add(file, before, middle);
        assert(before.push(task_step(file, n, t)) =~= before + middle);
        lemma_all_valid_add(file, before + middle, after);
    }
}

proof fn lemma_tasks_steps_valid(file: FileView, n: int, upto: int)
    requires
        file.indexable(),
        0 <= n < file.nodes.len(),
        0 <= upto <= file.nodes[n].tasks.len(),
    ensures
        all_valid(file, tasks_steps(file, n, upto)),
    decreases upto,
{
    if upto > 0 {
        lemma_tasks_steps_valid(file, n, upto - 1);
        lemma_task_steps_valid(file, n, upto - 1);
        lemma_all_valid_add(file, tasks_steps(file, n, upto - 1), task_steps(file, n, upto - 1));
    }
}

proof fn lemma_bracketed_valid(file: FileView, n: int, body: Seq<ExecutionStep>)
    requires
        file.indexable(),
        0 <= n < file.nodes.len(),
        all_valid(file, body),
    ensures
        all_valid(file, bracketed(file, n, body)),
{
    if effective_node_mode(file, n) != CollectorMode::Skip {
        lemma_hook_steps_valid(file, n, LifetimeHook::BeforeAll);
        lemma_hook_steps_valid(file, n, LifetimeHook::AfterAll);
        lemma_all_valid_add(file, hook_steps(file, n, LifetimeHook::BeforeAll), body);
        lemma_all_valid_add(
            file,
            hook_steps(file, n, LifetimeHook::BeforeAll) + body,
            hook_steps(file, n, LifetimeHook::AfterAll),
        );
    }
}

proof fn lemma_subtree_steps_valid(file: FileView, n: int)
    requires
        file.indexable(),
    ensures
        all_valid(file, subtree_steps(file, n)),
    decreases file.nodes.len() - n, file.nodes.len() + 1,
{
    if 0 <= n < file.nodes.len() {
        let own = tasks_steps(file, n, file.nodes[n].tasks.len() as int);
        let inner = children_steps(file, Some(n), file.nodes.len() as int);
        lemma_tasks_steps_valid(file, n, file.nodes[n].tasks.len() as int);
        lemma_children_steps_valid(file, Some(n), file.nodes.len() as int);
        lemma_all_valid_add(file, own, inner);
        lemma_bracketed_valid(file, n, own + inner);
    }
}

proof fn lemma_children_steps_valid(file: FileView, parent: Option<int>, upto: int)
    requires
        file.indexable(),
    ensures
        all_valid(file, children_steps(file, parent, upto)),
    decreases
        file.nodes.len() - (match parent {
            Some(p) => p,
            None => -1,
        }),
        upto,
{
    if 0 < upto <= file.nodes.len() {
        lemma_children_steps_valid(file, parent, upto - 1);
        if enclosing(file, upto - 1) == parent {
            lemma_subtree_steps_valid(file, upto - 1);
            lemma_all_valid_add(
                file,
                children_steps(file, parent, upto - 1),
                subtree_steps(file, upto - 1),
            );
        }
    }
}

/// Every invocation of a run is one that the file calls for: the body of a
/// task that runs, or a registered hook of a suite of the file.
pub proof fn lemma_plan_steps_are_valid(file: FileView)
    requires
        file.indexable(),
    ensures
        all_valid(file, file_plan(file)),
{
    if file.error is None {
        lemma_children_steps_valid(file, None, file.nodes.len() as int);
    }
}

/// Whether `step` invokes the body of task `t` of suite `n`.
pub open spec fn invokes_task(step: ExecutionStep, n: int, t: int) -> bool {
    step.kind is Task && step.node == n && step.index == t
}

/// Whether one of `steps` invokes the body of task `t` of suite `n`.
pub open spec fn has_task_step(steps: Seq<ExecutionStep>, n: int, t: int) -> bool {
    exists|k: int| 0 <= k < steps.len() && invokes_task(#[trigger] steps[k], n, t)
}

/// Whether `step` invokes a hook of kind `hook` of suite `n`.
pub open spec fn invokes_hook(step: ExecutionStep, n: int, hook: LifetimeHook) -> bool {
    step.kind == StepKind::Hook(hook) && step.node == n
}

proof fn lemma_contains_add(a: Seq<ExecutionStep>, b: Seq<ExecutionStep>, step: ExecutionStep)
    requires
        a.contains(step) || b.contains(step),
    ensures
        (a + b).contains(step),
{
    if a.contains(step) {
        let k = choose|k: int| 0 <= k < a.len() && a[k] == step;
        assert((a + b)[k] == step);
    } else {
        let k = choose|k: int| 0 <= k < b.len() && b[k] == step;
        assert((a + b)[a.len() + k] == step);
    }
}

proof fn lemma_bracket_contains(
    opening: Seq<ExecutionStep>,
    body: Seq<ExecutionStep>,
    closing: Seq<ExecutionStep>,
    step: ExecutionStep,
)
    requires
        opening.contains(step) || body.contains(step) || closing.contains(step),
    ensures
        (opening + body + closing).contains(step),
{
    if opening.contains(step) || body.contains(step) {
        lemma_contains_add(opening, body, step);
    }
    lemma_contains_add(opening + body, closing, step);
}

proof fn lemma_tasks_steps_contain_task(file: FileView, n: int, upto: int, t: int)
    requires
        0 <= t < upto,
        effective_task_mode(file, n, t).is_runnable(),
    ensures
        tasks_steps(file, n, upto).contains(task_step(file, n, t)),
    decreases upto,
{
    let earlier = tasks_steps(file, n, upto - 1);
    let last = task_steps(file, n, upto - 1);
    if t < upto - 1 {
        lemma_tasks_steps_contain_task(file, n, upto - 1, t);
    } else {
        let before = each_steps(file, n, LifetimeHook::BeforeEach);
        assert(last[before.len() as int] == task_step(file, n, t));
    }
    lemma_contains_add(earlier, last, task_step(file, n, t));
}

proof fn lemma_children_steps_contain(
    file: FileView,
    parent: Option<int>,
    upto: int,
    n: int,
    step: ExecutionStep,
)
    requires
        0 <= n < upto <= file.nodes.len(),
        enclosing(file, n) == parent,
        subtree_steps(file, n).contains(step),
    ensures
        children_steps(file, parent, upto).contains(step),
    decreases upto,
{
    if n < upto - 1 {
        lemma_children_steps_contain(file, parent, upto - 1, n, step);
        if enclosing(file, upto - 1) == parent {
            lemma_contains_add(
                children_steps(file, parent, upto - 1),
                subtree_steps(file, upto - 1),
                step,
            );
        }
    } else {
        lemma_contains_add(children_steps(file, parent, upto - 1), subtree_steps(file, n), step);
    }
}

proof fn lemma_subtree_is_in_the_plan(file: FileView, n: int, step: ExecutionStep)
    requires
        file.error is None,
        0 <= n < file.nodes.len(),
        subtree_steps(file, n).contains(step),
    ensures
        file_plan(file).contains(step),
    decreases n,
{
    let count = file.nodes.len() as int;
    lemma_children_steps_contain(file, enclosing(file, n), count, n, step);
    match enclosing(file, n) {
        Some(parent) => {
            let own = tasks_steps(file, parent, file.nodes[parent].tasks.len() as int);
            let inner = children_steps(file, Some(parent), count);
            lemma_contains_add(own, inner, step);
            if effective_node_mode(file, parent) != CollectorMode::Skip {
                lemma_bracket_contains(
                    hook_steps(file, parent, LifetimeHook::BeforeAll),
                    own + inner,
                    hook_steps(file, parent, LifetimeHook::AfterAll),
                    step,
                );
            }
            lemma_subtree_is_in_the_plan(file, parent, step);
        },
        None => {},
    }
}

/// The body of every task that runs is invoked in the run of its file,
/// unless the file could not be evaluated.
pub proof fn lemma_plan_invokes_every_running_task(file: FileView, n: int, t: int)
    requires
        file.indexable(),
        file.error is None,
        0 <= n < file.nodes.len(),
        0 <= t < file.nodes[n].tasks.len(),
        effective_task_mode(file, n, t).is_runnable(),
    ensures
        has_task_step(file_plan(file), n, t),
{
    let step = task_step(file, n, t);
    let own = tasks_steps(file, n, file.nodes[n].tasks.len() as int);
    let inner = children_steps(file, Some(n), file.nodes.len() as int);
    lemma_tasks_steps_contain_task(file, n, file.nodes[n].tasks.len() as int, t);
    lemma_contains_add(own, inner, step);
    if effective_node_mode(file, n) != CollectorMode::Skip {
        lemma_bracket_contains(
            hook_steps(file, n, LifetimeHook::BeforeAll),
            own + inner,
            hook_steps(file, n, LifetimeHook::AfterAll),
            step,
        );
    }
    lemma_subtree_is_in_the_plan(file, n, step);
    let plan = file_plan(file);
    let k = choose|k: int| 0 <= k < plan.len() && plan[k] == step;
    assert(invokes_task(plan[k], n, t));
}

/// No invocation of a run is the body of a task that does not run.
pub proof fn lemma_plan_invokes_no_idle_task(file: FileView, n: int, t: int)
    requires
        file.indexable(),
        0 <= n < file.nodes.len(),
        0 <= t < file.nodes[n].tasks.len(),
        !effective_task_mode(file, n, t).is_runnable(),
    ensures
        !has_task_step(file_plan(file), n, t),
{
    lemma_plan_steps_are_valid(file);
    let plan = file_plan(file);
    assert forall|k: int| 0 <= k < plan.len() implies !invokes_task(#[trigger] plan[k], n, t) by {
        assert(step_valid(file, plan[k]));
    }
}

/// The hooks that bracket a suite run whatever happens in between: the run
/// of a file that was evaluated invokes every `BeforeAll` and every
/// `AfterAll` hook of every suite that is not skipped. The invocations are
/// laid out before the first outcome is known, so no failure takes one away.
pub proof fn lemma_bracket_hooks_always_run(file: FileView, n: int, hook: LifetimeHook, k: int)
    requires
        file.indexable(),
        file.error is None,
        0 <= n < file.nodes.len(),
        effective_node_mode(file, n) != CollectorMode::Skip,
        hook == LifetimeHook::BeforeAll || hook == LifetimeHook::AfterAll,
        0 <= k < file.nodes[n].hooks.get(hook).len(),
    ensures
        exists|p: int|
            0 <= p < file_plan(file).len() && invokes_hook(#[trigger] file_plan(file)[p], n, hook)
                && file_plan(file)[p].callback == file.nodes[n].hooks.get(hook)[k],
{
    let step = hook_steps(file, n, hook)[k];
    assert(hook_steps(file, n, hook).contains(step));
    let own = tasks_steps(file, n, file.nodes[n].tasks.len() as int);
    let inner = children_steps(file, Some(n), file.nodes.len() as int);
    lemma_bracket_contains(
        hook_steps(file, n, LifetimeHook::BeforeAll),
        own + inner,
        hook_steps(file, n, LifetimeHook::AfterAll),
        step,
    );
    lemma_subtree_is_in_the_plan(file, n, step);
    let plan = file_plan(file);
    let p = choose|p: int| 0 <= p < plan.len() && plan[p] == step;
    assert(invokes_hook(plan[p], n, hook));
}

/// Whether suite `n` encloses suite `m`, directly or through suites in
/// between.
pub open spec fn encloses(file: FileView, n: int, m: int) -> bool
    decreases m,
{
    match enclosing(file, m) {
        Some(parent) => parent == n || encloses(file, n, parent),
        None => false,
    }
}

/// Whether `step` is one by which the order of a run is told: the body of a
/// task, or a hook that brackets a suite. The per-task hooks are not: one
/// and the same runs around many tasks.
spec fn anchored(step: ExecutionStep) -> bool {
    step.kind is Task || step.kind == StepKind::Hook(LifetimeHook::BeforeAll) || step.kind
        == StepKind::Hook(LifetimeHook::AfterAll)
}

/// How many suites suite `n` stands for: itself and all that it encloses.
spec fn subtree_size(file: FileView, n: int) -> int
    decreases file.nodes.len() - n, file.nodes.len() + 1,
{
    if 0 <= n < file.nodes.len() {
        1 + children_size(file, Some(n), file.nodes.len() as int)
    } else {
        0
    }
}

/// How many suites the suites before `upto` that `parent` encloses stand
/// for, all taken together.
spec fn children_size(file: FileView, parent: Option<int>, upto: int) -> int
    decreases
        file.nodes.len() - (match parent {
            Some(p) => p,
            None => -1,
        }),
        upto,
{
    if upto <= 0 || upto > file.nodes.len() {
        0
    } else if enclosing(file, upto - 1) == parent {
        children_size(file, parent, upto - 1) + subtree_size(file, upto - 1)
    } else {
        children_size(file, parent, upto - 1)
    }
}

/// How many suites a run enters before it enters suite `n`.
spec fn visit(file: FileView, n: int) -> int
    decreases n,
{
    match enclosing(file, n) {
        Some(parent) => visit(file, parent) + 1 + children_size(file, Some(parent), n),
        None => children_size(file, None, n),
    }
}

/// How many suites enclose suite `n`.
spec fn depth(file: FileView, n: int) -> int
    decreases n,
{
    match enclosing(file, n) {
        Some(parent) => depth(file, parent) + 1,
        None => 0,
    }
}

/// The last suite that a run enters before it leaves suite `n`, counted as
/// `visit` counts.
spec fn last_visit(file: FileView, n: int) -> int {
    visit(file, n) + subtree_size(file, n) - 1
}

/// The place of an anchored step in the order of a run, as a number. A suite
/// is entered by its opening hooks; then come its tasks in registration
/// order, then the suites that it encloses, and its closing hooks come when
/// the last of those is left, after the closing hooks of every suite that it
/// encloses.
spec fn rank(file: FileView, step: ExecutionStep) -> int {
    let n = step.node as int;
    match step.kind {
        StepKind::Task => visit(file, n) * 0x4_0000_0000_0000_0000 + 0x1_0000_0000_0000_0000
            + step.index,
        StepKind::Hook(LifetimeHook::BeforeAll) => visit(file, n) * 0x4_0000_0000_0000_0000,
        StepKind::Hook(LifetimeHook::AfterAll) => last_visit(file, n) * 0x4_0000_0000_0000_0000
            + 0x3_0000_0000_0000_0000 - depth(file, n),
        _ => 0,
    }
}

/// The anchored steps stand in the order of their ranks, and nothing
/// anchored that follows a task body has the rank of that body.
spec fn in_order(file: FileView, steps: Seq<ExecutionStep>) -> bool {
    forall|a: int, b: int|
        0 <= a < b < steps.len() && anchored(#[trigger] steps[a]) && anchored(#[trigger] steps[b])
            ==> rank(file, steps[a]) <= rank(file, steps[b]) && (steps[a].kind is Task ==> rank(
            file,
            steps[a],
        ) < rank(file, steps[b]))
}

/// The rank of every anchored step lies between `low` and `high`.
spec fn ranks_within(file: FileView, steps: Seq<ExecutionStep>, low: int, high: int) -> bool {
    forall|k: int|
        0 <= k < steps.len() && anchored(#[trigger] steps[k]) ==> low <= rank(file, steps[k])
            <= high
}

proof fn lemma_in_order_add(
    file: FileView,
    a: Seq<ExecutionStep>,
    b: Seq<ExecutionStep>,
    low: int,
    middle: int,
    after: int,
    high: int,
)
    requires
        in_order(file, a),
        in_order(file, b),
        ranks_within(file, a, low, middle),
        ranks_within(file, b, after, high),
        middle < after,
        low <= after,
        middle <= high,
    ensures
        in_order(file, a + b),
        ranks_within(file, a + b, low, high),
{
    let all = a + b;
    assert forall|k: int| 0 <= k < all.len() && anchored(#[trigger] all[k]) implies low <= rank(
        file,
        all[k],
    ) <= high by {
        if k < a.len() {
            assert(all[k] == a[k]);
        } else {
            assert(all[k] == b[k - a.len()]);
        }
    }
    assert forall|x: int, y: int|
        0 <= x < y < all.len() && anchored(#[trigger] all[x]) && anchored(
            #[trigger] all[y],
        ) implies rank(file, all[x]) <= rank(file, all[y]) && (all[x].kind is Task ==> rank(
        file,
        all[x],
    ) < rank(file, all[y])) by {
        if y < a.len() {
            assert(all[x] == a[x] && all[y] == a[y]);
        } else if x < a.len() {
            assert(all[x] == a[x] && all[y] == b[y - a.len()]);
        } else {
            assert(all[x] == b[x - a.len()] && all[y] == b[y - a.len()]);
        }
    }
}

proof fn lemma_sizes_are_positive(file: FileView, n: int)
    requires
        0 <= n < file.nodes.len(),
    ensures
        subtree_size(file, n) >= 1,
        forall|upto: int| #[trigger] children_size(file, Some(n), upto) >= 0,
    decreases file.nodes.len() - n, file.nodes.len() + 2,
{
    assert forall|upto: int| #[trigger] children_size(file, Some(n), upto) >= 0 by {
        lemma_children_size_grows(file, Some(n), 0, upto);
    }
    assert(subtree_size(file, n) == 1 + children_size(file, Some(n), file.nodes.len() as int));
}

proof fn lemma_children_size_grows(file: FileView, parent: Option<int>, from: int, upto: int)
    ensures
        children_size(file, parent, upto) >= 0,
        from <= upto <= file.nodes.len() ==> children_size(file, parent, from) <= children_size(
            file,
            parent,
            upto,
        ),
    decreases
        file.nodes.len() - (match parent {
            Some(p) => p,
            None => -1,
        }),
        upto,
{
    if 0 < upto <= file.nodes.len() {
        lemma_children_size_grows(file, parent, from, upto - 1);
        if enclosing(file, upto - 1) == parent {
            lemma_children_size_grows(file, Some(upto - 1), 0, file.nodes.len() as int);
            assert(subtree_size(file, upto - 1) == 1 + children_size(
                file,
                Some(upto - 1),
                file.nodes.len() as int,
            ));
            assert(children_size(file, parent, upto) == children_size(file, parent, upto - 1)
                + subtree_size(file, upto - 1));
        } else {
            assert(children_size(file, parent, upto) == children_size(file, parent, upto - 1));
        }
    } else {
        assert(children_size(file, parent, upto) == 0);
    }
}

proof fn lemma_depth_is_small(file: FileView, n: int)
    requires
        0 <= n,
    ensures
        0 <= depth(file, n) <= n,
    decreases n,
{
    match enclosing(file, n) {
        Some(parent) => {
            lemma_depth_is_small(file, parent);
        },
        None => {},
    }
}

proof fn lemma_bracket_hooks_in_order(file: FileView, n: int, hook: LifetimeHook)
    requires
        file.indexable(),
        0 <= n < file.nodes.len(),
        hook == LifetimeHook::BeforeAll || hook == LifetimeHook::AfterAll,
    ensures
        in_order(file, hook_steps(file, n, hook)),
        forall|k: int|
            0 <= k < hook_steps(file, n, hook).len() ==> invokes_hook(
                #[trigger] hook_steps(file, n, hook)[k],
                n,
                hook,
            ),
{
}

proof fn lemma_each_steps_are_not_anchored(file: FileView, n: int, hook: LifetimeHook)
    requires
        hook == LifetimeHook::BeforeEach || hook == LifetimeHook::AfterEach,
    ensures
        forall|k: int|
            0 <= k < each_steps(file, n, hook).len() ==> !anchored(
                #[trigger] each_steps(file, n, hook)[k],
            ),
    decreases n,
{
    let steps = each_steps(file, n, hook);
    match enclosing(file, n) {
        Some(parent) => {
            lemma_each_steps_are_not_anchored(file, parent, hook);
            let outer = each_steps(file, parent, hook);
            assert forall|k: int| 0 <= k < steps.len() implies !anchored(#[trigger] steps[k]) by {
                if k < outer.len() {
                    assert(steps[k] == outer[k]);
                } else {
                    assert(steps[k] == hook_steps(file, n, hook)[k - outer.len()]);
                }
            }
        },
        None => {},
    }
}

proof fn lemma_task_steps_in_order(file: FileView, n: int, t: int)
    requires
        file.indexable(),
        0 <= n < file.nodes.len(),
        0 <= t < file.nodes[n].tasks.len(),
    ensures
        in_order(file, task_steps(file, n, t)),
        ranks_within(
            file,
            task_steps(file, n, t),
            visit(file, n) * 0x4_0000_0000_0000_0000 + 0x1_0000_0000_0000_0000 + t,
            visit(file, n) * 0x4_0000_0000_0000_0000 + 0x1_0000_0000_0000_0000 + t,
        ),
{
    let steps = task_steps(file, n, t);
    if effective_task_mode(file, n, t).is_runnable() {
        let before = each_steps(file, n, LifetimeHook::BeforeEach);
        let after = each_steps(file, n, LifetimeHook::AfterEach);
        lemma_each_steps_are_not_anchored(file, n, LifetimeHook::BeforeEach);
        lemma_each_steps_are_not_anchored(file, n, LifetimeHook::AfterEach);
        assert forall|k: int| 0 <= k < steps.len() && anchored(#[trigger] steps[k]) implies k
            == before.len() && steps[k] == task_step(file, n, t) by {
            if k < before.len() {
                assert(steps[k] == before[k]);
            } else if k > before.len() {
                assert(steps[k] == after[k - before.len() - 1]);
            }
        }
    }
}

proof fn lemma_tasks_steps_in_order(file: FileView, n: int, upto: int)
    requires
        file.indexable(),
        0 <= n < file.nodes.len(),
        0 <= upto <= file.nodes[n].tasks.len(),
    ensures
        in_order(file, tasks_steps(file, n, upto)),
        ranks_within(
            file,
            tasks_steps(file, n, upto),
            visit(file, n) * 0x4_0000_0000_0000_0000 + 0x1_0000_0000_0000_0000,
            visit(file, n) * 0x4_0000_0000_0000_0000 + 0x1_0000_0000_0000_0000 + upto - 1,
        ),
    decreases upto,
{
    if upto > 0 {
        let base = visit(file, n) * 0x4_0000_0000_0000_0000 + 0x1_0000_0000_0000_0000;
        lemma_tasks_steps_in_order(file, n, upto - 1);
        lemma_task_steps_in_order(file, n, upto - 1);
        lemma_in_order_add(
            file,
            tasks_steps(file, n, upto - 1),
            task_steps(file, n, upto - 1),
            base,
            base + upto - 2,
            base + upto - 1,
            base + upto - 1,
        );
    }
}

proof fn lemma_subtree_steps_in_order(file: FileView, n: int)
    requires
        file.indexable(),
        0 <= n < file.nodes.len(),
    ensures
        in_order(file, subtree_steps(file, n)),
        ranks_within(
            file,
            subtree_steps(file, n),
            visit(file, n) * 0x4_0000_0000_0000_0000,
            last_visit(file, n) * 0x4_0000_0000_0000_0000 + 0x3_0000_0000_0000_0000 - depth(
                file,
                n,
            ),
        ),
    decreases file.nodes.len() - n, file.nodes.len() + 1,
{
    let count = file.nodes.len() as int;
    let entered: int = visit(file, n) * 0x4_0000_0000_0000_0000;
    let left: int = last_visit(file, n) * 0x4_0000_0000_0000_0000 + 0x3_0000_0000_0000_0000
        - depth(file, n);
    let own = tasks_steps(file, n, file.nodes[n].tasks.len() as int);
    let inner = children_steps(file, Some(n), count);
    lemma_sizes_are_positive(file, n);
    lemma_depth_is_small(file, n);
    lemma_tasks_steps_in_order(file, n, file.nodes[n].tasks.len() as int);
    lemma_children_steps_in_order(file, Some(n), count);
    assert(ranks_within(file, own, entered + 1, entered + 0x2_0000_0000_0000_0000 - 1));
    assert(ranks_within(file, inner, entered + 0x2_0000_0000_0000_0000, left - 1));
    lemma_in_order_add(
        file,
        own,
        inner,
        entered + 1,
        entered + 0x2_0000_0000_0000_0000 - 1,
        entered + 0x2_0000_0000_0000_0000,
        left - 1,
    );
    if effective_node_mode(file, n) != CollectorMode::Skip {
        let opening = hook_steps(file, n, LifetimeHook::BeforeAll);
        let closing = hook_steps(file, n, LifetimeHook::AfterAll);
        lemma_bracket_hooks_in_order(file, n, LifetimeHook::BeforeAll);
        lemma_bracket_hooks_in_order(file, n, LifetimeHook::AfterAll);
        assert(ranks_within(file, opening, entered, entered));
        assert(ranks_within(file, closing, left, left));
        lemma_in_order_add(file, opening, own + inner, entered, entered, entered + 1, left - 1);
        lemma_in_order_add(file, opening + (own + inner), closing, entered, left - 1, left, left);
    }
}

proof fn lemma_children_steps_in_order(file: FileView, parent: Option<int>, upto: int)
    requires
        file.indexable(),
        0 <= upto <= file.nodes.len(),
        parent matches Some(p) ==> 0 <= p < file.nodes.len(),
    ensures
        in_order(file, children_steps(file, parent, upto)),
        ranks_within(
            file,
            children_steps(file, parent, upto),
            children_low(file, parent),
            children_high(file, parent, upto),
        ),
    decreases
        file.nodes.len() - (match parent {
            Some(p) => p,
            None => -1,
        }),
        upto,
{
    if upto > 0 {
        let child = upto - 1;
        lemma_children_steps_in_order(file, parent, child);
        lemma_children_size_grows(file, parent, child, upto);
        lemma_children_size_grows(file, parent, 0, child);
        if enclosing(file, child) == parent {
            lemma_subtree_steps_in_order(file, child);
            lemma_sizes_are_positive(file, child);
            lemma_depth_is_small(file, child);
            let entered: int = visit(file, child) * 0x4_0000_0000_0000_0000;
            assert(children_size(file, parent, upto) == children_size(file, parent, child)
                + subtree_size(file, child));
            assert(visit(file, child) == match parent {
                Some(p) => visit(file, p) + 1 + children_size(file, parent, child),
                None => children_size(file, parent, child),
            });
            assert(depth(file, child) == match parent {
                Some(p) => depth(file, p) + 1,
                None => 0,
            });
            assert(ranks_within(
                file,
                subtree_steps(file, child),
                entered,
                children_high(file, parent, upto),
            ));
            lemma_in_order_add(
                file,
                children_steps(file, parent, child),
                subtree_steps(file, child),
                children_low(file, parent),
                children_high(file, parent, child),
                entered,
                children_high(file, parent, upto),
            );
        }
    }
}

/// The least rank that a suite enclosed by `parent` can give.
spec fn children_low(file: FileView, parent: Option<int>) -> int {
    match parent {
        Some(p) => (visit(file, p) + 1) * 0x4_0000_0000_0000_0000,
        None => 0,
    }
}

/// The greatest rank among the suites before `upto` that `parent` encloses.
spec fn children_high(file: FileView, parent: Option<int>, upto: int) -> int {
    match parent {
        Some(p) => (visit(file, p) + children_size(file, parent, upto)) * 0x4_0000_0000_0000_0000
            + 0x3_0000_0000_0000_0000 - depth(file, p) - 1,
        None => (children_size(file, parent, upto) - 1) * 0x4_0000_0000_0000_0000
            + 0x3_0000_0000_0000_0000,
    }
}

proof fn lemma_plan_is_in_order(file: FileView)
    requires
        file.indexable(),
    ensures
        in_order(file, file_plan(file)),
{
    if file.error is None {
        lemma_children_steps_in_order(file, None, file.nodes.len() as int);
    }
}

/// The hooks of a suite bracket its tasks: wherever in a run a `BeforeAll`
/// hook of suite `n`, the body of a task of suite `n` and an `AfterAll`
/// hook of suite `n` stand, they stand in this order.
pub proof fn lemma_hooks_bracket_the_tasks_of_their_suite(file: FileView, n: int, a: int, b: int)
    requires
        file.indexable(),
        0 <= n < file.nodes.len(),
        0 <= a < file_plan(file).len(),
        0 <= b < file_plan(file).len(),
    ensures
        invokes_hook(file_plan(file)[a], n, LifetimeHook::BeforeAll) && file_plan(file)[b].kind is Task
            && file_plan(file)[b].node == n ==> a < b,
        file_plan(file)[a].kind is Task && file_plan(file)[a].node == n && invokes_hook(
            file_plan(file)[b],
            n,
            LifetimeHook::AfterAll,
        ) ==> a < b,
        invokes_hook(file_plan(file)[a], n, LifetimeHook::BeforeAll) && invokes_hook(
            file_plan(file)[b],
            n,
            LifetimeHook::AfterAll,
        ) ==> a < b,
{
    lemma_plan_is_in_order(file);
    lemma_plan_steps_are_valid(file);
    lemma_sizes_are_positive(file, n);
    lemma_depth_is_small(file, n);
    let plan = file_plan(file);
    assert(step_valid(file, plan[a]));
    assert(step_valid(file, plan[b]));
    if b < a {
        assert(anchored(plan[b]) && anchored(plan[a]) ==> rank(file, plan[b]) <= rank(file, plan[a]));
    }
}

/// The tasks of a suite run in registration order, and no task runs twice:
/// of two task bodies in a run that belong to one suite, the one that comes
/// first belongs to the earlier task.
pub proof fn lemma_tasks_run_in_registration_order(file: FileView, a: int, b: int)
    requires
        file.indexable(),
        0 <= a < b < file_plan(file).len(),
        file_plan(file)[a].kind is Task,
        file_plan(file)[b].kind is Task,
        file_plan(file)[a].node == file_plan(file)[b].node,
    ensures
        file_plan(file)[a].index < file_plan(file)[b].index,
{
    lemma_plan_is_in_order(file);
    let plan = file_plan(file);
    assert(anchored(plan[a]) && anchored(plan[b]));
    assert(rank(file, plan[a]) < rank(file, plan[b]));
}

proof fn lemma_enclosed_is_visited_within(file: FileView, n: int, m: int)
    requires
        0 <= m < file.nodes.len(),
        encloses(file, n, m),
    ensures
        0 <= n < m,
        visit(file, n) < visit(file, m),
        last_visit(file, m) <= last_visit(file, n),
        depth(file, n) < depth(file, m),
    decreases m,
{
    let count = file.nodes.len() as int;
    let parent = enclosing(file, m)->0;
    lemma_children_size_grows(file, Some(parent), 0, m);
    lemma_children_size_grows(file, Some(parent), m + 1, count);
    assert(children_size(file, Some(parent), m + 1) == children_size(file, Some(parent), m)
        + subtree_size(file, m));
    assert(subtree_size(file, parent) == 1 + children_size(file, Some(parent), count));
    if parent != n {
        lemma_enclosed_is_visited_within(file, n, parent);
    }
}

/// The hooks of a suite bracket all that the suite encloses: every task
/// body and every `BeforeAll` and `AfterAll` hook of a suite that suite `n`
/// encloses, directly or through suites in between, stands after the
/// `BeforeAll` hooks of suite `n` and before its `AfterAll` hooks.
pub proof fn lemma_hooks_bracket_what_their_suite_encloses(
    file: FileView,
    n: int,
    m: int,
    a: int,
    b: int,
)
    requires
        file.indexable(),
        0 <= m < file.nodes.len(),
        encloses(file, n, m),
        0 <= a < file_plan(file).len(),
        0 <= b < file_plan(file).len(),
        file_plan(file)[b].node == m,
        file_plan(file)[b].kind is Task || file_plan(file)[b].kind == StepKind::Hook(
            LifetimeHook::BeforeAll,
        ) || file_plan(file)[b].kind == StepKind::Hook(LifetimeHook::AfterAll),
    ensures
        invokes_hook(file_plan(file)[a], n, LifetimeHook::BeforeAll) ==> a < b,
        invokes_hook(file_plan(file)[a], n, LifetimeHook::AfterAll) ==> b < a,
{
    lemma_plan_is_in_order(file);
    lemma_plan_steps_are_valid(file);
    lemma_enclosed_is_visited_within(file, n, m);
    lemma_sizes_are_positive(file, n);
    lemma_sizes_are_positive(file, m);
    lemma_depth_is_small(file, n);
    lemma_depth_is_small(file, m);
    let plan = file_plan(file);
    assert(step_valid(file, plan[a]));
    assert(step_valid(file, plan[b]));
    assert(anchored(plan[b]));
    if b < a {
        assert(anchored(plan[a]) ==> rank(file, plan[b]) <= rank(file, plan[a]));
    }
    if a < b {
        assert(anchored(plan[a]) ==> rank(file, plan[a]) <= rank(file, plan[b]));
    }
}

} // verus!
