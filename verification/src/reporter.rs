//! What a run came to: its tasks sorted into classes, and the reporters that
//! are told of it.

use crate::collector::{
    node_views, task_views, CollectorFile, CollectorNode, CollectorTask, FileView, NodeView, TaskView,
};
use crate::mode::{CollectorMode, CollectorState, StateView};
use std::time::{Duration, Instant};
use vstd::prelude::*;

verus! {

/// The exit code of a run in which nothing failed.
pub const SUCCESS: i32 = 0;

/// The exit code of a run in which a task failed or a file could not be
/// evaluated.
pub const RUNTIME_ERROR: i32 = 1;

/// Where a task stands in a run: the file, the suite in the file, the task in
/// the suite, each by its index in registration order.
#[derive(Clone, Copy, Debug, PartialEq, Eq, Structural)]
pub struct TaskRef {
    pub file: usize,
    pub node: usize,
    pub task: usize,
}

/// The classes into which a report sorts the tasks of a run.
#[derive(Clone, Copy, Debug, PartialEq, Eq, Structural)]
pub enum TaskClass {
    Failed,
    Passed,
    /// Failed or passed: the tasks whose callback was invoked.
    Runnable,
    Skipped,
    Todo,
}

impl TaskClass {
    /// Whether a task in `state` belongs to the class. A task that is still
    /// pending in mode `Run` or `Only` belongs to none.
    pub open spec fn admits(self, state: StateView) -> bool {
        match self {
            TaskClass::Failed => state is Fail,
            TaskClass::Passed => state is Pass,
            TaskClass::Runnable => state is Fail || state is Pass,
            TaskClass::Skipped => state == StateView::Custom(CollectorMode::Skip),
            TaskClass::Todo => state == StateView::Custom(CollectorMode::Todo),
        }
    }

    /// Whether a task in `state` belongs to the class.
    pub fn holds(self, state: &CollectorState) -> (yes: bool)
        ensures
            yes == self.admits(state@),
    {
        match self {
            TaskClass::Failed => match state {
                CollectorState::Fail(_) => true,
                _ => false,
            },
            TaskClass::Passed => match state {
                CollectorState::Pass => true,
                _ => false,
            },
            TaskClass::Runnable => match state {
                CollectorState::Fail(_) => true,
                CollectorState::Pass => true,
                _ => false,
            },
            TaskClass::Skipped => match state {
                CollectorState::Custom(CollectorMode::Skip) => true,
                _ => false,
            },
            TaskClass::Todo => match state {
                CollectorState::Custom(CollectorMode::Todo) => true,
                _ => false,
            },
        }
    }
}

/// The tasks of `class` among the first `upto` tasks of one suite, in
/// registration order.
pub open spec fn tasks_in_class(
    tasks: Seq<TaskView>,
    file: int,
    node: int,
    upto: int,
    class: TaskClass,
) -> Seq<TaskRef>
    decreases upto,
{
    if upto <= 0 {
        Seq::empty()
    } else {
        let earlier = tasks_in_class(tasks, file, node, upto - 1, class);
        if class.admits(tasks[upto - 1].state) {
            earlier.push(TaskRef { file: file as usize, node: node as usize, task: (upto - 1) as usize })
        } else {
            earlier
        }
    }
}

/// The tasks of `class` in the first `upto` suites of one file.
pub open spec fn nodes_in_class(nodes: Seq<NodeView>, file: int, upto: int, class: TaskClass) -> Seq<
    TaskRef,
>
    decreases upto,
{
    if upto <= 0 {
        Seq::empty()
    } else {
        nodes_in_class(nodes, file, upto - 1, class) + tasks_in_class(
            nodes[upto - 1].tasks,
            file,
            upto - 1,
            nodes[upto - 1].tasks.len() as int,
            class,
        )
    }
}

/// The tasks of `class` in the first `upto` files.
pub open spec fn files_in_class(files: Seq<FileView>, upto: int, class: TaskClass) -> Seq<TaskRef>
    decreases upto,
{
    if upto <= 0 {
        Seq::empty()
    } else {
        files_in_class(files, upto - 1, class) + nodes_in_class(
            files[upto - 1].nodes,
            upto - 1,
            files[upto - 1].nodes.len() as int,
            class,
        )
    }
}

/// All tasks of `class` in a run: file by file, suite by suite, each in
/// registration order.
pub open spec fn partition(files: Seq<FileView>, class: TaskClass) -> Seq<TaskRef> {
    files_in_class(files, files.len() as int, class)
}

/// The indices of the files, among the first `upto`, that the engine could
/// not evaluate.
pub open spec fn failed_files_upto(files: Seq<FileView>, upto: int) -> Seq<usize>
    decreases upto,
{
    if upto <= 0 {
        Seq::empty()
    } else {
        let earlier = failed_files_upto(files, upto - 1);
        if files[upto - 1].error is Some {
            earlier.push((upto - 1) as usize)
        } else {
            earlier
        }
    }
}

/// The indices of the files that the engine could not evaluate.
pub open spec fn failed_files(files: Seq<FileView>) -> Seq<usize> {
    failed_files_upto(files, files.len() as int)
}

/// Whether `at` names a task of the run, and that task is of `class`.
pub open spec fn names_task_of_class(files: Seq<FileView>, at: TaskRef, class: TaskClass) -> bool {
    &&& at.file < files.len()
    &&& at.node < files[at.file as int].nodes.len()
    &&& at.task < files[at.file as int].nodes[at.node as int].tasks.len()
    &&& class.admits(files[at.file as int].nodes[at.node as int].tasks[at.task as int].state)
}

/// The values of a list of files, in order.
pub open spec fn file_views(files: Seq<CollectorFile>) -> Seq<FileView> {
    Seq::new(files.len(), |i: int| files[i]@)
}

/// The files of one run, in the order in which they finished. Files are only
/// ever added.
#[derive(Debug)]
pub struct RunnerCollectorContext {
    files: Vec<CollectorFile>,
}

impl View for RunnerCollectorContext {
    type V = Seq<FileView>;

    closed spec fn view(&self) -> Seq<FileView> {
        file_views(self.files@)
    }
}

impl RunnerCollectorContext {
    /// A run with no file in it.
    pub fn new() -> (ctx: Self)
        ensures
            ctx@ == Seq::<FileView>::empty(),
    {
        let ctx = RunnerCollectorContext { files: Vec::new() };
        assert(ctx@ =~= Seq::empty());
        ctx
    }

    /// Adds a file that has finished. The files added before stay, in order.
    pub fn push_file(&mut self, file: CollectorFile)
        ensures
            final(self)@ == old(self)@.push(file@),
    {
        self.files.push(file);
        assert(final(self)@ =~= old(self)@.push(file@));
    }

    /// A run in memory has no more files than a machine index can count,
    /// and so it is with the suites and the tasks of each file.
    pub proof fn lemma_indexable(&self)
        ensures
            indexable(self@),
    {
        assert(self.files@.len() == self.files.len());
        assert forall|f: int| 0 <= f < self@.len() implies (#[trigger] self@[f]).indexable() by {
            self.files@[f].lemma_indexable();
        }
    }

    /// The files of the run, in the order in which they were added.
    pub fn files(&self) -> (files: &Vec<CollectorFile>)
        ensures
            file_views(files@) == self@,
    {
        &self.files
    }

    /// The task that `at` names, if it names one.
    pub fn task(&self, at: TaskRef) -> (found: Option<&CollectorTask>)
        ensures
            match found {
                Some(task) => {
                    &&& at.file < self@.len()
                    &&& at.node < self@[at.file as int].nodes.len()
                    &&& at.task < self@[at.file as int].nodes[at.node as int].tasks.len()
                    &&& task@ == self@[at.file as int].nodes[at.node as int].tasks[at.task as int]
                },
                None => !(at.file < self@.len() && at.node < self@[at.file as int].nodes.len()
                    && at.task < self@[at.file as int].nodes[at.node as int].tasks.len()),
            },
    {
        if at.file >= self.files.len() {
            return None;
        }
        let nodes = self.files[at.file].nodes();
        if at.node >= nodes.len() {
            return None;
        }
        let tasks = nodes[at.node].tasks();
        if at.task >= tasks.len() {
            return None;
        }
        Some(&tasks[at.task])
    }

    /// All tasks of `class`, file by file, suite by suite, each in
    /// registration order.
    pub fn partition(&self, class: TaskClass) -> (refs: Vec<TaskRef>)
        ensures
            refs@ == partition(self@, class),
    {
        let mut refs: Vec<TaskRef> = Vec::new();
        let mut i: usize = 0;
        while i < self.files.len()
            invariant
                i <= self.files.len(),
                refs@ == files_in_class(self@, i as int, class),
            decreases self.files.len() - i,
        {
            let nodes = self.files[i].nodes();
            let ghost done_files = refs@;
            let mut j: usize = 0;
            while j < nodes.len()
                invariant
                    i < self.files.len(),
                    j <= nodes.len(),
                    node_views(nodes@) == self@[i as int].nodes,
                    done_files == files_in_class(self@, i as int, class),
                    refs@ == done_files + nodes_in_class(
                        self@[i as int].nodes,
                        i as int,
                        j as int,
                        class,
                    ),
                decreases nodes.len() - j,
            {
                let tasks = nodes[j].tasks();
                let ghost done_nodes = refs@;
                let mut k: usize = 0;
                while k < tasks.len()
                    invariant
                        i < self.files.len(),
                        j < nodes.len(),
                        k <= tasks.len(),
                        task_views(tasks@) == self@[i as int].nodes[j as int].tasks,
                        refs@ == done_nodes + tasks_in_class(
                            self@[i as int].nodes[j as int].tasks,
                            i as int,
                            j as int,
                            k as int,
                            class,
                        ),
                    decreases tasks.len() - k,
                {
                    if class.holds(tasks[k].state()) {
                        refs.push(TaskRef { file: i, node: j, task: k });
                    }
                    k += 1;
                }
                j += 1;
            }
            i += 1;
        }
        refs
    }

    /// The indices of the files that the engine could not evaluate, in order.
    pub fn failed_files(&self) -> (indices: Vec<usize>)
        ensures
            indices@ == failed_files(self@),
    {
        let mut indices: Vec<usize> = Vec::new();
        let mut i: usize = 0;
        while i < self.files.len()
            invariant
                i <= self.files.len(),
                indices@ == failed_files_upto(self@, i as int),
            decreases self.files.len() - i,
        {
            if self.files[i].error().is_some() {
                indices.push(i);
            }
            i += 1;
        }
        indices
    }

    /// Sorts the tasks of the run into classes and lists the files that could
    /// not be evaluated. `elapsed_micros` is handed through.
    pub fn summarize(&self, elapsed_micros: u128) -> (report: RunReport)
        ensures
            report@ == ReportView::of_run(self@, elapsed_micros),
    {
        RunReport {
            failed: self.partition(TaskClass::Failed),
            passed: self.partition(TaskClass::Passed),
            runnable: self.partition(TaskClass::Runnable),
            skipped: self.partition(TaskClass::Skipped),
            todo: self.partition(TaskClass::Todo),
            failed_files: self.failed_files(),
            elapsed_micros,
        }
    }
}

/// The mathematical value of a [`RunReport`].
pub struct ReportView {
    pub failed: Seq<TaskRef>,
    pub passed: Seq<TaskRef>,
    pub runnable: Seq<TaskRef>,
    pub skipped: Seq<TaskRef>,
    pub todo: Seq<TaskRef>,
    pub failed_files: Seq<usize>,
    pub elapsed_micros: u128,
}

impl ReportView {
    /// The report of a run over `files` that took `elapsed_micros`.
    pub open spec fn of_run(files: Seq<FileView>, elapsed_micros: u128) -> ReportView {
        ReportView {
            failed: partition(files, TaskClass::Failed),
            passed: partition(files, TaskClass::Passed),
            runnable: partition(files, TaskClass::Runnable),
            skipped: partition(files, TaskClass::Skipped),
            todo: partition(files, TaskClass::Todo),
            failed_files: failed_files(files),
            elapsed_micros,
        }
    }

    /// The exit code that the run calls for: failure if a task failed or a
    /// file could not be evaluated, success otherwise.
    pub open spec fn exit_code(self) -> i32 {
        if self.failed.len() > 0 || self.failed_files.len() > 0 {
            RUNTIME_ERROR
        } else {
            SUCCESS
        }
    }

    /// The share of the invoked tasks that passed, in whole percent, rounded
    /// down; nothing where no task was invoked.
    pub open spec fn pass_rate_percent(self) -> Option<int> {
        if self.runnable.len() == 0 {
            None
        } else {
            Some((self.passed.len() as int) * 100 / (self.runnable.len() as int))
        }
    }
}

/// What a run came to: its tasks sorted into classes, the files that could
/// not be evaluated, and the time it took.
#[derive(Debug)]
pub struct RunReport {
    pub failed: Vec<TaskRef>,
    pub passed: Vec<TaskRef>,
    pub runnable: Vec<TaskRef>,
    pub skipped: Vec<TaskRef>,
    pub todo: Vec<TaskRef>,
    pub failed_files: Vec<usize>,
    pub elapsed_micros: u128,
}

impl View for RunReport {
    type V = ReportView;

    open spec fn view(&self) -> ReportView {
        ReportView {
            failed: self.failed@,
            passed: self.passed@,
            runnable: self.runnable@,
            skipped: self.skipped@,
            todo: self.todo@,
            failed_files: self.failed_files@,
            elapsed_micros: self.elapsed_micros,
        }
    }
}

impl RunReport {
    /// The exit code that the run calls for.
    pub fn exit_code(&self) -> (code: i32)
        ensures
            code == self@.exit_code(),
    {
        if self.failed.len() > 0 || self.failed_files.len() > 0 {
            RUNTIME_ERROR
        } else {
            SUCCESS
        }
    }

    /// The share of the invoked tasks that passed, in whole percent, rounded
    /// down. Where no task was invoked there is no share, and nothing is
    /// divided.
    pub fn pass_rate_percent(&self) -> (rate: Option<u128>)
        ensures
            match rate {
                Some(percent) => self@.pass_rate_percent() == Some(percent as int),
                None => self@.pass_rate_percent() is None,
            },
    {
        let runnable: u128 = self.runnable.len() as u128;
        if runnable == 0 {
            None
        } else {
            let passed: u128 = self.passed.len() as u128;
            Some(passed * 100 / runnable)
        }
    }
}

/// Whether the files of the run, and the suites and tasks of each, can be
/// counted by a machine index, as those of a run in memory can.
pub open spec fn indexable(files: Seq<FileView>) -> bool {
    &&& files.len() <= usize::MAX
    &&& forall|f: int| 0 <= f < files.len() ==> (#[trigger] files[f]).indexable()
}

proof fn lemma_tasks_in_class_members(
    tasks: Seq<TaskView>,
    file: int,
    node: int,
    upto: int,
    class: TaskClass,
)
    requires
        0 <= file <= usize::MAX,
        0 <= node <= usize::MAX,
        0 <= upto <= tasks.len() <= usize::MAX,
    ensures
        forall|k: int|
            0 <= k < tasks_in_class(tasks, file, node, upto, class).len() ==> {
                let at = #[trigger] tasks_in_class(tasks, file, node, upto, class)[k];
                &&& at.file == file
                &&& at.node == node
                &&& at.task < upto
                &&& class.admits(tasks[at.task as int].state)
            },
        forall|t: int|
            0 <= t < upto && class.admits(#[trigger] tasks[t].state) ==> tasks_in_class(
                tasks,
                file,
                node,
                upto,
                class,
            ).contains(TaskRef { file: file as usize, node: node as usize, task: t as usize }),
    decreases upto,
{
    if upto > 0 {
        lemma_tasks_in_class_members(tasks, file, node, upto - 1, class);
        let earlier = tasks_in_class(tasks, file, node, upto - 1, class);
        let all = tasks_in_class(tasks, file, node, upto, class);
        assert forall|t: int| 0 <= t < upto && class.admits(#[trigger] tasks[t].state) implies all.contains(
            TaskRef { file: file as usize, node: node as usize, task: t as usize },
        ) by {
            let at = TaskRef { file: file as usize, node: node as usize, task: t as usize };
            if t < upto - 1 {
                let k = choose|k: int| 0 <= k < earlier.len() && earlier[k] == at;
                assert(all[k] == at);
            } else {
                assert(all[all.len() - 1] == at);
            }
        }
    }
}

proof fn lemma_nodes_in_class_members(nodes: Seq<NodeView>, file: int, upto: int, class: TaskClass)
    requires
        0 <= file <= usize::MAX,
        0 <= upto <= nodes.len() <= usize::MAX,
        forall|n: int| 0 <= n < nodes.len() ==> (#[trigger] nodes[n]).tasks.len() <= usize::MAX,
    ensures
        forall|k: int|
            0 <= k < nodes_in_class(nodes, file, upto, class).len() ==> {
                let at = #[trigger] nodes_in_class(nodes, file, upto, class)[k];
                &&& at.file == file
                &&& at.node < upto
                &&& at.task < nodes[at.node as int].tasks.len()
                &&& class.admits(nodes[at.node as int].tasks[at.task as int].state)
            },
        forall|n: int, t: int|
            0 <= n < upto && 0 <= t < nodes[n].tasks.len() && class.admits(
                #[trigger] nodes[n].tasks[t].state,
            ) ==> nodes_in_class(nodes, file, upto, class).contains(
                TaskRef { file: file as usize, node: n as usize, task: t as usize },
            ),
    decreases upto,
{
    if upto > 0 {
        lemma_nodes_in_class_members(nodes, file, upto - 1, class);
        let tasks = nodes[upto - 1].tasks;
        lemma_tasks_in_class_members(tasks, file, upto - 1, tasks.len() as int, class);
        let earlier = nodes_in_class(nodes, file, upto - 1, class);
        let last = tasks_in_class(tasks, file, upto - 1, tasks.len() as int, class);
        let all = nodes_in_class(nodes, file, upto, class);
        assert(all == earlier + last);
        assert forall|k: int| 0 <= k < all.len() implies {
            let at = #[trigger] all[k];
            &&& at.file == file
            &&& at.node < upto
            &&& at.task < nodes[at.node as int].tasks.len()
            &&& class.admits(nodes[at.node as int].tasks[at.task as int].state)
        } by {
            if k < earlier.len() {
                assert(all[k] == earlier[k]);
            } else {
                assert(all[k] == last[k - earlier.len()]);
            }
        }
        assert forall|n: int, t: int|
            0 <= n < upto && 0 <= t < nodes[n].tasks.len() && class.admits(
                #[trigger] nodes[n].tasks[t].state,
            ) implies all.contains(TaskRef { file: file as usize, node: n as usize, task: t as usize }) by {
            let at = TaskRef { file: file as usize, node: n as usize, task: t as usize };
            if n < upto - 1 {
                let k = choose|k: int| 0 <= k < earlier.len() && earlier[k] == at;
                assert(all[k] == at);
            } else {
                let k = choose|k: int| 0 <= k < last.len() && last[k] == at;
                assert(all[earlier.len() + k] == at);
            }
        }
    }
}

proof fn lemma_files_in_class_members(files: Seq<FileView>, upto: int, class: TaskClass)
    requires
        indexable(files),
        0 <= upto <= files.len(),
    ensures
        forall|k: int|
            0 <= k < files_in_class(files, upto, class).len() ==> {
                let at = #[trigger] files_in_class(files, upto, class)[k];
                &&& at.file < upto
                &&& names_task_of_class(files, at, class)
            },
        forall|at: TaskRef|
            at.file < upto && #[trigger] names_task_of_class(files, at, class) ==> files_in_class(
                files,
                upto,
                class,
            ).contains(at),
    decreases upto,
{
    if upto > 0 {
        lemma_files_in_class_members(files, upto - 1, class);
        let nodes = files[upto - 1].nodes;
        lemma_nodes_in_class_members(nodes, upto - 1, nodes.len() as int, class);
        let earlier = files_in_class(files, upto - 1, class);
        let last = nodes_in_class(nodes, upto - 1, nodes.len() as int, class);
        let all = files_in_class(files, upto, class);
        assert(all == earlier + last);
        assert forall|k: int| 0 <= k < all.len() implies {
            let at = #[trigger] all[k];
            &&& at.file < upto
            &&& names_task_of_class(files, at, class)
        } by {
            if k < earlier.len() {
                assert(all[k] == earlier[k]);
            } else {
                assert(all[k] == last[k - earlier.len()]);
            }
        }
        assert forall|at: TaskRef|
            at.file < upto && #[trigger] names_task_of_class(files, at, class) implies all.contains(
            at,
        ) by {
            if at.file < upto - 1 {
                let k = choose|k: int| 0 <= k < earlier.len() && earlier[k] == at;
                assert(all[k] == at);
            } else {
                assert(class.admits(nodes[at.node as int].tasks[at.task as int].state));
                let same = TaskRef {
                    file: (upto - 1) as usize,
                    node: (at.node as int) as usize,
                    task: (at.task as int) as usize,
                };
                assert(same == at);
                let k = choose|k: int| 0 <= k < last.len() && last[k] == at;
                assert(all[earlier.len() + k] == at);
            }
        }
    }
}

/// A class holds exactly the tasks of the run whose state it admits: every
/// entry names such a task, and every such task has an entry.
pub proof fn lemma_partition_holds_its_class(files: Seq<FileView>, class: TaskClass)
    requires
        indexable(files),
    ensures
        forall|k: int|
            0 <= k < partition(files, class).len() ==> names_task_of_class(
                files,
                #[trigger] partition(files, class)[k],
                class,
            ),
        forall|at: TaskRef| #[trigger]
            names_task_of_class(files, at, class) ==> partition(files, class).contains(at),
{
    lemma_files_in_class_members(files, files.len() as int, class);
}

proof fn lemma_tasks_runnable_count(tasks: Seq<TaskView>, file: int, node: int, upto: int)
    ensures
        tasks_in_class(tasks, file, node, upto, TaskClass::Runnable).len() == tasks_in_class(
            tasks,
            file,
            node,
            upto,
            TaskClass::Failed,
        ).len() + tasks_in_class(tasks, file, node, upto, TaskClass::Passed).len(),
    decreases upto,
{
    if upto > 0 {
        lemma_tasks_runnable_count(tasks, file, node, upto - 1);
    }
}

proof fn lemma_nodes_runnable_count(nodes: Seq<NodeView>, file: int, upto: int)
    ensures
        nodes_in_class(nodes, file, upto, TaskClass::Runnable).len() == nodes_in_class(
            nodes,
            file,
            upto,
            TaskClass::Failed,
        ).len() + nodes_in_class(nodes, file, upto, TaskClass::Passed).len(),
    decreases upto,
{
    if upto > 0 {
        lemma_nodes_runnable_count(nodes, file, upto - 1);
        lemma_tasks_runnable_count(
            nodes[upto - 1].tasks,
            file,
            upto - 1,
            nodes[upto - 1].tasks.len() as int,
        );
    }
}

proof fn lemma_files_runnable_count(files: Seq<FileView>, upto: int)
    ensures
        files_in_class(files, upto, TaskClass::Runnable).len() == files_in_class(
            files,
            upto,
            TaskClass::Failed,
        ).len() + files_in_class(files, upto, TaskClass::Passed).len(),
    decreases upto,
{
    if upto > 0 {
        lemma_files_runnable_count(files, upto - 1);
        lemma_nodes_runnable_count(
            files[upto - 1].nodes,
            upto - 1,
            files[upto - 1].nodes.len() as int,
        );
    }
}

/// The runnable tasks of a run are its failed and its passed tasks: there
/// are as many of them as of those two classes together.
pub proof fn lemma_runnable_is_failed_and_passed(files: Seq<FileView>)
    ensures
        partition(files, TaskClass::Runnable).len() == partition(files, TaskClass::Failed).len()
            + partition(files, TaskClass::Passed).len(),
{
    lemma_files_runnable_count(files, files.len() as int);
}

proof fn lemma_files_in_class_reads_a_prefix(
    first: Seq<FileView>,
    second: Seq<FileView>,
    upto: int,
    class: TaskClass,
)
    requires
        forall|f: int| 0 <= f < upto ==> first[f] == second[f],
    ensures
        files_in_class(first, upto, class) == files_in_class(second, upto, class),
        failed_files_upto(first, upto) == failed_files_upto(second, upto),
    decreases upto,
{
    if upto > 0 {
        lemma_files_in_class_reads_a_prefix(first, second, upto - 1, class);
    }
}

/// A file that is added to a run leaves the rest of the run alone: every
/// class keeps the entries it had, in order, and gains those of the added
/// file alone; the list of failed files keeps its entries and gains the
/// added file if, and only if, that file could not be evaluated.
pub proof fn lemma_added_file_leaves_the_rest_alone(
    files: Seq<FileView>,
    added: FileView,
    class: TaskClass,
)
    ensures
        partition(files.push(added), class) == partition(files, class) + nodes_in_class(
            added.nodes,
            files.len() as int,
            added.nodes.len() as int,
            class,
        ),
        failed_files(files.push(added)) == if added.error is Some {
            failed_files(files).push(files.len() as usize)
        } else {
            failed_files(files)
        },
{
    lemma_files_in_class_reads_a_prefix(files.push(added), files, files.len() as int, class);
}

/// `std::time::Instant`, a point in time that only the clock can read.
#[verifier::external_type_specification]
#[verifier::external_body]
pub struct ExInstant(std::time::Instant);

/// `std::time::Instant::now`: the present moment. Nothing is known of it.
#[verifier::external_body]
fn instant_now() -> Instant {
    Instant::now()
}

/// `std::time::Instant::saturating_duration_since`: the time from `earlier`
/// to `later`, or no time at all if `earlier` is the later of the two.
/// Nothing is known of it.
#[verifier::external_body]
fn instant_saturating_since(later: &Instant, earlier: &Instant) -> Duration {
    later.saturating_duration_since(*earlier)
}

/// `std::time::Duration::as_micros`: the span in whole microseconds. Nothing
/// is known of it.
#[verifier::external_body]
fn duration_as_micros(span: &Duration) -> u128 {
    span.as_micros()
}

/// What a reporter is told as a run goes on. All but two of the calls do
/// nothing unless a reporter says otherwise.
pub trait Reporter {
    fn start(&self) {
    }

    /// The test files were collected; the run proper begins.
    fn report_collected(&mut self);

    /// All files have finished; `ctx` holds them.
    fn report_finished(&self, ctx: &RunnerCollectorContext) -> RunReport;

    fn begin_file(&self, file: &CollectorFile) {
    }

    fn end_file(&self, file: &CollectorFile) {
    }

    fn begin_node(&self, node: &CollectorNode) {
    }

    fn end_node(&self, node: &CollectorNode) {
    }

    fn begin_task(&self, task: &CollectorTask) {
    }

    fn end_task(&self, task: &CollectorTask) {
    }
}

/// The reporter that is used where no other is given: it times the run and
/// sorts its tasks into classes.
pub struct KurtexDefaultReporter {
    start_time: Instant,
}

impl KurtexDefaultReporter {
    /// The moment from which the reporter counts the time of a run.
    pub closed spec fn started(&self) -> Instant {
        self.start_time
    }

    /// A reporter that counts the time of a run from `start_time`.
    pub fn starting_at(start_time: Instant) -> (reporter: Self)
        ensures
            reporter.started() == start_time,
    {
        KurtexDefaultReporter { start_time }
    }

    /// Counts the time of a run from `now` on, whatever it was counted from
    /// before.
    pub fn restart_at(&mut self, now: Instant)
        ensures
            final(self).started() == now,
    {
        self.start_time = now;
    }

    /// The moment from which the reporter counts the time of a run.
    pub fn start_time(&self) -> (start_time: &Instant)
        ensures
            *start_time == self.started(),
    {
        &self.start_time
    }

    /// A reporter whose clock starts now: it counts from the moment that the
    /// clock gives, of which nothing is known beforehand.
    pub fn new() -> Self {
        let start_time = instant_now();
        Self::starting_at(start_time)
    }
}

impl Reporter for KurtexDefaultReporter {
    /// Starts the clock again: the time of a run is counted from the moment
    /// that the clock gives now, of which nothing is known beforehand.
    fn report_collected(&mut self) {
        let now = instant_now();
        self.restart_at(now);
    }

    /// The report of the run: its tasks sorted into classes, its failed
    /// files, and the time since the clock was started, whatever that is.
    fn report_finished(&self, ctx: &RunnerCollectorContext) -> (report: RunReport)
        ensures
            report@ == ReportView::of_run(ctx@, report.elapsed_micros),
    {
        let now = instant_now();
        let end_time = instant_saturating_since(&now, &self.start_time);
        let microseconds = duration_as_micros(&end_time);
        ctx.summarize(microseconds)
    }
}

impl Default for KurtexDefaultReporter {
    fn default() -> Self {
        KurtexDefaultReporter::new()
    }
}

} // verus!
