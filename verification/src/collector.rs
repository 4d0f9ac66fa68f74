//! What a file registers: tasks, suites and the file itself, and the builder
//! that freezes the registrations of one suite.

use crate::error::CollectorError;
use crate::hooks::{HooksView, LifetimeHook, LifetimeHookManager, TestCallback};
use crate::mode::{CollectorMode, CollectorState, StateView};
use vstd::prelude::*;
use vstd::string::*;

verus! {

/// What a suite is called: the implicit suite of a whole file, or a suite
/// that the file declares under a name.
#[derive(Debug)]
pub enum CollectorIdentifier {
    File,
    Custom(String),
}

/// The mathematical value of a [`CollectorIdentifier`].
pub enum IdentifierView {
    File,
    Custom(Seq<char>),
}

impl View for CollectorIdentifier {
    type V = IdentifierView;

    open spec fn view(&self) -> IdentifierView {
        match *self {
            CollectorIdentifier::File => IdentifierView::File,
            CollectorIdentifier::Custom(name) => IdentifierView::Custom(name@),
        }
    }
}

impl Default for CollectorIdentifier {
    fn default() -> (identifier: Self)
        ensures
            identifier@ == IdentifierView::File,
    {
        CollectorIdentifier::File
    }
}

impl Clone for CollectorIdentifier {
    fn clone(&self) -> (copy: Self)
        ensures
            copy@ == self@,
    {
        match self {
            CollectorIdentifier::File => CollectorIdentifier::File,
            CollectorIdentifier::Custom(name) => CollectorIdentifier::Custom(name.clone()),
        }
    }
}

impl IdentifierView {
    /// The name under which the suite is shown: a fixed marker for the suite
    /// of the file, the declared name for any other.
    pub open spec fn label(self) -> Seq<char> {
        match self {
            IdentifierView::File => "$$file"@,
            IdentifierView::Custom(name) => name,
        }
    }
}

impl CollectorIdentifier {
    /// The name under which the suite is shown.
    pub fn label(&self) -> (text: String)
        ensures
            text@ == self@.label(),
    {
        match self {
            CollectorIdentifier::File => String::from_str("$$file"),
            CollectorIdentifier::Custom(name) => name.clone(),
        }
    }

    /// Whether this is the implicit suite of a whole file.
    pub fn is_file(&self) -> (yes: bool)
        ensures
            yes == (self@ is File),
    {
        match self {
            CollectorIdentifier::File => true,
            CollectorIdentifier::Custom(_) => false,
        }
    }
}

/// The mathematical value of a [`CollectorTask`].
#[verifier::ext_equal]
pub struct TaskView {
    pub name: Seq<char>,
    pub mode: CollectorMode,
    pub state: StateView,
    /// The identifier of the suite that owns the task, once frozen.
    pub node: Option<IdentifierView>,
    /// The path of the file that owns the task, once frozen.
    pub file: Option<Seq<char>>,
    pub callback: TestCallback,
}

impl TaskView {
    /// A task as it is right after registration: pending in its declared
    /// mode, and not yet tied to a suite or a file.
    pub open spec fn pending(name: Seq<char>, callback: TestCallback, mode: CollectorMode) -> TaskView {
        TaskView { name, mode, state: StateView::Custom(mode), node: None, file: None, callback }
    }

    /// The task with its back-references set.
    pub open spec fn attached(self, node: IdentifierView, file: Seq<char>) -> TaskView {
        TaskView { node: Some(node), file: Some(file), ..self }
    }

    /// The task in another state.
    pub open spec fn with_state(self, state: StateView) -> TaskView {
        TaskView { state, ..self }
    }
}

/// A single test case: a name, a declared mode, the state it has reached and
/// the callback that is its body. Names need not be unique.
#[derive(Debug)]
pub struct CollectorTask {
    name: String,
    mode: CollectorMode,
    state: CollectorState,
    node: Option<CollectorIdentifier>,
    file: Option<String>,
    callback: TestCallback,
}

impl View for CollectorTask {
    type V = TaskView;

    closed spec fn view(&self) -> TaskView {
        TaskView {
            name: self.name@,
            mode: self.mode,
            state: self.state@,
            node: match self.node {
                Some(identifier) => Some(identifier@),
                None => None,
            },
            file: match self.file {
                Some(path) => Some(path@),
                None => None,
            },
            callback: self.callback,
        }
    }
}

/// The values of a list of tasks, in order.
pub open spec fn task_views(tasks: Seq<CollectorTask>) -> Seq<TaskView> {
    Seq::new(tasks.len(), |i: int| tasks[i]@)
}

impl CollectorTask {
    /// A task pending in `mode`, tied to no suite and no file yet.
    pub fn new(name: String, callback: TestCallback, mode: CollectorMode) -> (task: Self)
        ensures
            task@ == TaskView::pending(name@, callback, mode),
    {
        CollectorTask {
            name,
            mode,
            file: None,
            node: None,
            state: CollectorState::Custom(mode),
            callback,
        }
    }

    pub fn name(&self) -> (name: &String)
        ensures
            name@ == self@.name,
    {
        &self.name
    }

    pub fn mode(&self) -> (mode: CollectorMode)
        ensures
            mode == self@.mode,
    {
        self.mode
    }

    pub fn state(&self) -> (state: &CollectorState)
        ensures
            state@ == self@.state,
    {
        &self.state
    }

    pub fn callback(&self) -> (callback: TestCallback)
        ensures
            callback == self@.callback,
    {
        self.callback
    }

    /// The identifier of the owning suite; nothing before the task is frozen.
    pub fn node(&self) -> (node: Option<&CollectorIdentifier>)
        ensures
            match node {
                Some(identifier) => self@.node == Some(identifier@),
                None => self@.node is None,
            },
    {
        self.node.as_ref()
    }

    /// The path of the owning file; nothing before the task is frozen.
    pub fn file(&self) -> (file: Option<&String>)
        ensures
            match file {
                Some(path) => self@.file == Some(path@),
                None => self@.file is None,
            },
    {
        self.file.as_ref()
    }

    /// Writes the state of the task. Only the scheduler does so.
    pub(crate) fn set_state(&mut self, state: CollectorState)
        ensures
            final(self)@ == old(self)@.with_state(state@),
    {
        self.state = state;
    }

    fn attach(&mut self, node: CollectorIdentifier, file: String)
        ensures
            final(self)@ == old(self)@.attached(node@, file@),
    {
        self.node = Some(node);
        self.file = Some(file);
    }
}

/// A hook that failed, with the error that the engine reported.
#[derive(Debug)]
pub struct HookFailure {
    pub hook: LifetimeHook,
    pub error: String,
}

/// The mathematical value of a [`HookFailure`].
#[verifier::ext_equal]
pub struct HookFailureView {
    pub hook: LifetimeHook,
    pub error: Seq<char>,
}

impl View for HookFailure {
    type V = HookFailureView;

    open spec fn view(&self) -> HookFailureView {
        HookFailureView { hook: self.hook, error: self.error@ }
    }
}

/// The values of a list of hook failures, in order.
pub open spec fn failure_views(failures: Seq<HookFailure>) -> Seq<HookFailureView> {
    Seq::new(failures.len(), |i: int| failures[i]@)
}

/// The mathematical value of a [`CollectorNode`].
#[verifier::ext_equal]
pub struct NodeView {
    pub identifier: IdentifierView,
    pub mode: CollectorMode,
    pub tasks: Seq<TaskView>,
    /// The path of the file that owns the suite, once frozen.
    pub file: Option<Seq<char>>,
    /// The suite that encloses this one, by its index in the file; nothing
    /// for a suite that no suite encloses.
    pub parent: Option<usize>,
    pub hooks: HooksView,
    pub hook_failures: Seq<HookFailureView>,
}

impl NodeView {
    /// A suite with nothing in it: no task, no hook, no owner.
    pub open spec fn fresh_in(
        identifier: IdentifierView,
        mode: CollectorMode,
        parent: Option<usize>,
    ) -> NodeView {
        NodeView {
            identifier,
            mode,
            tasks: Seq::empty(),
            file: None,
            parent,
            hooks: HooksView::empty(),
            hook_failures: Seq::empty(),
        }
    }

    /// A suite with nothing in it that no suite encloses.
    pub open spec fn fresh(identifier: IdentifierView, mode: CollectorMode) -> NodeView {
        NodeView::fresh_in(identifier, mode, None)
    }

    /// The suite with the state of task `task` replaced.
    pub open spec fn with_task_state(self, task: int, state: StateView) -> NodeView {
        NodeView { tasks: self.tasks.update(task, self.tasks[task].with_state(state)), ..self }
    }

    /// The suite with one more hook failure on record.
    pub open spec fn with_hook_failure(self, failure: HookFailureView) -> NodeView {
        NodeView { hook_failures: self.hook_failures.push(failure), ..self }
    }
}

/// A suite: a group of tasks that share a mode and lifecycle hooks.
#[derive(Debug)]
pub struct CollectorNode {
    identifier: CollectorIdentifier,
    mode: CollectorMode,
    tasks: Vec<CollectorTask>,
    file: Option<String>,
    parent: Option<usize>,
    hook_manager: LifetimeHookManager,
    hook_failures: Vec<HookFailure>,
}

impl View for CollectorNode {
    type V = NodeView;

    closed spec fn view(&self) -> NodeView {
        NodeView {
            identifier: self.identifier@,
            mode: self.mode,
            tasks: task_views(self.tasks@),
            file: match self.file {
                Some(path) => Some(path@),
                None => None,
            },
            parent: self.parent,
            hooks: self.hook_manager@,
            hook_failures: failure_views(self.hook_failures@),
        }
    }
}

/// The values of a list of suites, in order.
pub open spec fn node_views(nodes: Seq<CollectorNode>) -> Seq<NodeView> {
    Seq::new(nodes.len(), |i: int| nodes[i]@)
}

impl CollectorNode {
    /// A suite with nothing in it that no suite encloses.
    pub fn new(identifier: CollectorIdentifier, mode: CollectorMode) -> (node: Self)
        ensures
            node@ == NodeView::fresh(identifier@, mode),
    {
        Self::new_in(identifier, mode, None)
    }

    /// A suite with nothing in it. `parent`, if there is one, is the index
    /// in the file of the suite that encloses it.
    pub fn new_in(
        identifier: CollectorIdentifier,
        mode: CollectorMode,
        parent: Option<usize>,
    ) -> (node: Self)
        ensures
            node@ == NodeView::fresh_in(identifier@, mode, parent),
    {
        let node = CollectorNode {
            identifier,
            mode,
            tasks: Vec::new(),
            file: None,
            parent,
            hook_manager: LifetimeHookManager::new(),
            hook_failures: Vec::new(),
        };
        assert(node@.tasks =~= Seq::empty());
        assert(node@.hook_failures =~= Seq::empty());
        node
    }

    /// The index in the file of the suite that encloses this one, if one
    /// does.
    pub fn parent(&self) -> (parent: Option<usize>)
        ensures
            parent == self@.parent,
    {
        self.parent
    }

    pub fn identifier(&self) -> (identifier: &CollectorIdentifier)
        ensures
            identifier@ == self@.identifier,
    {
        &self.identifier
    }

    pub fn mode(&self) -> (mode: CollectorMode)
        ensures
            mode == self@.mode,
    {
        self.mode
    }

    /// The tasks of the suite, in registration order.
    pub fn tasks(&self) -> (tasks: &Vec<CollectorTask>)
        ensures
            task_views(tasks@) == self@.tasks,
    {
        &self.tasks
    }

    /// The path of the owning file; nothing before the suite is frozen.
    pub fn file(&self) -> (file: Option<&String>)
        ensures
            match file {
                Some(path) => self@.file == Some(path@),
                None => self@.file is None,
            },
    {
        self.file.as_ref()
    }

    /// The callbacks registered for `hook`, in registration order.
    pub fn hooks(&self, hook: LifetimeHook) -> (callbacks: &Vec<TestCallback>)
        ensures
            callbacks@ == self@.hooks.get(hook),
    {
        self.hook_manager.get(hook)
    }

    /// The hooks of this suite that failed, in the order in which they did.
    pub fn hook_failures(&self) -> (failures: &Vec<HookFailure>)
        ensures
            failure_views(failures@) == self@.hook_failures,
    {
        &self.hook_failures
    }

    /// Writes the state of one task. Only the scheduler does so.
    pub(crate) fn set_task_state(&mut self, task: usize, state: CollectorState)
        requires
            task < old(self)@.tasks.len(),
        ensures
            final(self)@ == old(self)@.with_task_state(task as int, state@),
    {
        self.tasks[task].set_state(state);
        assert(final(self)@.tasks =~= old(self)@.tasks.update(
            task as int,
            old(self)@.tasks[task as int].with_state(state@),
        ));
    }

    /// Puts a failed hook on record. Only the scheduler does so.
    pub(crate) fn record_hook_failure(&mut self, failure: HookFailure)
        ensures
            final(self)@ == old(self)@.with_hook_failure(failure@),
    {
        self.hook_failures.push(failure);
        assert(final(self)@.hook_failures =~= old(self)@.hook_failures.push(failure@));
    }
}

/// The mathematical value of a [`CollectorFile`].
#[verifier::ext_equal]
pub struct FileView {
    pub file_path: Seq<char>,
    pub collected: bool,
    pub nodes: Seq<NodeView>,
    /// The error of a file that the engine could not evaluate.
    pub error: Option<Seq<char>>,
}

impl FileView {
    /// A file that was created and not evaluated yet.
    pub open spec fn created(file_path: Seq<char>) -> FileView {
        FileView { file_path, collected: false, nodes: Seq::empty(), error: None }
    }

    /// What `collect` answers: the suites of a file are written once.
    pub open spec fn collect_result(self) -> Result<(), CollectorError> {
        if self.collected {
            Err(CollectorError::AlreadyCollected)
        } else {
            Ok(())
        }
    }

    /// The file after `collect` was called with `nodes`.
    pub open spec fn after_collect(self, nodes: Seq<NodeView>) -> FileView {
        if self.collected {
            self
        } else {
            FileView { collected: true, nodes, ..self }
        }
    }

    /// The file after its evaluation failed with `error`.
    pub open spec fn failed(self, error: Seq<char>) -> FileView {
        FileView { error: Some(error), ..self }
    }

    /// The file made ready for another evaluation: same path, nothing else.
    pub open spec fn after_reset(self) -> FileView {
        FileView::created(self.file_path)
    }

    /// Whether the suites and the tasks of the file can be counted by a
    /// machine index, as those of a file in memory can.
    pub open spec fn indexable(self) -> bool {
        &&& self.nodes.len() <= usize::MAX
        &&& forall|n: int|
            0 <= n < self.nodes.len() ==> (#[trigger] self.nodes[n]).tasks.len() <= usize::MAX
    }

    /// The file with the state of one task replaced.
    pub open spec fn with_task_state(self, node: int, task: int, state: StateView) -> FileView {
        FileView {
            nodes: self.nodes.update(node, self.nodes[node].with_task_state(task, state)),
            ..self
        }
    }

    /// The file with one more hook failure on record for suite `node`.
    pub open spec fn with_hook_failure(self, node: int, failure: HookFailureView) -> FileView {
        FileView { nodes: self.nodes.update(node, self.nodes[node].with_hook_failure(failure)), ..self }
    }
}

/// One test-definition file: its path, which is its identity, and the suites
/// that its evaluation produced, in registration order.
#[derive(Debug)]
pub struct CollectorFile {
    file_path: String,
    collected: bool,
    nodes: Vec<CollectorNode>,
    error: Option<String>,
}

impl View for CollectorFile {
    type V = FileView;

    closed spec fn view(&self) -> FileView {
        FileView {
            file_path: self.file_path@,
            collected: self.collected,
            nodes: node_views(self.nodes@),
            error: match self.error {
                Some(error) => Some(error@),
                None => None,
            },
        }
    }
}

impl CollectorFile {
    /// A file that was not evaluated yet.
    pub fn new(file_path: String) -> (file: Self)
        ensures
            file@ == FileView::created(file_path@),
    {
        let file = CollectorFile { file_path, collected: false, nodes: Vec::new(), error: None };
        assert(file@.nodes =~= Seq::empty());
        file
    }

    /// A file in memory has no more suites, and no suite more tasks, than a
    /// machine index can count.
    pub proof fn lemma_indexable(&self)
        ensures
            self@.indexable(),
    {
        assert(self.nodes@.len() == self.nodes.len());
        assert forall|n: int| 0 <= n < self@.nodes.len() implies (#[trigger] self@.nodes[n]).tasks.len()
            <= usize::MAX by {
            assert(self.nodes@[n].tasks@.len() == self.nodes@[n].tasks.len());
        }
    }

    pub fn file_path(&self) -> (file_path: &String)
        ensures
            file_path@ == self@.file_path,
    {
        &self.file_path
    }

    /// Whether the suites of the file were written.
    pub fn collected(&self) -> (collected: bool)
        ensures
            collected == self@.collected,
    {
        self.collected
    }

    /// The suites of the file, in registration order.
    pub fn nodes(&self) -> (nodes: &Vec<CollectorNode>)
        ensures
            node_views(nodes@) == self@.nodes,
    {
        &self.nodes
    }

    /// The error of a file that the engine could not evaluate.
    pub fn error(&self) -> (error: Option<&String>)
        ensures
            match error {
                Some(text) => self@.error == Some(text@),
                None => self@.error is None,
            },
    {
        self.error.as_ref()
    }

    /// Writes the suites of the file. They are written once: a second call
    /// without a reset in between is refused with `AlreadyCollected` and
    /// changes nothing.
    pub fn collect(&mut self, nodes: Vec<CollectorNode>) -> (done: Result<(), CollectorError>)
        ensures
            done == old(self)@.collect_result(),
            final(self)@ == old(self)@.after_collect(node_views(nodes@)),
    {
        if self.collected {
            return Err(CollectorError::AlreadyCollected);
        }
        self.collected = true;
        self.nodes = nodes;
        Ok(())
    }

    /// Marks the file as one that the engine could not evaluate. The error is
    /// the file's own and touches no task.
    pub fn fail(&mut self, error: String)
        ensures
            final(self)@ == old(self)@.failed(error@),
    {
        self.error = Some(error);
    }

    /// Makes the file ready for another evaluation: the path stays, the
    /// suites and the error go.
    pub fn reset(&mut self)
        ensures
            final(self)@ == old(self)@.after_reset(),
    {
        self.collected = false;
        self.nodes = Vec::new();
        self.error = None;
        assert(final(self)@.nodes =~= Seq::empty());
    }

    /// Writes the state of one task. Only the scheduler does so.
    pub(crate) fn set_task_state(&mut self, node: usize, task: usize, state: CollectorState)
        requires
            node < old(self)@.nodes.len(),
            task < old(self)@.nodes[node as int].tasks.len(),
        ensures
            final(self)@ == old(self)@.with_task_state(node as int, task as int, state@),
    {
        self.nodes[node].set_task_state(task, state);
        assert(final(self)@.nodes =~= old(self)@.nodes.update(
            node as int,
            old(self)@.nodes[node as int].with_task_state(task as int, state@),
        ));
    }

    /// Puts a failed hook of suite `node` on record. Only the scheduler does so.
    pub(crate) fn record_hook_failure(&mut self, node: usize, failure: HookFailure)
        requires
            node < old(self)@.nodes.len(),
        ensures
            final(self)@ == old(self)@.with_hook_failure(node as int, failure@),
    {
        self.nodes[node].record_hook_failure(failure);
        assert(final(self)@.nodes =~= old(self)@.nodes.update(
            node as int,
            old(self)@.nodes[node as int].with_hook_failure(failure@),
        ));
    }
}

impl Default for CollectorFile {
    fn default() -> (file: Self)
        ensures
            file@ == FileView::created(Seq::empty()),
    {
        CollectorFile::new(String::new())
    }
}

/// The mathematical value of a [`NodeCollectorManager`].
#[verifier::ext_equal]
pub struct ManagerView {
    /// The tasks registered since the builder was created or reset.
    pub task_queue: Seq<TaskView>,
    /// The suite under construction.
    pub node: NodeView,
    pub has_collected: bool,
    /// The callback that declares the suite's own children, if they are
    /// declared later.
    pub node_factory: Option<TestCallback>,
    pub on_file_level: bool,
}

impl ManagerView {
    /// A builder in which nothing is registered.
    pub open spec fn created(
        identifier: IdentifierView,
        mode: CollectorMode,
        node_factory: Option<TestCallback>,
        on_file_level: bool,
    ) -> ManagerView {
        ManagerView {
            task_queue: Seq::empty(),
            node: NodeView::fresh(identifier, mode),
            has_collected: false,
            node_factory,
            on_file_level,
        }
    }

    /// A builder in which nothing is registered, of a suite that the suite
    /// at index `parent` encloses.
    pub open spec fn created_in(
        identifier: IdentifierView,
        mode: CollectorMode,
        node_factory: Option<TestCallback>,
        parent: usize,
    ) -> ManagerView {
        ManagerView {
            task_queue: Seq::empty(),
            node: NodeView::fresh_in(identifier, mode, Some(parent)),
            has_collected: false,
            node_factory,
            on_file_level: false,
        }
    }

    /// The builder after one more task was registered.
    pub open spec fn register_task(
        self,
        name: Seq<char>,
        callback: TestCallback,
        mode: CollectorMode,
    ) -> ManagerView {
        ManagerView { task_queue: self.task_queue.push(TaskView::pending(name, callback, mode)), ..self }
    }

    /// The builder after one more hook was registered.
    pub open spec fn register_hook(self, hook: LifetimeHook, callback: TestCallback) -> ManagerView {
        ManagerView {
            node: NodeView { hooks: self.node.hooks.add(hook, callback), ..self.node },
            ..self
        }
    }

    /// The suite that freezing hands out: the suite under construction, owned
    /// by the file at `file_path`, with the registered tasks in order, each
    /// tied to this suite and to that file.
    pub open spec fn frozen_node(self, file_path: Seq<char>) -> NodeView {
        NodeView {
            file: Some(file_path),
            tasks: Seq::new(
                self.task_queue.len(),
                |i: int| self.task_queue[i].attached(self.node.identifier, file_path),
            ),
            ..self.node
        }
    }

    /// What `collect_node` answers for the file at `file_path`.
    pub open spec fn collect_result(self, file_path: Seq<char>) -> Result<NodeView, CollectorError> {
        if self.has_collected {
            Err(CollectorError::AlreadyCollected)
        } else {
            Ok(self.frozen_node(file_path))
        }
    }

    /// The builder after `collect_node`: frozen, with its registrations
    /// handed out. A refused call leaves it as it was.
    pub open spec fn after_collect(self) -> ManagerView {
        if self.has_collected {
            self
        } else {
            ManagerView {
                task_queue: Seq::empty(),
                node: NodeView::fresh_in(self.node.identifier, self.node.mode, self.node.parent),
                has_collected: true,
                ..self
            }
        }
    }

    /// What `reset_state` answers.
    pub open spec fn reset_result(self) -> Result<(), CollectorError> {
        if self.on_file_level {
            Ok(())
        } else {
            Err(CollectorError::InvalidReset)
        }
    }

    /// The builder after `reset_state`: not frozen, nothing registered,
    /// identifier and mode as before. A refused call leaves it as it was.
    pub open spec fn after_reset(self) -> ManagerView {
        if self.on_file_level {
            ManagerView {
                task_queue: Seq::empty(),
                node: NodeView::fresh_in(self.node.identifier, self.node.mode, self.node.parent),
                has_collected: false,
                ..self
            }
        } else {
            self
        }
    }
}

/// The builder of one suite. It takes the registrations that the evaluation
/// of a file makes, and freezes them, once, into a suite.
#[derive(Debug)]
pub struct NodeCollectorManager {
    task_queue: Vec<CollectorTask>,
    collector_node: CollectorNode,
    has_collected: bool,
    node_factory: Option<TestCallback>,
    on_file_level: bool,
}

impl View for NodeCollectorManager {
    type V = ManagerView;

    closed spec fn view(&self) -> ManagerView {
        ManagerView {
            task_queue: task_views(self.task_queue@),
            node: self.collector_node@,
            has_collected: self.has_collected,
            node_factory: self.node_factory,
            on_file_level: self.on_file_level,
        }
    }
}

impl NodeCollectorManager {
    /// The builder of the implicit suite of a whole file, in mode `Run`.
    pub fn new_with_file() -> (manager: Self)
        ensures
            manager@ == ManagerView::created(IdentifierView::File, CollectorMode::Run, None, true),
    {
        let mut manager = Self::new(CollectorIdentifier::File, CollectorMode::Run, None);
        manager.on_file_level = true;
        manager
    }

    /// The builder of a suite declared under `identifier`. `node_factory`, if
    /// there is one, is the callback that declares the suite's own children.
    pub fn new(
        identifier: CollectorIdentifier,
        mode: CollectorMode,
        node_factory: Option<TestCallback>,
    ) -> (manager: Self)
        ensures
            manager@ == ManagerView::created(identifier@, mode, node_factory, false),
    {
        let task_queue: Vec<CollectorTask> = Vec::new();
        let collector_node = CollectorNode::new(identifier, mode);
        let manager = NodeCollectorManager {
            collector_node,
            task_queue,
            has_collected: false,
            on_file_level: false,
            node_factory,
        };
        assert(manager@.task_queue =~= Seq::empty());
        manager
    }

    /// The builder of a suite that the suite at index `parent` of the file
    /// encloses.
    pub fn new_nested(
        identifier: CollectorIdentifier,
        mode: CollectorMode,
        node_factory: Option<TestCallback>,
        parent: usize,
    ) -> (manager: Self)
        ensures
            manager@ == ManagerView::created_in(identifier@, mode, node_factory, parent),
    {
        let mut manager = Self::new(identifier, mode, node_factory);
        manager.collector_node.parent = Some(parent);
        manager
    }

    /// The builder of a suite whose children are declared by `factory`.
    pub fn new_with_factory(
        identifier: CollectorIdentifier,
        mode: CollectorMode,
        factory: TestCallback,
    ) -> (manager: Self)
        ensures
            manager@ == ManagerView::created(identifier@, mode, Some(factory), false),
    {
        Self::new(identifier, mode, Some(factory))
    }

    fn should_collect(&self) -> (yes: bool)
        ensures
            yes == !self@.has_collected,
    {
        !self.has_collected
    }

    /// Freezes the registrations into a suite owned by `collector_file` and
    /// hands the suite out. This works once: a second call without a reset
    /// in between is refused with `AlreadyCollected` and changes nothing.
    pub fn collect_node(
        &mut self,
        collector_file: &CollectorFile,
    ) -> (frozen: Result<CollectorNode, CollectorError>)
        ensures
            match frozen {
                Ok(node) => old(self)@.collect_result(collector_file@.file_path) == Ok::<
                    NodeView,
                    CollectorError,
                >(node@),
                Err(error) => old(self)@.collect_result(collector_file@.file_path) == Err::<
                    NodeView,
                    CollectorError,
                >(error),
            },
            final(self)@ == old(self)@.after_collect(),
    {
        if !self.should_collect() {
            return Err(CollectorError::AlreadyCollected);
        }
        self.has_collected = true;

        let ghost before = old(self)@;
        let ghost path = collector_file@.file_path;
        let identifier = self.collector_node.identifier.clone();
        let mut node = CollectorNode::new_in(
            identifier,
            self.collector_node.mode,
            self.collector_node.parent,
        );
        std::mem::swap(&mut self.collector_node, &mut node);
        let mut tasks: Vec<CollectorTask> = Vec::new();
        std::mem::swap(&mut self.task_queue, &mut tasks);
        assert(self@.task_queue =~= Seq::empty());

        let mut i: usize = 0;
        while i < tasks.len()
            invariant
                i <= tasks.len(),
                tasks.len() == before.task_queue.len(),
                path == collector_file@.file_path,
                node@ == before.node,
                forall|j: int|
                    0 <= j < i ==> #[trigger] tasks[j]@ == before.task_queue[j].attached(
                        before.node.identifier,
                        path,
                    ),
                forall|j: int| i <= j < tasks.len() ==> #[trigger] tasks[j]@ == before.task_queue[j],
            decreases tasks.len() - i,
        {
            let identifier = node.identifier.clone();
            let file_path = collector_file.file_path.clone();
            tasks[i].attach(identifier, file_path);
            i += 1;
        }
        node.file = Some(collector_file.file_path.clone());
        node.tasks = tasks;
        assert(node@.tasks =~= before.frozen_node(path).tasks);
        Ok(node)
    }

    /// Appends a task, pending in `mode`, to the registrations. Names are
    /// not checked for uniqueness.
    pub fn register_task(&mut self, name: String, callback: TestCallback, mode: CollectorMode)
        ensures
            final(self)@ == old(self)@.register_task(name@, callback, mode),
    {
        let created_task = CollectorTask::new(name, callback, mode);
        self.task_queue.push(created_task);
        assert(final(self)@.task_queue =~= old(self)@.task_queue.push(
            TaskView::pending(name@, callback, mode),
        ));
    }

    /// Appends `callback` to the hooks of kind `hook_key`.
    pub fn register_lifetime_hook(&mut self, hook_key: LifetimeHook, callback: TestCallback)
        ensures
            final(self)@ == old(self)@.register_hook(hook_key, callback),
    {
        self.collector_node.hook_manager.add_hook(hook_key, callback);
    }

    /// Registers a task whose mode comes as a label. A label that names no
    /// mode is refused with `InvalidModeValue`, and nothing is registered.
    pub fn register_labelled_task(
        &mut self,
        name: String,
        callback: TestCallback,
        mode_label: String,
    ) -> (done: Result<(), CollectorError>)
        ensures
            match CollectorMode::of_label(mode_label@) {
                Some(mode) => done == Ok::<(), CollectorError>(()) && final(self)@ == old(
                    self,
                )@.register_task(name@, callback, mode),
                None => done == Err::<(), CollectorError>(CollectorError::InvalidModeValue)
                    && final(self)@ == old(self)@,
            },
    {
        match CollectorMode::from_label(mode_label) {
            Ok(mode) => {
                self.register_task(name, callback, mode);
                Ok(())
            },
            Err(error) => Err(error),
        }
    }

    /// Registers a hook whose kind comes as a label. A label that names none
    /// of the four hooks is refused with `InvalidHookKind`, and nothing is
    /// registered.
    pub fn register_labelled_hook(
        &mut self,
        hook_label: String,
        callback: TestCallback,
    ) -> (done: Result<(), CollectorError>)
        ensures
            match LifetimeHook::of_label(hook_label@) {
                Some(hook) => done == Ok::<(), CollectorError>(()) && final(self)@ == old(
                    self,
                )@.register_hook(hook, callback),
                None => done == Err::<(), CollectorError>(CollectorError::InvalidHookKind)
                    && final(self)@ == old(self)@,
            },
    {
        match LifetimeHook::from_label(hook_label) {
            Ok(hook) => {
                self.register_lifetime_hook(hook, callback);
                Ok(())
            },
            Err(error) => Err(error),
        }
    }

    /// Makes the builder of a whole file ready for another evaluation: the
    /// registrations go, the builder is no longer frozen, identifier and mode
    /// stay. On any other builder the call is refused with `InvalidReset`
    /// and changes nothing.
    pub fn reset_state(&mut self) -> (done: Result<(), CollectorError>)
        ensures
            done == old(self)@.reset_result(),
            final(self)@ == old(self)@.after_reset(),
    {
        if !self.on_file_level {
            return Err(CollectorError::InvalidReset);
        }
        self.task_queue.clear();
        self.has_collected = false;

        let identifier = self.collector_node.identifier.clone();
        let mode = self.collector_node.mode;
        let parent = self.collector_node.parent;
        self.collector_node = CollectorNode::new_in(identifier, mode, parent);
        assert(final(self)@.task_queue =~= Seq::empty());
        Ok(())
    }

    /// The callback that declares the suite's own children, if there is one.
    pub fn get_node_factory(&self) -> (factory: Option<TestCallback>)
        ensures
            factory == self@.node_factory,
    {
        self.node_factory
    }

    /// Whether the registrations were frozen and not reset since.
    pub fn has_collected(&self) -> (yes: bool)
        ensures
            yes == self@.has_collected,
    {
        self.has_collected
    }

    /// Whether this is the builder of a whole file.
    pub fn on_file_level(&self) -> (yes: bool)
        ensures
            yes == self@.on_file_level,
    {
        self.on_file_level
    }

    /// How many tasks are registered and not yet frozen.
    pub fn pending_tasks(&self) -> (count: usize)
        ensures
            count == self@.task_queue.len(),
    {
        self.task_queue.len()
    }
}

impl Default for NodeCollectorManager {
    fn default() -> (manager: Self)
        ensures
            manager@ == ManagerView::created(IdentifierView::File, CollectorMode::Run, None, true),
    {
        NodeCollectorManager::new_with_file()
    }
}

/// Freezing twice without a reset in between fails the second time with
/// `AlreadyCollected`, whatever the builder held and whichever files the two
/// calls name.
pub proof fn lemma_second_collect_is_refused(
    manager: ManagerView,
    first_path: Seq<char>,
    second_path: Seq<char>,
)
    ensures
        manager.after_collect().collect_result(second_path) == Err::<NodeView, CollectorError>(
            CollectorError::AlreadyCollected,
        ),
        manager.after_collect().after_collect() == manager.after_collect(),
{
}

/// After a reset, the builder of a whole file can be frozen again, and the
/// suite that it then hands out holds no task and no hook.
pub proof fn lemma_collect_succeeds_after_reset(manager: ManagerView, file_path: Seq<char>)
    requires
        manager.on_file_level,
    ensures
        manager.after_reset().collect_result(file_path) is Ok,
        manager.after_reset().collect_result(file_path) == Ok::<NodeView, CollectorError>(
            NodeView {
                file: Some(file_path),
                ..NodeView::fresh_in(
                    manager.node.identifier,
                    manager.node.mode,
                    manager.node.parent,
                )
            },
        ),
{
    assert(manager.after_reset().frozen_node(file_path).tasks =~= Seq::empty());
}

/// A reset of the builder of a whole file yields a builder that is not
/// frozen and holds no task, with the identifier and the mode that it had.
pub proof fn lemma_reset_yields_fresh_builder(manager: ManagerView)
    requires
        manager.on_file_level,
    ensures
        manager.reset_result() is Ok,
        !manager.after_reset().has_collected,
        manager.after_reset().task_queue.len() == 0,
        manager.after_reset().node.identifier == manager.node.identifier,
        manager.after_reset().node.mode == manager.node.mode,
        manager.after_reset().node.parent == manager.node.parent,
{
}

} // verus!
