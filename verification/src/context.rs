//! The builders of one file, kept together while the file is evaluated.

use crate::collector::{
    node_views, CollectorFile, CollectorIdentifier, CollectorNode, FileView, IdentifierView,
    ManagerView, NodeCollectorManager,
};
use crate::error::CollectorError;
use crate::hooks::{LifetimeHook, TestCallback};
use crate::mode::CollectorMode;
use vstd::prelude::*;
use vstd::string::*;

verus! {

/// The values of a list of builders, in order.
pub open spec fn manager_views(managers: Seq<NodeCollectorManager>) -> Seq<ManagerView> {
    Seq::new(managers.len(), |i: int| managers[i]@)
}

/// The place of the first builder, from `from` on, whose suite has its
/// children declared by a callback; the number of builders if there is none.
pub open spec fn first_deferred(managers: Seq<ManagerView>, from: int) -> int
    decreases managers.len() - from,
{
    if from >= managers.len() {
        managers.len() as int
    } else if from >= 0 && managers[from].node_factory is Some {
        from
    } else {
        first_deferred(managers, from + 1)
    }
}

/// The mathematical value of a [`CollectorContext`].
#[verifier::ext_equal]
pub struct ContextView {
    pub file_path: Seq<char>,
    /// The builder of the file itself, then those of the declared suites in
    /// the order of their declaration.
    pub managers: Seq<ManagerView>,
    /// The builder that takes the registrations.
    pub current: usize,
    /// The builders before this place have had their deferred body handed
    /// out, if they had one.
    pub deferred_from: usize,
}

impl ContextView {
    /// The collection of a file as it begins: one builder, that of the file.
    pub open spec fn created(file_path: Seq<char>) -> ContextView {
        ContextView {
            file_path,
            managers: seq![
                ManagerView::created(IdentifierView::File, CollectorMode::Run, None, true),
            ],
            current: 0,
            deferred_from: 1,
        }
    }

    /// After a task was registered: the current builder has it.
    pub open spec fn register_task(
        self,
        name: Seq<char>,
        callback: TestCallback,
        mode: CollectorMode,
    ) -> ContextView {
        ContextView {
            managers: self.managers.update(
                self.current as int,
                self.managers[self.current as int].register_task(name, callback, mode),
            ),
            ..self
        }
    }

    /// After a hook was registered: the current builder has it.
    pub open spec fn register_hook(self, hook: LifetimeHook, callback: TestCallback) -> ContextView {
        ContextView {
            managers: self.managers.update(
                self.current as int,
                self.managers[self.current as int].register_hook(hook, callback),
            ),
            ..self
        }
    }

    /// After a suite was declared: it has a builder of its own, the last,
    /// and the suite whose body declared it encloses it.
    pub open spec fn declare_suite(
        self,
        identifier: IdentifierView,
        mode: CollectorMode,
        node_factory: Option<TestCallback>,
    ) -> ContextView {
        ContextView {
            managers: self.managers.push(
                ManagerView::created_in(identifier, mode, node_factory, self.current),
            ),
            ..self
        }
    }

    /// The deferred body that is to be invoked next, if one is left.
    pub open spec fn next_deferred(self) -> Option<TestCallback> {
        let at = first_deferred(self.managers, self.deferred_from as int);
        if at < self.managers.len() {
            self.managers[at].node_factory
        } else {
            None
        }
    }

    /// After the next deferred body was handed out: its suite takes the
    /// registrations. Once none is left, the builder of the file takes them
    /// again.
    pub open spec fn after_next_deferred(self) -> ContextView {
        let at = first_deferred(self.managers, self.deferred_from as int);
        if at < self.managers.len() {
            ContextView { current: at as usize, deferred_from: (at + 1) as usize, ..self }
        } else {
            ContextView { current: 0, deferred_from: self.managers.len() as usize, ..self }
        }
    }

    /// Whether the registrations were frozen and not reset since.
    pub open spec fn finalized(self) -> bool {
        self.managers[0].has_collected
    }

    /// The file that freezing hands out: the suite of the file first, then
    /// the declared suites in the order of their declaration.
    pub open spec fn frozen_file(self) -> FileView {
        FileView {
            file_path: self.file_path,
            collected: true,
            nodes: Seq::new(
                self.managers.len(),
                |i: int| self.managers[i].frozen_node(self.file_path),
            ),
            error: None,
        }
    }

    /// What `finalize` answers.
    pub open spec fn finalize_result(self) -> Result<FileView, CollectorError> {
        if self.finalized() {
            Err(CollectorError::AlreadyCollected)
        } else {
            Ok(self.frozen_file())
        }
    }

    /// After `finalize`: every builder is frozen. A refused call changes
    /// nothing.
    pub open spec fn after_finalize(self) -> ContextView {
        if self.finalized() {
            self
        } else {
            ContextView {
                managers: Seq::new(self.managers.len(), |i: int| self.managers[i].after_collect()),
                ..self
            }
        }
    }

    /// After `reset`: the builder of the file alone, reset.
    pub open spec fn after_reset(self) -> ContextView {
        ContextView {
            file_path: self.file_path,
            managers: seq![self.managers[0].after_reset()],
            current: 0,
            deferred_from: 1,
        }
    }

    /// What a context always holds: the builder of the file comes first, the
    /// current builder is one of them, and no builder is frozen unless that
    /// of the file is.
    pub open spec fn well_formed(self) -> bool {
        &&& 1 <= self.managers.len() <= usize::MAX
        &&& self.managers[0].on_file_level
        &&& 0 <= self.current < self.managers.len()
        &&& 1 <= self.deferred_from <= self.managers.len()
        &&& forall|i: int|
            0 <= i < self.managers.len() && (#[trigger] self.managers[i]).has_collected
                ==> self.managers[0].has_collected
    }
}

/// The collection of one file while the engine evaluates it. It holds the
/// builder of the file and one builder for each suite that the file
/// declares, takes the registrations for the builder whose body is being
/// evaluated, and hands out the deferred bodies of the declared suites one
/// by one, so that each is evaluated before the file is frozen.
#[derive(Debug)]
pub struct CollectorContext {
    file_path: String,
    managers: Vec<NodeCollectorManager>,
    current: usize,
    deferred_from: usize,
}

impl View for CollectorContext {
    type V = ContextView;

    closed spec fn view(&self) -> ContextView {
        ContextView {
            file_path: self.file_path@,
            managers: manager_views(self.managers@),
            current: self.current,
            deferred_from: self.deferred_from,
        }
    }
}

impl CollectorContext {
    /// Begins the collection of the file at `file_path`.
    pub fn new(file_path: String) -> (context: Self)
        ensures
            context@ == ContextView::created(file_path@),
            context@.well_formed(),
    {
        let mut managers: Vec<NodeCollectorManager> = Vec::new();
        managers.push(NodeCollectorManager::new_with_file());
        let context = CollectorContext { file_path, managers, current: 0, deferred_from: 1 };
        assert(context@.managers =~= ContextView::created(file_path@).managers);
        context
    }

    pub fn file_path(&self) -> (file_path: &String)
        ensures
            file_path@ == self@.file_path,
    {
        &self.file_path
    }

    /// How many builders there are: that of the file and one for each
    /// declared suite.
    pub fn suite_count(&self) -> (count: usize)
        ensures
            count == self@.managers.len(),
    {
        self.managers.len()
    }

    /// Registers a task with the builder whose body is being evaluated.
    pub fn register_task(&mut self, name: String, callback: TestCallback, mode: CollectorMode)
        requires
            old(self)@.well_formed(),
        ensures
            final(self)@ == old(self)@.register_task(name@, callback, mode),
            final(self)@.well_formed(),
    {
        let current = self.current;
        self.managers[current].register_task(name, callback, mode);
        assert(final(self)@.managers =~= old(self)@.register_task(name@, callback, mode).managers);
    }

    /// Registers a hook with the builder whose body is being evaluated.
    pub fn register_lifetime_hook(&mut self, hook_key: LifetimeHook, callback: TestCallback)
        requires
            old(self)@.well_formed(),
        ensures
            final(self)@ == old(self)@.register_hook(hook_key, callback),
            final(self)@.well_formed(),
    {
        let current = self.current;
        self.managers[current].register_lifetime_hook(hook_key, callback);
        assert(final(self)@.managers =~= old(self)@.register_hook(hook_key, callback).managers);
    }

    /// Declares a suite. The suite whose body is being evaluated encloses it.
    /// `node_factory`, if there is one, is the body that declares what the
    /// suite holds; it is handed out later by `next_deferred`.
    pub fn declare_suite(
        &mut self,
        identifier: CollectorIdentifier,
        mode: CollectorMode,
        node_factory: Option<TestCallback>,
    )
        requires
            old(self)@.well_formed(),
        ensures
            final(self)@ == old(self)@.declare_suite(identifier@, mode, node_factory),
            final(self)@.well_formed(),
    {
        let parent = self.current;
        self.managers.push(NodeCollectorManager::new_nested(identifier, mode, node_factory, parent));
        assert(self.managers@.len() == self.managers.len());
        assert(final(self)@.managers =~= old(self)@.declare_suite(
            identifier@,
            mode,
            node_factory,
        ).managers);
    }

    /// Hands out the next deferred body, in the order in which the suites
    /// were declared, and makes its suite the one that takes the
    /// registrations. The caller invokes the body in the engine and then
    /// asks again. Once no body is left, the builder of the file takes the
    /// registrations again and nothing is handed out.
    pub fn next_deferred(&mut self) -> (body: Option<TestCallback>)
        requires
            old(self)@.well_formed(),
        ensures
            body == old(self)@.next_deferred(),
            final(self)@ == old(self)@.after_next_deferred(),
            final(self)@.well_formed(),
    {
        let mut at: usize = self.deferred_from;
        while at < self.managers.len()
            invariant
                self.deferred_from <= at <= self.managers.len(),
                *self == *old(self),
                old(self)@.well_formed(),
                first_deferred(self@.managers, self.deferred_from as int) == first_deferred(
                    self@.managers,
                    at as int,
                ),
            decreases self.managers.len() - at,
        {
            let factory = self.managers[at].get_node_factory();
            if factory.is_some() {
                self.current = at;
                self.deferred_from = at + 1;
                return factory;
            }
            at += 1;
        }
        self.current = 0;
        self.deferred_from = self.managers.len();
        None
    }

    /// Freezes every builder into its suite and hands out the file that
    /// holds them. This works once: a second call without a reset in between
    /// is refused with `AlreadyCollected` and changes nothing.
    pub fn finalize(&mut self) -> (frozen: Result<CollectorFile, CollectorError>)
        requires
            old(self)@.well_formed(),
        ensures
            match frozen {
                Ok(file) => old(self)@.finalize_result() == Ok::<FileView, CollectorError>(file@),
                Err(error) => old(self)@.finalize_result() == Err::<FileView, CollectorError>(error),
            },
            final(self)@ == old(self)@.after_finalize(),
            final(self)@.well_formed(),
    {
        if self.managers[0].has_collected() {
            return Err(CollectorError::AlreadyCollected);
        }
        let ghost before = self@;
        let mut file = CollectorFile::new(self.file_path.clone());
        let mut nodes: Vec<CollectorNode> = Vec::new();
        let mut i: usize = 0;
        while i < self.managers.len()
            invariant
                i <= self.managers.len(),
                before == old(self)@,
                before.well_formed(),
                !before.finalized(),
                file@ == FileView::created(before.file_path),
                self@.file_path == before.file_path,
                self@.current == before.current,
                self@.deferred_from == before.deferred_from,
                self@.managers.len() == before.managers.len(),
                nodes@.len() == i,
                forall|j: int| 0 <= j < i ==> (#[trigger] nodes@[j])@ == before.managers[j].frozen_node(
                    before.file_path,
                ),
                forall|j: int|
                    0 <= j < i ==> #[trigger] self@.managers[j] == before.managers[j].after_collect(),
                forall|j: int|
                    i <= j < self@.managers.len() ==> #[trigger] self@.managers[j]
                        == before.managers[j],
            decreases self.managers.len() - i,
        {
            let ghost earlier = self@.managers;
            assert(earlier[i as int] == before.managers[i as int]);
            assert(self.managers@[i as int]@ == earlier[i as int]);
            assert(!before.managers[i as int].has_collected);
            let collected = self.managers[i].collect_node(&file);
            assert(self.managers@[i as int]@ == before.managers[i as int].after_collect());
            assert(self@.managers =~= earlier.update(
                i as int,
                before.managers[i as int].after_collect(),
            ));
            match collected {
                Ok(node) => {
                    nodes.push(node);
                },
                Err(_) => {
                    vstd::pervasive::unreached::<()>();
                },
            }
            i += 1;
        }
        assert(node_views(nodes@) =~= before.frozen_file().nodes);
        assert(self@.managers =~= before.after_finalize().managers);
        match file.collect(nodes) {
            Ok(()) => Ok(file),
            Err(error) => Err(error),
        }
    }

    /// Whether the registrations were frozen and not reset since.
    pub fn finalized(&self) -> (yes: bool)
        requires
            self@.well_formed(),
        ensures
            yes == self@.finalized(),
    {
        self.managers[0].has_collected()
    }

    /// Makes the context ready for another evaluation of the same file: the
    /// declared suites go, and the builder of the file is reset.
    pub fn reset(&mut self)
        requires
            old(self)@.well_formed(),
        ensures
            final(self)@ == old(self)@.after_reset(),
            final(self)@.well_formed(),
    {
        self.managers.truncate(1);
        let done = self.managers[0].reset_state();
        assert(done is Ok);
        self.current = 0;
        self.deferred_from = 1;
        assert(final(self)@.managers =~= old(self)@.after_reset().managers);
    }
}

} // verus!
