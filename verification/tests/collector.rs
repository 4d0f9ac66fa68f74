use kurtex_core::collector::{
    CollectorFile, CollectorIdentifier, CollectorNode, CollectorTask, NodeCollectorManager,
};
use kurtex_core::error::CollectorError;
use kurtex_core::hooks::{LifetimeHook, LifetimeHookManager, TestCallback};
use kurtex_core::mode::{CollectorMode, CollectorState};

fn callback(handle: u64) -> TestCallback {
    TestCallback { handle }
}

fn named(name: &str) -> CollectorIdentifier {
    CollectorIdentifier::Custom(name.to_string())
}

#[test]
fn mode_labels_are_read() {
    assert_eq!(CollectorMode::from_label("run".to_string()), Ok(CollectorMode::Run));
    assert_eq!(CollectorMode::from_label("skip".to_string()), Ok(CollectorMode::Skip));
    assert_eq!(CollectorMode::from_label("only".to_string()), Ok(CollectorMode::Only));
    assert_eq!(CollectorMode::from_label("todo".to_string()), Ok(CollectorMode::Todo));
}

#[test]
fn unknown_mode_label_is_refused() {
    assert_eq!(
        CollectorMode::from_label("sometimes".to_string()),
        Err(CollectorError::InvalidModeValue)
    );
    assert_eq!(CollectorMode::from_label("Run".to_string()), Err(CollectorError::InvalidModeValue));
    assert_eq!(CollectorMode::from_label(String::new()), Err(CollectorError::InvalidModeValue));
}

#[test]
fn default_mode_is_run() {
    assert_eq!(CollectorMode::default(), CollectorMode::Run);
}

#[test]
fn run_and_only_are_the_runnable_modes() {
    assert!(CollectorMode::Run.runnable());
    assert!(CollectorMode::Only.runnable());
    assert!(!CollectorMode::Skip.runnable());
    assert!(!CollectorMode::Todo.runnable());
}

#[test]
fn hook_labels_are_read() {
    assert_eq!(LifetimeHook::from_label("beforeAll".to_string()), Ok(LifetimeHook::BeforeAll));
    assert_eq!(LifetimeHook::from_label("afterAll".to_string()), Ok(LifetimeHook::AfterAll));
    assert_eq!(LifetimeHook::from_label("beforeEach".to_string()), Ok(LifetimeHook::BeforeEach));
    assert_eq!(LifetimeHook::from_label("afterEach".to_string()), Ok(LifetimeHook::AfterEach));
}

#[test]
fn unknown_hook_label_is_refused() {
    assert_eq!(
        LifetimeHook::from_label("beforeall".to_string()),
        Err(CollectorError::InvalidHookKind)
    );
    assert_eq!(LifetimeHook::from_label("around".to_string()), Err(CollectorError::InvalidHookKind));
}

#[test]
fn error_messages_differ_by_kind() {
    assert_eq!(
        CollectorError::AlreadyCollected.message(),
        "collector node has been already collected"
    );
    assert_eq!(
        CollectorError::InvalidReset.message(),
        "resetting state is only allowed on a file level collector"
    );
    assert_eq!(CollectorError::InvalidHookKind.message(), "wrong lifetime hook method");
    assert_eq!(CollectorError::InvalidModeValue.message(), "invalid collector run mode");
}

#[test]
fn state_clone_keeps_the_error() {
    let failed = CollectorState::Fail("boom".to_string());
    assert!(matches!(failed.clone(), CollectorState::Fail(error) if error == "boom"));
    assert!(matches!(CollectorState::Pass.clone(), CollectorState::Pass));
    assert!(matches!(
        CollectorState::Custom(CollectorMode::Todo).clone(),
        CollectorState::Custom(CollectorMode::Todo)
    ));
}

#[test]
fn new_hook_manager_has_four_empty_lists() {
    let manager = LifetimeHookManager::new();
    assert!(manager.get(LifetimeHook::BeforeAll).is_empty());
    assert!(manager.get(LifetimeHook::AfterAll).is_empty());
    assert!(manager.get(LifetimeHook::BeforeEach).is_empty());
    assert!(manager.get(LifetimeHook::AfterEach).is_empty());
    let by_default = LifetimeHookManager::default();
    assert!(by_default.get(LifetimeHook::AfterEach).is_empty());
}

#[test]
fn hooks_keep_registration_order_and_duplicates() {
    let mut manager = LifetimeHookManager::new();
    manager.add_hook(LifetimeHook::BeforeEach, callback(5));
    manager.add_hook(LifetimeHook::BeforeEach, callback(2));
    manager.add_hook(LifetimeHook::AfterAll, callback(9));
    manager.add_hook(LifetimeHook::BeforeEach, callback(5));
    assert_eq!(
        manager.get(LifetimeHook::BeforeEach),
        &vec![callback(5), callback(2), callback(5)]
    );
    assert_eq!(manager.get(LifetimeHook::AfterAll), &vec![callback(9)]);
    assert!(manager.get(LifetimeHook::BeforeAll).is_empty());
    assert!(manager.get(LifetimeHook::AfterEach).is_empty());
}

#[test]
fn identifier_label_of_file_is_a_fixed_marker() {
    assert_eq!(CollectorIdentifier::File.label(), "$$file");
    assert_eq!(named("math").label(), "math");
    assert!(CollectorIdentifier::File.is_file());
    assert!(!named("math").is_file());
    assert!(CollectorIdentifier::default().is_file());
    assert_eq!(named("math").clone().label(), "math");
}

#[test]
fn new_task_is_pending_in_its_mode() {
    let task = CollectorTask::new("adds".to_string(), callback(4), CollectorMode::Todo);
    assert_eq!(task.name(), "adds");
    assert_eq!(task.mode(), CollectorMode::Todo);
    assert_eq!(task.callback(), callback(4));
    assert!(matches!(task.state(), CollectorState::Custom(CollectorMode::Todo)));
    assert!(task.node().is_none());
    assert!(task.file().is_none());
}

#[test]
fn new_node_is_empty() {
    let node = CollectorNode::new(named("math"), CollectorMode::Only);
    assert_eq!(node.identifier().label(), "math");
    assert_eq!(node.mode(), CollectorMode::Only);
    assert!(node.tasks().is_empty());
    assert!(node.file().is_none());
    assert!(node.hook_failures().is_empty());
    assert!(node.hooks(LifetimeHook::BeforeAll).is_empty());
}

#[test]
fn file_builder_starts_unfrozen_in_mode_run() {
    let manager = NodeCollectorManager::new_with_file();
    assert!(manager.on_file_level());
    assert!(!manager.has_collected());
    assert_eq!(manager.pending_tasks(), 0);
    assert_eq!(manager.get_node_factory(), None);
    let by_default = NodeCollectorManager::default();
    assert!(by_default.on_file_level());
}

#[test]
fn nested_builder_names_the_enclosing_suite() {
    let file = CollectorFile::new("a.test.ts".to_string());
    let mut manager =
        NodeCollectorManager::new_nested(named("inner"), CollectorMode::Run, Some(callback(5)), 3);
    assert!(!manager.on_file_level());
    assert_eq!(manager.get_node_factory(), Some(callback(5)));
    let node = manager.collect_node(&file).expect("collect");
    assert_eq!(node.parent(), Some(3));
    let plain = CollectorNode::new(named("plain"), CollectorMode::Run);
    assert_eq!(plain.parent(), None);
    let nested = CollectorNode::new_in(named("nested"), CollectorMode::Skip, Some(7));
    assert_eq!(nested.parent(), Some(7));
    assert_eq!(nested.mode(), CollectorMode::Skip);
}

#[test]
fn suite_builder_keeps_its_factory() {
    let plain = NodeCollectorManager::new(named("math"), CollectorMode::Skip, None);
    assert!(!plain.on_file_level());
    assert_eq!(plain.get_node_factory(), None);
    let deferred =
        NodeCollectorManager::new_with_factory(named("math"), CollectorMode::Run, callback(11));
    assert!(!deferred.on_file_level());
    assert_eq!(deferred.get_node_factory(), Some(callback(11)));
}

#[test]
fn collect_node_twice_is_refused() {
    let file = CollectorFile::new("a.test.ts".to_string());
    let mut manager = NodeCollectorManager::new_with_file();
    manager.register_task("first".to_string(), callback(1), CollectorMode::Run);
    let node = manager.collect_node(&file).expect("first collect");
    assert_eq!(node.tasks().len(), 1);
    assert!(manager.has_collected());
    assert_eq!(manager.collect_node(&file).err(), Some(CollectorError::AlreadyCollected));
    assert_eq!(manager.collect_node(&file).err(), Some(CollectorError::AlreadyCollected));
    assert!(manager.has_collected());
}

#[test]
fn collect_node_succeeds_again_after_reset() {
    let file = CollectorFile::new("a.test.ts".to_string());
    let mut manager = NodeCollectorManager::new_with_file();
    manager.register_task("first".to_string(), callback(1), CollectorMode::Run);
    assert!(manager.collect_node(&file).is_ok());
    assert_eq!(manager.reset_state(), Ok(()));
    let node = manager.collect_node(&file).expect("collect after reset");
    assert_eq!(node.tasks().len(), 0);
    assert!(node.identifier().is_file());
    assert_eq!(node.mode(), CollectorMode::Run);
}

#[test]
fn reset_clears_queue_and_keeps_identity() {
    let mut manager = NodeCollectorManager::new_with_file();
    manager.register_task("first".to_string(), callback(1), CollectorMode::Run);
    manager.register_task("second".to_string(), callback(2), CollectorMode::Skip);
    manager.register_lifetime_hook(LifetimeHook::AfterEach, callback(3));
    assert_eq!(manager.pending_tasks(), 2);
    assert_eq!(manager.reset_state(), Ok(()));
    assert!(!manager.has_collected());
    assert!(manager.on_file_level());
    assert_eq!(manager.pending_tasks(), 0);
    let file = CollectorFile::new("a.test.ts".to_string());
    let node = manager.collect_node(&file).expect("collect");
    assert!(node.identifier().is_file());
    assert_eq!(node.mode(), CollectorMode::Run);
    assert!(node.tasks().is_empty());
    assert!(node.hooks(LifetimeHook::AfterEach).is_empty());
}

#[test]
fn reset_of_a_suite_builder_is_refused() {
    let mut manager = NodeCollectorManager::new(named("math"), CollectorMode::Run, None);
    manager.register_task("first".to_string(), callback(1), CollectorMode::Run);
    assert_eq!(manager.reset_state(), Err(CollectorError::InvalidReset));
    assert_eq!(manager.pending_tasks(), 1);
    assert!(!manager.has_collected());
    let file = CollectorFile::new("a.test.ts".to_string());
    assert!(manager.collect_node(&file).is_ok());
    assert_eq!(manager.reset_state(), Err(CollectorError::InvalidReset));
    assert!(manager.has_collected());
}

#[test]
fn frozen_tasks_point_back_to_suite_and_file() {
    let file = CollectorFile::new("dir/b.test.ts".to_string());
    let mut manager = NodeCollectorManager::new(named("math"), CollectorMode::Run, None);
    manager.register_task("adds".to_string(), callback(7), CollectorMode::Skip);
    manager.register_task("subtracts".to_string(), callback(8), CollectorMode::Run);
    manager.register_lifetime_hook(LifetimeHook::BeforeAll, callback(3));
    let node = manager.collect_node(&file).expect("collect");
    assert_eq!(node.file().map(|path| path.as_str()), Some("dir/b.test.ts"));
    assert_eq!(node.identifier().label(), "math");
    assert_eq!(node.tasks().len(), 2);
    let task = &node.tasks()[0];
    assert_eq!(task.name(), "adds");
    assert_eq!(task.callback(), callback(7));
    assert_eq!(task.mode(), CollectorMode::Skip);
    assert_eq!(task.file().map(|path| path.as_str()), Some("dir/b.test.ts"));
    assert_eq!(task.node().map(|identifier| identifier.label()), Some("math".to_string()));
    assert!(matches!(task.state(), CollectorState::Custom(CollectorMode::Skip)));
    let other = &node.tasks()[1];
    assert_eq!(other.name(), "subtracts");
    assert_eq!(other.node().map(|identifier| identifier.label()), Some("math".to_string()));
    assert!(matches!(other.state(), CollectorState::Custom(CollectorMode::Run)));
    assert_eq!(node.hooks(LifetimeHook::BeforeAll), &vec![callback(3)]);
    assert!(node.hooks(LifetimeHook::AfterAll).is_empty());
}

#[test]
fn task_names_need_not_be_unique() {
    let file = CollectorFile::new("a.test.ts".to_string());
    let mut manager = NodeCollectorManager::new_with_file();
    manager.register_task("same".to_string(), callback(1), CollectorMode::Run);
    manager.register_task("same".to_string(), callback(2), CollectorMode::Run);
    let node = manager.collect_node(&file).expect("collect");
    assert_eq!(node.tasks().len(), 2);
    assert_eq!(node.tasks()[0].callback(), callback(1));
    assert_eq!(node.tasks()[1].callback(), callback(2));
}

#[test]
fn labelled_registration_reads_the_label() {
    let file = CollectorFile::new("a.test.ts".to_string());
    let mut manager = NodeCollectorManager::new_with_file();
    assert_eq!(
        manager.register_labelled_task("adds".to_string(), callback(1), "only".to_string()),
        Ok(())
    );
    assert_eq!(manager.register_labelled_hook("afterEach".to_string(), callback(2)), Ok(()));
    let node = manager.collect_node(&file).expect("collect");
    assert_eq!(node.tasks()[0].mode(), CollectorMode::Only);
    assert_eq!(node.hooks(LifetimeHook::AfterEach), &vec![callback(2)]);
}

#[test]
fn labelled_registration_refuses_unknown_labels() {
    let mut manager = NodeCollectorManager::new_with_file();
    assert_eq!(
        manager.register_labelled_task("adds".to_string(), callback(1), "never".to_string()),
        Err(CollectorError::InvalidModeValue)
    );
    assert_eq!(
        manager.register_labelled_hook("onStart".to_string(), callback(2)),
        Err(CollectorError::InvalidHookKind)
    );
    assert_eq!(manager.pending_tasks(), 0);
    let file = CollectorFile::new("a.test.ts".to_string());
    let node = manager.collect_node(&file).expect("collect");
    assert!(node.tasks().is_empty());
    assert!(node.hooks(LifetimeHook::BeforeAll).is_empty());
    assert!(node.hooks(LifetimeHook::AfterAll).is_empty());
    assert!(node.hooks(LifetimeHook::BeforeEach).is_empty());
    assert!(node.hooks(LifetimeHook::AfterEach).is_empty());
}

#[test]
fn file_takes_its_suites_once() {
    let mut file = CollectorFile::new("a.test.ts".to_string());
    assert_eq!(file.file_path(), "a.test.ts");
    assert!(!file.collected());
    assert!(file.nodes().is_empty());
    assert!(file.error().is_none());

    let mut manager = NodeCollectorManager::new_with_file();
    manager.register_task("first".to_string(), callback(1), CollectorMode::Run);
    let node = manager.collect_node(&file).expect("collect");
    assert_eq!(file.collect(vec![node]), Ok(()));
    assert!(file.collected());
    assert_eq!(file.nodes().len(), 1);

    assert_eq!(file.collect(Vec::new()), Err(CollectorError::AlreadyCollected));
    assert_eq!(file.nodes().len(), 1);
}

#[test]
fn file_reset_keeps_only_the_path() {
    let mut file = CollectorFile::new("a.test.ts".to_string());
    let mut manager = NodeCollectorManager::new_with_file();
    let node = manager.collect_node(&file).expect("collect");
    assert_eq!(file.collect(vec![node]), Ok(()));
    file.fail("cannot evaluate".to_string());
    assert_eq!(file.error().map(|error| error.as_str()), Some("cannot evaluate"));
    file.reset();
    assert_eq!(file.file_path(), "a.test.ts");
    assert!(!file.collected());
    assert!(file.nodes().is_empty());
    assert!(file.error().is_none());
    assert_eq!(file.collect(Vec::new()), Ok(()));
}

#[test]
fn default_file_has_an_empty_path() {
    let file = CollectorFile::default();
    assert_eq!(file.file_path(), "");
    assert!(!file.collected());
}
