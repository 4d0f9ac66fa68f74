use kurtex_core::collector::{CollectorFile, CollectorIdentifier, CollectorNode, NodeCollectorManager};
use kurtex_core::hooks::{LifetimeHook, TestCallback};
use kurtex_core::mode::{CollectorMode, CollectorState};
use kurtex_core::plan::{
    build_plan, effective_node_modes, enclosing_suite, file_has_only, node_has_only_task,
    node_mode_in_effect, task_mode_in_effect, ExecutionStep, StepKind,
};
use kurtex_core::scheduler::{InvocationOutcome, Scheduler, SchedulerAction};

fn callback(handle: u64) -> TestCallback {
    TestCallback { handle }
}

struct SuiteSketch {
    identifier: CollectorIdentifier,
    mode: CollectorMode,
    parent: Option<usize>,
    tasks: Vec<(u64, CollectorMode)>,
    hooks: Vec<(LifetimeHook, u64)>,
}

fn root(tasks: Vec<(u64, CollectorMode)>, hooks: Vec<(LifetimeHook, u64)>) -> SuiteSketch {
    SuiteSketch {
        identifier: CollectorIdentifier::File,
        mode: CollectorMode::Run,
        parent: None,
        tasks,
        hooks,
    }
}

fn suite(
    name: &str,
    mode: CollectorMode,
    tasks: Vec<(u64, CollectorMode)>,
    hooks: Vec<(LifetimeHook, u64)>,
) -> SuiteSketch {
    SuiteSketch {
        identifier: CollectorIdentifier::Custom(name.to_string()),
        mode,
        parent: None,
        tasks,
        hooks,
    }
}

fn inside(parent: usize, sketch: SuiteSketch) -> SuiteSketch {
    SuiteSketch { parent: Some(parent), ..sketch }
}

fn freeze(file: &CollectorFile, sketch: SuiteSketch) -> CollectorNode {
    let mut manager = match sketch.parent {
        Some(parent) => {
            NodeCollectorManager::new_nested(sketch.identifier, sketch.mode, None, parent)
        }
        None => NodeCollectorManager::new(sketch.identifier, sketch.mode, None),
    };
    for (handle, mode) in sketch.tasks {
        manager.register_task(format!("task {}", handle), callback(handle), mode);
    }
    for (hook, handle) in sketch.hooks {
        manager.register_lifetime_hook(hook, callback(handle));
    }
    manager.collect_node(file).expect("a new builder can be frozen")
}

fn file_of(suites: Vec<SuiteSketch>) -> CollectorFile {
    let mut file = CollectorFile::new("sample.test.ts".to_string());
    let mut nodes = Vec::new();
    for sketch in suites {
        nodes.push(freeze(&file, sketch));
    }
    file.collect(nodes).expect("a new file takes its suites");
    file
}

/// Runs the file to its end. A callback fails if its handle is in `failing`.
/// Returns the handles in the order in which they were invoked, and the file.
fn drive(file: CollectorFile, failing: &[u64]) -> (Vec<u64>, CollectorFile) {
    let mut scheduler = Scheduler::new(file);
    let mut invoked = Vec::new();
    loop {
        match scheduler.next_action() {
            SchedulerAction::Finished => break,
            SchedulerAction::Invoke(step) => {
                invoked.push(step.callback.handle);
                let outcome = if failing.contains(&step.callback.handle) {
                    InvocationOutcome::Failed(format!("callback {} failed", step.callback.handle))
                } else {
                    InvocationOutcome::Completed
                };
                assert!(scheduler.record(outcome));
            }
        }
    }
    assert!(scheduler.is_finished());
    (invoked, scheduler.finish())
}

fn state_of(file: &CollectorFile, node: usize, task: usize) -> CollectorState {
    file.nodes()[node].tasks()[task].state().clone()
}

fn is_skip(state: &CollectorState) -> bool {
    matches!(state, CollectorState::Custom(CollectorMode::Skip))
}

fn is_todo(state: &CollectorState) -> bool {
    matches!(state, CollectorState::Custom(CollectorMode::Todo))
}

fn is_pass(state: &CollectorState) -> bool {
    matches!(state, CollectorState::Pass)
}

fn failure_of(state: &CollectorState) -> Option<String> {
    match state {
        CollectorState::Fail(error) => Some(error.clone()),
        _ => None,
    }
}

#[test]
fn every_run_task_ends_passed_or_failed() {
    let file = file_of(vec![
        root(vec![(1, CollectorMode::Run), (2, CollectorMode::Run)], vec![]),
        suite("math", CollectorMode::Run, vec![(3, CollectorMode::Run)], vec![]),
        suite("text", CollectorMode::Todo, vec![(4, CollectorMode::Run)], vec![]),
    ]);
    let (invoked, file) = drive(file, &[2, 4]);
    assert_eq!(invoked, vec![1, 2, 3, 4]);
    assert!(is_pass(&state_of(&file, 0, 0)));
    assert_eq!(failure_of(&state_of(&file, 0, 1)), Some("callback 2 failed".to_string()));
    assert!(is_pass(&state_of(&file, 1, 0)));
    assert_eq!(failure_of(&state_of(&file, 2, 0)), Some("callback 4 failed".to_string()));
}

#[test]
fn only_task_skips_its_siblings() {
    let file = file_of(vec![suite(
        "math",
        CollectorMode::Run,
        vec![(1, CollectorMode::Run), (2, CollectorMode::Only)],
        vec![],
    )]);
    let (invoked, file) = drive(file, &[]);
    assert_eq!(invoked, vec![2]);
    assert!(is_skip(&state_of(&file, 0, 0)));
    assert!(is_pass(&state_of(&file, 0, 1)));
}

#[test]
fn only_task_that_fails_is_failed_and_sibling_skipped() {
    let file = file_of(vec![suite(
        "math",
        CollectorMode::Run,
        vec![(1, CollectorMode::Run), (2, CollectorMode::Only)],
        vec![],
    )]);
    let (invoked, file) = drive(file, &[2]);
    assert_eq!(invoked, vec![2]);
    assert!(is_skip(&state_of(&file, 0, 0)));
    assert_eq!(failure_of(&state_of(&file, 0, 1)), Some("callback 2 failed".to_string()));
}

#[test]
fn only_anywhere_skips_other_suites() {
    let file = file_of(vec![
        root(vec![(1, CollectorMode::Run)], vec![(LifetimeHook::BeforeAll, 10)]),
        inside(
            0,
            suite(
                "math",
                CollectorMode::Run,
                vec![(2, CollectorMode::Run), (3, CollectorMode::Todo)],
                vec![(LifetimeHook::BeforeAll, 20), (LifetimeHook::AfterAll, 21)],
            ),
        ),
        inside(
            0,
            suite(
                "text",
                CollectorMode::Only,
                vec![(4, CollectorMode::Run), (5, CollectorMode::Skip), (6, CollectorMode::Todo)],
                vec![(LifetimeHook::BeforeAll, 30), (LifetimeHook::AfterAll, 31)],
            ),
        ),
    ]);
    let (invoked, file) = drive(file, &[]);
    assert_eq!(invoked, vec![30, 4, 31]);
    assert!(is_skip(&state_of(&file, 0, 0)));
    assert!(is_skip(&state_of(&file, 1, 0)));
    assert!(is_skip(&state_of(&file, 1, 1)));
    assert!(is_pass(&state_of(&file, 2, 0)));
    assert!(is_skip(&state_of(&file, 2, 1)));
    assert!(is_todo(&state_of(&file, 2, 2)));
}

#[test]
fn only_task_runs_inside_a_skipped_suite() {
    let file = file_of(vec![suite(
        "math",
        CollectorMode::Skip,
        vec![(1, CollectorMode::Only), (2, CollectorMode::Run)],
        vec![
            (LifetimeHook::BeforeAll, 10),
            (LifetimeHook::BeforeEach, 11),
            (LifetimeHook::AfterEach, 12),
            (LifetimeHook::AfterAll, 13),
        ],
    )]);
    let (invoked, file) = drive(file, &[]);
    assert_eq!(invoked, vec![11, 1, 12]);
    assert!(is_pass(&state_of(&file, 0, 0)));
    assert!(is_skip(&state_of(&file, 0, 1)));
}

#[test]
fn only_suite_with_only_task_runs_just_that_task() {
    let file = file_of(vec![suite(
        "math",
        CollectorMode::Only,
        vec![(1, CollectorMode::Run), (2, CollectorMode::Only), (3, CollectorMode::Todo)],
        vec![(LifetimeHook::BeforeAll, 10)],
    )]);
    let (invoked, file) = drive(file, &[]);
    assert_eq!(invoked, vec![10, 2]);
    assert!(is_skip(&state_of(&file, 0, 0)));
    assert!(is_pass(&state_of(&file, 0, 1)));
    assert!(is_skip(&state_of(&file, 0, 2)));
}

#[test]
fn hooks_bracket_the_tasks_of_their_suite() {
    let file = file_of(vec![suite(
        "math",
        CollectorMode::Run,
        vec![(1, CollectorMode::Run), (2, CollectorMode::Run)],
        vec![(LifetimeHook::BeforeAll, 100), (LifetimeHook::AfterAll, 200)],
    )]);
    let (invoked, file) = drive(file, &[]);
    assert_eq!(invoked, vec![100, 1, 2, 200]);
    assert!(is_pass(&state_of(&file, 0, 0)));
    assert!(is_pass(&state_of(&file, 0, 1)));
}

#[test]
fn teardown_runs_after_a_failed_task() {
    let file = file_of(vec![suite(
        "math",
        CollectorMode::Run,
        vec![(1, CollectorMode::Run), (2, CollectorMode::Run)],
        vec![
            (LifetimeHook::BeforeAll, 100),
            (LifetimeHook::AfterEach, 150),
            (LifetimeHook::AfterAll, 200),
        ],
    )]);
    let (invoked, file) = drive(file, &[1]);
    assert_eq!(invoked, vec![100, 1, 150, 2, 150, 200]);
    assert_eq!(failure_of(&state_of(&file, 0, 0)), Some("callback 1 failed".to_string()));
    assert!(is_pass(&state_of(&file, 0, 1)));
    assert!(file.nodes()[0].hook_failures().is_empty());
}

#[test]
fn skip_task_is_never_invoked() {
    let file = file_of(vec![suite(
        "math",
        CollectorMode::Run,
        vec![(1, CollectorMode::Skip), (2, CollectorMode::Run)],
        vec![(LifetimeHook::BeforeEach, 50), (LifetimeHook::AfterEach, 60)],
    )]);
    let (invoked, file) = drive(file, &[]);
    assert_eq!(invoked, vec![50, 2, 60]);
    assert!(is_skip(&state_of(&file, 0, 0)));
    assert!(is_pass(&state_of(&file, 0, 1)));
}

#[test]
fn todo_task_is_never_invoked() {
    let file = file_of(vec![suite(
        "math",
        CollectorMode::Run,
        vec![(1, CollectorMode::Todo)],
        vec![(LifetimeHook::BeforeEach, 50), (LifetimeHook::BeforeAll, 40)],
    )]);
    let (invoked, file) = drive(file, &[]);
    assert_eq!(invoked, vec![40]);
    assert!(is_todo(&state_of(&file, 0, 0)));
}

#[test]
fn skipped_suite_runs_no_hook_and_no_task() {
    let file = file_of(vec![
        suite(
            "math",
            CollectorMode::Skip,
            vec![(1, CollectorMode::Run), (2, CollectorMode::Todo)],
            vec![
                (LifetimeHook::BeforeAll, 10),
                (LifetimeHook::BeforeEach, 11),
                (LifetimeHook::AfterEach, 12),
                (LifetimeHook::AfterAll, 13),
            ],
        ),
        suite("text", CollectorMode::Run, vec![(3, CollectorMode::Run)], vec![]),
    ]);
    let (invoked, file) = drive(file, &[]);
    assert_eq!(invoked, vec![3]);
    assert!(is_skip(&state_of(&file, 0, 0)));
    assert!(is_skip(&state_of(&file, 0, 1)));
    assert!(is_pass(&state_of(&file, 1, 0)));
}

#[test]
fn file_level_hooks_enclose_every_suite() {
    let file = file_of(vec![
        root(
            vec![(1, CollectorMode::Run)],
            vec![
                (LifetimeHook::BeforeAll, 10),
                (LifetimeHook::BeforeEach, 11),
                (LifetimeHook::AfterEach, 12),
                (LifetimeHook::AfterAll, 13),
            ],
        ),
        inside(
            0,
            suite(
                "math",
                CollectorMode::Run,
                vec![(2, CollectorMode::Run), (3, CollectorMode::Run)],
                vec![
                    (LifetimeHook::BeforeAll, 20),
                    (LifetimeHook::BeforeEach, 21),
                    (LifetimeHook::AfterEach, 22),
                    (LifetimeHook::AfterAll, 23),
                ],
            ),
        ),
        inside(0, suite("text", CollectorMode::Run, vec![(4, CollectorMode::Run)], vec![])),
    ]);
    let (invoked, _) = drive(file, &[]);
    assert_eq!(
        invoked,
        vec![10, 11, 1, 12, 20, 11, 21, 2, 12, 22, 11, 21, 3, 12, 22, 23, 11, 4, 12, 13]
    );
}

#[test]
fn skipped_file_level_suite_skips_what_it_encloses() {
    let mut file = CollectorFile::new("sample.test.ts".to_string());
    let mut manager =
        NodeCollectorManager::new(CollectorIdentifier::File, CollectorMode::Skip, None);
    manager.register_task("top".to_string(), callback(1), CollectorMode::Run);
    manager.register_lifetime_hook(LifetimeHook::BeforeAll, callback(10));
    let top = manager.collect_node(&file).expect("collect");
    let inner = freeze(
        &file,
        inside(
            0,
            suite(
                "math",
                CollectorMode::Run,
                vec![(2, CollectorMode::Run)],
                vec![(LifetimeHook::BeforeAll, 20)],
            ),
        ),
    );
    file.collect(vec![top, inner]).expect("collect");
    let (invoked, file) = drive(file, &[]);
    assert!(invoked.is_empty());
    assert!(is_skip(&state_of(&file, 0, 0)));
    assert!(is_skip(&state_of(&file, 1, 0)));
}

#[test]
fn failed_hook_is_put_on_record_and_stops_nothing() {
    let file = file_of(vec![suite(
        "math",
        CollectorMode::Run,
        vec![(1, CollectorMode::Run), (2, CollectorMode::Run)],
        vec![
            (LifetimeHook::BeforeAll, 100),
            (LifetimeHook::BeforeEach, 110),
            (LifetimeHook::AfterAll, 200),
        ],
    )]);
    let (invoked, file) = drive(file, &[1, 110, 200]);
    assert_eq!(invoked, vec![100, 110, 1, 110, 2, 200]);
    assert_eq!(failure_of(&state_of(&file, 0, 0)), Some("callback 1 failed".to_string()));
    assert!(is_pass(&state_of(&file, 0, 1)));
    let failures = file.nodes()[0].hook_failures();
    assert_eq!(failures.len(), 3);
    assert_eq!(failures[0].hook, LifetimeHook::BeforeEach);
    assert_eq!(failures[0].error, "callback 110 failed");
    assert_eq!(failures[1].hook, LifetimeHook::BeforeEach);
    assert_eq!(failures[2].hook, LifetimeHook::AfterAll);
    assert_eq!(failures[2].error, "callback 200 failed");
}

#[test]
fn file_that_could_not_be_evaluated_is_not_run() {
    let mut file = file_of(vec![suite(
        "math",
        CollectorMode::Run,
        vec![(1, CollectorMode::Run), (2, CollectorMode::Skip)],
        vec![(LifetimeHook::BeforeAll, 100)],
    )]);
    file.fail("syntax error".to_string());
    let (invoked, file) = drive(file, &[]);
    assert!(invoked.is_empty());
    assert!(matches!(state_of(&file, 0, 0), CollectorState::Custom(CollectorMode::Run)));
    assert!(is_skip(&state_of(&file, 0, 1)));
    assert_eq!(file.error().map(|error| error.as_str()), Some("syntax error"));
}

#[test]
fn empty_file_finishes_at_once() {
    let mut scheduler = Scheduler::new(CollectorFile::new("empty.test.ts".to_string()));
    assert_eq!(scheduler.next_action(), SchedulerAction::Finished);
    assert!(scheduler.is_finished());
    assert!(!scheduler.record(InvocationOutcome::Completed));
    assert!(scheduler.file().nodes().is_empty());
}

#[test]
fn outcome_after_the_end_is_refused() {
    let file =
        file_of(vec![suite("math", CollectorMode::Run, vec![(1, CollectorMode::Run)], vec![])]);
    let mut scheduler = Scheduler::new(file);
    assert!(!scheduler.is_finished());
    assert!(scheduler.record(InvocationOutcome::Completed));
    assert!(scheduler.is_finished());
    assert!(!scheduler.record(InvocationOutcome::Failed("late".to_string())));
    assert!(is_pass(&state_of(scheduler.file(), 0, 0)));
}

#[test]
fn steps_say_what_they_invoke() {
    let file = file_of(vec![suite(
        "math",
        CollectorMode::Run,
        vec![(1, CollectorMode::Skip), (2, CollectorMode::Run)],
        vec![(LifetimeHook::BeforeEach, 50), (LifetimeHook::BeforeEach, 51)],
    )]);
    let plan = build_plan(&file);
    assert_eq!(
        plan,
        vec![
            ExecutionStep {
                kind: StepKind::Hook(LifetimeHook::BeforeEach),
                node: 0,
                index: 0,
                callback: callback(50),
            },
            ExecutionStep {
                kind: StepKind::Hook(LifetimeHook::BeforeEach),
                node: 0,
                index: 1,
                callback: callback(51),
            },
            ExecutionStep { kind: StepKind::Task, node: 0, index: 1, callback: callback(2) },
        ]
    );
}

#[test]
fn start_of_a_run_settles_the_tasks_that_will_not_run() {
    let file = file_of(vec![suite(
        "math",
        CollectorMode::Run,
        vec![(1, CollectorMode::Skip), (2, CollectorMode::Run), (3, CollectorMode::Todo)],
        vec![],
    )]);
    let scheduler = Scheduler::new(file);
    assert!(is_skip(&state_of(scheduler.file(), 0, 0)));
    assert!(matches!(state_of(scheduler.file(), 0, 1), CollectorState::Custom(CollectorMode::Run)));
    assert!(is_todo(&state_of(scheduler.file(), 0, 2)));
}

#[test]
fn only_marks_are_found() {
    let plain =
        file_of(vec![suite("math", CollectorMode::Run, vec![(1, CollectorMode::Run)], vec![])]);
    assert!(!file_has_only(&plain));
    assert!(!node_has_only_task(&plain.nodes()[0]));
    let by_task = file_of(vec![
        suite("math", CollectorMode::Run, vec![(1, CollectorMode::Run)], vec![]),
        suite("text", CollectorMode::Run, vec![(2, CollectorMode::Only)], vec![]),
    ]);
    assert!(file_has_only(&by_task));
    assert!(!node_has_only_task(&by_task.nodes()[0]));
    assert!(node_has_only_task(&by_task.nodes()[1]));
    let by_suite = file_of(vec![suite("math", CollectorMode::Only, vec![], vec![])]);
    assert!(file_has_only(&by_suite));
    assert!(!node_has_only_task(&by_suite.nodes()[0]));
}

#[test]
fn mode_rules_by_table() {
    let (only, run, skip, todo) =
        (CollectorMode::Only, CollectorMode::Run, CollectorMode::Skip, CollectorMode::Todo);
    assert_eq!(node_mode_in_effect(only, true, true), only);
    assert_eq!(node_mode_in_effect(run, false, false), run);
    assert_eq!(node_mode_in_effect(todo, false, false), todo);
    assert_eq!(node_mode_in_effect(skip, false, false), skip);
    assert_eq!(node_mode_in_effect(run, true, false), skip);
    assert_eq!(node_mode_in_effect(todo, false, true), skip);
    assert_eq!(task_mode_in_effect(only, skip, true), only);
    assert_eq!(task_mode_in_effect(run, run, false), run);
    assert_eq!(task_mode_in_effect(run, only, false), run);
    assert_eq!(task_mode_in_effect(todo, todo, false), todo);
    assert_eq!(task_mode_in_effect(run, skip, false), skip);
    assert_eq!(task_mode_in_effect(todo, run, true), skip);
    assert_eq!(task_mode_in_effect(skip, run, false), skip);
}

#[test]
fn suites_that_nothing_encloses_follow_one_another() {
    let file = file_of(vec![
        root(vec![(1, CollectorMode::Run)], vec![(LifetimeHook::BeforeEach, 11)]),
        suite(
            "math",
            CollectorMode::Run,
            vec![(2, CollectorMode::Run)],
            vec![(LifetimeHook::BeforeEach, 21)],
        ),
    ]);
    let (invoked, _) = drive(file, &[]);
    assert_eq!(invoked, vec![11, 1, 21, 2]);
}

#[test]
fn enclosed_suites_run_depth_first() {
    let hooks = |base: u64| {
        vec![
            (LifetimeHook::BeforeAll, base),
            (LifetimeHook::BeforeEach, base + 1),
            (LifetimeHook::AfterEach, base + 2),
            (LifetimeHook::AfterAll, base + 3),
        ]
    };
    let file = file_of(vec![
        root(vec![(1, CollectorMode::Run)], hooks(10)),
        inside(0, suite("outer", CollectorMode::Run, vec![(2, CollectorMode::Run)], hooks(20))),
        inside(0, suite("other", CollectorMode::Run, vec![(3, CollectorMode::Run)], hooks(30))),
        inside(1, suite("inner", CollectorMode::Run, vec![(4, CollectorMode::Run)], hooks(40))),
        inside(3, suite("innermost", CollectorMode::Run, vec![(5, CollectorMode::Run)], hooks(50))),
    ]);
    let (invoked, file) = drive(file, &[]);
    assert_eq!(
        invoked,
        vec![
            10, // the file is entered
            11, 1, 12, // its own task
            20, // outer is entered
            11, 21, 2, 12, 22, // the task of outer
            40, // inner is entered
            11, 21, 41, 4, 12, 22, 42, // the task of inner
            50, // innermost is entered
            11, 21, 41, 51, 5, 12, 22, 42, 52, // the task of innermost
            53, 43, 23, // innermost, inner and outer are left
            30, // other is entered
            11, 31, 3, 12, 32, // the task of other
            33, // other is left
            13, // the file is left
        ]
    );
    for node in 0..5 {
        assert!(is_pass(&state_of(&file, node, 0)));
    }
}

#[test]
fn skipped_suite_skips_all_that_it_encloses() {
    let file = file_of(vec![
        root(vec![], vec![]),
        inside(
            0,
            suite(
                "outer",
                CollectorMode::Skip,
                vec![(1, CollectorMode::Run)],
                vec![(LifetimeHook::BeforeAll, 20), (LifetimeHook::BeforeEach, 21)],
            ),
        ),
        inside(
            1,
            suite(
                "inner",
                CollectorMode::Run,
                vec![(2, CollectorMode::Run)],
                vec![(LifetimeHook::BeforeAll, 30)],
            ),
        ),
        inside(
            2,
            suite(
                "innermost",
                CollectorMode::Todo,
                vec![(3, CollectorMode::Todo), (4, CollectorMode::Run)],
                vec![(LifetimeHook::AfterAll, 40)],
            ),
        ),
        inside(0, suite("beside", CollectorMode::Run, vec![(5, CollectorMode::Run)], vec![])),
    ]);
    let (invoked, file) = drive(file, &[]);
    assert_eq!(invoked, vec![5]);
    assert!(is_skip(&state_of(&file, 1, 0)));
    assert!(is_skip(&state_of(&file, 2, 0)));
    assert!(is_skip(&state_of(&file, 3, 0)));
    assert!(is_skip(&state_of(&file, 3, 1)));
    assert!(is_pass(&state_of(&file, 4, 0)));
}

#[test]
fn only_suite_runs_inside_a_skipped_suite() {
    let file = file_of(vec![
        suite(
            "outer",
            CollectorMode::Skip,
            vec![(1, CollectorMode::Run)],
            vec![(LifetimeHook::BeforeAll, 20), (LifetimeHook::BeforeEach, 21)],
        ),
        inside(
            0,
            suite(
                "inner",
                CollectorMode::Only,
                vec![(2, CollectorMode::Run)],
                vec![(LifetimeHook::BeforeAll, 30), (LifetimeHook::AfterAll, 31)],
            ),
        ),
    ]);
    let (invoked, file) = drive(file, &[]);
    assert_eq!(invoked, vec![30, 21, 2, 31]);
    assert!(is_skip(&state_of(&file, 0, 0)));
    assert!(is_pass(&state_of(&file, 1, 0)));
}

#[test]
fn suite_that_names_a_later_suite_is_enclosed_by_none() {
    let file = file_of(vec![
        inside(
            1,
            suite(
                "first",
                CollectorMode::Run,
                vec![(1, CollectorMode::Run)],
                vec![(LifetimeHook::BeforeAll, 10)],
            ),
        ),
        inside(
            1,
            suite(
                "second",
                CollectorMode::Run,
                vec![(2, CollectorMode::Run)],
                vec![(LifetimeHook::BeforeEach, 20)],
            ),
        ),
    ]);
    assert_eq!(enclosing_suite(&file, 0), None);
    assert_eq!(enclosing_suite(&file, 1), None);
    let (invoked, _) = drive(file, &[]);
    assert_eq!(invoked, vec![10, 1, 20, 2]);
}

#[test]
fn modes_in_effect_follow_the_enclosing_suites() {
    let file = file_of(vec![
        suite("outer", CollectorMode::Skip, vec![], vec![]),
        inside(0, suite("inner", CollectorMode::Todo, vec![], vec![])),
        inside(1, suite("innermost", CollectorMode::Run, vec![], vec![])),
        suite("beside", CollectorMode::Todo, vec![], vec![]),
    ]);
    assert_eq!(
        effective_node_modes(&file),
        vec![CollectorMode::Skip, CollectorMode::Skip, CollectorMode::Skip, CollectorMode::Todo]
    );
    assert_eq!(enclosing_suite(&file, 2), Some(1));
    assert_eq!(enclosing_suite(&file, 3), None);
}
