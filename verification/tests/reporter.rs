use kurtex_core::collector::{CollectorFile, CollectorIdentifier, NodeCollectorManager};
use kurtex_core::hooks::TestCallback;
use kurtex_core::mode::{CollectorMode, CollectorState};
use kurtex_core::reporter::{
    KurtexDefaultReporter, Reporter, RunReport, RunnerCollectorContext, TaskClass, TaskRef,
    RUNTIME_ERROR, SUCCESS,
};
use kurtex_core::runner::{Runner, TEST_FILES_MAX_DEPTH};
use kurtex_core::scheduler::{InvocationOutcome, Scheduler, SchedulerAction};

fn callback(handle: u64) -> TestCallback {
    TestCallback { handle }
}

fn file_with(path: &str, tasks: Vec<(u64, CollectorMode)>) -> CollectorFile {
    let mut file = CollectorFile::new(path.to_string());
    let mut manager = NodeCollectorManager::new(
        CollectorIdentifier::Custom("suite".to_string()),
        CollectorMode::Run,
        None,
    );
    for (handle, mode) in tasks {
        manager.register_task(format!("task {}", handle), callback(handle), mode);
    }
    let node = manager.collect_node(&file).expect("collect");
    file.collect(vec![node]).expect("collect");
    file
}

fn run(file: CollectorFile, failing: &[u64]) -> CollectorFile {
    let mut scheduler = Scheduler::new(file);
    loop {
        match scheduler.next_action() {
            SchedulerAction::Finished => break,
            SchedulerAction::Invoke(step) => {
                let outcome = if failing.contains(&step.callback.handle) {
                    InvocationOutcome::Failed("failed".to_string())
                } else {
                    InvocationOutcome::Completed
                };
                assert!(scheduler.record(outcome));
            }
        }
    }
    scheduler.finish()
}

fn at(file: usize, node: usize, task: usize) -> TaskRef {
    TaskRef { file, node, task }
}

#[test]
fn five_tasks_are_sorted_into_their_classes() {
    let file = file_with(
        "a.test.ts",
        vec![
            (1, CollectorMode::Run),
            (2, CollectorMode::Run),
            (3, CollectorMode::Run),
            (4, CollectorMode::Skip),
            (5, CollectorMode::Todo),
        ],
    );
    let mut ctx = RunnerCollectorContext::new();
    ctx.push_file(run(file, &[2]));
    let report = ctx.summarize(1500);
    assert_eq!(report.passed.len(), 2);
    assert_eq!(report.failed.len(), 1);
    assert_eq!(report.runnable.len(), 3);
    assert_eq!(report.skipped.len(), 1);
    assert_eq!(report.todo.len(), 1);
    assert_eq!(report.passed, vec![at(0, 0, 0), at(0, 0, 2)]);
    assert_eq!(report.failed, vec![at(0, 0, 1)]);
    assert_eq!(report.runnable, vec![at(0, 0, 0), at(0, 0, 1), at(0, 0, 2)]);
    assert_eq!(report.skipped, vec![at(0, 0, 3)]);
    assert_eq!(report.todo, vec![at(0, 0, 4)]);
    assert!(report.failed_files.is_empty());
    assert_eq!(report.elapsed_micros, 1500);
    assert_eq!(report.exit_code(), RUNTIME_ERROR);
    assert_eq!(report.pass_rate_percent(), Some(66));
}

#[test]
fn failed_file_leaves_other_files_alone() {
    let mut broken = file_with("a.test.ts", vec![(1, CollectorMode::Run)]);
    broken.fail("cannot evaluate".to_string());
    let sound = file_with("b.test.ts", vec![(2, CollectorMode::Run), (3, CollectorMode::Run)]);

    let mut ctx = RunnerCollectorContext::new();
    ctx.push_file(run(broken, &[]));
    ctx.push_file(run(sound, &[3]));
    assert_eq!(ctx.files().len(), 2);

    let report = ctx.summarize(0);
    assert_eq!(report.failed_files, vec![0]);
    assert_eq!(report.passed, vec![at(1, 0, 0)]);
    assert_eq!(report.failed, vec![at(1, 0, 1)]);
    assert_eq!(report.runnable.len(), 2);
    assert!(report.skipped.is_empty());
    assert!(report.todo.is_empty());
    assert_eq!(report.exit_code(), RUNTIME_ERROR);

    let untouched = ctx.task(at(0, 0, 0)).expect("the task is there");
    assert!(matches!(untouched.state(), CollectorState::Custom(CollectorMode::Run)));
    let failed = ctx.task(at(1, 0, 1)).expect("the task is there");
    assert_eq!(failed.name(), "task 3");
    assert!(matches!(failed.state(), CollectorState::Fail(error) if error == "failed"));
}

#[test]
fn failed_file_alone_makes_the_run_fail() {
    let mut broken = CollectorFile::new("a.test.ts".to_string());
    broken.fail("cannot evaluate".to_string());
    let mut ctx = RunnerCollectorContext::new();
    ctx.push_file(broken);
    let report = ctx.summarize(0);
    assert_eq!(report.failed_files, vec![0]);
    assert!(report.failed.is_empty());
    assert_eq!(report.exit_code(), RUNTIME_ERROR);
    assert_eq!(report.pass_rate_percent(), None);
}

#[test]
fn run_without_failure_succeeds() {
    let mut ctx = RunnerCollectorContext::new();
    ctx.push_file(run(
        file_with("a.test.ts", vec![(1, CollectorMode::Run), (2, CollectorMode::Skip)]),
        &[],
    ));
    let report = ctx.summarize(0);
    assert_eq!(report.exit_code(), SUCCESS);
    assert_eq!(report.pass_rate_percent(), Some(100));
}

#[test]
fn empty_run_has_no_pass_rate() {
    let ctx = RunnerCollectorContext::new();
    let report = ctx.summarize(7);
    assert!(report.runnable.is_empty());
    assert_eq!(report.pass_rate_percent(), None);
    assert_eq!(report.exit_code(), SUCCESS);
    assert_eq!(report.elapsed_micros, 7);
}

#[test]
fn run_of_skipped_tasks_has_no_pass_rate() {
    let mut ctx = RunnerCollectorContext::new();
    ctx.push_file(run(
        file_with("a.test.ts", vec![(1, CollectorMode::Skip), (2, CollectorMode::Todo)]),
        &[],
    ));
    let report = ctx.summarize(0);
    assert_eq!(report.skipped.len(), 1);
    assert_eq!(report.todo.len(), 1);
    assert_eq!(report.pass_rate_percent(), None);
}

#[test]
fn pass_rate_rounds_down() {
    let report = RunReport {
        failed: vec![at(0, 0, 0), at(0, 0, 1)],
        passed: vec![at(0, 0, 2)],
        runnable: vec![at(0, 0, 0), at(0, 0, 1), at(0, 0, 2)],
        skipped: Vec::new(),
        todo: Vec::new(),
        failed_files: Vec::new(),
        elapsed_micros: 0,
    };
    assert_eq!(report.pass_rate_percent(), Some(33));
}

#[test]
fn pending_tasks_belong_to_no_class() {
    let mut ctx = RunnerCollectorContext::new();
    ctx.push_file(file_with("a.test.ts", vec![(1, CollectorMode::Run), (2, CollectorMode::Only)]));
    assert!(ctx.partition(TaskClass::Failed).is_empty());
    assert!(ctx.partition(TaskClass::Passed).is_empty());
    assert!(ctx.partition(TaskClass::Runnable).is_empty());
    assert!(ctx.partition(TaskClass::Skipped).is_empty());
    assert!(ctx.partition(TaskClass::Todo).is_empty());
}

#[test]
fn classes_follow_registration_order_across_files() {
    let mut ctx = RunnerCollectorContext::new();
    ctx.push_file(run(file_with("a.test.ts", vec![(1, CollectorMode::Run)]), &[]));
    ctx.push_file(run(
        file_with("b.test.ts", vec![(2, CollectorMode::Skip), (3, CollectorMode::Run)]),
        &[],
    ));
    assert_eq!(ctx.partition(TaskClass::Passed), vec![at(0, 0, 0), at(1, 0, 1)]);
    assert_eq!(ctx.partition(TaskClass::Skipped), vec![at(1, 0, 0)]);
    assert!(ctx.failed_files().is_empty());
}

#[test]
fn task_lookup_checks_every_index() {
    let mut ctx = RunnerCollectorContext::new();
    ctx.push_file(file_with("a.test.ts", vec![(1, CollectorMode::Run)]));
    assert!(ctx.task(at(0, 0, 0)).is_some());
    assert!(ctx.task(at(1, 0, 0)).is_none());
    assert!(ctx.task(at(0, 1, 0)).is_none());
    assert!(ctx.task(at(0, 0, 1)).is_none());
}

#[test]
fn class_membership_by_state() {
    let failed = CollectorState::Fail("boom".to_string());
    let passed = CollectorState::Pass;
    let skipped = CollectorState::Custom(CollectorMode::Skip);
    let todo = CollectorState::Custom(CollectorMode::Todo);
    let pending = CollectorState::Custom(CollectorMode::Run);
    assert!(TaskClass::Failed.holds(&failed));
    assert!(!TaskClass::Failed.holds(&passed));
    assert!(TaskClass::Passed.holds(&passed));
    assert!(!TaskClass::Passed.holds(&failed));
    assert!(TaskClass::Runnable.holds(&failed));
    assert!(TaskClass::Runnable.holds(&passed));
    assert!(!TaskClass::Runnable.holds(&skipped));
    assert!(TaskClass::Skipped.holds(&skipped));
    assert!(!TaskClass::Skipped.holds(&todo));
    assert!(TaskClass::Todo.holds(&todo));
    assert!(!TaskClass::Todo.holds(&pending));
    assert!(!TaskClass::Runnable.holds(&pending));
}

#[test]
fn default_reporter_reports_the_run() {
    let mut reporter = KurtexDefaultReporter::new();
    reporter.start();
    reporter.report_collected();
    let mut ctx = RunnerCollectorContext::new();
    let file = file_with("a.test.ts", vec![(1, CollectorMode::Run), (2, CollectorMode::Run)]);
    reporter.begin_file(&file);
    ctx.push_file(run(file, &[1]));
    reporter.end_file(&ctx.files()[0]);
    let report = reporter.report_finished(&ctx);
    assert_eq!(report.failed, vec![at(0, 0, 0)]);
    assert_eq!(report.passed, vec![at(0, 0, 1)]);
    assert_eq!(report.runnable.len(), 2);
    assert_eq!(report.exit_code(), RUNTIME_ERROR);
    assert!(report.elapsed_micros < 60_000_000);
    let again = KurtexDefaultReporter::default().report_finished(&RunnerCollectorContext::new());
    assert_eq!(again.exit_code(), SUCCESS);
}

#[test]
fn included_paths_that_are_excluded_are_dropped() {
    let included = vec![
        "src/a.test.ts".to_string(),
        "node_modules/x.test.ts".to_string(),
        "src/b.test.ts".to_string(),
        "src/a.test.ts".to_string(),
    ];
    let excluded = vec!["node_modules/x.test.ts".to_string(), "dist/c.test.ts".to_string()];
    assert_eq!(
        Runner::select_test_files(&included, &excluded),
        vec!["src/a.test.ts".to_string(), "src/b.test.ts".to_string(), "src/a.test.ts".to_string()]
    );
    assert!(Runner::is_excluded(&"dist/c.test.ts".to_string(), &excluded));
    assert!(!Runner::is_excluded(&"src/a.test.ts".to_string(), &excluded));
}

#[test]
fn selection_with_nothing_excluded_keeps_everything() {
    let included = vec!["a".to_string(), "b".to_string()];
    assert_eq!(Runner::select_test_files(&included, &Vec::new()), included);
    assert!(Runner::select_test_files(&Vec::new(), &included).is_empty());
    assert!(Runner::select_test_files(&included, &included).is_empty());
}

#[test]
fn runner_constants() {
    assert_eq!(TEST_FILES_MAX_DEPTH, 25);
    Runner::run();
}

#[test]
fn reporter_counts_from_the_moment_it_is_given() {
    let first = std::time::Instant::now();
    let mut reporter = KurtexDefaultReporter::starting_at(first);
    assert_eq!(*reporter.start_time(), first);
    let second = first + std::time::Duration::from_millis(40);
    reporter.restart_at(second);
    assert_eq!(*reporter.start_time(), second);
}

#[test]
fn new_reporter_starts_its_clock_at_the_call() {
    let before = std::time::Instant::now();
    let reporter = KurtexDefaultReporter::new();
    let after = std::time::Instant::now();
    assert!(before <= *reporter.start_time());
    assert!(*reporter.start_time() <= after);
}

#[test]
fn report_collected_starts_the_clock_again() {
    let now = std::time::Instant::now();
    let long_ago = now.checked_sub(std::time::Duration::from_secs(5)).unwrap_or(now);
    let mut reporter = KurtexDefaultReporter::starting_at(long_ago);
    reporter.report_collected();
    let after = std::time::Instant::now();
    assert!(now <= *reporter.start_time());
    assert!(*reporter.start_time() <= after);
}

#[test]
fn report_counts_the_time_since_the_start() {
    let now = std::time::Instant::now();
    let start = now.checked_sub(std::time::Duration::from_secs(3)).expect("the clock has run for 3 s");
    let reporter = KurtexDefaultReporter::starting_at(start);
    let report = reporter.report_finished(&RunnerCollectorContext::new());
    assert!(report.elapsed_micros >= 3_000_000);
    assert!(report.elapsed_micros < 63_000_000);

    let ahead = KurtexDefaultReporter::starting_at(now + std::time::Duration::from_secs(3600));
    assert_eq!(ahead.report_finished(&RunnerCollectorContext::new()).elapsed_micros, 0);
}

#[test]
fn new_run_holds_no_file() {
    let ctx = RunnerCollectorContext::new();
    assert!(ctx.files().is_empty());
    assert!(ctx.failed_files().is_empty());
    assert!(ctx.task(at(0, 0, 0)).is_none());
}
