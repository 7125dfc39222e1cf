use task_watchdog::codec::{registry_from_json, registry_to_json};
use task_watchdog::registry::ProcessRegistry;
use task_watchdog::types::{ExecutionMode, NativeTask, TaskInfo, TaskStatus};

fn native_task(pid: i32, pgid: i32, start_time: &str, command: &str) -> TaskInfo {
    TaskInfo {
        mode: ExecutionMode::Native,
        command: command.to_string(),
        status: TaskStatus::Running,
        started_at: 1_700_000_000,
        completed_at: None,
        native: Some(NativeTask {
            pid,
            pgid,
            start_time: start_time.to_string(),
            env_tag: None,
        }),
        docker: None,
        constitution_rules: vec![],
    }
}

#[test]
fn test_registry_save_load() {
    let mut registry = ProcessRegistry::new();
    registry.add_task(
        "TEST-001".to_string(),
        native_task(12345, 12344, "test time", "test command"),
    );

    let saved = registry_to_json(&registry);
    let reloaded = registry_from_json(&saved).expect("saved registry must load");
    assert!(reloaded.get_task("TEST-001").is_some());
}

#[test]
fn test_concurrent_upsert_no_data_loss() {
    // Four independent writers sharing one backing store. The locked
    // protocol serialises them: each re-reads the latest document, applies
    // its own upsert, and writes the result back.
    let mut store = registry_to_json(&ProcessRegistry::new());
    for i in 0..4 {
        let mut reg = registry_from_json(&store).expect("store must parse");
        reg.add_task(
            format!("T{:03}", i),
            native_task(10000 + i, 10000 + i, &format!("t{i}"), &format!("task {i}")),
        );
        store = registry_to_json(&reg);
    }
    let verify = registry_from_json(&store).expect("store must parse");
    for i in 0..4 {
        assert!(
            verify.get_task(&format!("T{:03}", i)).is_some(),
            "T{:03} was lost due to race condition",
            i
        );
    }
}

#[test]
fn test_add_task_replaces_existing() {
    let mut registry = ProcessRegistry::new();
    registry.add_task("job".to_string(), native_task(1, 1, "a", "first"));
    registry.add_task("job".to_string(), native_task(2, 2, "b", "second"));
    let task = registry.get_task("job").expect("job must exist");
    assert_eq!(task.command, "second");
    assert_eq!(registry.tasks.len(), 1);
}

#[test]
fn test_remove_task_returns_removed() {
    let mut registry = ProcessRegistry::new();
    registry.add_task("gone".to_string(), native_task(7, 7, "x", "doomed"));
    let removed = registry.remove_task("gone").expect("task was present");
    assert_eq!(removed.command, "doomed");
    assert!(registry.get_task("gone").is_none());
    assert!(registry.remove_task("gone").is_none());
}

#[test]
fn test_mark_complete_sets_status_and_time() {
    let mut registry = ProcessRegistry::new();
    registry.add_task("a".to_string(), native_task(5, 5, "s", "cmd"));
    registry.mark_complete("a", 1_700_000_100);
    let task = registry.get_task("a").unwrap();
    assert_eq!(task.status, TaskStatus::Completed);
    assert_eq!(task.completed_at, Some(1_700_000_100));
}

#[test]
fn test_mark_failed_sets_status_and_time() {
    let mut registry = ProcessRegistry::new();
    registry.add_task("a".to_string(), native_task(5, 5, "s", "cmd"));
    registry.mark_failed("a", 1_700_000_200);
    let task = registry.get_task("a").unwrap();
    assert_eq!(task.status, TaskStatus::Failed);
    assert_eq!(task.completed_at, Some(1_700_000_200));
}

#[test]
fn test_mark_missing_task_changes_nothing() {
    let mut registry = ProcessRegistry::new();
    registry.add_task("only".to_string(), native_task(5, 5, "s", "cmd"));
    registry.mark_complete("absent", 42);
    assert_eq!(registry.tasks.len(), 1);
    assert_eq!(registry.get_task("only").unwrap().status, TaskStatus::Running);
}

#[test]
fn test_stats_counts_by_status() {
    let mut registry = ProcessRegistry::new();
    registry.add_task("r1".to_string(), native_task(1, 1, "a", "x"));
    registry.add_task("r2".to_string(), native_task(2, 2, "b", "y"));
    registry.add_task("c1".to_string(), native_task(3, 3, "c", "z"));
    registry.add_task("f1".to_string(), native_task(4, 4, "d", "w"));
    registry.mark_complete("c1", 10);
    registry.mark_failed("f1", 20);

    let stats = registry.stats();
    assert_eq!(stats.total, 4);
    assert_eq!(stats.running, 2);
    assert_eq!(stats.completed, 1);
    assert_eq!(stats.failed, 1);
}

#[test]
fn test_running_and_completed_tasks() {
    let mut registry = ProcessRegistry::new();
    registry.add_task("r".to_string(), native_task(1, 1, "a", "run"));
    registry.add_task("c".to_string(), native_task(2, 2, "b", "done"));
    registry.mark_complete("c", 99);

    let running = registry.running_tasks();
    assert_eq!(running.len(), 1);
    assert_eq!(running[0].task_id, "r");

    let completed = registry.completed_tasks();
    assert_eq!(completed.len(), 1);
    assert_eq!(completed[0].task_id, "c");
}

#[test]
fn test_cleanup_removes_only_old_terminal_records() {
    // Retention of seven days against a fixed "now".
    let now: i64 = 1_700_000_000;
    let cutoff = now - 7 * 86400;

    let mut registry = ProcessRegistry::new();
    // Running and ancient: must survive regardless of age.
    let mut old_running = native_task(1, 1, "a", "old running");
    old_running.started_at = now - 100 * 86400;
    registry.add_task("old-running".to_string(), old_running);
    // Completed long ago: must go.
    registry.add_task("old-done".to_string(), native_task(2, 2, "b", "old done"));
    registry.mark_complete("old-done", cutoff - 1);
    // Completed recently: must stay.
    registry.add_task("new-done".to_string(), native_task(3, 3, "c", "new done"));
    registry.mark_complete("new-done", cutoff + 1);
    // Failed long ago: must go.
    registry.add_task("old-failed".to_string(), native_task(4, 4, "d", "old failed"));
    registry.mark_failed("old-failed", cutoff - 50);

    let removed = registry.cleanup_old_tasks(cutoff);
    assert_eq!(removed, 2);
    assert!(registry.get_task("old-running").is_some());
    assert!(registry.get_task("new-done").is_some());
    assert!(registry.get_task("old-done").is_none());
    assert!(registry.get_task("old-failed").is_none());
}
