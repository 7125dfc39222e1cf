use task_watchdog::reconcile::{
    classify_records, cutoff_for_days, docker_tasks_to_fail, mark_all_failed,
    ContainerObservation,
};
use task_watchdog::registry::{ProcessRegistry, TaskEntry};
use task_watchdog::types::{
    DockerTask, ExecutionMode, NativeTask, OrphanReport, ResourceLimits, TaskInfo, TaskStatus,
};

fn task_with_status(status: TaskStatus, completed_at: Option<i64>) -> TaskInfo {
    TaskInfo {
        mode: ExecutionMode::Native,
        command: "cmd".to_string(),
        status,
        started_at: 100,
        completed_at,
        native: Some(NativeTask {
            pid: 41,
            pgid: 41,
            start_time: "fp".to_string(),
            env_tag: None,
        }),
        docker: None,
        constitution_rules: vec![],
    }
}

fn entry(id: &str, status: TaskStatus, completed_at: Option<i64>) -> TaskEntry {
    TaskEntry {
        task_id: id.to_string(),
        info: task_with_status(status, completed_at),
    }
}

#[test]
fn test_classification_table() {
    // The four rows of the classification table, one record each.
    let entries = vec![
        entry("running-dead", TaskStatus::Running, None),
        entry("completed-alive", TaskStatus::Completed, Some(200)),
        entry("running-alive", TaskStatus::Running, None),
        entry("completed-dead", TaskStatus::Completed, Some(200)),
    ];
    let alive = vec![false, true, true, false];
    let report = classify_records(&entries, &alive);
    assert_eq!(report.dead_processes, vec!["running-dead".to_string()]);
    assert_eq!(report.zombie_processes, vec!["completed-alive".to_string()]);
}

#[test]
fn test_terminal_records_never_classified_dead() {
    let entries = vec![
        entry("failed-dead", TaskStatus::Failed, Some(5)),
        entry("cancelled-dead", TaskStatus::Cancelled, Some(5)),
    ];
    let alive = vec![false, false];
    let report = classify_records(&entries, &alive);
    assert!(report.dead_processes.is_empty());
    assert!(report.zombie_processes.is_empty());
    assert!(!report.has_issues());
    assert_eq!(report.total_issues(), 0);
}

#[test]
fn test_dead_process_repaired_to_failed() {
    // One reconciliation pass over a Running record whose process is dead:
    // classified dead, then marked Failed with the completion instant set.
    let mut registry = ProcessRegistry::new();
    registry.add_task("t1".to_string(), task_with_status(TaskStatus::Running, None));
    registry.add_task("t2".to_string(), task_with_status(TaskStatus::Running, None));

    let alive = vec![false, true];
    let report = classify_records(&registry.tasks, &alive);
    assert_eq!(report.dead_processes, vec!["t1".to_string()]);

    let now = 1_700_000_321;
    mark_all_failed(&mut registry, &report.dead_processes, now);

    let repaired = registry.get_task("t1").unwrap();
    assert_eq!(repaired.status, TaskStatus::Failed);
    assert_eq!(repaired.completed_at, Some(now));
    // the live record is untouched
    let untouched = registry.get_task("t2").unwrap();
    assert_eq!(untouched.status, TaskStatus::Running);
    assert_eq!(untouched.completed_at, None);
}

#[test]
fn test_find_orphans_probes_native_and_spares_containers() {
    let mut registry = ProcessRegistry::new();
    // A Running native record whose PID does not exist: the fingerprint
    // probe finds nothing, so the record is classified dead.
    let mut dead_native = task_with_status(TaskStatus::Running, None);
    if let Some(h) = dead_native.native.as_mut() {
        h.pid = 999999;
        h.pgid = 999999;
    }
    registry.add_task("dead-native".to_string(), dead_native);
    // A Running container record: liveness is not determinable in the
    // synchronous pass, so it counts as alive and is never marked dead here
    // (the asynchronous engine pass decides its fate).
    registry.add_task(
        "container".to_string(),
        TaskInfo {
            mode: ExecutionMode::Docker,
            command: "srv".to_string(),
            status: TaskStatus::Running,
            started_at: 1,
            completed_at: None,
            native: None,
            docker: Some(DockerTask {
                container_id: "cafebabe".to_string(),
                container_name: "dev-task-c".to_string(),
                resource_limits: ResourceLimits {
                    memory: "512m".to_string(),
                    cpu: "1.0".to_string(),
                },
            }),
            constitution_rules: vec![],
        },
    );
    // A Running native record with no handle at all: nothing can be alive
    // behind it, so it is classified dead.
    let mut no_handle = task_with_status(TaskStatus::Running, None);
    no_handle.native = None;
    registry.add_task("no-handle".to_string(), no_handle);

    let report = registry.find_orphans();
    assert_eq!(
        report.dead_processes,
        vec!["dead-native".to_string(), "no-handle".to_string()]
    );
    assert!(report.zombie_processes.is_empty());
}

#[test]
fn test_orphan_report_counters() {
    let report = OrphanReport {
        dead_processes: vec!["a".to_string()],
        zombie_processes: vec!["b".to_string(), "c".to_string()],
    };
    assert!(report.has_issues());
    assert_eq!(report.total_issues(), 3);
}

#[test]
fn test_docker_tasks_to_fail() {
    let obs = vec![
        ContainerObservation { task_id: "up".to_string(), running: true },
        ContainerObservation { task_id: "down".to_string(), running: false },
        ContainerObservation { task_id: "gone".to_string(), running: false },
    ];
    let failures = docker_tasks_to_fail(&obs);
    assert_eq!(failures, vec!["down".to_string(), "gone".to_string()]);

    // No observations (engine unreachable this cycle): nothing is failed.
    let none: Vec<ContainerObservation> = vec![];
    assert!(docker_tasks_to_fail(&none).is_empty());
}

#[test]
fn test_cutoff_for_days() {
    let now = 1_700_000_000;
    assert_eq!(cutoff_for_days(now, 7), Some(now - 7 * 86400));
    assert_eq!(cutoff_for_days(now, 0), Some(now));
    assert_eq!(cutoff_for_days(now, u64::MAX), None);
}
