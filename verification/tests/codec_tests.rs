use task_watchdog::codec::{registry_from_json, registry_to_json};
use task_watchdog::registry::ProcessRegistry;
use task_watchdog::types::{
    DockerTask, ExecutionMode, NativeTask, ResourceLimits, TaskInfo, TaskStatus,
};

fn full_native_task() -> TaskInfo {
    TaskInfo {
        mode: ExecutionMode::Native,
        command: "echo \"quoted\" and back\\slash\nand newline\ttab".to_string(),
        status: TaskStatus::Running,
        started_at: -12345,
        completed_at: None,
        native: Some(NativeTask {
            pid: 4321,
            pgid: 4320,
            start_time: "1699999999".to_string(),
            env_tag: Some("WATCHDOG_TAG=alpha".to_string()),
        }),
        docker: None,
        constitution_rules: vec!["no-network".to_string(), "read only".to_string()],
    }
}

fn docker_task() -> TaskInfo {
    TaskInfo {
        mode: ExecutionMode::Docker,
        command: "python main.py".to_string(),
        status: TaskStatus::Completed,
        started_at: 1_700_000_000,
        completed_at: Some(1_700_000_500),
        native: None,
        docker: Some(DockerTask {
            container_id: "abcdef0123456789".to_string(),
            container_name: "dev-task-T1".to_string(),
            resource_limits: ResourceLimits {
                memory: "512m".to_string(),
                cpu: "1.0".to_string(),
            },
        }),
        constitution_rules: vec![],
    }
}

#[test]
fn test_round_trip_preserves_all_fields() {
    let mut registry = ProcessRegistry::new();
    registry.add_task("native-1".to_string(), full_native_task());
    registry.add_task("docker-1".to_string(), docker_task());

    let text = registry_to_json(&registry);
    let back = registry_from_json(&text).expect("rendered registry must parse");
    assert_eq!(back.tasks.len(), 2);

    let n = back.get_task("native-1").expect("native task present");
    let orig = full_native_task();
    assert_eq!(n.command, orig.command);
    assert_eq!(n.status, orig.status);
    assert_eq!(n.started_at, orig.started_at);
    assert_eq!(n.completed_at, None);
    let nh = n.native.as_ref().unwrap();
    assert_eq!(nh.pid, 4321);
    assert_eq!(nh.pgid, 4320);
    assert_eq!(nh.start_time, "1699999999");
    assert_eq!(nh.env_tag.as_deref(), Some("WATCHDOG_TAG=alpha"));
    assert!(n.docker.is_none());
    assert_eq!(n.constitution_rules, vec!["no-network", "read only"]);

    let d = back.get_task("docker-1").expect("docker task present");
    assert_eq!(d.status, TaskStatus::Completed);
    assert_eq!(d.completed_at, Some(1_700_000_500));
    let dh = d.docker.as_ref().unwrap();
    assert_eq!(dh.container_id, "abcdef0123456789");
    assert_eq!(dh.container_name, "dev-task-T1");
    assert_eq!(dh.resource_limits.memory, "512m");
    assert_eq!(dh.resource_limits.cpu, "1.0");
}

#[test]
fn test_empty_registry_document() {
    let registry = ProcessRegistry::new();
    let text = registry_to_json(&registry);
    assert_eq!(text, "{\"tasks\":{}}\n");
    let back = registry_from_json(&text).expect("empty document must parse");
    assert_eq!(back.tasks.len(), 0);
}

#[test]
fn test_document_shape_is_stable() {
    let mut registry = ProcessRegistry::new();
    registry.add_task(
        "t".to_string(),
        TaskInfo {
            mode: ExecutionMode::Native,
            command: "true".to_string(),
            status: TaskStatus::Cancelled,
            started_at: 7,
            completed_at: Some(9),
            native: None,
            docker: None,
            constitution_rules: vec![],
        },
    );
    let text = registry_to_json(&registry);
    let expected = "{\"tasks\":{\n\"t\":{\"mode\":\"native\",\"command\":\"true\",\"status\":\"cancelled\",\"started_at\":7,\"completed_at\":9,\"native\":null,\"docker\":null,\"constitution_rules\":[]}\n}}\n";
    assert_eq!(text, expected);
}

#[test]
fn test_corrupt_document_rejected() {
    assert!(registry_from_json("").is_none());
    assert!(registry_from_json("{}").is_none());
    assert!(registry_from_json("{\"tasks\":{}}").is_none()); // missing final newline
    assert!(registry_from_json("{\"tasks\":{\n\"a\":{\"mode\":\"native\"}\n}}\n").is_none());
    assert!(registry_from_json("not json at all").is_none());
}

#[test]
fn test_duplicate_identifiers_rejected() {
    // A well-formed document never repeats a key; a document that does is
    // corrupt.
    let mut registry = ProcessRegistry::new();
    registry.add_task(
        "dup".to_string(),
        TaskInfo {
            mode: ExecutionMode::Native,
            command: "x".to_string(),
            status: TaskStatus::Running,
            started_at: 0,
            completed_at: None,
            native: None,
            docker: None,
            constitution_rules: vec![],
        },
    );
    let text = registry_to_json(&registry);
    assert!(registry_from_json(&text).is_some());
    let entry = "\"dup\":{\"mode\":\"native\",\"command\":\"x\",\"status\":\"running\",\"started_at\":0,\"completed_at\":null,\"native\":null,\"docker\":null,\"constitution_rules\":[]}";
    let single = format!("{{\"tasks\":{{\n{}\n}}}}\n", entry);
    assert_eq!(single, text);
    let doubled = format!("{{\"tasks\":{{\n{},\n{}\n}}}}\n", entry, entry);
    assert!(registry_from_json(&doubled).is_none());
}

#[test]
fn test_record_invariant_enforced_on_load() {
    // Completed status without a completion instant breaks the record
    // invariant; such a document is corrupt.
    let text = "{\"tasks\":{\n\"bad\":{\"mode\":\"native\",\"command\":\"x\",\"status\":\"completed\",\"started_at\":0,\"completed_at\":null,\"native\":null,\"docker\":null,\"constitution_rules\":[]}\n}}\n";
    assert!(registry_from_json(text).is_none());
    // The same record marked running is fine.
    let ok = text.replace("\"completed\"", "\"running\"");
    assert!(registry_from_json(&ok).is_some());
}

#[test]
fn test_escaping_round_trip() {
    let mut registry = ProcessRegistry::new();
    let hostile = "\\\"\\n literal \n\r\t and \"quotes\"";
    registry.add_task(
        hostile.to_string(),
        TaskInfo {
            mode: ExecutionMode::Native,
            command: hostile.to_string(),
            status: TaskStatus::Running,
            started_at: 0,
            completed_at: None,
            native: None,
            docker: None,
            constitution_rules: vec![hostile.to_string()],
        },
    );
    let text = registry_to_json(&registry);
    let back = registry_from_json(&text).expect("escaped document must parse");
    let t = back.get_task(hostile).expect("hostile id survives");
    assert_eq!(t.command, hostile);
    assert_eq!(t.constitution_rules, vec![hostile.to_string()]);
}
