use task_watchdog::process::{
    classify_outcome, ProcessError, ProcessManager, SignalOutcome,
};

#[test]
fn test_is_alive() {
    // The current process should be alive.
    let pid = nix::unistd::getpid().as_raw();
    assert!(ProcessManager::is_alive(pid));

    // PID 999999 should not exist.
    assert!(!ProcessManager::is_alive(999999));
}

#[test]
fn test_get_start_time() {
    let pid = nix::unistd::getpid().as_raw();
    let start_time = ProcessManager::get_start_time(pid);
    assert!(start_time.is_ok());
}

#[test]
fn test_get_start_time_missing_process() {
    assert_eq!(
        ProcessManager::get_start_time(999999),
        Err(ProcessError::ProcessNotFound)
    );
    assert_eq!(
        ProcessManager::get_start_time(-1),
        Err(ProcessError::ProcessNotFound)
    );
}

#[test]
fn test_fingerprint_matches_rejects_differing_fingerprint() {
    // The PID-reuse guard: a live-looking PID whose fingerprint differs is
    // not the same process.
    let live = Some("1699999999".to_string());
    assert!(!ProcessManager::fingerprint_matches(&live, "1690000000"));
    assert!(ProcessManager::fingerprint_matches(&live, "1699999999"));
    assert!(!ProcessManager::fingerprint_matches(&None, "1699999999"));
}

#[test]
fn test_validate_process_self() {
    let pid = nix::unistd::getpid().as_raw();
    let fp = ProcessManager::get_start_time(pid).unwrap();
    assert!(ProcessManager::validate_process(pid, &fp));
    assert!(!ProcessManager::validate_process(pid, "not-the-fingerprint"));
    assert!(!ProcessManager::validate_process(999999, &fp));
}

#[test]
fn test_kill_process_on_absent_target_is_success() {
    // Terminating an already-dead target succeeds silently.
    assert!(ProcessManager::kill_process(999999).is_ok());
    assert!(ProcessManager::kill_process_group(999999).is_ok());
}

#[test]
fn test_classify_outcome() {
    assert_eq!(classify_outcome(SignalOutcome::Delivered), Ok(()));
    assert_eq!(classify_outcome(SignalOutcome::NoSuchProcess), Ok(()));
    assert_eq!(
        classify_outcome(SignalOutcome::Failed(13)),
        Err(ProcessError::SignalDeliveryFailure(13))
    );
}

#[test]
fn test_find_processes_by_env() {
    let listing = "  PID TTY      STAT   TIME COMMAND\n 1201 ?        Ss     0:00 daemon WATCH_TAG=alpha PATH=/bin\n   73 ?        S      0:00 other WATCH_TAG=beta\n 9042 ?        S      0:01 worker WATCH_TAG=alpha\nnotapid ?     S      0:00 stray WATCH_TAG=alpha\n";
    let pids = ProcessManager::find_processes_by_env(listing, "WATCH_TAG", "alpha");
    assert_eq!(pids, vec![1201, 9042]);
}

#[test]
fn test_find_processes_by_env_no_match() {
    let listing = "10 ? S 0:00 something OTHER=1\n";
    let pids = ProcessManager::find_processes_by_env(listing, "WATCH_TAG", "alpha");
    assert!(pids.is_empty());
}
