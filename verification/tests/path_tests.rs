use task_watchdog::paths::{validate_registry_path, PathError};

// The validator is pure: the caller resolves the path against the
// filesystem and hands in the working directory, the canonical form (when
// the file exists) and whether the parent directory exists. These tests
// drive it with the same paths the command line would see.

const CWD: &str = "/home/user/project";

#[test]
fn test_valid_relative_path() {
    let canonical = format!("{}/{}", CWD, ".watchdog/test_registry.json");
    let result = validate_registry_path(
        ".watchdog/test_registry.json",
        CWD,
        Some(&canonical),
        true,
    );
    assert!(result.is_ok(), "Valid relative path should be accepted");
}

#[test]
fn test_parent_directory_traversal_blocked() {
    let result = validate_registry_path("../../etc/passwd", CWD, None, true);
    assert!(result.is_err(), "Path traversal with .. should be blocked");
    if let Err(e) = result {
        assert!(e.message().contains("parent directory references"));
    }
}

#[test]
fn test_system_directory_blocked() {
    let system_paths = vec![
        "/etc/watchdog.json",
        "/root/.watchdog/registry.json",
        "/sys/kernel/watchdog",
        "/proc/watchdog",
        "/boot/watchdog.json",
        "/dev/watchdog",
    ];

    for path in system_paths {
        let result = validate_registry_path(path, CWD, Some(&path.to_string()), true);
        assert!(result.is_err(), "System path {} should be blocked", path);
        if let Err(e) = result {
            let error_msg = e.message();
            assert!(
                error_msg.contains("system directory")
                    || error_msg.contains("current working directory")
                    || error_msg.contains("does not exist"),
                "Error should mention security restriction for path {}, got: {}",
                path,
                error_msg
            );
        }
    }
}

#[test]
fn test_path_outside_cwd_blocked() {
    // The file exists in a sibling directory, outside the working directory.
    let outside = "/home/user/elsewhere/registry.json";
    let result = validate_registry_path(outside, CWD, Some(&outside.to_string()), true);
    assert!(result.is_err(), "Path outside CWD should be blocked");
    if let Err(e) = result {
        assert!(e.message().contains("current working directory"));
    }
}

#[test]
fn test_nonexistent_file_with_valid_parent() {
    let result = validate_registry_path(".watchdog/new_registry.json", CWD, None, true);
    assert!(
        result.is_ok(),
        "Non-existent file with valid parent should be accepted"
    );
}

#[test]
fn test_nonexistent_parent_directory_blocked() {
    let result = validate_registry_path("nonexistent_dir/registry.json", CWD, None, false);
    assert!(result.is_err(), "Path with non-existent parent should be blocked");
    if let Err(e) = result {
        assert!(e.message().contains("does not exist"));
    }
}

#[test]
fn test_absolute_path_within_cwd() {
    let absolute = format!("{}/.watchdog/registry.json", CWD);
    let result = validate_registry_path(&absolute, CWD, Some(&absolute), true);
    assert!(result.is_ok(), "Absolute path within CWD should be accepted");
}

#[test]
fn test_hidden_parent_traversal_blocked() {
    let malicious_paths = vec![
        "./../../../etc/passwd",
        "./.../../etc/passwd",
        "subdir/../../etc/passwd",
    ];

    for path in malicious_paths {
        let result = validate_registry_path(path, CWD, None, true);
        assert!(result.is_err(), "Malicious path {} should be blocked", path);
        if let Err(e) = result {
            assert!(e.message().contains("parent directory references"));
        }
    }
}

#[test]
fn test_default_path_accepted() {
    let canonical = format!("{}/{}", CWD, ".watchdog/process_registry.json");
    let result = validate_registry_path(
        ".watchdog/process_registry.json",
        CWD,
        Some(&canonical),
        true,
    );
    assert!(result.is_ok(), "Default registry path should be accepted");
}

#[test]
fn test_accepted_path_is_resolved_form() {
    // A relative path for a file not yet created resolves against the
    // working directory.
    let result = validate_registry_path(".watchdog/process_registry.json", CWD, None, true);
    assert_eq!(
        result.unwrap(),
        "/home/user/project/.watchdog/process_registry.json"
    );
}

#[test]
fn test_dir_prefix_is_component_aware() {
    // "/etcetera" merely shares letters with "/etc": it is not inside it.
    // It is outside the working directory instead.
    let p = "/etcetera/registry.json".to_string();
    let result = validate_registry_path(&p, CWD, Some(&p), true);
    assert_eq!(result.unwrap_err(), PathError::OutsideCwd);
}
