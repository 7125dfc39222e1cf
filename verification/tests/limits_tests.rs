use task_watchdog::limits::{parse_memory, MemoryError};
use task_watchdog::strutil::split_trimmed;
use task_watchdog::types::{ResourceLimits, TaskStatus};

#[test]
fn test_parse_memory() {
    assert_eq!(parse_memory("512m").unwrap(), 512 * 1024 * 1024);
    assert_eq!(parse_memory("1g").unwrap(), 1024 * 1024 * 1024);
    assert_eq!(parse_memory("2048k").unwrap(), 2048 * 1024);
}

#[test]
fn test_parse_memory_trims_and_ignores_case() {
    assert_eq!(parse_memory("  512M  ").unwrap(), 512 * 1024 * 1024);
    assert_eq!(parse_memory("1G").unwrap(), 1024 * 1024 * 1024);
}

#[test]
fn test_parse_memory_errors() {
    assert_eq!(parse_memory(""), Err(MemoryError::Empty));
    assert_eq!(parse_memory("   "), Err(MemoryError::Empty));
    assert_eq!(parse_memory("12x"), Err(MemoryError::InvalidUnit));
    assert_eq!(parse_memory("m"), Err(MemoryError::InvalidNumber));
    assert_eq!(parse_memory("1.5g"), Err(MemoryError::InvalidNumber));
    assert_eq!(parse_memory("99999999999999999999g"), Err(MemoryError::InvalidNumber));
    assert_eq!(parse_memory("9223372036854775807g"), Err(MemoryError::TooLarge));
}

#[test]
fn test_default_resource_limits() {
    let limits = ResourceLimits::default();
    assert_eq!(limits.memory, "512m");
    assert_eq!(limits.cpu, "1.0");
}

#[test]
fn test_status_labels() {
    assert_eq!(TaskStatus::Running.to_string(), "running");
    assert_eq!(TaskStatus::Completed.to_string(), "completed");
    assert_eq!(TaskStatus::Failed.to_string(), "failed");
    assert_eq!(TaskStatus::Cancelled.to_string(), "cancelled");
}

#[test]
fn test_split_trimmed_rules() {
    assert_eq!(
        split_trimmed("no-network, read only ,strict"),
        vec!["no-network".to_string(), "read only".to_string(), "strict".to_string()]
    );
    assert_eq!(split_trimmed(""), vec!["".to_string()]);
    assert_eq!(split_trimmed("solo"), vec!["solo".to_string()]);
}
