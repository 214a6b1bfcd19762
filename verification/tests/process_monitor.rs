//! The process monitor commands over a log storage.

use std::sync::{Arc, Mutex};

use tauri_shell::process_monitor;
use tauri_shell::state::{append_entry, LogBuffer, LogEntry, LogStorage, DEFAULT_RING_CAPACITY};

fn fresh_storage() -> LogStorage {
    LogStorage::new()
}

fn entry(pid: &str, content: &str) -> LogEntry {
    LogEntry {
        timestamp: 0,
        content: content.to_string(),
        process_id: pid.to_string(),
    }
}

#[test]
fn register_creates_buffer_and_is_idempotent() {
    let mut storage = fresh_storage();
    assert!(process_monitor::register(&mut storage, "proc-1"));
    // Second register on the same id is a no-op (returns false).
    assert!(!process_monitor::register(&mut storage, "proc-1"));
    // History is empty for a freshly-registered process.
    assert!(process_monitor::history(&storage, "proc-1", None).is_empty());
}

#[test]
fn get_returns_appended_entries_in_order() {
    let mut storage = fresh_storage();
    process_monitor::register(&mut storage, "proc-x");
    for i in 0..100 {
        append_entry(&mut storage, entry("proc-x", &format!("line-{i}")));
    }
    let logs = process_monitor::history(&storage, "proc-x", None);
    assert_eq!(logs.len(), 100);
    assert_eq!(logs.first().unwrap().content, "line-0");
    assert_eq!(logs.last().unwrap().content, "line-99");
}

#[test]
fn clear_empties_buffer_but_keeps_registration() {
    let mut storage = fresh_storage();
    process_monitor::register(&mut storage, "proc-c");
    for i in 0..10 {
        append_entry(&mut storage, entry("proc-c", &format!("l{i}")));
    }
    assert_eq!(process_monitor::history(&storage, "proc-c", None).len(), 10);
    assert!(process_monitor::clear(&mut storage, "proc-c"));
    assert!(process_monitor::history(&storage, "proc-c", None).is_empty());
    // Re-register should still report "already registered".
    assert!(!process_monitor::register(&mut storage, "proc-c"));
}

#[test]
fn unregister_drops_buffer_and_history() {
    let mut storage = fresh_storage();
    process_monitor::register(&mut storage, "proc-u");
    append_entry(&mut storage, entry("proc-u", "hello"));
    assert!(process_monitor::unregister(&mut storage, "proc-u"));
    // After unregister, history is empty.
    assert!(process_monitor::history(&storage, "proc-u", None).is_empty());
    // Second unregister returns false.
    assert!(!process_monitor::unregister(&mut storage, "proc-u"));
}

#[test]
fn capacity_overflow_evicts_oldest() {
    let mut buf = LogBuffer::new(5);
    for i in 0..8 {
        buf.push(entry("proc", &format!("line-{i}")));
    }
    assert_eq!(buf.len(), 5);
    let all = buf.tail(None);
    // Oldest 3 should have been evicted.
    assert_eq!(all.first().unwrap().content, "line-3");
    assert_eq!(all.last().unwrap().content, "line-7");
}

#[test]
fn multi_id_isolation() {
    let mut storage = fresh_storage();
    for pid in ["a", "b", "c"] {
        process_monitor::register(&mut storage, pid);
        for i in 0..5 {
            append_entry(&mut storage, entry(pid, &format!("{pid}-{i}")));
        }
    }
    // Clearing one id must not affect the others.
    process_monitor::clear(&mut storage, "b");
    assert_eq!(process_monitor::history(&storage, "a", None).len(), 5);
    assert_eq!(process_monitor::history(&storage, "b", None).len(), 0);
    assert_eq!(process_monitor::history(&storage, "c", None).len(), 5);
    // Sanity-check that the entries did not leak across keys.
    for e in process_monitor::history(&storage, "a", None) {
        assert!(e.content.starts_with("a-"));
    }
    for e in process_monitor::history(&storage, "c", None) {
        assert!(e.content.starts_with("c-"));
    }
}

#[test]
fn global_log_storage_handle_round_trips() {
    // The process-wide handle is a shared, locked storage; two clones of
    // the handle reach the same map.
    let global: Arc<Mutex<LogStorage>> = Arc::new(Mutex::new(LogStorage::new()));
    let storage = Arc::clone(&global);
    let pid = "global-roundtrip-test";
    process_monitor::unregister(&mut storage.lock().unwrap(), pid);

    assert!(process_monitor::register(&mut storage.lock().unwrap(), pid));
    append_entry(&mut storage.lock().unwrap(), entry(pid, "global-hello"));
    let logs = process_monitor::history(&storage.lock().unwrap(), pid, None);
    assert_eq!(logs.len(), 1);
    assert_eq!(logs[0].content, "global-hello");
    assert!(process_monitor::unregister(&mut storage.lock().unwrap(), pid));

    let s2 = Arc::clone(&global);
    assert!(Arc::ptr_eq(&storage, &s2));
    assert!(Arc::ptr_eq(&global, &storage));
    // Default ring capacity hasn't been silently changed.
    assert_eq!(DEFAULT_RING_CAPACITY, 10_000);
}
