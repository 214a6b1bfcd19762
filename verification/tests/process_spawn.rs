//! Cleaning of subprocess output and the recording of output lines.

use tauri_shell::process_spawn::{clean_line, collapse_overwrites, output_line, record_line, SpawnOptions};
use tauri_shell::state::{get_logs, register_process_with_capacity, LogStorage, DEFAULT_RING_CAPACITY};

#[test]
fn collapse_drops_char_before_backspace() {
    assert_eq!(collapse_overwrites("abc\u{8}d"), "abd");
    assert_eq!(collapse_overwrites("\u{8}x"), "x");
}

#[test]
fn collapse_keeps_last_nonblank_carriage_return_segment() {
    assert_eq!(collapse_overwrites("10%\r50%\r100%"), "100%");
    assert_eq!(collapse_overwrites("done\r   "), "done");
    assert_eq!(collapse_overwrites("\r \r"), "");
}

#[test]
fn clean_line_strips_escapes_and_drops_blank_lines() {
    let opts = SpawnOptions::defaults();
    assert_eq!(clean_line("\u{1b}[31mred\u{1b}[0m".to_string(), &opts), Some("red".to_string()));
    assert_eq!(clean_line("  ".to_string(), &opts), None);
    let keep = SpawnOptions::default();
    assert_eq!(clean_line("  ".to_string(), &keep), Some("  ".to_string()));
}

#[test]
fn record_line_stores_and_announces() {
    let mut storage = LogStorage::new();
    let ev = record_line(&mut storage, "p".to_string(), "hello".to_string(), 42, "stdout".to_string());
    assert_eq!(ev.process_id, "p");
    assert_eq!(ev.output, "hello");
    assert_eq!(ev.timestamp, 42);
    assert_eq!(ev.kind, "stdout");
    let logs = get_logs(&storage, "p", None);
    assert_eq!(logs.len(), 1);
    assert_eq!(logs[0].content, "hello");
}

#[test]
fn output_line_skips_dropped_lines() {
    let mut storage = LogStorage::new();
    let opts = SpawnOptions::defaults();
    assert!(output_line(&mut storage, &opts, "p".into(), "   ".into(), 1, "stderr".into()).is_none());
    assert!(get_logs(&storage, "p", None).is_empty());
    let ev = output_line(&mut storage, &opts, "p".into(), "a\rb".into(), 2, "stderr".into()).unwrap();
    assert_eq!(ev.output, "b");
    assert_eq!(get_logs(&storage, "p", None)[0].content, "b");
}

#[test]
fn ring_capacity_override_keeps_the_last_lines() {
    let mut storage = LogStorage::new();
    let opts = SpawnOptions { ring_capacity: Some(5), ..SpawnOptions::defaults() };
    assert_eq!(opts.buffer_capacity(), 5);
    assert_eq!(SpawnOptions::defaults().buffer_capacity(), DEFAULT_RING_CAPACITY);
    assert!(register_process_with_capacity(&mut storage, "p", opts.buffer_capacity()));
    for i in 0..8 {
        output_line(&mut storage, &opts, "p".into(), format!("line-{i}"), i, "stdout".into());
    }
    let logs = get_logs(&storage, "p", None);
    let texts: Vec<String> = logs.iter().map(|e| e.content.clone()).collect();
    assert_eq!(texts, vec!["line-3", "line-4", "line-5", "line-6", "line-7"]);
}

#[test]
fn output_line_makes_a_buffer_of_the_requested_capacity() {
    let mut storage = LogStorage::new();
    let opts = SpawnOptions { ring_capacity: Some(2), ..SpawnOptions::defaults() };
    for i in 0..4 {
        output_line(&mut storage, &opts, "q".into(), format!("l{i}"), i, "stdout".into());
    }
    let logs = get_logs(&storage, "q", None);
    assert_eq!(logs.len(), 2);
    assert_eq!(logs[1].content, "l3");
    // A buffer registered earlier keeps its own capacity.
    assert!(!register_process_with_capacity(&mut storage, "q", 10));
    output_line(&mut storage, &opts, "q".into(), "l4".into(), 4, "stdout".into());
    assert_eq!(get_logs(&storage, "q", None).len(), 2);
}
