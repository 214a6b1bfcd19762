//! Ports from URLs and process ids from `lsof -t` output.

use tauri_shell::process_kill;

#[test]
fn port_from_url_extracts_known_ports() {
    assert_eq!(
        process_kill::port_from_url("http://127.0.0.1:6900/health"),
        Some(6900)
    );
    assert_eq!(
        process_kill::port_from_url("http://localhost:8888/lab?token=abc"),
        Some(8888)
    );
    // Defaults from the scheme (HTTP = 80).
    assert_eq!(
        process_kill::port_from_url("http://example.com/api"),
        Some(80)
    );
    // Regex fallback for non-URL strings.
    assert_eq!(
        process_kill::port_from_url("the server is at :9000 right now"),
        Some(9000)
    );
}

#[test]
fn port_from_url_returns_none_for_garbage() {
    assert_eq!(process_kill::port_from_url("not a url at all"), None);
}

#[test]
fn port_from_url_rejects_out_of_range_capture() {
    // Five digits above 65535 do not make a port.
    assert_eq!(process_kill::port_from_url("listening on :99999 now"), None);
    // HTTPS default.
    assert_eq!(process_kill::port_from_url("https://example.com/"), Some(443));
}

#[test]
fn parse_pids_keeps_numeric_lines_in_order() {
    assert_eq!(process_kill::parse_pids("123\n 456 \nabc\n\n789"), vec![123, 456, 789]);
    assert_eq!(process_kill::parse_pids(""), Vec::<u32>::new());
    // Beyond u32 range, or signed, the line is skipped.
    assert_eq!(process_kill::parse_pids("4294967296\n-1\n4294967295"), vec![4294967295]);
}

#[test]
fn listening_pids_reads_last_column_of_listening_lines() {
    let out = "Active Connections\r\n\r\n  Proto  Local Address          Foreign Address        State           PID\r\n  TCP    0.0.0.0:6900           0.0.0.0:0              LISTENING       4242\r\n  TCP    127.0.0.1:6900         127.0.0.1:50000        ESTABLISHED     4242\r\n  TCP    0.0.0.0:8888           0.0.0.0:0              LISTENING       777\r\n  TCP    [::]:6900              [::]:0                 LISTENING       4243\r\n";
    assert_eq!(process_kill::listening_pids(out, 6900), vec![4242, 4243]);
    assert_eq!(process_kill::listening_pids(out, 8888), vec![777]);
    assert_eq!(process_kill::listening_pids(out, 1234), Vec::<u32>::new());
    // A last column that is not a number is skipped.
    assert_eq!(
        process_kill::listening_pids("TCP 0.0.0.0:80 0.0.0.0:0 LISTENING system", 80),
        Vec::<u32>::new()
    );
}

#[test]
fn tasklist_has_pid_looks_for_the_number_on_any_line() {
    let out = "\r\nnode.exe                     4242 Console                    1     45,000 K\r\n";
    assert!(process_kill::tasklist_has_pid(out, 4242));
    assert!(!process_kill::tasklist_has_pid(out, 5151));
    assert!(!process_kill::tasklist_has_pid("INFO: No tasks are running which match the specified criteria.", 12));
}

#[test]
fn lines_of_splits_at_each_newline() {
    assert_eq!(process_kill::lines_of("a\nb\n"), vec!["a".to_string(), "b".to_string(), String::new()]);
    assert_eq!(process_kill::lines_of(""), vec![String::new()]);
}
