//! URL-component encoding and the child windows.

use tauri_shell::windows::{
    backend_logs_window, external_window_label, jupyter_logs_window, logs_window, urlencode,
};

#[test]
fn urlencode_keeps_unreserved_and_escapes_the_rest() {
    assert_eq!(urlencode("abc-XYZ_0.9~"), "abc-XYZ_0.9~");
    assert_eq!(urlencode("a b/c"), "a%20b%2Fc");
    assert_eq!(urlencode("é"), "%C3%A9");
    assert_eq!(urlencode("€"), "%E2%82%AC");
    assert_eq!(urlencode("😀"), "%F0%9F%98%80");
    assert_eq!(urlencode(""), "");
}

#[test]
fn logs_windows() {
    let w = logs_window("p", "my env", "/logs", "env", "T");
    assert_eq!(w.label, "p-my env");
    assert_eq!(w.route, "/logs?env=my%20env");
    assert_eq!(w.title, "T");
    let b = backend_logs_window("b1");
    assert_eq!((b.label.as_str(), b.route.as_str(), b.title.as_str()), ("backend-logs-b1", "/backend-logs?id=b1", "Backend Logs"));
    let j = jupyter_logs_window("base");
    assert_eq!((j.label.as_str(), j.route.as_str(), j.title.as_str()), ("jupyter-logs-base", "/jupyter-logs?env=base", "Jupyter Logs"));
}

#[test]
fn external_label_carries_the_time() {
    assert_eq!(external_window_label(1700000000123), "url-1700000000123");
    assert_eq!(external_window_label(0), "url-0");
    assert_eq!(external_window_label(-5), "url--5");
}
