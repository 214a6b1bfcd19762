//! Data directory name, installation state, events and small helpers.

use tauri_shell::events::{ProcessOutputEvent, NAVIGATE, PROCESS_OUTPUT};
use tauri_shell::ipc::helpers::{external_title, home_directory, logs_window_defaults, picked, workspace_url, PickedPath};
use tauri_shell::ipc::IpcError;
use tauri_shell::path_utils::{data_dir_name, set_data_dir_name, settings_dir, settings_file, DataDirName};
use tauri_shell::state::{boot_snapshot, InstallationProgress, InstallationSnapshot, InstallationState};
use tauri_shell::text::{i64_text, u64_text};

#[test]
fn data_dir_name_is_set_once() {
    let mut slot = DataDirName::new();
    assert_eq!(data_dir_name(&slot, None), ".tauri-shell");
    assert_eq!(data_dir_name(&slot, Some("from-env".into())), "from-env");
    set_data_dir_name(&mut slot, ".mine".into());
    set_data_dir_name(&mut slot, ".ignored".into());
    assert_eq!(data_dir_name(&slot, Some("from-env".into())), ".mine");
}

#[test]
fn settings_paths_need_a_home() {
    assert!(settings_dir(None, ".x").is_none());
    let d = settings_dir(Some("/home/u".into()), ".x").unwrap();
    assert!(d.ends_with(".x"));
    assert!(settings_file(Some(d), "a.json").unwrap().ends_with("a.json"));
    assert!(settings_file(None, "a.json").is_none());
}

#[test]
fn installation_state_reads_back_what_was_written() {
    let boot = boot_snapshot();
    assert!(!boot.is_installed && boot.installation_directory.is_none());
    let mut st = InstallationState::new(boot);
    assert!(!st.read().is_installed);
    st.replace(InstallationSnapshot { is_installed: true, installation_directory: Some("/opt/x".into()) });
    let r = st.read();
    assert!(r.is_installed);
    assert_eq!(r.installation_directory.as_deref(), Some("/opt/x"));
    let d = InstallationSnapshot::default();
    assert!(!d.is_installed);
    let p = InstallationProgress::default();
    assert!(!p.is_downloading && !p.is_installing && !p.is_configuring && !p.is_complete && p.message.is_empty());
}

#[test]
fn output_events_carry_their_kind() {
    let e = ProcessOutputEvent::stdout("p1", "hello");
    assert_eq!((e.process_id.as_str(), e.output.as_str(), e.kind.as_str()), ("p1", "hello", "stdout"));
    assert!(e.timestamp > 0);
    assert_eq!(ProcessOutputEvent::stderr("p", "x").kind, "stderr");
    assert_eq!(ProcessOutputEvent::system("p", "x").kind, "system");
    assert_eq!(PROCESS_OUTPUT, "process-output");
    assert_eq!(NAVIGATE, "navigate");
}

#[test]
fn helper_defaults_and_pickers() {
    assert_eq!(picked(Some(PickedPath::Path("/a".into()))).unwrap(), "/a");
    assert_eq!(picked(Some(PickedPath::Url("file:///a".into()))).unwrap(), "file:///a");
    assert!(matches!(picked(None), Err(IpcError::InvalidArgument(m)) if m == "user cancelled"));
    assert!(matches!(home_directory(None), Err(IpcError::Internal(m)) if m == "home directory not available"));
    assert_eq!(external_title(None), "External");
    assert_eq!(workspace_url(None), "https://example.com");
    assert_eq!(logs_window_defaults(None, Some("T".into())), ("id".to_string(), "T".to_string()));
}

#[test]
fn decimal_texts() {
    assert_eq!(u64_text(0), "0");
    assert_eq!(u64_text(18446744073709551615), "18446744073709551615");
    assert_eq!(i64_text(-9223372036854775808), "-9223372036854775808");
    assert_eq!(i64_text(42), "42");
}

fn one_of(p: &str, a: &str, b: &str) -> bool {
    p == a || p == b
}

#[test]
fn settings_paths_join_with_one_separator() {
    let d = settings_dir(Some("/home/u".into()), ".tauri-shell").unwrap();
    assert!(one_of(&d, "/home/u/.tauri-shell", "/home/u\\.tauri-shell"));
    let f = settings_file(Some("/home/u/.tauri-shell".into()), "a.json").unwrap();
    assert!(one_of(&f, "/home/u/.tauri-shell/a.json", "/home/u/.tauri-shell\\a.json"));
    // No second separator after a base that ends in one.
    assert_eq!(settings_file(Some("/data/".into()), "a.json").unwrap(), "/data/a.json");
}
