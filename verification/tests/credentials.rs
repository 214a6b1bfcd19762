//! The credential vault: default tree, updates and the vault editor's files.

use tauri_shell::ipc::credentials::{
    default_tree, settings_path, user_credentials, vault_file_default, with_credential_key,
    with_credentials,
};
use tauri_shell::ipc::IpcError;
use tauri_shell::json::Json;

fn s(t: &str) -> Json {
    Json::Str(t.to_string())
}

fn keys(j: &Json) -> Vec<String> {
    match j {
        Json::Object(es) => es.iter().map(|e| e.0.clone()).collect(),
        _ => Vec::new(),
    }
}

#[test]
fn default_tree_has_three_empty_sections() {
    let t = default_tree();
    assert_eq!(keys(&t), vec!["credentials", "preferences", "defaults"]);
    match &t {
        Json::Object(es) => {
            for e in es {
                assert!(matches!(&e.1, Json::Object(m) if m.is_empty()));
            }
        }
        _ => panic!("not an object"),
    }
    assert_eq!(keys(&user_credentials(None)), keys(&t));
    assert!(matches!(user_credentials(Some(s("x"))), Json::Str(v) if v == "x"));
}

#[test]
fn update_replaces_only_the_credentials_member() {
    let t = with_credentials(default_tree(), Json::Object(vec![("fmp".into(), s("k1"))]));
    assert_eq!(keys(&t), vec!["credentials", "preferences", "defaults"]);
    assert!(matches!(t.get("credentials"), Some(Json::Object(m)) if m.len() == 1 && m[0].0 == "fmp"));
    // A tree that is not an object is left alone.
    assert!(matches!(with_credentials(s("x"), Json::Null), Json::Str(v) if v == "x"));
    // A missing member is appended.
    let t = with_credentials(Json::Object(vec![("a".into(), Json::Null)]), Json::Bool(true));
    assert_eq!(keys(&t), vec!["a", "credentials"]);
}

#[test]
fn set_one_key_inside_credentials() {
    let t = with_credential_key(default_tree(), "fmp_api_key".into(), "abc".into());
    match t.get("credentials") {
        Some(Json::Object(m)) => {
            assert_eq!(m.len(), 1);
            assert_eq!(m[0].0, "fmp_api_key");
            assert!(matches!(&m[0].1, Json::Str(v) if v == "abc"));
        }
        other => panic!("unexpected: {other:?}"),
    }
    // Missing `credentials` is created.
    let t = with_credential_key(Json::Object(Vec::new()), "k".into(), "v".into());
    assert!(matches!(t.get("credentials"), Some(Json::Object(m)) if m.len() == 1));
    // A non-object `credentials` is left as it is.
    let t = with_credential_key(Json::Object(vec![("credentials".into(), s("x"))]), "k".into(), "v".into());
    assert!(matches!(t.get("credentials"), Some(Json::Str(v)) if v == "x"));
}

#[test]
fn vault_files_are_allow_listed_with_defaults() {
    assert_eq!(
        vault_file_default("user_settings.json").unwrap(),
        r#"{"credentials": {}, "preferences": {}, "defaults": {}}"#
    );
    assert_eq!(vault_file_default("system_settings.json").unwrap(), "{}");
    assert_eq!(vault_file_default("mcp_settings.json").unwrap(), "{}");
    assert_eq!(vault_file_default(".env").unwrap(), "# environment variables\n");
    assert_eq!(vault_file_default(".condarc").unwrap(), "channels:\n  - conda-forge\n  - defaults\n");
    match vault_file_default("../etc/passwd") {
        Err(IpcError::InvalidArgument(m)) => assert_eq!(m, "file_name not in allow-list: ../etc/passwd"),
        other => panic!("unexpected: {other:?}"),
    }
    // The vault editor does not open the widget settings.
    assert!(vault_file_default("widget_settings.json").is_err());
}

#[test]
fn settings_path_needs_a_settings_directory() {
    assert!(settings_path(Some("/home/u/.tauri-shell".into())).unwrap().ends_with("user_settings.json"));
    match settings_path(None) {
        Err(IpcError::Internal(m)) => assert_eq!(m, "no settings directory"),
        other => panic!("unexpected: {other:?}"),
    }
}

#[test]
fn settings_path_joins_the_vault_file() {
    let p = settings_path(Some("/home/u/.tauri-shell".into())).unwrap();
    assert!(p == "/home/u/.tauri-shell/user_settings.json" || p == "/home/u/.tauri-shell\\user_settings.json");
}
