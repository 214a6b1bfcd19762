//! Settings files: allow-list, what their text stands for, and writes.

use tauri_shell::ipc::settings_files::{
    check_settings_file, list_settings_files, resolve, settings_content, SettingsContent,
};
use tauri_shell::ipc::IpcError;
use tauri_shell::json::Json;
use tauri_shell::settings::{json_document, modify_base, tmp_extension, SettingsError};

#[test]
fn allow_list_is_fixed() {
    assert_eq!(
        list_settings_files(),
        vec![
            "user_settings.json",
            "system_settings.json",
            "mcp_settings.json",
            "widget_settings.json",
            ".env",
            ".condarc"
        ]
    );
    for f in list_settings_files() {
        assert!(check_settings_file(&f).is_ok());
    }
    match check_settings_file("secrets.json") {
        Err(IpcError::InvalidArgument(m)) => assert_eq!(m, "file_name not in allow-list: secrets.json"),
        other => panic!("unexpected: {other:?}"),
    }
}

#[test]
fn resolve_checks_name_then_directory() {
    assert!(resolve(".env", Some("/tmp/x".into())).unwrap().ends_with(".env"));
    assert!(matches!(resolve(".env", None), Err(IpcError::Internal(m)) if m == "no settings directory"));
    assert!(matches!(resolve("x", None), Err(IpcError::InvalidArgument(_))));
}

#[test]
fn blank_file_is_no_document() {
    assert!(matches!(json_document("  \n\t"), Ok(None)));
    assert!(matches!(json_document("{\"a\": 1}"), Ok(Some(Json::Object(_)))));
    assert!(matches!(json_document("{ not valid json"), Err(SettingsError::Json(_))));
}

#[test]
fn modify_starts_from_default_when_missing_or_blank() {
    assert!(matches!(modify_base(None, Json::Bool(true)), Ok(Json::Bool(true))));
    assert!(matches!(modify_base(Some("   ".into()), Json::Bool(true)), Ok(Json::Bool(true))));
    assert!(matches!(modify_base(Some("[1]".into()), Json::Bool(true)), Ok(Json::Array(_))));
    assert!(matches!(modify_base(Some("{".into()), Json::Null), Err(SettingsError::Json(_))));
}

#[test]
fn temporary_extension_and_messages() {
    assert_eq!(tmp_extension(Some("json")), "json.tmp");
    assert_eq!(tmp_extension(None), "tmp");
    assert_eq!(SettingsError::LockFailed("/x.lock".into()).message(), "could not acquire file lock on /x.lock");
    assert_eq!(SettingsError::NoSettingsDir.message(), "settings dir not found");
    let e: IpcError = SettingsError::Io("boom".into()).into();
    assert!(matches!(e, IpcError::Internal(m) if m == "io error: boom"));
}

#[test]
fn write_content_is_parsed_for_json_files() {
    assert!(matches!(settings_content("user_settings.json", "{}".into()), Ok(SettingsContent::Document(Json::Object(_)))));
    match settings_content("user_settings.json", "nope".into()) {
        Err(m) => assert!(m.starts_with("content is not valid JSON: ")),
        Ok(other) => panic!("unexpected: {other:?}"),
    }
    assert!(matches!(settings_content(".env", "A=1".into()), Ok(SettingsContent::Text(t)) if t == "A=1"));
}

#[test]
fn modify_json_seeds_default_when_file_missing() {
    let default = Json::Object(vec![("first".into(), Json::Str("default".into()))]);
    let mut tree = match modify_base(None, default).unwrap() {
        Json::Object(es) => es,
        other => panic!("object expected, got {other:?}"),
    };
    tauri_shell::json::set_member(&mut tree, "added_in_closure".into(), Json::Bool(true));
    let t = Json::Object(tree);
    assert!(matches!(t.get("first"), Some(Json::Str(s)) if s == "default"));
    assert!(matches!(t.get("added_in_closure"), Some(Json::Bool(true))));
}

#[test]
fn modify_json_merges_into_existing_tree() {
    let existing = Some("{\"seed\": 1}".to_string());
    let mut tree = match modify_base(existing, Json::Null).unwrap() {
        Json::Object(es) => es,
        other => panic!("object expected, got {other:?}"),
    };
    tauri_shell::json::set_member(&mut tree, "object".into(), Json::Object(Vec::new()));
    let t = Json::Object(tree);
    assert!(t.get("seed").is_some());
    assert!(t.get("object").is_some());
}

#[test]
fn resolve_joins_the_file_onto_the_directory() {
    let p = resolve("mcp_settings.json", Some("/tmp/x".into())).unwrap();
    assert!(p == "/tmp/x/mcp_settings.json" || p == "/tmp/x\\mcp_settings.json");
}
