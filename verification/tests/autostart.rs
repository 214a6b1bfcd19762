//! Launch at login: desktop entry, scripts and the bundle path.

use tauri_shell::autostart::{
    add_login_item_script, app_bundle, desktop_entry, desktop_file_name, is_login_item,
    login_items_script, remove_login_items_script, shortcut_file_name,
};

#[test]
fn desktop_entry_text() {
    assert_eq!(
        desktop_entry("shell", "/opt/shell/bin"),
        "[Desktop Entry]\nType=Application\nName=shell\nExec=\"/opt/shell/bin\"\nTerminal=false\nX-GNOME-Autostart-enabled=true\n"
    );
    assert_eq!(desktop_file_name("shell"), "shell.desktop");
    assert_eq!(shortcut_file_name("shell"), "shell.lnk");
}

#[test]
fn login_item_scripts() {
    assert_eq!(login_items_script(), r#"tell application "System Events" to get path of every login item"#);
    assert_eq!(
        add_login_item_script("/Applications/Shell.app", Some("Shell".into())),
        r#"tell application "System Events" to make new login item at end with properties {path:"/Applications/Shell.app", hidden:false, name:"Shell"}"#
    );
    assert!(add_login_item_script("/x", None).ends_with(r#"name:"App"}"#));
    let r = remove_login_items_script("/Applications/Shell.app");
    assert!(r.starts_with("tell application \"System Events\"\n            set theItems to login items"));
    assert!(r.contains("if thePath contains \"/Applications/Shell.app\" then"));
    assert!(r.ends_with("end tell"));
    assert!(is_login_item("/Applications/Other.app, /Applications/Shell.app", "/Applications/Shell.app"));
    assert!(!is_login_item("", "/Applications/Shell.app"));
}

#[test]
fn bundle_is_nearest_app_parent_within_five() {
    let parents = vec![
        ("/A.app/Contents/MacOS".to_string(), None),
        ("/A.app/Contents".to_string(), None),
        ("/A.app".to_string(), Some("app".to_string())),
        ("/".to_string(), None),
    ];
    assert_eq!(app_bundle("/A.app/Contents/MacOS/a".into(), &parents), "/A.app");
    let deep: Vec<(String, Option<String>)> = (0..6)
        .map(|i| (format!("/p{i}"), if i == 5 { Some("app".to_string()) } else { None }))
        .collect();
    assert_eq!(app_bundle("/exe".into(), &deep), "/exe");
    assert_eq!(app_bundle("/exe".into(), &Vec::new()), "/exe");
}
