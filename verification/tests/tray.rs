//! The tray menu and the actions of its entries.

use tauri_shell::tray::{menu_entries, tray_action, MenuEntry, TrayAction, TrayConfig, TrayNavItem};

fn ids(entries: &[MenuEntry]) -> Vec<String> {
    entries
        .iter()
        .map(|e| match e {
            MenuEntry::Item { id, .. } => id.clone(),
            MenuEntry::Check { id, checked, .. } => format!("{id}={checked}"),
            MenuEntry::Separator => "-".to_string(),
        })
        .collect()
}

fn config_with_nav() -> TrayConfig {
    let mut c = TrayConfig::default();
    c.nav_items.push(TrayNavItem { id: "envs".into(), label: "Environments".into(), route: "/environments".into() });
    c.show_uninstall = true;
    c
}

#[test]
fn default_menu() {
    let c = TrayConfig::default();
    assert_eq!(c.tooltip, "Tauri Shell");
    assert_eq!(
        ids(&menu_entries(&c, false)),
        vec!["tray:open", "-", "tray:autostart=false", "-", "tray:updater", "-", "tray:quit"]
    );
}

#[test]
fn full_menu() {
    let c = config_with_nav();
    assert_eq!(
        ids(&menu_entries(&c, true)),
        vec![
            "tray:open", "-", "tray:nav:envs", "-", "tray:autostart=true", "-", "tray:updater",
            "tray:uninstall", "-", "tray:quit"
        ]
    );
}

#[test]
fn clicks() {
    let c = config_with_nav();
    assert_eq!(tray_action(&c, "tray:open"), TrayAction::ShowMainWindow);
    assert_eq!(tray_action(&c, "tray:quit"), TrayAction::Quit);
    assert_eq!(tray_action(&c, "tray:updater"), TrayAction::CheckForUpdates);
    assert_eq!(tray_action(&c, "tray:autostart"), TrayAction::ToggleAutostart);
    assert_eq!(tray_action(&c, "tray:uninstall"), TrayAction::Navigate("/uninstall".into()));
    assert_eq!(tray_action(&c, "tray:nav:envs"), TrayAction::Navigate("/environments".into()));
    // Every leading prefix is removed before the lookup.
    assert_eq!(tray_action(&c, "tray:nav:tray:nav:envs"), TrayAction::Navigate("/environments".into()));
    assert_eq!(tray_action(&c, "tray:nav:missing"), TrayAction::Ignore);
    assert_eq!(tray_action(&c, "something"), TrayAction::Ignore);
}
