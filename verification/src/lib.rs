//! Verified core of a desktop shell around a Python REST server: the
//! per-process log ring buffers, the connector / IPC error model, the
//! proxy configuration and the requests the proxy commands make, the route
//! and provider catalogs, the settings and credential stores, routine
//! files, the cleanup cascade, the tray menu, the child windows, launch at
//! login, and the cleaning of subprocess output.

pub mod autostart;
pub mod cleanup;
pub mod cli;
pub mod connector;
pub mod events;
pub mod ipc;
pub mod json;
pub mod path_utils;
pub mod process_kill;
pub mod process_monitor;
pub mod process_spawn;
pub mod proxy;
pub mod settings;
pub mod state;
pub mod text;
pub mod tray;
pub mod windows;
