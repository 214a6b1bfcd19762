//! Small commands of the renderer: directory lookups, file pickers and the
//! defaults of the window-opening commands.

use super::IpcError;
use vstd::prelude::*;

verus! {

/// What a file or folder picker gave back.
#[derive(Debug, Clone)]
pub enum PickedPath {
    /// A file-system path, as text.
    Path(String),
    /// A URL, as text.
    Url(String),
}

/// The answer of a picker command: the chosen path or URL as text, or an
/// invalid-argument error when the user cancelled.
pub fn picked(chosen: Option<PickedPath>) -> (r: Result<String, IpcError>)
    ensures
        match chosen {
            Some(PickedPath::Path(p)) => r == Ok::<String, IpcError>(p),
            Some(PickedPath::Url(u)) => r == Ok::<String, IpcError>(u),
            None => r matches Err(IpcError::InvalidArgument(m)) && m@ == "user cancelled"@,
        },
{
    match chosen {
        Some(PickedPath::Path(p)) => Ok(p),
        Some(PickedPath::Url(u)) => Ok(u),
        None => Err(IpcError::InvalidArgument("user cancelled".to_owned())),
    }
}

/// The home directory, or an internal error when there is none.
pub fn home_directory(home: Option<String>) -> (r: Result<String, IpcError>)
    ensures
        match home {
            Some(h) => r == Ok::<String, IpcError>(h),
            None => r matches Err(IpcError::Internal(m)) && m@ == "home directory not available"@,
        },
{
    match home {
        Some(h) => Ok(h),
        None => Err(IpcError::Internal("home directory not available".to_owned())),
    }
}

/// The settings directory, or an internal error when there is none.
pub fn settings_directory(dir: Option<String>) -> (r: Result<String, IpcError>)
    ensures
        match dir {
            Some(d) => r == Ok::<String, IpcError>(d),
            None => r matches Err(IpcError::Internal(m)) && m@ == "settings directory not available"@,
        },
{
    match dir {
        Some(d) => Ok(d),
        None => Err(IpcError::Internal("settings directory not available".to_owned())),
    }
}

/// `value`, or `default` when it is absent.
pub fn or_default_text(value: Option<String>, default: &str) -> (r: String)
    ensures
        match value {
            Some(v) => r == v,
            None => r@ == default@,
        },
{
    match value {
        Some(v) => v,
        None => default.to_owned(),
    }
}

/// The title of a window showing an external URL: `External` unless
/// given.
pub fn external_title(title: Option<String>) -> (r: String)
    ensures
        match title {
            Some(t) => r == t,
            None => r@ == "External"@,
        },
{
    or_default_text(title, "External")
}

/// The URL the workspace opens in the browser: a placeholder unless given.
pub fn workspace_url(url: Option<String>) -> (r: String)
    ensures
        match url {
            Some(u) => r == u,
            None => r@ == "https://example.com"@,
        },
{
    or_default_text(url, "https://example.com")
}

/// The query key and title of a generic logs window: `id` and `Logs`
/// unless given.
pub fn logs_window_defaults(id_key: Option<String>, title: Option<String>) -> (r: (String, String))
    ensures
        match id_key {
            Some(k) => r.0 == k,
            None => r.0@ == "id"@,
        },
        match title {
            Some(t) => r.1 == t,
            None => r.1@ == "Logs"@,
        },
{
    (or_default_text(id_key, "id"), or_default_text(title, "Logs"))
}

} // verus!
