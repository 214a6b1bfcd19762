//! Event names and payloads the shell sends to the renderer.

use vstd::prelude::*;

verus! {

/// Multiplexed subprocess output; consumers filter by process id.
pub const PROCESS_OUTPUT: &'static str = "process-output";

/// Progress of the installation pipeline.
pub const INSTALL_PROGRESS: &'static str = "install-progress";

/// Progress of the uninstall pipeline.
pub const UNINSTALL_PROGRESS: &'static str = "uninstall-progress";

/// A backend service announced its URL.
pub const BACKEND_URL_DISCOVERED: &'static str = "backend-url-discovered";

/// The Jupyter status of an environment changed.
pub const JUPYTER_STATUS_UPDATE: &'static str = "jupyter-status-update";

/// The renderer should navigate to a route.
pub const NAVIGATE: &'static str = "navigate";

/// The current time in milliseconds since the epoch, from
/// `chrono::Utc::now().timestamp_millis()`. Nothing is stated of it: it
/// is the clock's reading.
#[verifier::external_body]
fn now_millis() -> i64 {
    chrono::Utc::now().timestamp_millis()
}

/// One line of subprocess output.
#[derive(Debug, Clone)]
pub struct ProcessOutputEvent {
    pub process_id: String,
    pub output: String,
    /// Milliseconds since the epoch.
    pub timestamp: i64,
    /// `stdout`, `stderr`, or `system` (for banners the shell writes).
    pub kind: String,
}

/// `e` holds `process_id` and `output` as given, and kind `kind`.
pub open spec fn event_fields(e: ProcessOutputEvent, process_id: Seq<char>, output: Seq<char>, kind: Seq<char>) -> bool {
    &&& e.kind@ == kind
    &&& e.process_id@ == process_id
    &&& e.output@ == output
}

impl ProcessOutputEvent {
    /// An event of the given kind stamped with time `timestamp`.
    pub fn at(process_id: String, output: String, timestamp: i64, kind: String) -> (r: Self)
        ensures
            r.process_id == process_id,
            r.output == output,
            r.timestamp == timestamp,
            r.kind == kind,
    {
        ProcessOutputEvent { process_id, output, timestamp, kind }
    }

    /// A line the process wrote to standard output, stamped now.
    pub fn stdout(process_id: &str, output: &str) -> (r: Self)
        ensures
            event_fields(r, process_id@, output@, "stdout"@),
    {
        Self::at(process_id.to_owned(), output.to_owned(), now_millis(), "stdout".to_owned())
    }

    /// A line the process wrote to standard error, stamped now.
    pub fn stderr(process_id: &str, output: &str) -> (r: Self)
        ensures
            event_fields(r, process_id@, output@, "stderr"@),
    {
        Self::at(process_id.to_owned(), output.to_owned(), now_millis(), "stderr".to_owned())
    }

    /// A banner the shell writes itself, stamped now.
    pub fn system(process_id: &str, output: &str) -> (r: Self)
        ensures
            event_fields(r, process_id@, output@, "system"@),
    {
        Self::at(process_id.to_owned(), output.to_owned(), now_millis(), "system".to_owned())
    }
}

/// A backend service announced the URL it serves on.
#[derive(Debug, Clone)]
pub struct BackendUrlEvent {
    pub id: String,
    pub url: String,
}

/// The Jupyter status of an environment.
#[derive(Debug, Clone)]
pub struct JupyterStatusEvent {
    pub environment_name: String,
    pub status: String,
}

/// A route the renderer should navigate to.
#[derive(Debug, Clone)]
pub struct NavigateEvent {
    pub path: String,
}

} // verus!
