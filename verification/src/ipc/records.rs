//! Records the IPC commands exchange with the renderer: environments,
//! extensions, command results, backend services, Jupyter and MCP server
//! state, and certificate requests.

use std::collections::HashMap;
use vstd::prelude::*;

verus! {

/// A conda environment.
#[derive(Debug, Clone)]
pub struct CondaEnvironment {
    pub name: String,
    pub python_version: String,
    pub path: String,
}

/// A package installed in an environment.
#[derive(Debug, Clone)]
pub struct Extension {
    pub package: String,
    pub version: String,
    pub install_method: String,
    pub channel: String,
}

/// The outcome of running a command in an environment.
#[derive(Debug, Clone)]
pub struct ExecResult {
    pub stdout: String,
    pub stderr: String,
    pub exit_code: i32,
}

/// A backend service the shell can start.
#[derive(Debug, Clone)]
pub struct BackendService {
    pub id: String,
    pub name: String,
    pub command: String,
    pub host: Option<String>,
    pub port: Option<u16>,
    pub env_file: Option<String>,
    pub env_vars: Option<HashMap<String, String>>,
    pub environment: String,
    pub auto_start: bool,
    pub status: String,
    pub pid: Option<u32>,
    pub url: Option<String>,
    pub error: Option<String>,
    pub working_directory: Option<String>,
    pub started_at: Option<String>,
}

impl Default for BackendService {
    /// Empty texts, no optional field set, not started automatically.
    fn default() -> (r: Self)
        ensures
            r.id@.len() == 0 && r.name@.len() == 0 && r.command@.len() == 0,
            r.environment@.len() == 0 && r.status@.len() == 0,
            !r.auto_start,
            r.host is None && r.port is None && r.env_file is None && r.env_vars is None,
            r.pid is None && r.url is None && r.error is None,
            r.working_directory is None && r.started_at is None,
    {
        BackendService {
            id: String::new(),
            name: String::new(),
            command: String::new(),
            host: None,
            port: None,
            env_file: None,
            env_vars: None,
            environment: String::new(),
            auto_start: false,
            status: String::new(),
            pid: None,
            url: None,
            error: None,
            working_directory: None,
            started_at: None,
        }
    }
}

/// The state of the Jupyter server of an environment.
#[derive(Debug, Clone)]
pub struct JupyterStatus {
    pub running: bool,
    pub url: Option<String>,
    pub status: String,
    pub process_id: Option<u32>,
}

/// How to run an MCP server.
#[derive(Debug, Clone)]
pub struct McpSpec {
    pub id: String,
    pub host: String,
    pub port: u16,
    pub environment: String,
    pub transport: String,
    pub auth_username: Option<String>,
    pub auth_password: Option<String>,
    pub tool_allowlist: Vec<String>,
    pub tool_denylist: Vec<String>,
    pub working_directory: Option<String>,
}

/// The state of an MCP server.
#[derive(Debug, Clone)]
pub struct McpStatus {
    pub id: String,
    pub running: bool,
    pub pid: Option<u32>,
    pub url: Option<String>,
}

/// A request for a self-signed certificate.
#[derive(Debug, Clone)]
pub struct GenerateCertArgs {
    pub common_name: String,
    pub org_name: String,
    pub alt_names: Vec<String>,
    pub output_dir: String,
    pub days_valid: u32,
    pub password: Option<String>,
    pub install_in_trust_store: bool,
}

} // verus!
