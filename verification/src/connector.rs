//! The error model of backend connectors, and the argument records that
//! connector methods take.

use vstd::prelude::*;

verus! {

/// The failure categories shared by connector errors and IPC errors.
#[derive(Debug, Clone, Copy, PartialEq, Eq, Structural)]
pub enum ErrorKind {
    NotImplemented,
    Io,
    InvalidArgument,
    Unauthorized,
    Conflict,
    Internal,
}

/// Errors a connector can surface. The IPC layer maps these into IPC
/// errors of the same shape.
#[derive(Debug, Clone)]
pub enum ConnectorError {
    /// Method is unimplemented in this connector; the text is the method
    /// name.
    NotImplemented(&'static str),
    /// I/O failure (filesystem, subprocess, network).
    Io(String),
    /// Caller passed an invalid argument.
    InvalidArgument(String),
    /// Caller is not authorized for this action.
    Unauthorized(String),
    /// Resource is in a conflicting state.
    Conflict(String),
    /// Generic / unclassified internal error.
    Internal(String),
}

impl View for ConnectorError {
    type V = (ErrorKind, Seq<char>);

    open spec fn view(&self) -> (ErrorKind, Seq<char>) {
        match self {
            ConnectorError::NotImplemented(m) => (ErrorKind::NotImplemented, m@),
            ConnectorError::Io(m) => (ErrorKind::Io, m@),
            ConnectorError::InvalidArgument(m) => (ErrorKind::InvalidArgument, m@),
            ConnectorError::Unauthorized(m) => (ErrorKind::Unauthorized, m@),
            ConnectorError::Conflict(m) => (ErrorKind::Conflict, m@),
            ConnectorError::Internal(m) => (ErrorKind::Internal, m@),
        }
    }
}

impl ConnectorError {
    pub fn io(detail: &str) -> (r: Self)
        ensures
            r matches ConnectorError::Io(m) && m@ == detail@,
    {
        ConnectorError::Io(detail.to_owned())
    }

    pub fn invalid(detail: &str) -> (r: Self)
        ensures
            r matches ConnectorError::InvalidArgument(m) && m@ == detail@,
    {
        ConnectorError::InvalidArgument(detail.to_owned())
    }

    pub fn unauthorized(detail: &str) -> (r: Self)
        ensures
            r matches ConnectorError::Unauthorized(m) && m@ == detail@,
    {
        ConnectorError::Unauthorized(detail.to_owned())
    }

    pub fn conflict(detail: &str) -> (r: Self)
        ensures
            r matches ConnectorError::Conflict(m) && m@ == detail@,
    {
        ConnectorError::Conflict(detail.to_owned())
    }

    pub fn internal(detail: &str) -> (r: Self)
        ensures
            r matches ConnectorError::Internal(m) && m@ == detail@,
    {
        ConnectorError::Internal(detail.to_owned())
    }
}

/// Arguments of installing into a directory.
#[derive(Debug, Clone)]
pub struct InstallToDirectoryArgs {
    pub directory: String,
    pub user_data_directory: String,
}

/// Arguments of setting up the Python environment.
#[derive(Debug, Clone)]
pub struct SetupPythonEnvironmentArgs {
    pub directory: String,
    pub python_version: String,
}

/// Arguments of updating the backend settings.
#[derive(Debug, Clone)]
pub struct UpdateOpenbbSettingsArgs {
    pub conda_dir: String,
    pub environment: String,
}

/// Arguments of creating an environment.
#[derive(Debug, Clone)]
pub struct CreateEnvironmentArgs {
    pub name: String,
    pub python_version: String,
    pub extensions: Vec<String>,
    pub process_id: String,
}

/// Arguments of creating an environment from a requirements file.
#[derive(Debug, Clone)]
pub struct CreateEnvironmentFromRequirementsArgs {
    pub name: String,
    pub file_path: String,
    pub directory: String,
    pub process_id: String,
}

/// Arguments of installing extensions.
#[derive(Debug, Clone)]
pub struct InstallExtensionsArgs {
    pub extensions: Vec<String>,
    pub environment: String,
}

/// Arguments of updating an extension.
#[derive(Debug, Clone)]
pub struct UpdateExtensionArgs {
    pub package: String,
    pub environment: String,
    pub directory: String,
}

/// Arguments of updating an environment.
#[derive(Debug, Clone)]
pub struct UpdateEnvironmentArgs {
    pub environment: String,
    pub directory: String,
}

/// Arguments of removing an extension.
#[derive(Debug, Clone)]
pub struct RemoveExtensionArgs {
    pub package: String,
    pub environment: String,
    pub directory: String,
}

/// Arguments of running a command in an environment.
#[derive(Debug, Clone)]
pub struct ExecuteInEnvironmentArgs {
    pub command: String,
    pub environment: String,
    pub directory: String,
}

/// Arguments of starting a Jupyter server.
#[derive(Debug, Clone)]
pub struct StartJupyterArgs {
    pub environment: String,
    pub directory: String,
    pub working: String,
}

/// Arguments of uninstalling the application.
#[derive(Debug, Clone, Copy)]
pub struct UninstallArgs {
    pub remove_user_data: bool,
    pub remove_settings: bool,
}

/// The connector that implements nothing: every method answers
/// "not implemented" with the method's name.
#[derive(Debug, Clone, Copy)]
pub struct NoopConnector;

impl NoopConnector {
    /// The answer of the method named `method`.
    pub fn answer<T>(&self, method: &'static str) -> (r: Result<T, ConnectorError>)
        ensures
            r matches Err(ConnectorError::NotImplemented(m)) && m@ == method@,
    {
        Err(ConnectorError::NotImplemented(method))
    }
}

} // verus!
