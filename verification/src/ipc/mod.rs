//! IPC layer: the typed error every command returns, and the logic of
//! the commands that read settings, routines and the route catalog.

pub mod credentials;
pub mod helpers;
pub mod obb;
pub mod openbb_meta;
pub mod provider;
pub mod records;
pub mod routines;
pub mod server;
pub mod settings_files;

use crate::connector::{ConnectorError, ErrorKind};
use crate::json::{json_wf, Json};
use crate::settings::{settings_message, SettingsError};
use crate::text::concat;
use vstd::prelude::*;

verus! {

/// Typed error returned by every command, tagged by kind so the renderer
/// can match on it.
#[derive(Debug, Clone)]
pub enum IpcError {
    NotImplemented(String),
    Io(String),
    InvalidArgument(String),
    Unauthorized(String),
    Conflict(String),
    Internal(String),
}

impl View for IpcError {
    type V = (ErrorKind, Seq<char>);

    open spec fn view(&self) -> (ErrorKind, Seq<char>) {
        match self {
            IpcError::NotImplemented(m) => (ErrorKind::NotImplemented, m@),
            IpcError::Io(m) => (ErrorKind::Io, m@),
            IpcError::InvalidArgument(m) => (ErrorKind::InvalidArgument, m@),
            IpcError::Unauthorized(m) => (ErrorKind::Unauthorized, m@),
            IpcError::Conflict(m) => (ErrorKind::Conflict, m@),
            IpcError::Internal(m) => (ErrorKind::Internal, m@),
        }
    }
}

/// The text of an error: its kind, a colon, and the detail.
pub open spec fn ipc_message(e: IpcError) -> Seq<char> {
    match e {
        IpcError::NotImplemented(m) => "not implemented: "@ + m@,
        IpcError::Io(m) => "io error: "@ + m@,
        IpcError::InvalidArgument(m) => "invalid argument: "@ + m@,
        IpcError::Unauthorized(m) => "unauthorized: "@ + m@,
        IpcError::Conflict(m) => "conflict: "@ + m@,
        IpcError::Internal(m) => "internal: "@ + m@,
    }
}

/// The name the renderer matches an error's kind on.
pub open spec fn kind_tag(k: ErrorKind) -> Seq<char> {
    match k {
        ErrorKind::NotImplemented => "not-implemented"@,
        ErrorKind::Io => "io"@,
        ErrorKind::InvalidArgument => "invalid-argument"@,
        ErrorKind::Unauthorized => "unauthorized"@,
        ErrorKind::Conflict => "conflict"@,
        ErrorKind::Internal => "internal"@,
    }
}

/// `j` is the tagged object of an error of kind `k` with detail `m`: the
/// member `kind` holds the kind's name, then `message` holds the detail.
pub open spec fn tagged_error(j: Json, k: ErrorKind, m: Seq<char>) -> bool {
    &&& j matches Json::Object(es)
    &&& es@.len() == 2
    &&& es@[0].0@ == "kind"@
    &&& es@[0].1 matches Json::Str(t) && t@ == kind_tag(k)
    &&& es@[1].0@ == "message"@
    &&& es@[1].1 matches Json::Str(d) && d@ == m
}

impl IpcError {
    /// The error as the tagged JSON object the renderer reads: the kind's
    /// name under `kind`, the detail under `message`.
    pub fn to_json(&self) -> (r: Json)
        ensures
            tagged_error(r, self@.0, self@.1),
            json_wf(r),
    {
        proof {
            reveal_strlit("kind");
            reveal_strlit("message");
            reveal_strlit("not-implemented");
            reveal_strlit("io");
            reveal_strlit("invalid-argument");
            reveal_strlit("unauthorized");
            reveal_strlit("conflict");
            reveal_strlit("internal");
        }
        let (tag, detail) = match self {
            IpcError::NotImplemented(m) => ("not-implemented", m),
            IpcError::Io(m) => ("io", m),
            IpcError::InvalidArgument(m) => ("invalid-argument", m),
            IpcError::Unauthorized(m) => ("unauthorized", m),
            IpcError::Conflict(m) => ("conflict", m),
            IpcError::Internal(m) => ("internal", m),
        };
        let mut es: Vec<(String, Json)> = Vec::new();
        es.push(("kind".to_owned(), Json::Str(tag.to_owned())));
        es.push(("message".to_owned(), Json::Str(detail.clone())));
        assert(es@[0].0@.len() != es@[1].0@.len());
        assert(json_wf(es@[0].1) && json_wf(es@[1].1));
        assert(forall|i: int| 0 <= i < es@.len() ==> json_wf(#[trigger] es@[i].1));
        Json::Object(es)
    }

    /// The text of the error.
    pub fn message(&self) -> (r: String)
        ensures
            r@ == ipc_message(*self),
    {
        match self {
            IpcError::NotImplemented(m) => concat("not implemented: ", m.as_str()),
            IpcError::Io(m) => concat("io error: ", m.as_str()),
            IpcError::InvalidArgument(m) => concat("invalid argument: ", m.as_str()),
            IpcError::Unauthorized(m) => concat("unauthorized: ", m.as_str()),
            IpcError::Conflict(m) => concat("conflict: ", m.as_str()),
            IpcError::Internal(m) => concat("internal: ", m.as_str()),
        }
    }

    pub fn not_implemented(detail: &str) -> (r: Self)
        ensures
            r matches IpcError::NotImplemented(m) && m@ == detail@,
    {
        IpcError::NotImplemented(detail.to_owned())
    }

    pub fn internal(detail: &str) -> (r: Self)
        ensures
            r matches IpcError::Internal(m) && m@ == detail@,
    {
        IpcError::Internal(detail.to_owned())
    }
}

impl From<ConnectorError> for IpcError {
    /// Keeps the kind and the detail text.
    fn from(e: ConnectorError) -> (r: Self)
        ensures
            r@ == e@,
    {
        match e {
            ConnectorError::NotImplemented(m) => IpcError::NotImplemented(m.to_owned()),
            ConnectorError::Io(m) => IpcError::Io(m),
            ConnectorError::InvalidArgument(m) => IpcError::InvalidArgument(m),
            ConnectorError::Unauthorized(m) => IpcError::Unauthorized(m),
            ConnectorError::Conflict(m) => IpcError::Conflict(m),
            ConnectorError::Internal(m) => IpcError::Internal(m),
        }
    }
}


/// The conversion keeps kind and text; it is stated over the views on
/// `from` itself, because the not-implemented detail becomes a fresh
/// `String` whose value is known only by its view.
impl vstd::std_specs::convert::FromSpecImpl<ConnectorError> for IpcError {
    open spec fn obeys_from_spec() -> bool {
        false
    }

    open spec fn from_spec(v: ConnectorError) -> IpcError {
        match v {
            ConnectorError::NotImplemented(_) => IpcError::NotImplemented(arbitrary()),
            ConnectorError::Io(m) => IpcError::Io(m),
            ConnectorError::InvalidArgument(m) => IpcError::InvalidArgument(m),
            ConnectorError::Unauthorized(m) => IpcError::Unauthorized(m),
            ConnectorError::Conflict(m) => IpcError::Conflict(m),
            ConnectorError::Internal(m) => IpcError::Internal(m),
        }
    }
}

impl From<SettingsError> for IpcError {
    /// An internal error carrying the text of the settings error.
    fn from(e: SettingsError) -> (r: Self)
        ensures
            r@ == (ErrorKind::Internal, settings_message(e)),
    {
        IpcError::Internal(e.message())
    }
}

/// The conversion is stated over the views on `from` itself: the text is
/// a fresh `String` known by its view.
impl vstd::std_specs::convert::FromSpecImpl<SettingsError> for IpcError {
    open spec fn obeys_from_spec() -> bool {
        false
    }

    open spec fn from_spec(v: SettingsError) -> IpcError {
        IpcError::Internal(arbitrary())
    }
}

} // verus!
