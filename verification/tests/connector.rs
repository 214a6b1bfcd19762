//! Connector errors and their mapping into IPC errors.

use tauri_shell::connector::{ConnectorError, NoopConnector};
use tauri_shell::ipc::IpcError;
use tauri_shell::json::Json;

#[test]
fn connector_error_maps_to_ipc_error() {
    let err: IpcError = ConnectorError::NotImplemented("foo").into();
    match err {
        IpcError::NotImplemented(m) => assert_eq!(m, "foo"),
        other => panic!("wrong variant: {other:?}"),
    }

    let err: IpcError = ConnectorError::InvalidArgument("bar".into()).into();
    assert!(matches!(err, IpcError::InvalidArgument(_)));

    let err: IpcError = ConnectorError::Conflict("baz".into()).into();
    assert!(matches!(err, IpcError::Conflict(_)));

    let err: IpcError = ConnectorError::Unauthorized("qux".into()).into();
    assert!(matches!(err, IpcError::Unauthorized(_)));

    let err: IpcError = ConnectorError::Internal("oops".into()).into();
    assert!(matches!(err, IpcError::Internal(_)));

    let err: IpcError = ConnectorError::Io("disk".into()).into();
    assert!(matches!(err, IpcError::Io(_)));
}

#[test]
fn constructors_keep_the_detail() {
    assert!(matches!(ConnectorError::io("a"), ConnectorError::Io(m) if m == "a"));
    assert!(matches!(ConnectorError::invalid("b"), ConnectorError::InvalidArgument(m) if m == "b"));
    assert!(matches!(ConnectorError::unauthorized("c"), ConnectorError::Unauthorized(m) if m == "c"));
    assert!(matches!(ConnectorError::conflict("d"), ConnectorError::Conflict(m) if m == "d"));
    assert!(matches!(ConnectorError::internal("e"), ConnectorError::Internal(m) if m == "e"));
    assert!(matches!(IpcError::not_implemented("f"), IpcError::NotImplemented(m) if m == "f"));
    assert!(matches!(IpcError::internal("g"), IpcError::Internal(m) if m == "g"));
}

#[test]
fn ipc_error_messages_name_the_kind() {
    assert_eq!(IpcError::NotImplemented("x".into()).message(), "not implemented: x");
    assert_eq!(IpcError::Io("x".into()).message(), "io error: x");
    assert_eq!(IpcError::InvalidArgument("x".into()).message(), "invalid argument: x");
    assert_eq!(IpcError::Unauthorized("x".into()).message(), "unauthorized: x");
    assert_eq!(IpcError::Conflict("x".into()).message(), "conflict: x");
    assert_eq!(IpcError::Internal("x".into()).message(), "internal: x");
}

#[test]
fn noop_connector_answers_not_implemented() {
    let c = NoopConnector;
    let r: Result<bool, ConnectorError> = c.answer("toggle_theme");
    match r {
        Err(ConnectorError::NotImplemented(m)) => assert_eq!(m, "toggle_theme"),
        other => panic!("unexpected: {other:?}"),
    }
}

#[test]
fn ipc_error_is_a_tagged_object() {
    match IpcError::not_implemented("x").to_json() {
        Json::Object(es) => {
            assert_eq!(es.len(), 2);
            assert_eq!(es[0].0, "kind");
            assert!(matches!(&es[0].1, Json::Str(t) if t == "not-implemented"));
            assert_eq!(es[1].0, "message");
            assert!(matches!(&es[1].1, Json::Str(m) if m == "x"));
        }
        other => panic!("not an object: {other:?}"),
    }
    assert_eq!(IpcError::not_implemented("x").message(), "not implemented: x");
    match IpcError::InvalidArgument("bad".to_string()).to_json() {
        Json::Object(es) => assert!(matches!(&es[0].1, Json::Str(t) if t == "invalid-argument")),
        other => panic!("not an object: {other:?}"),
    }
}
