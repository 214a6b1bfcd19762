//! Proxy configuration, URLs and the handling of responses.

use tauri_shell::ipc::server::health_reply;
use tauri_shell::ipc::IpcError;
use tauri_shell::json::Json;
use tauri_shell::proxy::{decode_body, AuthChoice, Proxy, ProxyConfig, ProxyError};

#[test]
fn default_config() {
    let c = ProxyConfig::default();
    assert_eq!(c.base_url, "http://127.0.0.1:6900");
    assert_eq!(c.timeout_seconds, 60);
    assert!(c.auth.is_none() && c.bearer.is_none());
}

#[test]
fn urls_with_and_without_prefix() {
    let mut p = Proxy::new();
    p.set_base_url("http://h:1//".into());
    assert_eq!(p.config().base_url, "http://h:1");
    assert_eq!(p.build_url("/equity/price").unwrap(), "http://h:1/api/v1/equity/price");
    assert_eq!(p.build_url("equity/price").unwrap(), "http://h:1/api/v1/equity/price");
    assert_eq!(p.build_url("/api/v1/equity/price").unwrap(), "http://h:1/api/v1/equity/price");
    assert_eq!(p.raw_url("/widgets.json"), "http://h:1/widgets.json");
    assert_eq!(p.raw_url("apps.json"), "http://h:1/apps.json");
    p.set_base_url(String::new());
    assert!(matches!(p.build_url("/anything"), Err(ProxyError::NotConfigured)));
}

#[test]
fn auth_is_basic_or_bearer_never_both() {
    let mut p = Proxy::new();
    assert!(matches!(p.auth_choice(), AuthChoice::Anonymous));
    p.set_basic_auth("alice".into(), "hunter2".into());
    assert!(matches!(p.auth_choice(), AuthChoice::Basic { user, password } if user == "alice" && password == "hunter2"));
    p.set_bearer("s3cret".into());
    assert!(matches!(p.auth_choice(), AuthChoice::Bearer(t) if t == "s3cret"));
    assert!(p.config().auth.is_none());
    p.clear_auth();
    assert!(matches!(p.auth_choice(), AuthChoice::Anonymous));
}

#[test]
fn responses_by_status() {
    assert!(matches!(decode_body(204, String::new()), Ok(Json::Null)));
    match decode_body(404, "{\"error\":\"not found\"}".into()) {
        Err(e) => {
            assert!(matches!(&e, ProxyError::Http { status: 404, .. }));
            assert_eq!(e.message(), "HTTP 404: {\"error\":\"not found\"}");
        }
        other => panic!("unexpected: {other:?}"),
    }
    assert!(matches!(decode_body(200, "{\"ok\":true}".into()), Ok(Json::Object(_))));
    assert!(matches!(decode_body(200, "oops".into()), Err(ProxyError::Json(_))));
    assert_eq!(ProxyError::NotConfigured.message(), "proxy not configured (base URL is empty)");
}

#[test]
fn health_probe_counts_any_http_answer_as_up() {
    assert!(matches!(health_reply(Ok(Json::Bool(true))), Ok(Json::Bool(true))));
    match health_reply(Err(ProxyError::Http { status: 401, body: String::new() })) {
        Ok(Json::Object(es)) => {
            assert_eq!(es[0].0, "status");
            assert!(matches!(&es[1].1, Json::Number(n) if n == "401"));
        }
        other => panic!("unexpected: {other:?}"),
    }
    match health_reply(Err(ProxyError::Reqwest("refused".into()))) {
        Err(IpcError::Internal(m)) => assert_eq!(m, "network error: refused"),
        other => panic!("unexpected: {other:?}"),
    }
}

#[test]
fn empty_base_url_returns_not_configured() {
    let mut p = Proxy::new();
    p.set_base_url(String::new());
    match p.build_url("/anything") {
        Err(ProxyError::NotConfigured) => {}
        other => panic!("expected NotConfigured, got {other:?}"),
    }
}

#[test]
fn error_envelope_for_non_2xx() {
    let err = decode_body(404, "{\"error\":\"not found\"}".into()).expect_err("expected HTTP error");
    let serialized = err.message();
    assert!(serialized.contains("HTTP 404"), "got: {serialized}");
    assert!(serialized.contains("not found"), "got: {serialized}");
    match err {
        ProxyError::Http { status, body } => {
            assert_eq!(status, 404);
            assert!(body.contains("not found"));
        }
        other => panic!("expected Http variant, got {other:?}"),
    }
}

#[test]
fn handles_204_no_content() {
    assert!(matches!(decode_body(204, String::new()), Ok(Json::Null)));
}

#[test]
fn get_raw_skips_api_v1_prefix() {
    let mut p = Proxy::new();
    p.set_base_url("http://127.0.0.1:9".into());
    assert_eq!(p.raw_url("/widgets.json"), "http://127.0.0.1:9/widgets.json");
    assert_eq!(p.build_url("/widgets.json").unwrap(), "http://127.0.0.1:9/api/v1/widgets.json");
}
