//! The requests the generic proxy call and the route wrappers make.

use tauri_shell::ipc::obb::{
    get_request, health_or_unreachable, obb_call, post_from_params, post_request, proxy_failure,
    ObbCallArgs, ObbRequest,
};
use tauri_shell::ipc::IpcError;
use tauri_shell::json::Json;
use tauri_shell::proxy::ProxyError;

fn s(t: &str) -> Json {
    Json::Str(t.to_string())
}

fn params() -> Vec<(String, Json)> {
    vec![
        ("body".to_string(), Json::Object(vec![("length".to_string(), Json::Number("14".into()))])),
        ("provider".to_string(), s("yfinance")),
        ("symbol".to_string(), s("AAPL")),
        ("limit".to_string(), Json::Number("5".into())),
    ]
}

fn pairs(q: &[(String, String)]) -> Vec<(&str, &str)> {
    q.iter().map(|(k, v)| (k.as_str(), v.as_str())).collect()
}

#[test]
fn get_sends_every_parameter_in_the_query() {
    let args = ObbCallArgs { route: "/equity/price/historical".into(), params: Some(params()), method: None };
    match obb_call(args).unwrap() {
        ObbRequest::Get { route, query } => {
            assert_eq!(route, "/equity/price/historical");
            assert_eq!(
                pairs(&query),
                vec![("body", "{\"length\":14}"), ("provider", "yfinance"), ("symbol", "AAPL"), ("limit", "5")]
            );
        }
        other => panic!("unexpected: {other:?}"),
    }
}

#[test]
fn post_takes_body_member_and_string_query() {
    let args = ObbCallArgs { route: "/technical/sma".into(), params: Some(params()), method: Some("post".into()) };
    match obb_call(args).unwrap() {
        ObbRequest::Post { route, body, query } => {
            assert_eq!(route, "/technical/sma");
            assert!(matches!(&body, Json::Object(es) if es.len() == 1 && es[0].0 == "length"));
            assert_eq!(pairs(&query), vec![("provider", "yfinance"), ("symbol", "AAPL"), ("limit", "")]);
        }
        other => panic!("unexpected: {other:?}"),
    }
}

#[test]
fn post_without_body_member_sends_all_parameters() {
    let ps = vec![("a".to_string(), s("x"))];
    match post_from_params("/r".into(), ps) {
        ObbRequest::Post { body: Json::Object(es), query, .. } => {
            assert_eq!(es.len(), 1);
            assert_eq!(pairs(&query), vec![("a", "x")]);
        }
        other => panic!("unexpected: {other:?}"),
    }
}

#[test]
fn unsupported_method_is_refused() {
    let args = ObbCallArgs { route: "/r".into(), params: None, method: Some("delete".into()) };
    match obb_call(args) {
        Err(IpcError::InvalidArgument(m)) => assert_eq!(m, "unsupported HTTP method: DELETE"),
        other => panic!("unexpected: {other:?}"),
    }
}

#[test]
fn route_wrappers_build_their_requests() {
    match get_request("/equity/search".into(), None) {
        ObbRequest::Get { query, .. } => assert!(query.is_empty()),
        other => panic!("unexpected: {other:?}"),
    }
    let q = vec![("window".to_string(), s("20")), ("n".to_string(), Json::Number("3".into()))];
    match post_request("/technical/sma".into(), Json::Null, Some(q)) {
        ObbRequest::Post { body, query, .. } => {
            assert!(matches!(body, Json::Null));
            assert_eq!(pairs(&query), vec![("window", "20"), ("n", "")]);
        }
        other => panic!("unexpected: {other:?}"),
    }
}

#[test]
fn health_and_failures() {
    assert!(matches!(health_or_unreachable(Ok(s("up"))), Json::Str(t) if t == "up"));
    match health_or_unreachable(Err(ProxyError::NotConfigured)) {
        Json::Object(es) => {
            assert_eq!(es[0].0, "status");
            assert!(matches!(&es[0].1, Json::Str(t) if t == "unreachable"));
        }
        other => panic!("unexpected: {other:?}"),
    }
    match proxy_failure(ProxyError::Http { status: 404, body: "not found".into() }) {
        IpcError::Internal(m) => assert_eq!(m, "HTTP 404: not found"),
        other => panic!("unexpected: {other:?}"),
    }
}
