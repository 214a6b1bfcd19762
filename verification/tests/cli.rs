//! Argument handling of the command-line companion.

use tauri_shell::cli::{
    build_proxy, call_request, params_to_map, parse_kv, routine_filename, validate_routine_name,
};
use tauri_shell::ipc::obb::ObbRequest;
use tauri_shell::json::Json;

#[test]
fn parse_kv_splits_at_first_equals() {
    assert_eq!(parse_kv("a=b=c"), Ok(("a".to_string(), "b=c".to_string())));
    assert_eq!(parse_kv("k="), Ok(("k".to_string(), String::new())));
    assert_eq!(parse_kv("novalue"), Err("expected key=value, got `novalue`".to_string()));
}

#[test]
fn routine_names_are_checked() {
    assert!(validate_routine_name("daily").is_ok());
    for bad in ["", "a/b", "a\\b", "a..b", ".hidden"] {
        assert_eq!(validate_routine_name(bad), Err(format!("invalid routine name: {bad}")));
    }
    assert_eq!(routine_filename("daily"), "daily.openbb");
    assert_eq!(routine_filename("daily.openbb"), "daily.openbb");
}

#[test]
fn params_become_json_literals_or_strings_ordered_by_key() {
    let m = params_to_map(vec![
        ("symbol".into(), "AAPL".into()),
        ("limit".into(), "5".into()),
        ("flag".into(), "true".into()),
        ("limit".into(), "7".into()),
    ]);
    let keys: Vec<&str> = m.iter().map(|e| e.0.as_str()).collect();
    assert_eq!(keys, vec!["flag", "limit", "symbol"]);
    assert!(matches!(&m[0].1, Json::Bool(true)));
    assert!(matches!(&m[1].1, Json::Number(n) if n == "7"));
    assert!(matches!(&m[2].1, Json::Str(t) if t == "AAPL"));
}

#[test]
fn call_request_get_and_post() {
    let ps = vec![("symbol".to_string(), "AAPL".to_string()), ("n".to_string(), "2".to_string())];
    match call_request("/equity/quote".into(), ps.clone(), false) {
        ObbRequest::Get { query, .. } => {
            let q: Vec<(&str, &str)> = query.iter().map(|(k, v)| (k.as_str(), v.as_str())).collect();
            assert_eq!(q, vec![("n", "2"), ("symbol", "AAPL")]);
        }
        other => panic!("unexpected: {other:?}"),
    }
    match call_request("/technical/sma".into(), ps, true) {
        ObbRequest::Post { body: Json::Object(es), query, .. } => {
            assert_eq!(es.len(), 2);
            let q: Vec<(&str, &str)> = query.iter().map(|(k, v)| (k.as_str(), v.as_str())).collect();
            assert_eq!(q, vec![("n", ""), ("symbol", "AAPL")]);
        }
        other => panic!("unexpected: {other:?}"),
    }
}

#[test]
fn build_proxy_prefers_bearer_over_basic_auth() {
    let p = build_proxy("http://h:1/".into(), Some("u".into()), Some("p".into()), Some("t".into()));
    let c = p.config();
    assert_eq!(c.base_url, "http://h:1");
    assert_eq!(c.bearer.as_deref(), Some("t"));
    assert!(c.auth.is_none());
    let p = build_proxy("http://h:1".into(), Some("u".into()), Some("p".into()), None);
    assert_eq!(p.config().auth, Some(("u".to_string(), "p".to_string())));
    let p = build_proxy("http://h:1".into(), Some("u".into()), None, None);
    assert!(p.config().auth.is_none() && p.config().bearer.is_none());
}
