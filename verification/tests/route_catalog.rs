//! The route catalog read from `/openapi.json`, search, parameters and
//! the provider catalog.

use tauri_shell::ipc::openbb_meta::{list_all_routes, route_parameters, search_routes, RouteParamsArgs, RouteSearchArgs};
use tauri_shell::ipc::provider::{provider_credentials, provider_routes};
use tauri_shell::json::Json;
use tauri_shell::settings::json_document;

fn parse_json(text: &str) -> Result<Json, String> {
    match json_document(text) {
        Ok(Some(j)) => Ok(j),
        Ok(None) => Err("blank".to_string()),
        Err(e) => Err(e.message()),
    }
}

fn spec() -> Json {
    parse_json(
        r#"{"paths": {
            "/b/route": {"get": {"summary": "Bee", "tags": ["t1", 5], "x-openbb-providers": ["fmp"],
                                  "parameters": [{"name": "symbol"}]},
                          "options": {}},
            "/a/route": {"post": {"openapi_extra": {"model": "AModel"}},
                          "get": {"x-openbb-model": "Direct"}}
        }}"#,
    )
    .unwrap()
}

#[test]
fn catalog_lists_routes_sorted_by_path() {
    let routes = list_all_routes(&spec());
    let got: Vec<(String, String)> = routes.iter().map(|r| (r.path.clone(), r.method.clone())).collect();
    assert_eq!(got.len(), 3);
    assert_eq!(got[0].0, "/a/route");
    assert_eq!(got[1].0, "/a/route");
    assert_eq!(got[2], ("/b/route".to_string(), "GET".to_string()));
    let b = &routes[2];
    assert_eq!(b.summary.as_deref(), Some("Bee"));
    assert_eq!(b.tags, vec!["t1".to_string()]);
    assert_eq!(b.providers, vec!["fmp".to_string()]);
    let models: Vec<Option<String>> = routes[..2].iter().map(|r| r.model.clone()).collect();
    assert!(models.contains(&Some("AModel".to_string())));
    assert!(models.contains(&Some("Direct".to_string())));
    assert!(list_all_routes(&Json::Null).is_empty());
}

#[test]
fn search_is_case_insensitive_over_path_model_summary() {
    let all = list_all_routes(&spec());
    assert_eq!(search_routes(RouteSearchArgs { query: "BEE".into() }, &all).len(), 1);
    assert_eq!(search_routes(RouteSearchArgs { query: "amodel".into() }, &all).len(), 1);
    assert_eq!(search_routes(RouteSearchArgs { query: "route".into() }, &all).len(), 3);
    assert!(search_routes(RouteSearchArgs { query: "zzz".into() }, &all).is_empty());
}

#[test]
fn parameters_of_a_route() {
    match route_parameters(spec(), RouteParamsArgs { path: "b/route".into(), method: "GET".into() }) {
        Json::Array(v) => assert_eq!(v.len(), 1),
        other => panic!("unexpected: {other:?}"),
    }
    match route_parameters(spec(), RouteParamsArgs { path: "/missing".into(), method: "get".into() }) {
        Json::Array(v) => assert!(v.is_empty()),
        other => panic!("unexpected: {other:?}"),
    }
}

#[test]
fn provider_catalog() {
    let raw = parse_json(r#"{"fmp": ["/a", 1, "/b"], "x": "no"}"#).unwrap();
    assert_eq!(provider_routes(&raw, "fmp"), vec!["/a".to_string(), "/b".to_string()]);
    assert!(provider_routes(&raw, "x").is_empty());
    let model = parse_json(
        r#"{"/r1": {"fmp": {"credentials": ["fmp_key", "b_key"]}},
            "/r2": {"fmp": {"credentials": ["fmp_key"]}, "other": {"credentials": ["z"]}}}"#,
    )
    .unwrap();
    assert_eq!(provider_credentials(&model, "fmp"), vec!["b_key".to_string(), "fmp_key".to_string()]);
    assert!(provider_credentials(&model, "none").is_empty());
}
