//! JSON values: reading, query texts, member lookup and ordered objects.

use tauri_shell::json::{find_entry, json_param, set_member, sorted_insert, Json};
use tauri_shell::settings::json_document;

fn parse_json(text: &str) -> Result<Json, String> {
    match json_document(text) {
        Ok(Some(j)) => Ok(j),
        Ok(None) => Err("blank".to_string()),
        Err(e) => Err(e.message()),
    }
}

fn obj(es: Vec<(&str, Json)>) -> Json {
    Json::Object(es.into_iter().map(|(k, v)| (k.to_string(), v)).collect())
}

fn s(t: &str) -> Json {
    Json::Str(t.to_string())
}

#[test]
fn parse_json_reads_documents_and_reports_errors() {
    match parse_json("{\"a\": [1, true, null, \"x\"]}").unwrap() {
        Json::Object(es) => {
            assert_eq!(es.len(), 1);
            assert_eq!(es[0].0, "a");
            match &es[0].1 {
                Json::Array(v) => {
                    assert_eq!(v.len(), 4);
                    assert!(matches!(&v[0], Json::Number(n) if n == "1"));
                    assert!(matches!(&v[1], Json::Bool(true)));
                    assert!(matches!(&v[2], Json::Null));
                    assert!(matches!(&v[3], Json::Str(t) if t == "x"));
                }
                other => panic!("unexpected: {other:?}"),
            }
        }
        other => panic!("unexpected: {other:?}"),
    }
    assert!(parse_json("{ not json").is_err());
    assert!(parse_json("").is_err());
}

#[test]
fn json_param_gives_query_text() {
    assert_eq!(json_param(&s("AAPL")), "AAPL");
    assert_eq!(json_param(&Json::Null), "");
    assert_eq!(json_param(&Json::Bool(true)), "true");
    assert_eq!(json_param(&Json::Bool(false)), "false");
    assert_eq!(json_param(&Json::Number("14".to_string())), "14");
    assert_eq!(json_param(&Json::Array(vec![Json::Number("1".into()), s("a")])), "[1,\"a\"]");
    assert_eq!(json_param(&obj(vec![("k", Json::Null)])), "{\"k\":null}");
}

#[test]
fn get_and_find_entry_pick_the_first_match() {
    let j = obj(vec![("a", s("1")), ("b", s("2")), ("a", s("3"))]);
    assert!(matches!(j.get("a"), Some(Json::Str(t)) if t == "1"));
    assert!(j.get("z").is_none());
    assert!(s("x").get("a").is_none());
    assert_eq!(s("x").as_str().map(|t| t.as_str()), Some("x"));
    if let Json::Object(es) = &j {
        assert_eq!(find_entry(es, "b"), Some(1));
        assert_eq!(find_entry(es, "c"), None);
    }
}

#[test]
fn set_member_replaces_in_place_or_appends() {
    let mut es: Vec<(String, Json)> = vec![("a".into(), s("1")), ("b".into(), s("2"))];
    set_member(&mut es, "a".into(), s("9"));
    assert_eq!(es.len(), 2);
    assert!(matches!(&es[0].1, Json::Str(t) if t == "9"));
    set_member(&mut es, "c".into(), s("3"));
    assert_eq!(es.len(), 3);
    assert_eq!(es[2].0, "c");
}

#[test]
fn sorted_insert_keeps_keys_ordered_and_distinct() {
    let mut es: Vec<(String, Json)> = Vec::new();
    sorted_insert(&mut es, "m".into(), s("1"));
    sorted_insert(&mut es, "b".into(), s("2"));
    sorted_insert(&mut es, "z".into(), s("3"));
    sorted_insert(&mut es, "m".into(), s("4"));
    let keys: Vec<&str> = es.iter().map(|e| e.0.as_str()).collect();
    assert_eq!(keys, vec!["b", "m", "z"]);
    assert!(matches!(&es[1].1, Json::Str(t) if t == "4"));
}

#[test]
fn json_param_writes_arrays_as_json_text() {
    assert_eq!(json_param(&Json::Array(vec![Json::Number("1".into()), Json::Str("a".into())])), "[1,\"a\"]");
    // A number text that is not a JSON number leaves nothing to write.
    assert_eq!(json_param(&Json::Array(vec![Json::Number("abc".into())])), "null");
}
