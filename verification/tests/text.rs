use ocm_backend::apply::{applied_config_text, config_backup_name, config_file_text, read_config_text, unapplied_config_text};
use ocm_backend::collapse::collapse_json_models;
use ocm_backend::error::AppError;
use ocm_backend::import::import_section;
use ocm_backend::json::{merge_patch, JsonNumber, JsonValue};
use ocm_backend::json_text::stored_json_value;
use ocm_backend::selection::{stored_json, StoredJson};
use ocm_backend::server::model_ids_of_text;

fn s(v: &str) -> JsonValue {
    JsonValue::String(v.to_string())
}

fn obj(es: Vec<(&str, JsonValue)>) -> JsonValue {
    JsonValue::Object(es.into_iter().map(|(k, v)| (k.to_string(), v)).collect())
}

fn get<'a>(v: &'a JsonValue, k: &str) -> Option<&'a JsonValue> {
    match v {
        JsonValue::Object(es) => es.iter().find(|(key, _)| key == k).map(|(_, x)| x),
        _ => None,
    }
}

fn same(a: &JsonValue, b: &JsonValue) -> bool {
    format!("{a:?}") == format!("{b:?}")
}

#[test]
fn missing_or_blank_config_reads_as_an_empty_object() {
    assert!(same(&read_config_text("/c.json", None).unwrap(), &obj(vec![])));
    assert!(same(&read_config_text("/c.json", Some("  \n")).unwrap(), &obj(vec![])));
}

#[test]
fn config_text_is_parsed_without_comments() {
    let v = read_config_text("/c.json", Some("{ // note\n \"theme\": \"dark\", \"n\": 3 }")).unwrap();
    assert!(same(get(&v, "theme").unwrap(), &s("dark")));
    assert!(same(get(&v, "n").unwrap(), &JsonValue::Number(JsonNumber::PosInt(3))));
}

#[test]
fn invalid_config_text_is_refused() {
    match read_config_text("/c.json", Some("{ nope")) {
        Err(AppError::BadRequest(m)) => {
            assert!(m.starts_with("existing /c.json is not valid JSON/JSONC ("));
            assert!(m.ends_with("); refusing to overwrite"));
        },
        other => panic!("unexpected: {other:?}"),
    }
}

#[test]
fn applying_keeps_keys_with_empty_values() {
    let block = obj(vec![("name", s("A"))]);
    let v = applied_config_text("/c.json", Some("{\"x\": null, \"y\": {}}"), &vec![("a".to_string(), block)]).unwrap();
    assert!(same(get(&v, "x").unwrap(), &JsonValue::Null));
    assert!(same(get(&v, "y").unwrap(), &obj(vec![])));
    assert!(same(get(&v, "$schema").unwrap(), &s("https://opencode.ai/config.json")));
    assert!(same(get(get(&v, "provider").unwrap(), "a").unwrap(), &obj(vec![("name", s("A"))])));
}

#[test]
fn applying_refuses_a_root_that_is_not_an_object() {
    match applied_config_text("/c.json", Some("[1]"), &vec![]) {
        Err(AppError::BadRequest(m)) => assert_eq!(m, "opencode.json root is not a JSON object"),
        other => panic!("unexpected: {other:?}"),
    }
}

#[test]
fn unapplying_from_text_removes_the_provider() {
    let text = "{\"provider\": {\"a\": {\"name\": \"A\"}, \"b\": {}}}";
    let (v, removed) = unapplied_config_text("/c.json", Some(text), "a").unwrap();
    assert!(removed);
    assert!(get(get(&v, "provider").unwrap(), "a").is_none());
    assert!(get(get(&v, "provider").unwrap(), "b").is_some());
    let (_, again) = unapplied_config_text("/c.json", None, "a").unwrap();
    assert!(!again);
}

#[test]
fn config_file_text_collapses_model_objects() {
    let pretty = "{\n  \"models\": {\n    \"m\": {\n      \"name\": \"m\"\n    }\n  }\n}";
    assert_eq!(config_file_text(pretty).unwrap(), "{\n  \"models\": {\n    \"m\": { \"name\": \"m\" }\n  }\n}");
}

#[test]
fn import_section_reads_the_providers() {
    assert!(import_section("/c.json", "  ").unwrap().is_none());
    assert!(import_section("/c.json", "{\"theme\": 1}").unwrap().is_none());
    let pm = import_section("/c.json", "{\"provider\": {\"a\": {\"name\": \"A\"}}}").unwrap().unwrap();
    assert_eq!(pm.len(), 1);
    assert_eq!(pm[0].0, "a");
    match import_section("/c.json", "{\"provider\": 3}") {
        Err(AppError::BadRequest(m)) => assert_eq!(m, "`provider` 部分不是一个 JSON 对象"),
        other => panic!("unexpected: {other:?}"),
    }
    match import_section("/c.json", "{") {
        Err(AppError::BadRequest(m)) => assert!(m.starts_with("配置文件 /c.json 不是有效的 JSON (")),
        other => panic!("unexpected: {other:?}"),
    }
}

#[test]
fn model_ids_are_read_from_answer_text() {
    let ids = model_ids_of_text("u", "{\"data\": [{\"id\": \"m1\"}, {\"id\": \"m2\"}]}").unwrap();
    assert_eq!(ids, vec!["m1".to_string(), "m2".to_string()]);
    match model_ids_of_text("u", "not json") {
        Err(AppError::Upstream(m)) => assert!(m.starts_with("parse u: ")),
        other => panic!("unexpected: {other:?}"),
    }
}

#[test]
fn stored_texts_are_parsed_when_valid() {
    assert!(stored_json_value(None).is_none());
    assert!(stored_json_value(Some("{oops")).is_none());
    assert!(same(&stored_json_value(Some("{\"k\": \"v\"}")).unwrap(), &obj(vec![("k", s("v"))])));
    assert!(matches!(stored_json("nope"), StoredJson::Invalid));
    match stored_json("[true, -2, 1.5]") {
        StoredJson::Parsed(JsonValue::Array(items)) => {
            assert!(same(&items[0], &JsonValue::Bool(true)));
            assert!(same(&items[1], &JsonValue::Number(JsonNumber::NegInt(-2))));
            assert!(same(&items[2], &JsonValue::Number(JsonNumber::Float(1.5f64.to_bits()))));
        },
        other => panic!("unexpected: {other:?}"),
    }
}

#[test]
fn merge_patch_twice_is_merge_patch_once() {
    let patch = obj(vec![("a", obj(vec![("b", s("x")), ("c", JsonValue::Null)])), ("d", JsonValue::Null)]);
    let mut once = obj(vec![("a", obj(vec![("c", s("y"))])), ("d", s("z")), ("e", s("w"))]);
    merge_patch(&mut once, &patch);
    let mut twice = obj(vec![("a", obj(vec![("c", s("y"))])), ("d", s("z")), ("e", s("w"))]);
    merge_patch(&mut twice, &patch);
    merge_patch(&mut twice, &patch);
    assert!(same(&once, &twice));
}

#[test]
fn config_backups_are_named_by_stem_and_time() {
    assert_eq!(config_backup_name(Some("opencode"), "20240101_120000"), "opencode.20240101_120000.bak");
    assert_eq!(config_backup_name(None, "t"), "opencode.t.bak");
}

#[test]
fn collapsing_keeps_every_character_but_whitespace() {
    let pretty = "{\n  \"provider\": {\n    \"p\": {\n      \"models\": {\n        \"m\": {\n          \"name\": \"a b\",\n          \"limit\": {\n            \"context\": 1\n          }\n        }\n      }\n    }\n  }\n}\n";
    let out = collapse_json_models(pretty);
    let visible = |t: &str| t.chars().filter(|c| !c.is_whitespace()).collect::<String>();
    assert_eq!(visible(&out), visible(pretty));
    assert!(out.contains("\"m\": { \"name\": \"a b\", \"limit\": { \"context\": 1 } }"));
}
