use ocm_backend::json::{is_empty_json_value, merge_patch, prune_empty_values, JsonNumber, JsonValue};
use ocm_backend::selection::{snapshot_columns, SelectedRow, StoredJson};
use ocm_backend::domain::{Limit, ModelEntry, Modalities};

fn s(v: &str) -> JsonValue {
    JsonValue::String(v.to_string())
}

fn n(v: u64) -> JsonValue {
    JsonValue::Number(JsonNumber::PosInt(v))
}

fn obj(es: Vec<(&str, JsonValue)>) -> JsonValue {
    JsonValue::Object(es.into_iter().map(|(k, v)| (k.to_string(), v)).collect())
}

fn get<'a>(v: &'a JsonValue, k: &str) -> Option<&'a JsonValue> {
    match v {
        JsonValue::Object(es) => es.iter().find(|(key, _)| key == k).map(|(_, x)| x),
        _ => None,
    }
}

fn text(v: &JsonValue) -> String {
    format!("{v:?}")
}

#[test]
fn merge_patch_overrides_and_deletes() {
    let mut base = obj(vec![("name", s("old")), ("limit", obj(vec![("context", n(128000)), ("output", n(8192))]))]);
    let patch = obj(vec![("name", s("new")), ("limit", obj(vec![("output", JsonValue::Null)])), ("tool_call", JsonValue::Bool(true))]);
    merge_patch(&mut base, &patch);
    assert!(matches!(get(&base, "name"), Some(JsonValue::String(x)) if x == "new"));
    let limit = get(&base, "limit").unwrap();
    assert!(matches!(get(limit, "context"), Some(JsonValue::Number(JsonNumber::PosInt(128000)))));
    assert!(get(limit, "output").is_none());
    assert!(matches!(get(&base, "tool_call"), Some(JsonValue::Bool(true))));
}

#[test]
fn merge_patch_with_non_object_replaces() {
    let mut base = obj(vec![("a", n(1))]);
    merge_patch(&mut base, &s("x"));
    assert!(matches!(base, JsonValue::String(ref x) if x == "x"));
    let mut scalar = n(3);
    merge_patch(&mut scalar, &obj(vec![("b", n(2)), ("c", JsonValue::Null)]));
    assert_eq!(text(&scalar), text(&obj(vec![("b", n(2))])));
}

#[test]
fn merge_patch_with_empty_object_keeps_target() {
    let mut base = obj(vec![("a", n(1)), ("b", obj(vec![("c", n(2))]))]);
    let before = text(&base);
    merge_patch(&mut base, &obj(vec![]));
    assert_eq!(text(&base), before);
}

#[test]
fn prune_twice_is_prune_once() {
    let mut v = obj(vec![("a", obj(vec![("b", obj(vec![])), ("c", JsonValue::Array(vec![JsonValue::Null]))])), ("d", n(1))]);
    prune_empty_values(&mut v);
    let once = text(&v);
    prune_empty_values(&mut v);
    assert_eq!(text(&v), once);
    assert_eq!(once, text(&obj(vec![("d", n(1))])));
}

#[test]
fn empty_values() {
    assert!(is_empty_json_value(&JsonValue::Null));
    assert!(is_empty_json_value(&JsonValue::Array(vec![])));
    assert!(is_empty_json_value(&obj(vec![])));
    assert!(!is_empty_json_value(&JsonValue::Bool(false)));
    assert!(!is_empty_json_value(&s("")));
}

fn row(snapshot: StoredJson, patch: Option<StoredJson>) -> SelectedRow {
    SelectedRow {
        provider_id: "p".into(),
        model_id: "m".into(),
        display_name: Some("M".into()),
        is_enabled: true,
        snapshot,
        metadata_known: false,
        override_patch: patch,
        context: None,
        has_image: false,
        tool_call: false,
        selected_at: "t0".into(),
        updated_at: "t1".into(),
        api_snapshot_at: None,
    }
}

#[test]
fn effective_config_merges_the_override() {
    let r = row(StoredJson::Parsed(obj(vec![("name", s("A"))])), Some(StoredJson::Parsed(obj(vec![("name", s("B"))]))));
    assert_eq!(text(&r.effective()), text(&obj(vec![("name", s("B"))])));
    assert!(r.has_custom_config());
    let invalid = row(StoredJson::Invalid, Some(StoredJson::Invalid));
    assert_eq!(text(&invalid.effective()), text(&obj(vec![("id", s("m"))])));
    assert!(invalid.has_custom_config());
    let plain = row(StoredJson::Parsed(n(1)), None);
    assert!(!plain.has_custom_config());
}

#[test]
fn response_describes_the_selection() {
    let r = row(StoredJson::Parsed(obj(vec![("name", s("A"))])), None);
    let v = r.to_response();
    assert!(matches!(get(&v, "model_id"), Some(JsonValue::String(x)) if x == "m"));
    assert!(matches!(get(&v, "display_name"), Some(JsonValue::String(x)) if x == "M"));
    assert!(matches!(get(&v, "api_snapshot_at"), Some(JsonValue::Null)));
    assert!(matches!(get(&v, "has_custom_config"), Some(JsonValue::Bool(false))));
    assert!(matches!(get(&v, "override_patch"), Some(JsonValue::Null)));
    assert_eq!(text(get(&v, "effective").unwrap()), text(&obj(vec![("name", s("A"))])));
}

#[test]
fn snapshot_columns_come_from_the_entry() {
    let mut e = ModelEntry::bare("x");
    assert_eq!(snapshot_columns(&e), (None, false, false));
    e.limit = Limit { context: Some(5), input: None, output: None };
    e.modalities = Modalities { input: vec!["image".into()], output: vec![] };
    e.tool_call = Some(true);
    assert_eq!(snapshot_columns(&e), (Some(5), true, true));
}
