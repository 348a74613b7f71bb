use ocm_backend::apply::{
    build_provider_block, merge_provider_blocks, opencode_model_object, preview, remove_provider_block,
    config_text_to_parse, is_apply_target, api_type, DEFAULT_OUTPUT_LIMIT,
};
use ocm_backend::collapse::collapse_json_models;
use ocm_backend::db::ProviderRow;
use ocm_backend::error::AppError;
use ocm_backend::json::{prune_empty_values, JsonNumber, JsonValue};
use ocm_backend::jsonc::strip_jsonc_comments;
use ocm_backend::selection::{SelectedRow, StoredJson};

fn s(v: &str) -> JsonValue {
    JsonValue::String(v.to_string())
}

fn n(v: u64) -> JsonValue {
    JsonValue::Number(JsonNumber::PosInt(v))
}

fn obj(es: Vec<(&str, JsonValue)>) -> JsonValue {
    JsonValue::Object(es.into_iter().map(|(k, v)| (k.to_string(), v)).collect())
}

fn get<'a>(v: &'a JsonValue, k: &str) -> Option<&'a JsonValue> {
    match v {
        JsonValue::Object(es) => es.iter().find(|(key, _)| key == k).map(|(_, x)| x),
        _ => None,
    }
}

fn at<'a>(v: &'a JsonValue, path: &[&str]) -> &'a JsonValue {
    let mut cur = v;
    for k in path {
        cur = get(cur, k).unwrap_or_else(|| panic!("missing key {k}"));
    }
    cur
}

fn str_of(v: &JsonValue) -> &str {
    match v {
        JsonValue::String(x) => x.as_str(),
        other => panic!("not a string: {other:?}"),
    }
}

fn u64_of(v: &JsonValue) -> u64 {
    match v {
        JsonValue::Number(JsonNumber::PosInt(x)) => *x,
        other => panic!("not an unsigned number: {other:?}"),
    }
}

fn same(a: &JsonValue, b: &JsonValue) -> bool {
    format!("{a:?}") == format!("{b:?}")
}

fn provider_row(api_key_env: Option<&str>) -> ProviderRow {
    ProviderRow {
        id: "grok2api".into(),
        name: "grok2api".into(),
        npm: "@ai-sdk/openai".into(),
        base_url: Some("http://localhost:8000/v1".into()),
        api_key_env: api_key_env.map(str::to_string),
        api_key: None,
        models_dev_key: None,
        headers: None,
        options: None,
        enabled: true,
        is_applied: false,
        needs_reapply: false,
        source: "ocm".into(),
        created_at: "2026-05-31 00:00:00".into(),
        updated_at: "2026-05-31 00:00:00".into(),
    }
}

fn selected_row(provider_id: &str, model_id: &str, snapshot: JsonValue, context: Option<i64>) -> SelectedRow {
    SelectedRow {
        provider_id: provider_id.into(),
        model_id: model_id.into(),
        display_name: None,
        is_enabled: true,
        snapshot: StoredJson::Parsed(snapshot),
        metadata_known: true,
        override_patch: None,
        context,
        has_image: false,
        tool_call: true,
        selected_at: "2026-05-31 00:00:00".into(),
        updated_at: "2026-05-31 00:00:00".into(),
        api_snapshot_at: None,
    }
}

#[test]
fn provider_block_omits_unset_env_and_filters() {
    let (block, count) = build_provider_block(&provider_row(None), &[]);
    assert_eq!(count, 0);
    assert!(get(&block, "env").is_none());
    assert!(get(&block, "whitelist").is_none());
    assert!(get(&block, "blacklist").is_none());
    assert_eq!(str_of(at(&block, &["options", "baseURL"])), "http://localhost:8000/v1");
}

#[test]
fn provider_block_writes_env_when_api_key_env_is_set() {
    let (block, _) = build_provider_block(&provider_row(Some("GROK2API_API_KEY")), &[]);
    match get(&block, "env") {
        Some(JsonValue::Array(items)) => {
            assert_eq!(items.len(), 1);
            assert_eq!(str_of(&items[0]), "GROK2API_API_KEY");
        }
        other => panic!("env is not an array: {other:?}"),
    }
    assert_eq!(str_of(at(&block, &["options", "apiKey"])), "{env:GROK2API_API_KEY}");
    assert!(get(&block, "whitelist").is_none());
    assert!(get(&block, "blacklist").is_none());
}

#[test]
fn provider_block_writes_model_name_as_id() {
    let mut selected = selected_row(
        "p",
        "deepseek-chat",
        obj(vec![
            ("id", s("deepseek-chat")),
            ("name", s("DeepSeek")),
            ("family", s("deepseek")),
            ("limit", obj(vec![("context", n(128000)), ("output", n(8192))])),
        ]),
        Some(128000),
    );
    selected.display_name = Some("DeepSeek".into());

    let (block, count) = build_provider_block(&provider_row(None), &[selected]);
    let model = at(&block, &["models", "deepseek-chat"]);

    assert_eq!(count, 1);
    assert_eq!(str_of(at(model, &["name"])), "deepseek-chat");
    assert_eq!(str_of(at(model, &["family"])), "deepseek");
}

#[test]
fn prune_empty_values_removes_empty_arrays_objects_and_nulls() {
    let mut value = obj(vec![
        ("env", JsonValue::Array(vec![])),
        ("options", obj(vec![("headers", obj(vec![])), ("apiKey", s("{env:KEY}"))])),
        (
            "models",
            obj(vec![(
                "m",
                obj(vec![
                    ("limit", obj(vec![])),
                    ("modalities", obj(vec![("input", JsonValue::Array(vec![])), ("output", JsonValue::Array(vec![s("text")]))])),
                    ("reasoning", JsonValue::Bool(false)),
                    ("cost", JsonValue::Null),
                ]),
            )]),
        ),
    ]);

    prune_empty_values(&mut value);

    assert!(get(&value, "env").is_none());
    assert!(get(at(&value, &["options"]), "headers").is_none());
    assert!(get(at(&value, &["models", "m"]), "limit").is_none());
    assert!(get(at(&value, &["models", "m", "modalities"]), "input").is_none());
    assert!(get(at(&value, &["models", "m"]), "cost").is_none());
    assert!(matches!(at(&value, &["models", "m", "reasoning"]), JsonValue::Bool(false)));
    assert_eq!(str_of(at(&value, &["options", "apiKey"])), "{env:KEY}");
}

#[test]
fn opencode_model_object_strips_non_schema_modelsdev_extensions() {
    let row = selected_row(
        "p",
        "m",
        obj(vec![
            ("id", s("m")),
            ("name", s("M")),
            ("experimental", obj(vec![("modes", obj(vec![("fast", JsonValue::Bool(true))]))])),
            ("structured_output", JsonValue::Bool(true)),
            ("interleaved", obj(vec![("field", s("reasoning_content"))])),
            ("provider", obj(vec![("body", obj(vec![("x", JsonValue::Bool(true))]))])),
            (
                "cost",
                obj(vec![
                    ("input", n(1)),
                    ("output", n(2)),
                    ("context_over_200k", obj(vec![("input", n(3))])),
                    ("tiers", JsonValue::Array(vec![obj(vec![("input", n(4))])])),
                    ("reasoning", n(5)),
                ]),
            ),
        ]),
        Some(1),
    );

    let value = opencode_model_object(&row);

    assert!(get(&value, "experimental").is_none());
    assert!(get(&value, "structured_output").is_none());
    assert!(get(&value, "interleaved").is_none());
    assert!(get(&value, "provider").is_none());
    assert_eq!(str_of(at(&value, &["name"])), "m");
    assert!(same(at(&value, &["cost"]), &obj(vec![("input", n(1)), ("output", n(2))])));
}

#[test]
fn opencode_model_object_fills_required_limit_output() {
    let row = selected_row(
        "modelscope",
        "ZhipuAI/GLM-5.1",
        obj(vec![
            ("name", s("Z.ai: GLM 5.1")),
            ("limit", obj(vec![("context", n(202752))])),
            ("tool_call", JsonValue::Bool(true)),
        ]),
        Some(202752),
    );

    let value = opencode_model_object(&row);

    assert_eq!(u64_of(at(&value, &["limit", "context"])), 202752);
    assert_eq!(u64_of(at(&value, &["limit", "output"])), DEFAULT_OUTPUT_LIMIT as u64);
}

#[test]
fn test_collapse_json_models() {
    let input = r#"{
  "$schema": "https://opencode.ai/config.json",
  "provider": {
    "grok2api": {
      "npm": "ocm-provider",
      "name": "grok2api",
      "options": {},
      "models": {
        "grok-build-0-1": {
          "name": "Grok Build 0.1",
          "family": "grok-build",
          "attachment": true
        },
        "other": {
          "name": "Other"
        }
      }
    }
  }
}"#;

    let expected = r#"{
  "$schema": "https://opencode.ai/config.json",
  "provider": {
    "grok2api": {
      "npm": "ocm-provider",
      "name": "grok2api",
      "options": {},
      "models": {
        "grok-build-0-1": { "name": "Grok Build 0.1", "family": "grok-build", "attachment": true },
        "other": { "name": "Other" }
      }
    }
  }
}"#;

    assert_eq!(collapse_json_models(input), expected);
}

#[test]
fn strip_line_comment() {
    let src = "{ \"a\": 1 // comment\n}";
    let stripped = strip_jsonc_comments(src);
    let v: serde_json::Value = serde_json::from_str(&stripped).unwrap();
    assert_eq!(v["a"], 1);
}

#[test]
fn strip_block_comment() {
    let src = "{ /* block */ \"b\": 2 }";
    let stripped = strip_jsonc_comments(src);
    let v: serde_json::Value = serde_json::from_str(&stripped).unwrap();
    assert_eq!(v["b"], 2);
}

#[test]
fn preserve_url_in_string() {
    let src = r#"{ "url": "https://example.com/path" }"#;
    let stripped = strip_jsonc_comments(src);
    let v: serde_json::Value = serde_json::from_str(&stripped).unwrap();
    assert_eq!(v["url"], "https://example.com/path");
}

#[test]
fn block_comment_keeps_line_count() {
    let src = "{\n/* a\nb */\n\"x\": 1\n}";
    let stripped = strip_jsonc_comments(src);
    assert_eq!(stripped.lines().count(), src.lines().count());
    assert_eq!(stripped, "{\n\n\n\"x\": 1\n}");
}

#[test]
fn provider_block_uses_raw_key_and_extra_options() {
    let mut p = provider_row(None);
    p.api_key = Some("sk-test".into());
    p.options = Some(obj(vec![("timeout", n(30)), ("baseURL", s("http://override/v1"))]));
    p.headers = Some(obj(vec![("X-Test", s("1"))]));
    p.npm = "@AI-SDK/Anthropic".into();
    let (block, _) = build_provider_block(&p, &[]);
    assert_eq!(str_of(at(&block, &["options", "apiKey"])), "sk-test");
    assert_eq!(u64_of(at(&block, &["options", "timeout"])), 30);
    assert_eq!(str_of(at(&block, &["options", "baseURL"])), "http://override/v1");
    assert_eq!(str_of(at(&block, &["options", "headers", "X-Test"])), "1");
    assert_eq!(str_of(at(&block, &["api"])), "anthropic");
    assert!(get(&block, "models").is_none());
}

#[test]
fn provider_block_skips_disabled_rows() {
    let mut off = selected_row("p", "off", obj(vec![("name", s("Off"))]), None);
    off.is_enabled = false;
    let on = selected_row("p", "on", obj(vec![("name", s("On"))]), None);
    let (block, count) = build_provider_block(&provider_row(None), &[off, on]);
    assert_eq!(count, 1);
    assert!(get(at(&block, &["models"]), "off").is_none());
    let model = at(&block, &["models", "on"]);
    assert_eq!(u64_of(at(model, &["limit", "context"])), 128000);
    assert_eq!(u64_of(at(model, &["limit", "output"])), 4096);
}

#[test]
fn model_object_replaces_a_limit_that_is_not_an_object() {
    let row = selected_row("p", "m", obj(vec![("limit", s("big"))]), None);
    let value = opencode_model_object(&row);
    assert_eq!(u64_of(at(&value, &["limit", "context"])), 128000);
    assert_eq!(u64_of(at(&value, &["limit", "output"])), 4096);
}

#[test]
fn model_object_takes_context_from_input_limit() {
    let row = selected_row("p", "m", obj(vec![("limit", obj(vec![("input", n(64000))]))]), None);
    let value = opencode_model_object(&row);
    assert_eq!(u64_of(at(&value, &["limit", "context"])), 64000);
    assert_eq!(u64_of(at(&value, &["limit", "input"])), 64000);
}

#[test]
fn model_object_falls_back_to_id_for_invalid_snapshot() {
    let mut row = selected_row("p", "m-1", obj(vec![]), None);
    row.snapshot = StoredJson::Invalid;
    let value = opencode_model_object(&row);
    assert!(get(&value, "id").is_none());
    assert_eq!(str_of(at(&value, &["name"])), "m-1");
}

#[test]
fn model_object_applies_override_patch() {
    let mut row = selected_row("p", "m", obj(vec![("family", s("a")), ("tool_call", JsonValue::Bool(true))]), Some(10));
    row.override_patch = Some(StoredJson::Parsed(obj(vec![("family", s("b")), ("tool_call", JsonValue::Null)])));
    let value = opencode_model_object(&row);
    assert_eq!(str_of(at(&value, &["family"])), "b");
    assert!(get(&value, "tool_call").is_none());
    assert_eq!(u64_of(at(&value, &["limit", "context"])), 10);
}

#[test]
fn preview_wraps_the_block_under_its_id() {
    let p = provider_row(None);
    let v = preview(&p, &[]);
    assert_eq!(str_of(at(&v, &["provider", "grok2api", "name"])), "grok2api");
}

#[test]
fn merge_keeps_other_providers_and_keys() {
    let root = obj(vec![
        ("theme", s("dark")),
        ("provider", obj(vec![("other", obj(vec![("name", s("Other"))])), ("grok2api", obj(vec![("name", s("old"))]))])),
    ]);
    let (block, _) = build_provider_block(&provider_row(None), &[]);
    let merged = merge_provider_blocks(root, &vec![("grok2api".to_string(), block)]).unwrap();
    assert_eq!(str_of(at(&merged, &["theme"])), "dark");
    assert_eq!(str_of(at(&merged, &["$schema"])), "https://opencode.ai/config.json");
    assert_eq!(str_of(at(&merged, &["provider", "other", "name"])), "Other");
    assert_eq!(str_of(at(&merged, &["provider", "grok2api", "api"])), "openai");
}

#[test]
fn merge_refuses_a_root_that_is_not_an_object() {
    match merge_provider_blocks(JsonValue::Array(vec![]), &vec![]) {
        Err(AppError::BadRequest(m)) => assert_eq!(m, "opencode.json root is not a JSON object"),
        other => panic!("unexpected: {other:?}"),
    }
    match merge_provider_blocks(obj(vec![("provider", s("x"))]), &vec![]) {
        Err(AppError::BadRequest(m)) => assert_eq!(m, "`provider` section is not an object"),
        other => panic!("unexpected: {other:?}"),
    }
}

#[test]
fn unapply_removes_only_that_provider() {
    let root = obj(vec![(
        "provider",
        obj(vec![("a", obj(vec![("name", s("A"))])), ("b", obj(vec![("name", s("B"))]))]),
    )]);
    let (after, removed) = remove_provider_block(root, "a");
    assert!(removed);
    assert!(get(at(&after, &["provider"]), "a").is_none());
    assert_eq!(str_of(at(&after, &["provider", "b", "name"])), "B");
    let (_, again) = remove_provider_block(after, "a");
    assert!(!again);
}

#[test]
fn apply_then_unapply_removes_the_block() {
    let (block, _) = build_provider_block(&provider_row(None), &[]);
    let merged = merge_provider_blocks(obj(vec![]), &vec![("grok2api".to_string(), block)]).unwrap();
    let (after, removed) = remove_provider_block(merged, "grok2api");
    assert!(removed);
    assert!(get(at(&after, &["provider"]), "grok2api").is_none());
}

#[test]
fn blank_config_text_reads_as_empty() {
    assert!(config_text_to_parse("  \n\t").is_none());
    assert_eq!(config_text_to_parse("{ // c\n}").unwrap(), "{ \n}");
}

#[test]
fn apply_targets_follow_source_enabled_and_only() {
    let mut p = provider_row(None);
    assert!(is_apply_target(&p, None));
    assert!(is_apply_target(&p, Some(&vec!["grok2api".to_string()])));
    assert!(!is_apply_target(&p, Some(&vec!["other".to_string()])));
    p.source = "imported".into();
    assert!(!is_apply_target(&p, None));
    p.source = "ocm".into();
    p.enabled = false;
    assert!(!is_apply_target(&p, None));
}

#[test]
fn api_type_follows_npm_package() {
    assert_eq!(api_type("@ai-sdk/openai-compatible"), "openai");
    assert_eq!(api_type("@ai-sdk/google"), "google");
    assert_eq!(api_type("@ai-sdk/groq"), "groq");
    assert_eq!(api_type("@ai-sdk/mistral"), "mistral");
    assert_eq!(api_type("ollama-ai-provider"), "ollama");
    assert_eq!(api_type("ocm-provider"), "custom");
}
