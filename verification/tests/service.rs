use ocm_backend::backup::{
    build_archive_file_name, build_remote_url, check_nutstore_settings, effective_server_url, mkcol_accepted,
    remote_dir_urls, sqlite_file_path, sqlite_path_from_url, sqlite_string, trim_error_body, NutstoreSettings,
    SettingsFile,
};
use ocm_backend::db::{default_npm, default_true, ProviderRow};
use ocm_backend::error::{ok_body, unwrap_cache_err, AppError};
use ocm_backend::import::{import_provider, provider_section};
use ocm_backend::json::{JsonNumber, JsonValue};
use ocm_backend::params::{non_empty, parse_bool, parse_u64, resolve_model_id, health, ModelQueryParams, ResolveQueryParams};
use ocm_backend::server::{asset_path, fetch_model_ids, icon_pixels, mime_type, models_url, Config};
use ocm_backend::settings::{set_enabled, settings_from_input, status, to_view, NutstoreSettingsInput};

fn s(v: &str) -> JsonValue {
    JsonValue::String(v.to_string())
}

fn obj(es: Vec<(&str, JsonValue)>) -> JsonValue {
    JsonValue::Object(es.into_iter().map(|(k, v)| (k.to_string(), v)).collect())
}

fn text(v: &JsonValue) -> String {
    format!("{v:?}")
}

fn settings(enabled: bool, user: &str, pass: &str) -> NutstoreSettings {
    NutstoreSettings {
        server_url: String::new(),
        enabled,
        username: user.into(),
        password: pass.into(),
        remote_dir: String::new(),
    }
}

#[test]
fn nutstore_settings_are_checked_in_order() {
    match check_nutstore_settings(&settings(false, "", "")) {
        Err(AppError::BadRequest(m)) => assert_eq!(m, "坚果云备份未启用"),
        other => panic!("{other:?}"),
    }
    match check_nutstore_settings(&settings(true, "  ", "x")) {
        Err(AppError::BadRequest(m)) => assert_eq!(m, "请先填写坚果云用户名"),
        other => panic!("{other:?}"),
    }
    match check_nutstore_settings(&settings(true, "u", "")) {
        Err(AppError::BadRequest(m)) => assert_eq!(m, "请先填写坚果云应用密码"),
        other => panic!("{other:?}"),
    }
    assert!(check_nutstore_settings(&settings(true, "u", "p")).is_ok());
}

#[test]
fn server_url_defaults_when_blank() {
    assert_eq!(effective_server_url("   "), "https://dav.jianguoyun.com/dav/");
    assert_eq!(effective_server_url(" https://x/dav "), "https://x/dav");
    let d = SettingsFile::default_file();
    assert_eq!(d.nutstore.server_url, "https://dav.jianguoyun.com/dav/");
    assert!(!d.nutstore.enabled);
}

#[test]
fn remote_urls_join_base_dir_and_file() {
    assert_eq!(build_remote_url("https://dav.example.com/dav/", "/ocm/backups/", "f.sqlite3"), "https://dav.example.com/dav/ocm/backups/f.sqlite3");
    assert_eq!(build_remote_url(" https://dav.example.com/dav// ", "  ", "f"), "https://dav.example.com/dav/f");
    assert_eq!(
        remote_dir_urls("https://dav.example.com/dav/", "/a//b/"),
        vec!["https://dav.example.com/dav/a/".to_string(), "https://dav.example.com/dav/a/b/".to_string()]
    );
    assert!(remote_dir_urls("https://x", " / ").is_empty());
}

#[test]
fn mkcol_statuses() {
    assert!(mkcol_accepted(201));
    assert!(mkcol_accepted(301));
    assert!(mkcol_accepted(405));
    assert!(mkcol_accepted(204));
    assert!(!mkcol_accepted(409));
    assert!(!mkcol_accepted(401));
}

#[test]
fn sqlite_addresses() {
    assert_eq!(sqlite_path_from_url("sqlite:data/ocm.db?mode=rwc").unwrap(), "data/ocm.db");
    assert_eq!(sqlite_path_from_url("sqlite:////tmp/x.db").unwrap(), "tmp/x.db");
    assert_eq!(sqlite_path_from_url("sqlite:///tmp/x.db").unwrap(), "/tmp/x.db");
    match sqlite_path_from_url("sqlite::memory:") {
        Err(AppError::Internal(m)) => assert_eq!(m, "当前数据库不是可备份的文件数据库"),
        other => panic!("{other:?}"),
    }
    match sqlite_path_from_url("postgres://x") {
        Err(AppError::Internal(m)) => assert_eq!(m, "不支持的数据库地址: postgres://x"),
        other => panic!("{other:?}"),
    }
    assert!(sqlite_file_path("sqlite:?mode=rwc").is_none());
    assert_eq!(sqlite_file_path("sqlite:a.db").as_deref(), Some("a.db"));
}

#[test]
fn sql_literals_double_quotes() {
    assert_eq!(sqlite_string("it's"), "it''s");
    assert_eq!(sqlite_string("''"), "''''");
    assert_eq!(sqlite_string("plain"), "plain");
}

#[test]
fn error_bodies_are_trimmed() {
    assert_eq!(trim_error_body("  \n"), "无响应内容");
    assert_eq!(trim_error_body("  bad  "), "bad");
    let long: String = std::iter::repeat('é').take(250).collect();
    assert_eq!(trim_error_body(&long).chars().count(), 200);
}

#[test]
fn archive_names() {
    assert_eq!(build_archive_file_name("20260101_120000", Some("ocm")), "20260101_120000.ocm.sqlite3");
    assert_eq!(build_archive_file_name("t", None), "t.ocm.sqlite3");
}

#[test]
fn import_reads_connection_settings_and_models() {
    let val = obj(vec![
        ("api", s("anthropic")),
        (
            "options",
            obj(vec![
                ("baseURL", s("http://h/v1")),
                ("apiKey", s("{env:MY_KEY}")),
                ("headers", obj(vec![("A", s("1"))])),
                ("timeout", JsonValue::Number(JsonNumber::PosInt(5))),
            ]),
        ),
        (
            "models",
            obj(vec![
                ("m1", obj(vec![("name", s("Model One")), ("tool_call", JsonValue::Bool(true))])),
                ("m2", obj(vec![("name", s("Only name"))])),
            ]),
        ),
    ]);
    let ip = import_provider("prov", &val).unwrap();
    assert_eq!(ip.input.id, "prov");
    assert_eq!(ip.input.name, "prov");
    assert_eq!(ip.input.npm, "@ai-sdk/anthropic");
    assert_eq!(ip.input.base_url.as_deref(), Some("http://h/v1"));
    assert_eq!(ip.input.api_key_env.as_deref(), Some("MY_KEY"));
    assert!(ip.input.api_key.is_none());
    assert_eq!(text(ip.input.headers.as_ref().unwrap()), text(&obj(vec![("A", s("1"))])));
    assert_eq!(text(ip.input.options.as_ref().unwrap()), text(&obj(vec![("timeout", JsonValue::Number(JsonNumber::PosInt(5)))])));
    assert!(ip.input.enabled);
    assert_eq!(ip.models.len(), 2);
    assert_eq!(ip.models[0].model_id, "m1");
    assert_eq!(ip.models[0].display_name.as_deref(), Some("Model One"));
    assert_eq!(text(ip.models[0].override_patch.as_ref().unwrap()), text(&obj(vec![("tool_call", JsonValue::Bool(true))])));
    assert!(ip.models[1].override_patch.is_none());
}

#[test]
fn import_keeps_a_raw_key_and_defaults() {
    let val = obj(vec![("name", s("Named")), ("npm", s("custom-npm")), ("options", obj(vec![("apiKey", s("sk-1"))]))]);
    let ip = import_provider("p", &val).unwrap();
    assert_eq!(ip.input.name, "Named");
    assert_eq!(ip.input.npm, "custom-npm");
    assert_eq!(ip.input.api_key.as_deref(), Some("sk-1"));
    assert!(ip.input.api_key_env.is_none());
    assert!(ip.input.options.is_none());
    assert!(ip.models.is_empty());
    let bare = import_provider("q", &obj(vec![])).unwrap();
    assert_eq!(bare.input.npm, "@ai-sdk/openai-compatible");
}

#[test]
fn import_refuses_non_objects() {
    match import_provider("bad", &s("x")) {
        Err(AppError::BadRequest(m)) => assert_eq!(m, "服务商 'bad' 的配置不是一个 JSON 对象"),
        other => panic!("{other:?}"),
    }
    match provider_section(&JsonValue::Null) {
        Err(AppError::BadRequest(m)) => assert_eq!(m, "opencode.json 根节点不是一个 JSON 对象"),
        other => panic!("{other:?}"),
    }
    match provider_section(&obj(vec![("provider", s("x"))])) {
        Err(AppError::BadRequest(m)) => assert_eq!(m, "`provider` 部分不是一个 JSON 对象"),
        other => panic!("{other:?}"),
    }
    assert!(matches!(provider_section(&obj(vec![])), Ok(None)));
}

#[test]
fn query_params_parse() {
    assert_eq!(parse_bool(&Some("TRUE".into())), Some(true));
    assert_eq!(parse_bool(&Some("on".into())), Some(true));
    assert_eq!(parse_bool(&Some("nope".into())), Some(false));
    assert_eq!(parse_bool(&None), None);
    assert_eq!(parse_u64(&Some("128000".into())), Some(128000));
    assert_eq!(parse_u64(&Some("+7".into())), Some(7));
    assert_eq!(parse_u64(&Some("".into())), None);
    assert_eq!(parse_u64(&Some("-1".into())), None);
    assert_eq!(parse_u64(&Some("18446744073709551615".into())), Some(u64::MAX));
    assert_eq!(parse_u64(&Some("18446744073709551616".into())), None);
    assert_eq!(parse_u64(&Some("12a".into())), None);
    assert_eq!(non_empty(&Some("".into())), None);
    assert_eq!(non_empty(&Some("x".into())).as_deref(), Some("x"));
    let p = ModelQueryParams {
        search: Some("".into()),
        support_image: Some("1".into()),
        support_audio: None,
        support_video: None,
        tool_call: Some("yes".into()),
        reasoning: None,
        min_context: Some("100".into()),
        max_context: Some("x".into()),
        status: Some("active".into()),
    };
    let q = p.to_query();
    assert!(q.search.is_none());
    assert_eq!(q.support_image, Some(true));
    assert_eq!(q.tool_call, Some(true));
    assert_eq!(q.min_context, Some(100));
    assert_eq!(q.max_context, None);
    assert_eq!(q.status.as_deref(), Some("active"));
}

#[test]
fn resolve_needs_a_model_id() {
    match resolve_model_id(&ResolveQueryParams { model_id: "  ".into() }) {
        Err(AppError::BadRequest(m)) => assert_eq!(m, "model_id query param is required"),
        other => panic!("{other:?}"),
    }
    assert_eq!(resolve_model_id(&ResolveQueryParams { model_id: " m ".into() }).unwrap(), "m");
}

#[test]
fn errors_map_to_status_and_code() {
    assert_eq!(AppError::NotFound("x".into()).parts(), (404, 4040));
    assert_eq!(AppError::BadRequest("x".into()).parts(), (400, 4000));
    assert_eq!(AppError::Upstream("x".into()).parts(), (502, 5020));
    assert_eq!(AppError::Db("x".into()).parts(), (500, 5000));
    assert_eq!(AppError::Json("x".into()).parts(), (500, 5001));
    assert_eq!(AppError::Internal("x".into()).parts(), (500, 5999));
    assert_eq!(AppError::Upstream("boom".into()).message(), "upstream provider error: boom");
    assert_eq!(AppError::Db("boom".into()).message(), "database error: boom");
    assert_eq!(AppError::Json("boom".into()).message(), "serialization error: boom");
    assert!(AppError::Internal("x".into()).is_server_error());
    assert!(!AppError::NotFound("x".into()).is_server_error());
    let body = AppError::NotFound("gone".into()).body();
    assert_eq!(
        text(&body),
        text(&obj(vec![
            ("code", JsonValue::Number(JsonNumber::PosInt(4040))),
            ("message", s("gone")),
            ("data", JsonValue::Null),
        ]))
    );
    assert_eq!(text(&ok_body(s("d"))), text(&obj(vec![("code", JsonValue::Number(JsonNumber::PosInt(0))), ("data", s("d"))])));
}

#[test]
fn cached_errors_keep_their_kind() {
    assert!(matches!(unwrap_cache_err(&AppError::Upstream("u".into())), AppError::Upstream(m) if m == "u"));
    assert!(matches!(unwrap_cache_err(&AppError::NotFound("n".into())), AppError::NotFound(m) if m == "n"));
    assert!(matches!(unwrap_cache_err(&AppError::BadRequest("b".into())), AppError::BadRequest(m) if m == "b"));
    assert!(matches!(unwrap_cache_err(&AppError::Db("d".into())), AppError::Internal(m) if m == "database error: d"));
}

#[test]
fn autostart_is_managed_by_the_tray() {
    let st = status().unwrap();
    assert!(!st.enabled);
    assert_eq!(st.message, "Autostart is managed by the Tauri system tray menu");
    let st2 = set_enabled(true).unwrap();
    assert!(!st2.enabled);
    assert!(st2.desktop_file.is_empty());
}

#[test]
fn nutstore_input_is_trimmed() {
    let stored = settings_from_input(NutstoreSettingsInput {
        enabled: true,
        server_url: " https://x ".into(),
        username: " u ".into(),
        password: " p ".into(),
        remote_dir: " d ".into(),
    });
    assert_eq!(stored.server_url, "https://x");
    assert_eq!(stored.username, "u");
    assert_eq!(stored.password, " p ");
    assert_eq!(stored.remote_dir, "d");
    let view = to_view(stored);
    assert!(view.enabled);
    assert_eq!(view.username, "u");
}

#[test]
fn config_defaults_and_overrides() {
    let c = Config::from_values(None, Some("0.0.0.0:1".into()), None, None, Some("10".into()), Some("bad".into()), None, "/home/u/.config/opencode/opencode.json".into());
    assert_eq!(c.database_url, "sqlite:data/ocm.db?mode=rwc");
    assert_eq!(c.bind, "0.0.0.0:1");
    assert_eq!(c.frontend_url, "http://localhost:5174/");
    assert_eq!(c.models_dev_url, "https://models.dev/api.json");
    assert_eq!(c.models_dev_ttl_secs, 10);
    assert_eq!(c.provider_list_ttl_secs, 300);
    assert_eq!(c.opencode_config_path, "/home/u/.config/opencode/opencode.json");
}

#[test]
fn embedded_files() {
    assert_eq!(asset_path("/"), "index.html");
    assert_eq!(asset_path("//assets/app.js"), "assets/app.js");
    assert_eq!(mime_type("assets/app.js"), "application/javascript");
    assert_eq!(mime_type("index.html"), "text/html");
    assert_eq!(mime_type("a.b.woff2"), "font/woff2");
    assert_eq!(mime_type("LICENSE"), "application/octet-stream");
}

#[test]
fn provider_model_lists() {
    assert_eq!(models_url("http://h/v1//"), "http://h/v1/models");
    let body = obj(vec![(
        "data",
        JsonValue::Array(vec![obj(vec![("id", s("a"))]), obj(vec![("id", JsonValue::Null)]), obj(vec![("id", s("b"))])]),
    )]);
    assert_eq!(fetch_model_ids("u", &body).unwrap(), vec!["a".to_string(), "b".to_string()]);
    let bare = JsonValue::Array(vec![obj(vec![("id", s("c"))])]);
    assert_eq!(fetch_model_ids("u", &bare).unwrap(), vec!["c".to_string()]);
    match fetch_model_ids("http://h/v1/models", &obj(vec![])) {
        Err(AppError::Upstream(m)) => assert_eq!(m, "http://h/v1/models: unexpected /models shape"),
        other => panic!("{other:?}"),
    }
}

#[test]
fn tray_icon_pixels() {
    let data = icon_pixels();
    assert_eq!(data.len(), 16 * 16 * 4);
    assert_eq!(&data[0..4], &[255, 26, 88, 56]);
    let at = |x: usize, y: usize| (y * 16 + x) * 4;
    assert_eq!(&data[at(5, 5)..at(5, 5) + 4], &[255, 255, 255, 255]);
    assert_eq!(&data[at(4, 11)..at(4, 11) + 4], &[255, 255, 255, 255]);
    assert_eq!(&data[at(3, 5)..at(3, 5) + 4], &[255, 42, 157, 93]);
}

#[test]
fn health_and_defaults() {
    assert_eq!(text(&health()), text(&obj(vec![("status", s("ok")), ("service", s("ocm-backend"))])));
    assert_eq!(default_npm(), "@ai-sdk/openai-compatible");
    assert!(default_true());
}

#[test]
fn api_key_resolution() {
    let mut p = ProviderRow {
        id: "p".into(),
        name: "p".into(),
        npm: "n".into(),
        base_url: None,
        api_key_env: Some("K".into()),
        api_key: Some("".into()),
        models_dev_key: None,
        headers: None,
        options: None,
        enabled: true,
        is_applied: false,
        needs_reapply: false,
        source: "ocm".into(),
        created_at: String::new(),
        updated_at: String::new(),
    };
    assert_eq!(p.resolve_api_key(Some("from-env".into())).as_deref(), Some("from-env"));
    p.api_key = Some("raw".into());
    assert_eq!(p.resolve_api_key(Some("from-env".into())).as_deref(), Some("raw"));
    p.api_key = None;
    assert_eq!(p.resolve_api_key(None), None);
}
