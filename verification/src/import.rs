//! Importing an existing opencode.json: its providers become provider inputs, and the
//! models under each become selections with a display name and an override patch.
use vstd::prelude::*;
use crate::db::{ProviderInput, ProviderRow};
use crate::apply::{api_type_spec, block_spec, env_name, models_spec, options_spec, raw_key};
use crate::selection::SelectedRow;
use crate::domain::{opt_json, opt_view};
use crate::error::AppError;
use crate::json::{
    copy_json, get_key, is_empty_view, jv_entries, lemma_find_key, lemma_find_key_is, lemma_jv_entries,
    lemma_pruned_absent, lemma_pruned_get, obj_entries, obj_get, obj_set, pruned, pruned_entries, set_key, Entries,
    JsonValue, JsonView,
};
use crate::json_text::{json_of_text, parse_json_text};
use crate::text::{trim, cat3, chars_of, ends_with, owned, starts_with, starts_with_chars, string_of};

verus! {

/// How many providers and models an import brought in.
#[derive(Debug)]
pub struct ImportReport {
    pub providers_imported: usize,
    pub models_imported: usize,
}

/// A model found under a provider: its id, the display name it gives, and the rest
/// of its fields as an override patch (`None` when there are none).
#[derive(Debug)]
pub struct ImportedModel {
    pub model_id: String,
    pub display_name: Option<String>,
    pub override_patch: Option<JsonValue>,
}

/// A provider found in the configuration, with its models.
#[derive(Debug)]
pub struct ImportedProvider {
    pub input: ProviderInput,
    pub models: Vec<ImportedModel>,
}

/// The `provider` section of a configuration root: an error when the root, or the
/// section, is not an object; `None` when there is no section.
pub open spec fn provider_section_spec(root: JsonView) -> Result<Option<Entries>, Seq<char>> {
    match root {
        JsonView::Object(es) => match get_key(es, "provider"@) {
            Some(JsonView::Object(pm)) => Ok(Some(pm)),
            Some(_) => Err("`provider` 部分不是一个 JSON 对象"@),
            None => Ok(None),
        },
        _ => Err("opencode.json 根节点不是一个 JSON 对象"@),
    }
}

/// The `provider` section of a configuration root (see `provider_section_spec`).
pub fn provider_section(root: &JsonValue) -> (r: Result<Option<&Vec<(String, JsonValue)>>, AppError>)
    ensures
        match r {
            Ok(Some(pm)) => provider_section_spec(root@) == Ok::<Option<Entries>, Seq<char>>(Some(jv_entries(pm@))),
            Ok(None) => provider_section_spec(root@) == Ok::<Option<Entries>, Seq<char>>(None),
            Err(e) => (e matches AppError::BadRequest(m) && provider_section_spec(root@) == Err::<Option<Entries>, Seq<char>>(m@)),
        },
{
    match root {
        JsonValue::Object(es) => match obj_get(es, "provider") {
            Some(JsonValue::Object(pm)) => Ok(Some(pm)),
            Some(_) => Err(AppError::BadRequest(owned("`provider` 部分不是一个 JSON 对象"))),
            None => Ok(None),
        },
        _ => Err(AppError::BadRequest(owned("opencode.json 根节点不是一个 JSON 对象"))),
    }
}

/// The npm package of a provider that names only its `api`.
pub open spec fn npm_for_api(api: Option<Seq<char>>) -> Seq<char> {
    match api {
        Some(a) => if a == "anthropic"@ {
            "@ai-sdk/anthropic"@
        } else if a == "google"@ {
            "@ai-sdk/google"@
        } else if a == "groq"@ {
            "@ai-sdk/groq"@
        } else if a == "mistral"@ {
            "@ai-sdk/mistral"@
        } else if a == "ollama"@ {
            "@ai-sdk/ollama"@
        } else {
            "@ai-sdk/openai-compatible"@
        },
        None => "@ai-sdk/openai-compatible"@,
    }
}

/// A value as a string, when it is one.
pub open spec fn as_str_spec(v: Option<JsonView>) -> Option<Seq<char>> {
    match v {
        Some(JsonView::Str(s)) => Some(s),
        _ => None,
    }
}

/// What the options of a provider give: base URL, key variable, raw key, headers,
/// and the other options.
pub struct OptionScan {
    pub base_url: Option<Seq<char>>,
    pub api_key_env: Option<Seq<char>>,
    pub api_key: Option<Seq<char>>,
    pub headers: Option<JsonView>,
    pub extra: Entries,
}

/// Whether an `apiKey` value names an environment variable: `{env:NAME}`.
pub open spec fn is_env_ref(s: Seq<char>) -> bool {
    starts_with(s, "{env:"@) && ends_with(s, "}"@)
}

/// The options entries scanned in order (see `OptionScan`): `baseURL` and `apiKey`
/// are taken when they are strings (`apiKey` as a variable name when it reads
/// `{env:NAME}`), `headers` as it is, and any other key goes to the extra options.
pub open spec fn scan_options(es: Entries) -> OptionScan
    decreases es.len(),
{
    if es.len() == 0 {
        OptionScan { base_url: None, api_key_env: None, api_key: None, headers: None, extra: Seq::empty() }
    } else {
        let st = scan_options(es.drop_last());
        let k = es.last().0;
        let v = es.last().1;
        if k == "baseURL"@ {
            match v {
                JsonView::Str(s) => OptionScan { base_url: Some(s), ..st },
                _ => st,
            }
        } else if k == "apiKey"@ {
            match v {
                JsonView::Str(s) => if is_env_ref(s) {
                    OptionScan { api_key_env: Some(s.subrange(5, s.len() - 1)), ..st }
                } else {
                    OptionScan { api_key: Some(s), ..st }
                },
                _ => st,
            }
        } else if k == "headers"@ {
            OptionScan { headers: Some(v), ..st }
        } else {
            OptionScan { extra: set_key(st.extra, k, v), ..st }
        }
    }
}

/// The options entries of a provider object: those of `options` when it is an object.
pub open spec fn options_of(p: Entries) -> Entries {
    match get_key(p, "options"@) {
        Some(JsonView::Object(o)) => o,
        _ => Seq::empty(),
    }
}

/// A model's fields scanned in order: the last string `name` is the display name, and
/// every other field goes to the override patch.
pub open spec fn scan_model(es: Entries) -> (Option<Seq<char>>, Entries)
    decreases es.len(),
{
    if es.len() == 0 {
        (None, Seq::empty())
    } else {
        let st = scan_model(es.drop_last());
        let k = es.last().0;
        let v = es.last().1;
        if k == "name"@ {
            match v {
                JsonView::Str(s) => (Some(s), st.1),
                _ => st,
            }
        } else {
            (st.0, set_key(st.1, k, v))
        }
    }
}

/// The fields of a model value: its entries when it is an object.
pub open spec fn model_fields(v: JsonView) -> Entries {
    match v {
        JsonView::Object(es) => es,
        _ => Seq::empty(),
    }
}

/// The models of a provider object: those under `models` when it is an object.
pub open spec fn models_of(p: Entries) -> Entries {
    match get_key(p, "models"@) {
        Some(JsonView::Object(m)) => m,
        _ => Seq::empty(),
    }
}

/// Whether `m` is what importing model `(id, v)` gives.
pub open spec fn imported_model_ok(m: ImportedModel, id: Seq<char>, v: JsonView) -> bool {
    let sc = scan_model(model_fields(v));
    &&& m.model_id@ == id
    &&& opt_view(m.display_name) == sc.0
    &&& opt_json(m.override_patch) == (if sc.1.len() == 0 {
        None
    } else {
        Some(JsonView::Object(sc.1))
    })
}

/// Whether `input` is what importing provider `id` with fields `p` gives.
pub open spec fn imported_input_ok(input: ProviderInput, id: Seq<char>, p: Entries) -> bool {
    let sc = scan_options(options_of(p));
    &&& input.id@ == id
    &&& input.name@ == (match as_str_spec(get_key(p, "name"@)) {
        Some(n) => n,
        None => id,
    })
    &&& input.npm@ == (match as_str_spec(get_key(p, "npm"@)) {
        Some(n) => n,
        None => npm_for_api(as_str_spec(get_key(p, "api"@))),
    })
    &&& opt_view(input.base_url) == sc.base_url
    &&& opt_view(input.api_key_env) == sc.api_key_env
    &&& opt_view(input.api_key) == sc.api_key
    &&& input.models_dev_key is None
    &&& opt_json(input.headers) == sc.headers
    &&& opt_json(input.options) == (if sc.extra.len() == 0 {
        None
    } else {
        Some(JsonView::Object(sc.extra))
    })
    &&& input.enabled
}

/// A value as a string, when it is one.
fn as_str(v: Option<&JsonValue>) -> (r: Option<String>)
    ensures
        opt_view(r) == as_str_spec(match v {
            Some(x) => Some(x@),
            None => None,
        }),
{
    match v {
        Some(JsonValue::String(s)) => Some(s.clone()),
        _ => None,
    }
}

/// The npm package of a provider that names only its `api` (see `npm_for_api`).
fn npm_for_api_exec(api: Option<String>) -> (r: String)
    ensures
        r@ == npm_for_api(opt_view(api)),
{
    match api {
        Some(a) => {
            let s = a.as_str();
            if crate::catalog::str_eq(s, "anthropic") {
                owned("@ai-sdk/anthropic")
            } else if crate::catalog::str_eq(s, "google") {
                owned("@ai-sdk/google")
            } else if crate::catalog::str_eq(s, "groq") {
                owned("@ai-sdk/groq")
            } else if crate::catalog::str_eq(s, "mistral") {
                owned("@ai-sdk/mistral")
            } else if crate::catalog::str_eq(s, "ollama") {
                owned("@ai-sdk/ollama")
            } else {
                owned("@ai-sdk/openai-compatible")
            }
        },
        None => owned("@ai-sdk/openai-compatible"),
    }
}

/// The name of the variable in an `{env:NAME}` reference, when `s` is one.
fn env_ref_name(s: &str) -> (r: Option<String>)
    ensures
        match r {
            Some(n) => is_env_ref(s@) && n@ == s@.subrange(5, s@.len() - 1),
            None => !is_env_ref(s@),
        },
{
    let c = chars_of(s);
    let pre = chars_of("{env:");
    proof {
        reveal_strlit("{env:");
        reveal_strlit("}");
    }
    if starts_with_chars(&c, &pre) && c.len() > 0 && c[c.len() - 1] == '}' {
        assert(c@.subrange(c@.len() - 1, c@.len() as int) =~= "}"@);
        if c.len() < 6 {
            assert(c@.subrange(0, 5)[4] == ':');
            assert(false);
        }
        let mut n: Vec<char> = Vec::new();
        let mut i: usize = 5;
        while i < c.len() - 1
            invariant
                5 <= i <= c.len() - 1,
                c.len() >= 6,
                n@ == c@.subrange(5, i as int),
            decreases c.len() - 1 - i,
        {
            n.push(c[i]);
            assert(c@.subrange(5, i + 1) == c@.subrange(5, i as int).push(c@[i as int]));
            i = i + 1;
        }
        Some(string_of(&n))
    } else {
        proof {
            if ends_with(s@, "}"@) && s@.len() > 0 {
                assert(s@.subrange(s@.len() - 1, s@.len() as int)[0] == '}');
            }
        }
        None
    }
}

/// What the options of a provider give (see `scan_options`).
fn scan_options_exec(es: &Vec<(String, JsonValue)>) -> (r: (Option<String>, Option<String>, Option<String>, Option<JsonValue>, Vec<(String, JsonValue)>))
    ensures
        ({
            let sc = scan_options(jv_entries(es@));
            &&& opt_view(r.0) == sc.base_url
            &&& opt_view(r.1) == sc.api_key_env
            &&& opt_view(r.2) == sc.api_key
            &&& opt_json(r.3) == sc.headers
            &&& jv_entries(r.4@) == sc.extra
        }),
{
    broadcast use lemma_jv_entries;
    let ghost ev = jv_entries(es@);
    let mut base_url: Option<String> = None;
    let mut api_key_env: Option<String> = None;
    let mut api_key: Option<String> = None;
    let mut headers: Option<JsonValue> = None;
    let mut extra: Vec<(String, JsonValue)> = Vec::new();
    let mut i: usize = 0;
    while i < es.len()
        invariant
            i <= es.len(),
            ev == jv_entries(es@),
            ev.len() == es@.len(),
            ({
                let sc = scan_options(ev.take(i as int));
                &&& opt_view(base_url) == sc.base_url
                &&& opt_view(api_key_env) == sc.api_key_env
                &&& opt_view(api_key) == sc.api_key
                &&& opt_json(headers) == sc.headers
                &&& jv_entries(extra@) == sc.extra
            }),
        decreases es.len() - i,
    {
        let k = es[i].0.as_str();
        let v = &es[i].1;
        proof {
            lemma_jv_entries(es@);
        }
        assert(ev.take(i + 1).drop_last() == ev.take(i as int));
        assert(ev.take(i + 1).last() == (k@, v@));
        if crate::catalog::str_eq(k, "baseURL") {
            if let JsonValue::String(s) = v {
                base_url = Some(s.clone());
            }
        } else if crate::catalog::str_eq(k, "apiKey") {
            if let JsonValue::String(s) = v {
                match env_ref_name(s.as_str()) {
                    Some(n) => {
                        api_key_env = Some(n);
                    },
                    None => {
                        api_key = Some(s.clone());
                    },
                }
            }
        } else if crate::catalog::str_eq(k, "headers") {
            headers = Some(copy_json(v));
        } else {
            obj_set(&mut extra, k, copy_json(v));
        }
        i = i + 1;
    }
    assert(ev.take(es.len() as int) == ev);
    (base_url, api_key_env, api_key, headers, extra)
}

/// What a model's fields give (see `scan_model`).
fn scan_model_exec(es: &Vec<(String, JsonValue)>) -> (r: (Option<String>, Vec<(String, JsonValue)>))
    ensures
        opt_view(r.0) == scan_model(jv_entries(es@)).0,
        jv_entries(r.1@) == scan_model(jv_entries(es@)).1,
{
    broadcast use lemma_jv_entries;
    let ghost ev = jv_entries(es@);
    let mut name: Option<String> = None;
    let mut patch: Vec<(String, JsonValue)> = Vec::new();
    let mut i: usize = 0;
    while i < es.len()
        invariant
            i <= es.len(),
            ev == jv_entries(es@),
            ev.len() == es@.len(),
            opt_view(name) == scan_model(ev.take(i as int)).0,
            jv_entries(patch@) == scan_model(ev.take(i as int)).1,
        decreases es.len() - i,
    {
        let k = es[i].0.as_str();
        let v = &es[i].1;
        proof {
            lemma_jv_entries(es@);
        }
        assert(ev.take(i + 1).drop_last() == ev.take(i as int));
        assert(ev.take(i + 1).last() == (k@, v@));
        if crate::catalog::str_eq(k, "name") {
            if let JsonValue::String(s) = v {
                name = Some(s.clone());
            }
        } else {
            obj_set(&mut patch, k, copy_json(v));
        }
        i = i + 1;
    }
    assert(ev.take(es.len() as int) == ev);
    (name, patch)
}

/// What importing model `(model_id, model_val)` gives (see `imported_model_ok`).
fn import_model(model_id: &String, model_val: &JsonValue) -> (m: ImportedModel)
    ensures
        imported_model_ok(m, model_id@, model_val@),
{
    let empty: Vec<(String, JsonValue)> = Vec::new();
    let fields = match model_val {
        JsonValue::Object(es) => es,
        _ => &empty,
    };
    proof {
        lemma_jv_entries(empty@);
    }
    assert(jv_entries(fields@) == model_fields(model_val@));
    let (display_name, patch) = scan_model_exec(fields);
    let override_patch = if patch.len() == 0 {
        proof {
            lemma_jv_entries(patch@);
        }
        None
    } else {
        proof {
            lemma_jv_entries(patch@);
        }
        Some(JsonValue::Object(patch))
    };
    ImportedModel { model_id: model_id.clone(), display_name, override_patch }
}

/// What importing provider `provider_id` with configuration `val` gives: its input
/// (see `imported_input_ok`) and its models in order (see `imported_model_ok`); an
/// error when `val` is not an object.
pub fn import_provider(provider_id: &str, val: &JsonValue) -> (r: Result<ImportedProvider, AppError>)
    ensures
        match r {
            Ok(ip) => {
                &&& val@ is Object
                &&& imported_input_ok(ip.input, provider_id@, model_fields(val@))
                &&& ip.models@.len() == models_of(model_fields(val@)).len()
                &&& forall|j: int| 0 <= j < ip.models@.len() ==> imported_model_ok(
                    #[trigger] ip.models@[j],
                    models_of(model_fields(val@))[j].0,
                    models_of(model_fields(val@))[j].1,
                )
            },
            Err(e) => !(val@ is Object) && (e matches AppError::BadRequest(m) && m@ == "服务商 '"@ + provider_id@
                + "' 的配置不是一个 JSON 对象"@),
        },
{
    broadcast use lemma_jv_entries;
    let p = match val {
        JsonValue::Object(es) => es,
        _ => {
            return Err(AppError::BadRequest(cat3("服务商 '", provider_id, "' 的配置不是一个 JSON 对象")));
        },
    };
    let ghost pv = jv_entries(p@);
    let name = match as_str(obj_get(p, "name")) {
        Some(n) => n,
        None => owned(provider_id),
    };
    let npm = match as_str(obj_get(p, "npm")) {
        Some(n) => n,
        None => npm_for_api_exec(as_str(obj_get(p, "api"))),
    };
    let empty: Vec<(String, JsonValue)> = Vec::new();
    let opts = match obj_get(p, "options") {
        Some(JsonValue::Object(o)) => o,
        _ => &empty,
    };
    assert(jv_entries(opts@) == options_of(pv));
    let (base_url, api_key_env, api_key, headers, extra) = scan_options_exec(opts);
    let options = if extra.len() == 0 {
        None
    } else {
        Some(JsonValue::Object(extra))
    };
    let input = ProviderInput {
        id: owned(provider_id),
        name: name,
        npm: npm,
        base_url: base_url,
        api_key_env: api_key_env,
        api_key: api_key,
        models_dev_key: None,
        headers: headers,
        options: options,
        enabled: true,
    };
    let ms = match obj_get(p, "models") {
        Some(JsonValue::Object(m)) => m,
        _ => &empty,
    };
    let ghost mv = jv_entries(ms@);
    assert(mv == models_of(pv));
    let mut models: Vec<ImportedModel> = Vec::new();
    let mut i: usize = 0;
    while i < ms.len()
        invariant
            i <= ms.len(),
            mv == jv_entries(ms@),
            mv.len() == ms@.len(),
            models@.len() == i,
            forall|j: int| 0 <= j < i ==> imported_model_ok(#[trigger] models@[j], mv[j].0, mv[j].1),
        decreases ms.len() - i,
    {
        proof {
            lemma_jv_entries(ms@);
        }
        assert(mv[i as int] == (ms@[i as int].0@, ms@[i as int].1@));
        let m = import_model(&ms[i].0, &ms[i].1);
        models.push(m);
        i = i + 1;
    }
    Ok(ImportedProvider { input, models })
}

/// Importing the block that applying writes for a provider without extra options or
/// headers reads back its name, npm package, base URL and API key: the variable it
/// names, or else its raw key (when that does not itself read `{env:...}`).
pub proof fn import_reads_back_applied_provider(p: ProviderRow, rows: Seq<SelectedRow>)
    requires
        p.options is None,
        p.headers is None,
        raw_key(p) matches Some(k) ==> !is_env_ref(k),
    ensures
        ({
            let b = obj_entries(block_spec(p, rows));
            let sc = scan_options(options_of(b));
            &&& as_str_spec(get_key(b, "name"@)) == Some(p.name@)
            &&& as_str_spec(get_key(b, "npm"@)) == Some(p.npm@)
            &&& sc.base_url == opt_view(p.base_url)
            &&& sc.api_key_env == env_name(p)
            &&& sc.api_key == (if env_name(p) is Some {
                None
            } else {
                raw_key(p)
            })
            &&& sc.headers is None
            &&& sc.extra.len() == 0
        }),
{
    reveal_strlit("id");
    reveal_strlit("name");
    reveal_strlit("api");
    reveal_strlit("npm");
    reveal_strlit("env");
    reveal_strlit("options");
    reveal_strlit("models");
    reveal_strlit("baseURL");
    reveal_strlit("apiKey");
    reveal_strlit("headers");
    reveal_strlit("{env:");
    reveal_strlit("}");
    let head = seq![
        ("id"@, JsonView::Str(p.id@)),
        ("name"@, JsonView::Str(p.name@)),
        ("api"@, JsonView::Str(api_type_spec(p.npm@))),
        ("npm"@, JsonView::Str(p.npm@)),
    ];
    let env = match env_name(p) {
        Some(e) => seq![("env"@, JsonView::Array(seq![JsonView::Str(e)]))],
        None => Seq::empty(),
    };
    let o = options_spec(p);
    let m = models_spec(rows);
    let e = head + env + seq![("options"@, JsonView::Object(o)), ("models"@, JsonView::Object(m))];
    assert(block_spec(p, rows) == JsonView::Object(pruned_entries(e)));
    let b = pruned_entries(e);
    // name and npm
    assert(e[0].0 == "id"@ && e[1].0 == "name"@ && e[3].0 == "npm"@ && e[2].0 == "api"@);
    assert("id"@[0] != "name"@[0]);
    assert(e[1].1 == JsonView::Str(p.name@));
    lemma_find_key_is(e, "name"@, 1);
    lemma_pruned_get(e, "name"@);
    assert("id"@[0] != "npm"@[0] && "name"@[1] != "npm"@[1] && "api"@[0] != "npm"@[0]);
    assert(e[3].1 == JsonView::Str(p.npm@));
    lemma_find_key_is(e, "npm"@, 3);
    lemma_pruned_get(e, "npm"@);
    // the options as written
    let e1: Entries = match opt_view(p.base_url) {
        Some(u) => seq![("baseURL"@, JsonView::Str(u))],
        None => Seq::empty(),
    };
    if let Some(u) = opt_view(p.base_url) {
        assert(set_key(Seq::empty(), "baseURL"@, JsonView::Str(u)) =~= seq![("baseURL"@, JsonView::Str(u))]);
    }
    assert("baseURL"@[0] != "apiKey"@[0]);
    let kv: Option<Seq<char>> = match env_name(p) {
        Some(v) => Some("{env:"@ + v + "}"@),
        None => raw_key(p),
    };
    if let Some(x) = kv {
        lemma_find_key(e1, "apiKey"@);
        assert(set_key(e1, "apiKey"@, JsonView::Str(x)) =~= e1.push(("apiKey"@, JsonView::Str(x))));
    }
    let ow: Entries = match kv {
        Some(x) => e1.push(("apiKey"@, JsonView::Str(x))),
        None => e1,
    };
    assert(o == ow);
    // what importing reads from them
    let sc0 = scan_options(Seq::empty());
    assert(e1.len() == 0 ==> scan_options(e1) == sc0);
    if e1.len() == 1 {
        assert(e1.drop_last() =~= Seq::<(Seq<char>, JsonView)>::empty());
    }
    assert(scan_options(e1).base_url == opt_view(p.base_url));
    assert(scan_options(e1).api_key_env is None && scan_options(e1).api_key is None);
    assert(scan_options(e1).headers is None && scan_options(e1).extra.len() == 0);
    if let Some(x) = kv {
        assert(ow.drop_last() == e1);
        assert(ow.last() == ("apiKey"@, JsonView::Str(x)));
        if let Some(v) = env_name(p) {
            let r = "{env:"@ + v + "}"@;
            assert(r.subrange(0, 5) =~= "{env:"@);
            assert(r.subrange(r.len() - 1, r.len() as int) =~= "}"@);
            assert(r.subrange(5, r.len() - 1) =~= v);
        }
    }
    // the options in the pruned block
    let oi: int = 4 + env.len() as int;
    assert(e[oi].0 == "options"@);
    assert forall|i: int| 0 <= i < oi implies (#[trigger] e[i]).0 != "options"@ by {
        assert("id"@[0] != "options"@[0]);
        assert("name"@[0] != "options"@[0]);
        assert("api"@[0] != "options"@[0]);
        assert("npm"@[0] != "options"@[0]);
        assert("env"@[0] != "options"@[0]);
    }
    lemma_find_key_is(e, "options"@, oi);
    if ow.len() == 0 {
        assert forall|i: int| 0 <= i < e.len() && (#[trigger] e[i]).0 == "options"@ implies is_empty_view(pruned(e[i].1)) by {
            assert("models"@[0] != "options"@[0]);
            if i != oi {
                assert(e[i].0 != "options"@);
            }
        }
        lemma_pruned_absent(e, "options"@);
    } else {
        assert(forall|i: int| 0 <= i < e1.len() ==> (#[trigger] e1[i]).1 is Str);
        assert(forall|i: int| 0 <= i < ow.len() ==> (#[trigger] ow[i]).1 is Str);
        assert(ow[0].1 is Str);
        assert(!is_empty_view(pruned(ow[0].1)));
        if ow.len() == 1 {
            assert(pruned_entries(ow.drop_first()) == Seq::<(Seq<char>, JsonView)>::empty());
            assert(pruned_entries(ow) =~= ow);
        } else {
            let t = ow.drop_first();
            assert(t.len() == 1);
            assert(t[0] == ow[1]);
            assert(t[0].1 is Str);
            assert(!is_empty_view(pruned(t[0].1)));
            assert(pruned_entries(t.drop_first()) == Seq::<(Seq<char>, JsonView)>::empty());
            assert(pruned_entries(t) =~= t);
            assert(pruned_entries(ow) =~= ow);
        }
        lemma_pruned_get(e, "options"@);
    }
}


/// The message refusing the configuration at `path` whose text is not valid JSON.
pub open spec fn invalid_import_message(path: Seq<char>, detail: Seq<char>) -> Seq<char> {
    "配置文件 "@ + path + " 不是有效的 JSON ("@ + detail + ")"@
}

/// The `provider` section that importing reads from the text of the configuration at
/// `path` (see `provider_section_spec`): `None` when the text is blank or has no
/// section; refused when the text is not valid JSON, or when the root or the section
/// is not an object.
pub fn import_section(path: &str, text: &str) -> (r: Result<Option<Vec<(String, JsonValue)>>, AppError>)
    ensures
        match r {
            Ok(None) => trim(text@).len() == 0 || (json_of_text(text@) matches Some(root)
                && provider_section_spec(root) == Ok::<Option<Entries>, Seq<char>>(None)),
            Ok(Some(pm)) => {
                &&& trim(text@).len() > 0
                &&& json_of_text(text@) matches Some(root)
                &&& provider_section_spec(root) == Ok::<Option<Entries>, Seq<char>>(Some(jv_entries(pm@)))
            },
            Err(e) => trim(text@).len() > 0 && (e matches AppError::BadRequest(m) && match json_of_text(text@) {
                None => exists|d: Seq<char>| m@ == invalid_import_message(path@, d),
                Some(root) => provider_section_spec(root) == Err::<Option<Entries>, Seq<char>>(m@),
            }),
        },
{
    if crate::apply::config_text_to_parse(text).is_none() {
        return Ok(None);
    }
    let root = match parse_json_text(text) {
        Ok(v) => v,
        Err(d) => {
            let head = cat3("配置文件 ", path, " 不是有效的 JSON (");
            let m = cat3(head.as_str(), d.as_str(), ")");
            assert(m@ == invalid_import_message(path@, d@));
            return Err(AppError::BadRequest(m));
        },
    };
    if provider_section(&root)?.is_none() {
        return Ok(None);
    }
    let v = match &root {
        JsonValue::Object(es) => obj_get(es, "provider"),
        _ => None,
    };
    match v {
        Some(v) => match copy_json(v) {
            JsonValue::Object(pm) => Ok(Some(pm)),
            _ => Ok(None),
        },
        None => Ok(None),
    }
}


/// The API names that have an AI SDK package of their own.
pub open spec fn sdk_apis() -> Seq<Seq<char>> {
    seq!["anthropic"@, "google"@, "groq"@, "mistral"@, "ollama"@]
}

/// A provider imported with an `npm` string keeps it. One imported without gets the AI
/// SDK package of the `api` it names, `@ai-sdk/<api>`, when that api has a package of
/// its own (anthropic, google, groq, mistral, ollama), and the OpenAI-compatible
/// package for any other api, or none.
pub proof fn imported_npm_follows_the_api(input: ProviderInput, id: Seq<char>, p: Entries)
    requires
        imported_input_ok(input, id, p),
    ensures
        as_str_spec(get_key(p, "npm"@)) matches Some(n) ==> input.npm@ == n,
        forall|a: Seq<char>|
            as_str_spec(get_key(p, "npm"@)) is None && as_str_spec(get_key(p, "api"@)) == Some(a)
                && #[trigger] sdk_apis().contains(a) ==> input.npm@ == "@ai-sdk/"@ + a,
        as_str_spec(get_key(p, "npm"@)) is None && !(as_str_spec(get_key(p, "api"@)) matches Some(a)
            && sdk_apis().contains(a)) ==> input.npm@ == "@ai-sdk/openai-compatible"@,
{
    reveal_strlit("anthropic");
    reveal_strlit("google");
    reveal_strlit("groq");
    reveal_strlit("mistral");
    reveal_strlit("ollama");
    reveal_strlit("@ai-sdk/");
    reveal_strlit("@ai-sdk/anthropic");
    reveal_strlit("@ai-sdk/google");
    reveal_strlit("@ai-sdk/groq");
    reveal_strlit("@ai-sdk/mistral");
    reveal_strlit("@ai-sdk/ollama");
    assert("@ai-sdk/"@ + "anthropic"@ =~= "@ai-sdk/anthropic"@);
    assert("@ai-sdk/"@ + "google"@ =~= "@ai-sdk/google"@);
    assert("@ai-sdk/"@ + "groq"@ =~= "@ai-sdk/groq"@);
    assert("@ai-sdk/"@ + "mistral"@ =~= "@ai-sdk/mistral"@);
    assert("@ai-sdk/"@ + "ollama"@ =~= "@ai-sdk/ollama"@);
    assert forall|a: Seq<char>| #[trigger] sdk_apis().contains(a) implies a == "anthropic"@ || a == "google"@
        || a == "groq"@ || a == "mistral"@ || a == "ollama"@ by {
        let j = choose|j: int| 0 <= j < sdk_apis().len() && sdk_apis()[j] == a;
        assert(0 <= j < 5);
    }
    if let Some(a) = as_str_spec(get_key(p, "api"@)) {
        if a == "anthropic"@ || a == "google"@ || a == "groq"@ || a == "mistral"@ || a == "ollama"@ {
            if a == "anthropic"@ {
                assert(sdk_apis()[0] == a);
            } else if a == "google"@ {
                assert(sdk_apis()[1] == a);
            } else if a == "groq"@ {
                assert(sdk_apis()[2] == a);
            } else if a == "mistral"@ {
                assert(sdk_apis()[3] == a);
            } else {
                assert(sdk_apis()[4] == a);
            }
        }
    }
}

} // verus!
