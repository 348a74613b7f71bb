//! opencode.json: the model objects and provider blocks written for the selected
//! models, and how they are merged into, or removed from, the user's configuration.
use vstd::prelude::*;
use crate::db::ProviderRow;
use crate::domain::opt_view;
use crate::error::AppError;
use crate::json::{
    lemma_pruned_get, lemma_set_all_get, lemma_set_all_other,
    lemma_set_key_get, lemma_set_key_other, obj_entries, lemma_del_key_gone, lemma_del_key_other, lemma_pruned_absent, distinct_keys, pruned_entries, lemma_find_key_is,
    del_key, del_keys, find_entry, get_key, jv_entries, lemma_find_key, lemma_jv_entries, obj_get, obj_remove,
    obj_remove_all, obj_set, obj_set_all, pruned, set_all, set_key, Entries, JsonNumber, JsonValue, JsonView,
    prune_value,
};
use crate::selection::{effective_spec, SelectedRow};
use crate::collapse::{collapsed, try_collapse_json_models};
use crate::json_text::{json_of_text, parse_json_text};
use crate::text::{cat, cat3, chars_of, contains_chars, contains_seq, lowercase_chars, lowercased, owned, string_views};

verus! {

/// The context limit written when neither the model nor its row gives one.
pub const DEFAULT_CONTEXT_LIMIT: i64 = 128000;

/// The output limit written when the model gives none.
pub const DEFAULT_OUTPUT_LIMIT: i64 = 4096;

/// Fields of a snapshot that opencode's model schema does not take.
pub open spec fn non_schema_fields() -> Seq<Seq<char>> {
    seq![
        "id"@,
        "knowledge"@,
        "last_updated"@,
        "open_weights"@,
        "structured_output"@,
        "experimental"@,
        "interleaved"@,
        "provider"@,
        "name"@,
        "_meta"@,
    ]
}

/// Fields of a snapshot's `cost` that opencode's model schema does not take.
pub open spec fn non_schema_cost_fields() -> Seq<Seq<char>> {
    seq!["context_over_200k"@, "tiers"@, "input_audio"@, "output_audio"@, "reasoning"@]
}

fn non_schema_field_list() -> (v: Vec<&'static str>)
    ensures
        v@.map_values(|s: &str| s@) == non_schema_fields(),
{
    let v = vec![
        "id",
        "knowledge",
        "last_updated",
        "open_weights",
        "structured_output",
        "experimental",
        "interleaved",
        "provider",
        "name",
        "_meta",
    ];
    assert(v@.map_values(|s: &str| s@) =~= non_schema_fields());
    v
}

fn non_schema_cost_field_list() -> (v: Vec<&'static str>)
    ensures
        v@.map_values(|s: &str| s@) == non_schema_cost_fields(),
{
    let v = vec!["context_over_200k", "tiers", "input_audio", "output_audio", "reasoning"];
    assert(v@.map_values(|s: &str| s@) =~= non_schema_cost_fields());
    v
}

/// The JSON number that a signed integer becomes.
pub open spec fn int_number(i: i64) -> JsonNumber {
    if i < 0 {
        JsonNumber::NegInt(i)
    } else {
        JsonNumber::PosInt(i as u64)
    }
}

/// The JSON number that a signed integer becomes.
fn int_number_of(i: i64) -> (n: JsonNumber)
    ensures
        n == int_number(i),
{
    if i < 0 {
        JsonNumber::NegInt(i)
    } else {
        JsonNumber::PosInt(i as u64)
    }
}

/// A value as a signed integer, when it is an integer that fits (`Value::as_i64`).
pub open spec fn as_i64_spec(v: Option<JsonView>) -> Option<i64> {
    match v {
        Some(JsonView::Number(JsonNumber::PosInt(u))) => if u <= i64::MAX {
            Some(u as i64)
        } else {
            None
        },
        Some(JsonView::Number(JsonNumber::NegInt(i))) => Some(i),
        _ => None,
    }
}

fn as_i64(v: Option<&JsonValue>) -> (r: Option<i64>)
    ensures
        r == as_i64_spec(match v {
            Some(x) => Some(x@),
            None => None,
        }),
{
    match v {
        Some(JsonValue::Number(JsonNumber::PosInt(u))) => if *u <= 9223372036854775807u64 {
            Some(*u as i64)
        } else {
            None
        },
        Some(JsonValue::Number(JsonNumber::NegInt(i))) => Some(*i),
        _ => None,
    }
}

/// Whether a value is present and is a number.
pub open spec fn is_number_opt(v: Option<JsonView>) -> bool {
    v matches Some(JsonView::Number(_))
}

/// A `limit` object with `context` and `output` made numbers when they are not: the
/// context from the hint, else from `input`, else the default; the output by default.
pub open spec fn limit_fixed(le: Entries, hint: Option<i64>) -> Entries {
    let le1 = if is_number_opt(get_key(le, "context"@)) {
        le
    } else {
        let c = match hint {
            Some(h) => h,
            None => match as_i64_spec(get_key(le, "input"@)) {
                Some(x) => x,
                None => DEFAULT_CONTEXT_LIMIT,
            },
        };
        set_key(le, "context"@, JsonView::Number(int_number(c)))
    };
    if is_number_opt(get_key(le1, "output"@)) {
        le1
    } else {
        set_key(le1, "output"@, JsonView::Number(int_number(DEFAULT_OUTPUT_LIMIT)))
    }
}

/// The context hint, or the default context limit.
pub open spec fn hint_or_default(hint: Option<i64>) -> i64 {
    match hint {
        Some(h) => h,
        None => DEFAULT_CONTEXT_LIMIT,
    }
}

/// The `limit` object written in place of one that is not an object.
pub open spec fn default_limit(hint: Option<i64>) -> JsonView {
    JsonView::Object(
        seq![
            ("context"@, JsonView::Number(int_number(hint_or_default(hint)))),
            ("output"@, JsonView::Number(int_number(DEFAULT_OUTPUT_LIMIT))),
        ],
    )
}

/// A model object with a `limit` key: an empty object is added when there is none.
pub open spec fn with_limit_key(es: Entries) -> Entries {
    if get_key(es, "limit"@) is Some {
        es
    } else {
        set_key(es, "limit"@, JsonView::Object(Seq::empty()))
    }
}

/// A model object with the `limit` that opencode requires: an absent limit becomes an
/// object, a limit that is not an object is replaced, and the object is fixed.
pub open spec fn with_required_limit(es: Entries, hint: Option<i64>) -> Entries {
    let es1 = with_limit_key(es);
    match get_key(es1, "limit"@) {
        Some(JsonView::Object(le)) => set_key(es1, "limit"@, JsonView::Object(limit_fixed(le, hint))),
        _ => set_key(es1, "limit"@, default_limit(hint)),
    }
}

/// The `limit` object written in place of one that is not an object.
fn default_limit_value(hint: Option<i64>) -> (r: JsonValue)
    ensures
        r@ == default_limit(hint),
{
    let c = match hint {
        Some(h) => h,
        None => DEFAULT_CONTEXT_LIMIT,
    };
    let mut le: Vec<(String, JsonValue)> = Vec::new();
    le.push((owned("context"), JsonValue::Number(int_number_of(c))));
    le.push((owned("output"), JsonValue::Number(int_number_of(DEFAULT_OUTPUT_LIMIT))));
    proof {
        lemma_jv_entries(le@);
    }
    assert(jv_entries(le@) =~= seq![
        ("context"@, JsonView::Number(int_number(c))),
        ("output"@, JsonView::Number(int_number(DEFAULT_OUTPUT_LIMIT))),
    ]);
    JsonValue::Object(le)
}

/// The entries of a model object in opencode's schema: the non-schema fields removed,
/// `name` set to the model id, the non-schema cost fields removed from an object
/// `cost`, and the required limit in place.
pub open spec fn schema_entries(es: Entries, model_id: Seq<char>, hint: Option<i64>) -> Entries {
    let es1 = set_key(del_keys(es, non_schema_fields()), "name"@, JsonView::Str(model_id));
    let es2 = match get_key(es1, "cost"@) {
        Some(JsonView::Object(ce)) => set_key(es1, "cost"@, JsonView::Object(del_keys(ce, non_schema_cost_fields()))),
        _ => es1,
    };
    with_required_limit(es2, hint)
}

/// The object written for a selected model: its effective configuration in opencode's
/// schema (when it is an object), with empty values pruned.
pub open spec fn model_object_spec(row: SelectedRow) -> JsonView {
    let eff = effective_spec(row);
    pruned(
        match eff {
            JsonView::Object(es) => JsonView::Object(schema_entries(es, row.model_id@, row.context)),
            _ => eff,
        },
    )
}

/// Removes the non-schema fields of an object `cost` in place.
fn strip_cost_fields(es: &mut Vec<(String, JsonValue)>)
    ensures
        jv_entries(final(es)@) == (match get_key(jv_entries(old(es)@), "cost"@) {
            Some(JsonView::Object(ce)) => set_key(
                jv_entries(old(es)@),
                "cost"@,
                JsonView::Object(del_keys(ce, non_schema_cost_fields())),
            ),
            _ => jv_entries(old(es)@),
        }),
{
    broadcast use lemma_jv_entries;
    let ghost e0 = jv_entries(es@);
    if let Some(i) = find_entry(es, "cost") {
        proof {
            lemma_find_key(e0, "cost"@);
        }
        let (k, v) = es.remove(i);
        match v {
            JsonValue::Object(mut ce) => {
                let ghost c0 = jv_entries(ce@);
                obj_remove_all(&mut ce, &non_schema_cost_field_list());
                let ghost nv = JsonView::Object(jv_entries(ce@));
                es.insert(i, (k, JsonValue::Object(ce)));
                assert(jv_entries(es@) =~= e0.update(i as int, ("cost"@, nv)));
            },
            other => {
                es.insert(i, (k, other));
                assert(jv_entries(es@) =~= e0);
            },
        }
    }
}

/// Makes the `context` and `output` of a `limit` object numbers (see `limit_fixed`).
fn fix_limit(le: &mut Vec<(String, JsonValue)>, hint: Option<i64>)
    ensures
        jv_entries(final(le)@) == limit_fixed(jv_entries(old(le)@), hint),
{
    let ctx_is_number = match obj_get(le, "context") {
        Some(JsonValue::Number(_)) => true,
        _ => false,
    };
    if !ctx_is_number {
        let c = match hint {
            Some(h) => h,
            None => match as_i64(obj_get(le, "input")) {
                Some(x) => x,
                None => DEFAULT_CONTEXT_LIMIT,
            },
        };
        obj_set(le, "context", JsonValue::Number(int_number_of(c)));
    }
    let out_is_number = match obj_get(le, "output") {
        Some(JsonValue::Number(_)) => true,
        _ => false,
    };
    if !out_is_number {
        obj_set(le, "output", JsonValue::Number(int_number_of(DEFAULT_OUTPUT_LIMIT)));
    }
}

/// Puts the `limit` that opencode requires in a model object (see `with_required_limit`).
fn ensure_required_limit(es: &mut Vec<(String, JsonValue)>, context_hint: Option<i64>)
    ensures
        jv_entries(final(es)@) == with_required_limit(jv_entries(old(es)@), context_hint),
{
    broadcast use lemma_jv_entries;
    let ghost eo = jv_entries(es@);
    if obj_get(es, "limit").is_none() {
        obj_set(es, "limit", JsonValue::Object(Vec::new()));
        proof {
            crate::json::lemma_set_key_get(eo, "limit"@, JsonView::Object(Seq::empty()));
        }
    }
    let ghost e1 = jv_entries(es@);
    assert(e1 == with_limit_key(eo));
    proof {
        lemma_find_key(e1, "limit"@);
    }
    if let Some(i) = find_entry(es, "limit") {
        let (k, v) = es.remove(i);
        assert(e1[i as int] == (k@, v@));
        let nv = match v {
            JsonValue::Object(mut le) => {
                fix_limit(&mut le, context_hint);
                JsonValue::Object(le)
            },
            _ => default_limit_value(context_hint),
        };
        let ghost nvv = nv@;
        es.insert(i, (k, nv));
        assert(jv_entries(es@) =~= e1.update(i as int, ("limit"@, nvv)));
    }
}

/// The object written to opencode.json for a selected model (see `model_object_spec`).
pub fn opencode_model_object(row: &SelectedRow) -> (r: JsonValue)
    ensures
        r@ == model_object_spec(*row),
{
    let eff = row.effective();
    let v = match eff {
        JsonValue::Object(mut es) => {
            obj_remove_all(&mut es, &non_schema_field_list());
            obj_set(&mut es, "name", JsonValue::String(row.model_id.clone()));
            strip_cost_fields(&mut es);
            ensure_required_limit(&mut es, row.context);
            JsonValue::Object(es)
        },
        other => other,
    };
    prune_value(v)
}

/// The API key environment variable of a provider, when one is named.
pub open spec fn env_name(p: ProviderRow) -> Option<Seq<char>> {
    match opt_view(p.api_key_env) {
        Some(e) => if e.len() > 0 {
            Some(e)
        } else {
            None
        },
        None => None,
    }
}

/// The raw API key of a provider, when it is not empty.
pub open spec fn raw_key(p: ProviderRow) -> Option<Seq<char>> {
    match opt_view(p.api_key) {
        Some(k) => if k.len() > 0 {
            Some(k)
        } else {
            None
        },
        None => None,
    }
}

/// The `options` of a provider block: `baseURL` when set; `apiKey` as a reference to
/// the named environment variable, else the raw key; the provider's extra options
/// (when they are an object); and its `headers`.
pub open spec fn options_spec(p: ProviderRow) -> Entries {
    let e1 = match opt_view(p.base_url) {
        Some(b) => set_key(Seq::empty(), "baseURL"@, JsonView::Str(b)),
        None => Seq::empty(),
    };
    let e2 = match env_name(p) {
        Some(e) => set_key(e1, "apiKey"@, JsonView::Str("{env:"@ + e + "}"@)),
        None => match raw_key(p) {
            Some(k) => set_key(e1, "apiKey"@, JsonView::Str(k)),
            None => e1,
        },
    };
    let e3 = match p.options {
        Some(v) => match v@ {
            JsonView::Object(m) => set_all(e2, m),
            _ => e2,
        },
        None => e2,
    };
    match p.headers {
        Some(h) => set_key(e3, "headers"@, h@),
        None => e3,
    }
}

/// The `api` of a provider block, from the npm package name ignoring case.
pub open spec fn api_type_spec(npm: Seq<char>) -> Seq<char> {
    let l = lowercased(npm);
    if contains_seq(l, "openai"@) {
        "openai"@
    } else if contains_seq(l, "anthropic"@) {
        "anthropic"@
    } else if contains_seq(l, "google"@) {
        "google"@
    } else if contains_seq(l, "groq"@) {
        "groq"@
    } else if contains_seq(l, "mistral"@) {
        "mistral"@
    } else if contains_seq(l, "ollama"@) {
        "ollama"@
    } else {
        "custom"@
    }
}

/// The `models` of a provider block: each enabled row's model object under its id, in order.
pub open spec fn models_spec(rows: Seq<SelectedRow>) -> Entries
    decreases rows.len(),
{
    if rows.len() == 0 {
        Seq::empty()
    } else {
        let prev = models_spec(rows.drop_last());
        let r = rows.last();
        if r.is_enabled {
            set_key(prev, r.model_id@, model_object_spec(r))
        } else {
            prev
        }
    }
}

/// The `provider.<id>` block of a provider with the given selected models, pruned.
pub open spec fn block_spec(p: ProviderRow, rows: Seq<SelectedRow>) -> JsonView {
    let head = seq![
        ("id"@, JsonView::Str(p.id@)),
        ("name"@, JsonView::Str(p.name@)),
        ("api"@, JsonView::Str(api_type_spec(p.npm@))),
        ("npm"@, JsonView::Str(p.npm@)),
    ];
    let env = match env_name(p) {
        Some(e) => seq![("env"@, JsonView::Array(seq![JsonView::Str(e)]))],
        None => Seq::empty(),
    };
    pruned(
        JsonView::Object(
            head + env + seq![
                ("options"@, JsonView::Object(options_spec(p))),
                ("models"@, JsonView::Object(models_spec(rows))),
            ],
        ),
    )
}

/// Whether `s` is present and not empty.
fn non_empty_str(s: &Option<String>) -> (b: bool)
    ensures
        b == (opt_view(*s) matches Some(t) && t.len() > 0),
{
    match s {
        Some(t) => chars_of(t.as_str()).len() > 0,
        None => false,
    }
}

/// The `options` of a provider block (see `options_spec`).
fn provider_options(provider: &ProviderRow) -> (r: Vec<(String, JsonValue)>)
    ensures
        jv_entries(r@) == options_spec(*provider),
{
    broadcast use lemma_jv_entries;
    let mut options: Vec<(String, JsonValue)> = Vec::new();
    if let Some(base) = &provider.base_url {
        obj_set(&mut options, "baseURL", JsonValue::String(base.clone()));
    }
    if non_empty_str(&provider.api_key_env) {
        let env = provider.api_key_env.as_ref().unwrap();
        obj_set(&mut options, "apiKey", JsonValue::String(cat3("{env:", env.as_str(), "}")));
    } else if non_empty_str(&provider.api_key) {
        let key = provider.api_key.as_ref().unwrap();
        obj_set(&mut options, "apiKey", JsonValue::String(key.clone()));
    }
    if let Some(JsonValue::Object(m)) = &provider.options {
        obj_set_all(&mut options, m);
    }
    if let Some(h) = &provider.headers {
        obj_set(&mut options, "headers", crate::json::copy_json(h));
    }
    options
}

/// The `api` of a provider block (see `api_type_spec`).
pub fn api_type(npm: &str) -> (r: &'static str)
    ensures
        r@ == api_type_spec(npm@),
{
    let l = lowercase_chars(&chars_of(npm));
    if contains_chars(&l, &chars_of("openai")) {
        "openai"
    } else if contains_chars(&l, &chars_of("anthropic")) {
        "anthropic"
    } else if contains_chars(&l, &chars_of("google")) {
        "google"
    } else if contains_chars(&l, &chars_of("groq")) {
        "groq"
    } else if contains_chars(&l, &chars_of("mistral")) {
        "mistral"
    } else if contains_chars(&l, &chars_of("ollama")) {
        "ollama"
    } else {
        "custom"
    }
}

/// The `models` of a provider block (see `models_spec`).
fn provider_models(selected: &[SelectedRow]) -> (r: Vec<(String, JsonValue)>)
    ensures
        jv_entries(r@) == models_spec(selected@),
{
    let mut models: Vec<(String, JsonValue)> = Vec::new();
    let mut i: usize = 0;
    while i < selected.len()
        invariant
            i <= selected@.len(),
            jv_entries(models@) == models_spec(selected@.take(i as int)),
        decreases selected.len() - i,
    {
        let row = &selected[i];
        assert(selected@.take(i + 1).drop_last() == selected@.take(i as int));
        assert(selected@.take(i + 1).last() == selected@[i as int]);
        if row.is_enabled {
            obj_set(&mut models, row.model_id.as_str(), opencode_model_object(row));
        }
        i = i + 1;
    }
    assert(selected@.take(selected.len() as int) == selected@);
    models
}

/// The `provider.<id>` block written for `provider` with its `selected` models, and the
/// number of models in it (see `block_spec`).
pub fn build_provider_block(provider: &ProviderRow, selected: &[SelectedRow]) -> (r: (JsonValue, usize))
    ensures
        r.0@ == block_spec(*provider, selected@),
        r.1 == models_spec(selected@).len(),
{
    broadcast use lemma_jv_entries;
    let models = provider_models(selected);
    let model_count = models.len();
    let options = provider_options(provider);
    let mut block: Vec<(String, JsonValue)> = Vec::new();
    block.push((owned("id"), JsonValue::String(provider.id.clone())));
    block.push((owned("name"), JsonValue::String(provider.name.clone())));
    block.push((owned("api"), JsonValue::String(owned(api_type(provider.npm.as_str())))));
    block.push((owned("npm"), JsonValue::String(provider.npm.clone())));
    let ghost head = jv_entries(block@);
    let has_env = non_empty_str(&provider.api_key_env);
    if has_env {
        let env = provider.api_key_env.as_ref().unwrap();
        let mut items: Vec<JsonValue> = Vec::new();
        items.push(JsonValue::String(env.clone()));
        proof {
            crate::json::lemma_jv_items(items@);
        }
        assert(crate::json::jv_items(items@) =~= seq![JsonView::Str(env@)]);
        block.push((owned("env"), JsonValue::Array(items)));
    }
    let ghost with_env = jv_entries(block@);
    let ghost ov = jv_entries(options@);
    let ghost mv = jv_entries(models@);
    block.push((owned("options"), JsonValue::Object(options)));
    block.push((owned("models"), JsonValue::Object(models)));
    proof {
        let env = match env_name(*provider) {
            Some(e) => seq![("env"@, JsonView::Array(seq![JsonView::Str(e)]))],
            None => Seq::empty(),
        };
        assert(head =~= seq![
            ("id"@, JsonView::Str(provider.id@)),
            ("name"@, JsonView::Str(provider.name@)),
            ("api"@, JsonView::Str(api_type_spec(provider.npm@))),
            ("npm"@, JsonView::Str(provider.npm@)),
        ]);
        assert(with_env =~= head + env);
        assert(jv_entries(block@) =~= head + env + seq![
            ("options"@, JsonView::Object(ov)),
            ("models"@, JsonView::Object(mv)),
        ]);
    }
    (prune_value(JsonValue::Object(block)), model_count)
}

/// The preview of what applying `provider` writes: `{"provider": {<id>: <block>}}`.
pub fn preview(provider: &ProviderRow, selected: &[SelectedRow]) -> (r: JsonValue)
    ensures
        r@ == JsonView::Object(seq![("provider"@, JsonView::Object(seq![(provider.id@, block_spec(*provider, selected@))]))]),
{
    broadcast use lemma_jv_entries;
    let (block, _) = build_provider_block(provider, selected);
    let ghost bv = block@;
    let mut inner: Vec<(String, JsonValue)> = Vec::new();
    inner.push((provider.id.clone(), block));
    assert(jv_entries(inner@) =~= seq![(provider.id@, bv)]);
    let ghost iv = jv_entries(inner@);
    let mut outer: Vec<(String, JsonValue)> = Vec::new();
    outer.push((owned("provider"), JsonValue::Object(inner)));
    assert(jv_entries(outer@) =~= seq![("provider"@, JsonView::Object(iv))]);
    JsonValue::Object(outer)
}

/// What applying writes and reports: the file written, the providers written, the
/// number of models written, and the backup made of the previous file, if any.
#[derive(Debug)]
pub struct ApplyReport {
    pub path: String,
    pub providers_written: Vec<String>,
    pub models_written: usize,
    pub backup: Option<String>,
}

/// Whether applying writes provider `p`: it is enabled, managed here (`source` is
/// `ocm`), and among `only` when that is given.
pub open spec fn is_apply_target_spec(p: ProviderRow, only: Option<Seq<Seq<char>>>) -> bool {
    &&& p.enabled
    &&& p.source@ == "ocm"@
    &&& match only {
        Some(ids) => ids.contains(p.id@),
        None => true,
    }
}

/// Whether applying writes provider `p` (see `is_apply_target_spec`).
pub fn is_apply_target(p: &ProviderRow, only: Option<&Vec<String>>) -> (b: bool)
    ensures
        b == is_apply_target_spec(*p, match only {
            Some(ids) => Some(string_views(ids@)),
            None => None,
        }),
{
    if !p.enabled || !crate::catalog::str_eq(p.source.as_str(), "ocm") {
        return false;
    }
    match only {
        Some(ids) => crate::domain::strings_contain(ids, p.id.as_str()),
        None => true,
    }
}

/// The text to parse for a configuration file: `None` when it is blank (an empty
/// configuration), else the text without its JSONC comments.
pub fn config_text_to_parse(text: &str) -> (r: Option<String>)
    ensures
        match r {
            Some(t) => crate::text::trim(text@).len() > 0 && t@ == crate::jsonc::stripped(text@),
            None => crate::text::trim(text@).len() == 0,
        },
{
    let t = crate::text::trim_chars(&chars_of(text));
    if t.len() == 0 {
        None
    } else {
        Some(crate::jsonc::strip_jsonc_comments(text))
    }
}

/// The error given when the configuration's root is not an object.
pub fn ensure_object_root(root: &JsonValue) -> (r: Result<(), AppError>)
    ensures
        match r {
            Ok(()) => root@ is Object,
            Err(e) => !(root@ is Object) && (e matches AppError::BadRequest(m) && m@ == "opencode.json root is not a JSON object"@),
        },
{
    match root {
        JsonValue::Object(_) => Ok(()),
        _ => Err(AppError::BadRequest(owned("opencode.json root is not a JSON object"))),
    }
}

/// Configuration entries with `$schema` set when it is absent.
pub open spec fn with_schema(es: Entries) -> Entries {
    if get_key(es, "$schema"@) is Some {
        es
    } else {
        set_key(es, "$schema"@, JsonView::Str("https://opencode.ai/config.json"@))
    }
}

/// Configuration entries with an empty `provider` section added when there is none.
pub open spec fn with_provider_section(es: Entries) -> Entries {
    if get_key(es, "provider"@) is Some {
        es
    } else {
        set_key(es, "provider"@, JsonView::Object(Seq::empty()))
    }
}

/// The configuration after applying: `None` when the root or its `provider` section
/// is not an object; else `$schema` set when absent and the provider blocks set under
/// `provider` in order. Nothing else is touched.
pub open spec fn applied_config(root: JsonView, blocks: Entries) -> Option<JsonView> {
    match root {
        JsonView::Object(es) => {
            let es2 = with_provider_section(with_schema(es));
            match get_key(es2, "provider"@) {
                Some(JsonView::Object(pm)) => Some(
                    JsonView::Object(set_key(es2, "provider"@, JsonView::Object(set_all(pm, blocks)))),
                ),
                _ => None,
            }
        },
        _ => None,
    }
}

/// Merges the provider `blocks` into the configuration `root` (see `applied_config`);
/// a root that is not an object, or a `provider` section that is not one, is refused.
pub fn merge_provider_blocks(root: JsonValue, blocks: &Vec<(String, JsonValue)>) -> (r: Result<JsonValue, AppError>)
    ensures
        match r {
            Ok(v) => applied_config(root@, jv_entries(blocks@)) == Some(v@),
            Err(e) => applied_config(root@, jv_entries(blocks@)) is None && (e matches AppError::BadRequest(m) && m@
                == (if root@ is Object {
                "`provider` section is not an object"@
            } else {
                "opencode.json root is not a JSON object"@
            })),
        },
{
    broadcast use lemma_jv_entries;
    let ghost rv = root@;
    let mut es = match root {
        JsonValue::Object(es) => es,
        _ => {
            return Err(AppError::BadRequest(owned("opencode.json root is not a JSON object")));
        },
    };
    let ghost e0 = jv_entries(es@);
    if obj_get(&es, "$schema").is_none() {
        obj_set(&mut es, "$schema", JsonValue::String(owned("https://opencode.ai/config.json")));
    }
    if obj_get(&es, "provider").is_none() {
        let ghost e1 = jv_entries(es@);
        obj_set(&mut es, "provider", JsonValue::Object(Vec::new()));
        proof {
            crate::json::lemma_set_key_get(e1, "provider"@, JsonView::Object(Seq::empty()));
        }
    }
    let ghost e2 = jv_entries(es@);
    proof {
        lemma_find_key(e2, "provider"@);
    }
    match find_entry(&es, "provider") {
        Some(i) => {
            let (k, v) = es.remove(i);
            assert(e2[i as int] == (k@, v@));
            match v {
                JsonValue::Object(mut pm) => {
                    obj_set_all(&mut pm, blocks);
                    let ghost nv = JsonView::Object(jv_entries(pm@));
                    es.insert(i, (k, JsonValue::Object(pm)));
                    assert(jv_entries(es@) =~= e2.update(i as int, ("provider"@, nv)));
                    Ok(JsonValue::Object(es))
                },
                _ => Err(AppError::BadRequest(owned("`provider` section is not an object"))),
            }
        },
        None => Err(AppError::BadRequest(owned("`provider` section is not an object"))),
    }
}

/// The configuration with provider `id` removed from its `provider` section, and
/// whether it was there (only an object root with an object `provider` section holds providers).
pub open spec fn unapplied_config(root: JsonView, id: Seq<char>) -> (JsonView, bool) {
    match root {
        JsonView::Object(es) => match get_key(es, "provider"@) {
            Some(JsonView::Object(pm)) => if get_key(pm, id) is Some {
                (JsonView::Object(set_key(es, "provider"@, JsonView::Object(del_key(pm, id)))), true)
            } else {
                (root, false)
            },
            _ => (root, false),
        },
        _ => (root, false),
    }
}

/// Removes provider `provider_id` from the configuration (see `unapplied_config`).
pub fn remove_provider_block(root: JsonValue, provider_id: &str) -> (r: (JsonValue, bool))
    ensures
        (r.0@, r.1) == unapplied_config(root@, provider_id@),
{
    broadcast use lemma_jv_entries;
    let ghost rv = root@;
    let mut es = match root {
        JsonValue::Object(es) => es,
        other => {
            return (other, false);
        },
    };
    let ghost e0 = jv_entries(es@);
    proof {
        lemma_find_key(e0, "provider"@);
    }
    match find_entry(&es, "provider") {
        Some(i) => {
            let (k, v) = es.remove(i);
            assert(e0[i as int] == (k@, v@));
            match v {
                JsonValue::Object(mut pm) => {
                    let ghost p0 = jv_entries(pm@);
                    let present = obj_get(&pm, provider_id).is_some();
                    if present {
                        obj_remove(&mut pm, provider_id);
                    }
                    let ghost nv = JsonView::Object(jv_entries(pm@));
                    es.insert(i, (k, JsonValue::Object(pm)));
                    assert(jv_entries(es@) =~= e0.update(i as int, ("provider"@, nv)));
                    if !present {
                        assert(jv_entries(es@) =~= e0);
                    }
                    (JsonValue::Object(es), present)
                },
                other => {
                    es.insert(i, (k, other));
                    assert(jv_entries(es@) =~= e0);
                    (JsonValue::Object(es), false)
                },
            }
        },
        None => (JsonValue::Object(es), false),
    }
}

/// The `provider` section of a configuration: its entries when it is an object.
pub open spec fn provider_map(config: JsonView) -> Entries {
    match get_key(obj_entries(config), "provider"@) {
        Some(JsonView::Object(pm)) => pm,
        _ => Seq::empty(),
    }
}

/// The characters of an optional text (`None` stands for a file that does not exist).
pub open spec fn text_view(text: Option<&str>) -> Option<Seq<char>> {
    match text {
        Some(t) => Some(t@),
        None => None,
    }
}

/// The configuration that a file's text holds: an empty object when there is no file
/// or its text is blank, else what its text without JSONC comments parses to
/// (`None` when that is not valid JSON).
pub open spec fn config_of_text(text: Option<Seq<char>>) -> Option<JsonView> {
    match text {
        None => Some(JsonView::Object(Seq::empty())),
        Some(t) => if crate::text::trim(t).len() == 0 {
            Some(JsonView::Object(Seq::empty()))
        } else {
            json_of_text(crate::jsonc::stripped(t))
        },
    }
}

/// The message refusing to overwrite the configuration at `path` whose text is not
/// valid JSON, with the parser's message `detail`.
pub open spec fn invalid_config_message(path: Seq<char>, detail: Seq<char>) -> Seq<char> {
    "existing "@ + path + " is not valid JSON/JSONC ("@ + detail + "); refusing to overwrite"@
}

/// Reads the configuration at `path` from its text (`None` when the file does not
/// exist; see `config_of_text`); a text that is not valid JSON is refused.
pub fn read_config_text(path: &str, text: Option<&str>) -> (r: Result<JsonValue, AppError>)
    ensures
        match r {
            Ok(v) => config_of_text(text_view(text)) == Some(v@),
            Err(e) => config_of_text(text_view(text)) is None && (e matches AppError::BadRequest(m) && exists|d: Seq<
                char,
            >| m@ == invalid_config_message(path@, d)),
        },
{
    let t = match text {
        None => {
            return Ok(JsonValue::Object(Vec::new()));
        },
        Some(t) => t,
    };
    match config_text_to_parse(t) {
        None => Ok(JsonValue::Object(Vec::new())),
        Some(stripped) => match parse_json_text(stripped.as_str()) {
            Ok(v) => Ok(v),
            Err(d) => {
                let head = cat3("existing ", path, " is not valid JSON/JSONC (");
                let m = cat3(head.as_str(), d.as_str(), "); refusing to overwrite");
                assert(m@ == invalid_config_message(path@, d@));
                Err(AppError::BadRequest(m))
            },
        },
    }
}

/// The configuration that applying `blocks` to the file's text gives (see
/// `config_of_text` and `applied_config`): the text is refused when it is not valid
/// JSON, and the configuration when it cannot take the blocks.
pub fn applied_config_text(path: &str, text: Option<&str>, blocks: &Vec<(String, JsonValue)>) -> (r: Result<
    JsonValue,
    AppError,
>)
    ensures
        match r {
            Ok(v) => config_of_text(text_view(text)) matches Some(root) && applied_config(root, jv_entries(blocks@))
                == Some(v@),
            Err(e) => match config_of_text(text_view(text)) {
                None => e matches AppError::BadRequest(m) && exists|d: Seq<char>| m@ == invalid_config_message(
                    path@,
                    d,
                ),
                Some(root) => applied_config(root, jv_entries(blocks@)) is None && (e matches AppError::BadRequest(m)
                    && m@ == (if root is Object {
                    "`provider` section is not an object"@
                } else {
                    "opencode.json root is not a JSON object"@
                })),
            },
        },
{
    let root = read_config_text(path, text)?;
    merge_provider_blocks(root, blocks)
}

/// The configuration that removing provider `provider_id` from the file's text gives,
/// and whether it was there (see `config_of_text` and `unapplied_config`); the text
/// is refused when it is not valid JSON.
pub fn unapplied_config_text(path: &str, text: Option<&str>, provider_id: &str) -> (r: Result<
    (JsonValue, bool),
    AppError,
>)
    ensures
        match r {
            Ok((v, removed)) => config_of_text(text_view(text)) matches Some(root) && unapplied_config(
                root,
                provider_id@,
            ) == (v@, removed),
            Err(e) => config_of_text(text_view(text)) is None && (e matches AppError::BadRequest(m) && exists|d: Seq<
                char,
            >| m@ == invalid_config_message(path@, d)),
        },
{
    let root = read_config_text(path, text)?;
    Ok(remove_provider_block(root, provider_id))
}

/// The text written for a configuration, from its pretty-printed JSON: a newline
/// added and each model object collapsed onto one line (see `collapsed`); an
/// internal error when the text cannot be collapsed.
pub fn config_file_text(pretty: &str) -> (r: Result<String, AppError>)
    ensures
        match r {
            Ok(out) => collapsed(pretty@ + "\n"@) == Some(out@),
            Err(e) => collapsed(pretty@ + "\n"@) is None && (e matches AppError::Internal(m) && m@
                == "pretty-printed configuration cannot be collapsed"@),
        },
{
    let text = cat(pretty, "\n");
    match try_collapse_json_models(text.as_str()) {
        Some(out) => Ok(out),
        None => Err(AppError::Internal(owned("pretty-printed configuration cannot be collapsed"))),
    }
}

/// The name of the copy kept of the configuration file before it is overwritten:
/// `<stem>.<timestamp>.bak`, with `opencode` for a file name without a stem.
pub fn config_backup_name(stem: Option<&str>, timestamp: &str) -> (r: String)
    ensures
        r@ == (match stem {
            Some(s) => s@,
            None => "opencode"@,
        }) + "."@ + timestamp@ + ".bak"@,
{
    let head = match stem {
        Some(s) => cat(s, "."),
        None => owned("opencode."),
    };
    proof {
        reveal_strlit("opencode.");
        reveal_strlit("opencode");
        reveal_strlit(".");
    }
    cat3(head.as_str(), timestamp, ".bak")
}

/// The entries that `applied_config` writes, with the provider section it writes.
proof fn lemma_applied_shape(root: JsonView, blocks: Entries)
    requires
        applied_config(root, blocks) is Some,
    ensures
        ({
            let es = obj_entries(root);
            let es2 = with_provider_section(with_schema(es));
            let pm = obj_entries(get_key(es2, "provider"@)->0);
            &&& root is Object
            &&& get_key(es2, "provider"@) == Some(JsonView::Object(pm))
            &&& (get_key(es, "provider"@) matches Some(JsonView::Object(p0)) ==> pm == p0)
            &&& (get_key(es, "provider"@) is None ==> pm == Seq::<(Seq<char>, JsonView)>::empty())
            &&& applied_config(root, blocks) == Some(
                JsonView::Object(set_key(es2, "provider"@, JsonView::Object(set_all(pm, blocks)))),
            )
        }),
{
    let es = obj_entries(root);
    let es1 = with_schema(es);
    reveal_strlit("$schema");
    reveal_strlit("provider");
    assert("$schema"@[0] != "provider"@[0]);
    if get_key(es, "$schema"@) is None {
        lemma_set_key_other(es, "$schema"@, JsonView::Str("https://opencode.ai/config.json"@), "provider"@);
    }
    if get_key(es1, "provider"@) is None {
        lemma_set_key_get(es1, "provider"@, JsonView::Object(Seq::empty()));
    }
}

/// Applying keeps every other top-level setting of the configuration exactly as it
/// was: every key but `provider` and `$schema`, whatever its value.
pub proof fn apply_keeps_other_settings(root: JsonView, blocks: Entries, k: Seq<char>)
    requires
        applied_config(root, blocks) is Some,
        k != "provider"@,
        k != "$schema"@,
    ensures
        get_key(obj_entries(applied_config(root, blocks)->0), k) == get_key(obj_entries(root), k),
{
    lemma_applied_shape(root, blocks);
    let es = obj_entries(root);
    let es1 = with_schema(es);
    let es2 = with_provider_section(es1);
    let pm = obj_entries(get_key(es2, "provider"@)->0);
    if get_key(es, "$schema"@) is None {
        lemma_set_key_other(es, "$schema"@, JsonView::Str("https://opencode.ai/config.json"@), k);
    }
    if get_key(es1, "provider"@) is None {
        lemma_set_key_other(es1, "provider"@, JsonView::Object(Seq::empty()), k);
    }
    lemma_set_key_other(es2, "provider"@, JsonView::Object(set_all(pm, blocks)), k);
}

/// Applying keeps the configuration's `$schema` when it has one, and otherwise sets
/// opencode's schema URL.
pub proof fn apply_sets_schema_when_absent(root: JsonView, blocks: Entries)
    requires
        applied_config(root, blocks) is Some,
    ensures
        get_key(obj_entries(applied_config(root, blocks)->0), "$schema"@) == (match get_key(
            obj_entries(root),
            "$schema"@,
        ) {
            Some(v) => Some(v),
            None => Some(JsonView::Str("https://opencode.ai/config.json"@)),
        }),
{
    lemma_applied_shape(root, blocks);
    let es = obj_entries(root);
    let es1 = with_schema(es);
    let es2 = with_provider_section(es1);
    let pm = obj_entries(get_key(es2, "provider"@)->0);
    reveal_strlit("$schema");
    reveal_strlit("provider");
    assert("$schema"@[0] != "provider"@[0]);
    if get_key(es, "$schema"@) is None {
        lemma_set_key_get(es, "$schema"@, JsonView::Str("https://opencode.ai/config.json"@));
    }
    if get_key(es1, "provider"@) is None {
        lemma_set_key_other(es1, "provider"@, JsonView::Object(Seq::empty()), "$schema"@);
    }
    lemma_set_key_other(es2, "provider"@, JsonView::Object(set_all(pm, blocks)), "$schema"@);
}

/// The provider section that applying writes: the old section (or an empty one) with
/// the blocks set in order.
proof fn lemma_written_section(root: JsonView, blocks: Entries)
    requires
        applied_config(root, blocks) is Some,
    ensures
        provider_map(applied_config(root, blocks)->0) == set_all(provider_map(root), blocks),
{
    lemma_applied_shape(root, blocks);
    let es = obj_entries(root);
    let es2 = with_provider_section(with_schema(es));
    let pm = obj_entries(get_key(es2, "provider"@)->0);
    lemma_set_key_get(es2, "provider"@, JsonView::Object(set_all(pm, blocks)));
    let es1 = with_schema(es);
    reveal_strlit("$schema");
    reveal_strlit("provider");
    assert("$schema"@[0] != "provider"@[0]);
    if get_key(es, "$schema"@) is None {
        lemma_set_key_other(es, "$schema"@, JsonView::Str("https://opencode.ai/config.json"@), "provider"@);
    }
    assert(get_key(es1, "provider"@) == get_key(es, "provider"@));
    assert(pm == provider_map(root));
}

/// Applying keeps every provider of the configuration that it does not write, exactly
/// as it was.
pub proof fn apply_keeps_other_providers(root: JsonView, blocks: Entries, p: Seq<char>)
    requires
        applied_config(root, blocks) is Some,
        forall|j: int| 0 <= j < blocks.len() ==> (#[trigger] blocks[j]).0 != p,
    ensures
        get_key(provider_map(applied_config(root, blocks)->0), p) == get_key(provider_map(root), p),
{
    lemma_written_section(root, blocks);
    lemma_set_all_other(provider_map(root), blocks, p);
}

/// Applying writes each provider block under its id, when the blocks have distinct ids.
pub proof fn apply_writes_each_block(root: JsonView, blocks: Entries, j: int)
    requires
        applied_config(root, blocks) is Some,
        0 <= j < blocks.len(),
        forall|a: int, b: int| 0 <= a < b < blocks.len() ==> (#[trigger] blocks[a]).0 != (#[trigger] blocks[b]).0,
    ensures
        get_key(provider_map(applied_config(root, blocks)->0), blocks[j].0) == Some(blocks[j].1),
{
    lemma_written_section(root, blocks);
    lemma_set_all_get(provider_map(root), blocks, j);
}

/// Removing a provider that applying has just written finds it and removes it.
pub proof fn unapply_removes_what_apply_wrote(root: JsonView, blocks: Entries, j: int)
    requires
        applied_config(root, blocks) is Some,
        0 <= j < blocks.len(),
        forall|a: int, b: int| 0 <= a < b < blocks.len() ==> (#[trigger] blocks[a]).0 != (#[trigger] blocks[b]).0,
    ensures
        unapplied_config(applied_config(root, blocks)->0, blocks[j].0).1,
{
    apply_writes_each_block(root, blocks, j);
    lemma_applied_shape(root, blocks);
    let es = obj_entries(root);
    let es2 = with_provider_section(with_schema(es));
    let pm = obj_entries(get_key(es2, "provider"@)->0);
    lemma_set_key_get(es2, "provider"@, JsonView::Object(set_all(pm, blocks)));
}

/// A fixed `limit` object has numbers for `context` and `output`.
proof fn lemma_limit_fixed_numbers(le: Entries, hint: Option<i64>)
    ensures
        is_number_opt(get_key(limit_fixed(le, hint), "context"@)),
        is_number_opt(get_key(limit_fixed(le, hint), "output"@)),
{
    reveal_strlit("context");
    reveal_strlit("output");
    assert("context"@[0] != "output"@[0]);
    let le1 = if is_number_opt(get_key(le, "context"@)) {
        le
    } else {
        let c = match hint {
            Some(h) => h,
            None => match as_i64_spec(get_key(le, "input"@)) {
                Some(x) => x,
                None => DEFAULT_CONTEXT_LIMIT,
            },
        };
        lemma_set_key_get(le, "context"@, JsonView::Number(int_number(c)));
        set_key(le, "context"@, JsonView::Number(int_number(c)))
    };
    if !is_number_opt(get_key(le1, "output"@)) {
        let n = JsonView::Number(int_number(DEFAULT_OUTPUT_LIMIT));
        lemma_set_key_get(le1, "output"@, n);
        lemma_set_key_other(le1, "output"@, n, "context"@);
    }
}

/// The object written for a selected model whose effective configuration is an object
/// is an object whose `name` is the model id and whose `limit` is an object with
/// numbers for `context` and `output`, as opencode requires.
pub proof fn model_object_has_name_and_limits(row: SelectedRow)
    requires
        effective_spec(row) is Object,
    ensures
        model_object_spec(row) is Object,
        get_key(obj_entries(model_object_spec(row)), "name"@) == Some(JsonView::Str(row.model_id@)),
        get_key(obj_entries(model_object_spec(row)), "limit"@) matches Some(JsonView::Object(le)) && is_number_opt(
            get_key(le, "context"@),
        ) && is_number_opt(get_key(le, "output"@)),
{
    reveal_strlit("name");
    reveal_strlit("cost");
    reveal_strlit("limit");
    reveal_strlit("context");
    reveal_strlit("output");
    assert("name"@[0] != "cost"@[0]);
    assert("name"@[0] != "limit"@[0]);
    let es = obj_entries(effective_spec(row));
    let nm = JsonView::Str(row.model_id@);
    let es1 = set_key(del_keys(es, non_schema_fields()), "name"@, nm);
    lemma_set_key_get(del_keys(es, non_schema_fields()), "name"@, nm);
    let es2 = match get_key(es1, "cost"@) {
        Some(JsonView::Object(ce)) => set_key(es1, "cost"@, JsonView::Object(del_keys(ce, non_schema_cost_fields()))),
        _ => es1,
    };
    if let Some(JsonView::Object(ce)) = get_key(es1, "cost"@) {
        lemma_set_key_other(es1, "cost"@, JsonView::Object(del_keys(ce, non_schema_cost_fields())), "name"@);
    }
    let e1 = with_limit_key(es2);
    if get_key(es2, "limit"@) is None {
        lemma_set_key_other(es2, "limit"@, JsonView::Object(Seq::empty()), "name"@);
    }
    let lv = match get_key(e1, "limit"@) {
        Some(JsonView::Object(le)) => {
            lemma_limit_fixed_numbers(le, row.context);
            JsonView::Object(limit_fixed(le, row.context))
        },
        _ => {
            let d = default_limit(row.context);
            let de = obj_entries(d);
            assert(de[0].0 == "context"@);
            assert(de[1].0 == "output"@);
            assert("context"@[0] != "output"@[0]);
            lemma_find_key_is(de, "context"@, 0);
            lemma_find_key_is(de, "output"@, 1);
            d
        },
    };
    let e = set_key(e1, "limit"@, lv);
    assert(e == schema_entries(es, row.model_id@, row.context));
    lemma_set_key_other(e1, "limit"@, lv, "name"@);
    lemma_set_key_get(e1, "limit"@, lv);
    let le = obj_entries(lv);
    assert(lv == JsonView::Object(le));
    lemma_pruned_get(le, "context"@);
    lemma_pruned_get(le, "output"@);
    lemma_find_key(pruned_entries(le), "context"@);
    lemma_pruned_get(e, "name"@);
    lemma_pruned_get(e, "limit"@);
}


/// Without repeated keys, removing a list of keys leaves none of them and no repeats.
proof fn lemma_del_keys_gone(es: Entries, ks: Seq<Seq<char>>)
    requires
        distinct_keys(es),
    ensures
        distinct_keys(del_keys(es, ks)),
        forall|j: int| 0 <= j < ks.len() ==> get_key(del_keys(es, ks), #[trigger] ks[j]) is None,
    decreases ks.len(),
{
    if ks.len() > 0 {
        let d0 = del_keys(es, ks.drop_last());
        lemma_del_keys_gone(es, ks.drop_last());
        lemma_del_key_gone(d0, ks.last());
        assert forall|j: int| 0 <= j < ks.len() implies get_key(del_keys(es, ks), #[trigger] ks[j]) is None by {
            if j < ks.len() - 1 {
                assert(ks.drop_last()[j] == ks[j]);
                if ks[j] != ks.last() {
                    lemma_del_key_other(d0, ks.last(), ks[j]);
                }
            }
        }
    }
}

/// The model object written for a selected model leaves out every field that
/// opencode's model schema does not take: `id`, `knowledge`, `last_updated`,
/// `open_weights`, `structured_output`, `experimental`, `interleaved`, `provider` and
/// `_meta`, whatever its configuration holds (when that has no repeated keys, as no
/// value read from JSON text has).
pub proof fn model_object_leaves_out_non_schema_fields(row: SelectedRow, k: Seq<char>)
    requires
        distinct_keys(obj_entries(effective_spec(row))),
        seq![
            "id"@,
            "knowledge"@,
            "last_updated"@,
            "open_weights"@,
            "structured_output"@,
            "experimental"@,
            "interleaved"@,
            "provider"@,
            "_meta"@,
        ].contains(k),
    ensures
        get_key(obj_entries(model_object_spec(row)), k) is None,
{
    let banned = seq![
        "id"@,
        "knowledge"@,
        "last_updated"@,
        "open_weights"@,
        "structured_output"@,
        "experimental"@,
        "interleaved"@,
        "provider"@,
        "_meta"@,
    ];
    let j = choose|j: int| 0 <= j < banned.len() && banned[j] == k;
    let nsf = non_schema_fields();
    let idx = if j < 8 { j } else { 9 };
    assert(nsf[idx] == k);
    reveal_strlit("id");
    reveal_strlit("knowledge");
    reveal_strlit("last_updated");
    reveal_strlit("open_weights");
    reveal_strlit("structured_output");
    reveal_strlit("experimental");
    reveal_strlit("interleaved");
    reveal_strlit("provider");
    reveal_strlit("_meta");
    reveal_strlit("name");
    reveal_strlit("cost");
    reveal_strlit("limit");
    assert("_meta"@[0] != "limit"@[0]);
    assert(k != "name"@ && k != "cost"@ && k != "limit"@);
    let eff = effective_spec(row);
    match eff {
        JsonView::Object(es) => {
            let d = del_keys(es, nsf);
            lemma_del_keys_gone(es, nsf);
            let nm = JsonView::Str(row.model_id@);
            let es1 = set_key(d, "name"@, nm);
            lemma_set_key_other(d, "name"@, nm, k);
            let es2 = match get_key(es1, "cost"@) {
                Some(JsonView::Object(ce)) => set_key(es1, "cost"@, JsonView::Object(del_keys(ce, non_schema_cost_fields()))),
                _ => es1,
            };
            if let Some(JsonView::Object(ce)) = get_key(es1, "cost"@) {
                lemma_set_key_other(es1, "cost"@, JsonView::Object(del_keys(ce, non_schema_cost_fields())), k);
            }
            let e1 = with_limit_key(es2);
            if get_key(es2, "limit"@) is None {
                lemma_set_key_other(es2, "limit"@, JsonView::Object(Seq::empty()), k);
            }
            let e = with_required_limit(es2, row.context);
            match get_key(e1, "limit"@) {
                Some(JsonView::Object(le)) => {
                    lemma_set_key_other(e1, "limit"@, JsonView::Object(limit_fixed(le, row.context)), k);
                },
                _ => {
                    lemma_set_key_other(e1, "limit"@, default_limit(row.context), k);
                },
            }
            assert(get_key(e, k) is None);
            lemma_find_key(e, k);
            lemma_pruned_absent(e, k);
        },
        JsonView::Array(items) => {},
        _ => {},
    }
}

} // verus!
