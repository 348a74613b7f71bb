//! The models a user has selected for a provider: the metadata snapshot taken at
//! selection time, the user's override patch, and what they add up to.
use vstd::prelude::*;
use crate::domain::{opt_view, supports_view, ModelEntry, ModelEntryView};
use crate::json::{copy_json, jv_entries, lemma_jv_entries, merge_patch, merged, JsonValue, JsonView};
use crate::json_text::{json_of_text, parse_json_text};
use crate::text::owned;

verus! {

/// A JSON text as stored: parsed when it is valid JSON.
#[derive(Debug)]
pub enum StoredJson {
    Parsed(JsonValue),
    Invalid,
}

/// A stored JSON text as the row holds it: parsed when it is valid JSON.
pub fn stored_json(text: &str) -> (r: StoredJson)
    ensures
        match json_of_text(text@) {
            Some(v) => r matches StoredJson::Parsed(x) && x@ == v,
            None => r is Invalid,
        },
{
    match parse_json_text(text) {
        Ok(v) => StoredJson::Parsed(v),
        Err(_) => StoredJson::Invalid,
    }
}

/// One selected model of a provider.
#[derive(Debug)]
pub struct SelectedRow {
    pub provider_id: String,
    pub model_id: String,
    pub display_name: Option<String>,
    pub is_enabled: bool,
    /// The metadata snapshot taken at selection time.
    pub snapshot: StoredJson,
    pub metadata_known: bool,
    /// The user's RFC 7386 merge-patch over the snapshot, when one was saved.
    pub override_patch: Option<StoredJson>,
    pub context: Option<i64>,
    pub has_image: bool,
    pub tool_call: bool,
    pub selected_at: String,
    pub updated_at: String,
    pub api_snapshot_at: Option<String>,
}

/// A change to a selected model; each field left `None` keeps its value.
#[derive(Debug)]
pub struct SelectedUpdate {
    pub display_name: Option<String>,
    pub is_enabled: Option<bool>,
    pub override_patch: Option<JsonValue>,
}

/// What the snapshot of a row stands for: the parsed snapshot, or `{"id": model_id}`
/// when the stored text is not valid JSON.
pub open spec fn base_spec(row: SelectedRow) -> JsonView {
    match row.snapshot {
        StoredJson::Parsed(v) => v@,
        StoredJson::Invalid => JsonView::Object(seq![("id"@, JsonView::Str(row.model_id@))]),
    }
}

/// The effective configuration of a row: its snapshot with the override patch applied
/// when the stored patch is valid JSON.
pub open spec fn effective_spec(row: SelectedRow) -> JsonView {
    match row.override_patch {
        Some(StoredJson::Parsed(p)) => merged(base_spec(row), p@),
        _ => base_spec(row),
    }
}

/// An optional string as JSON: the string, or `null`.
pub open spec fn opt_str_json(s: Option<Seq<char>>) -> JsonView {
    match s {
        Some(t) => JsonView::Str(t),
        None => JsonView::Null,
    }
}

/// The override patch of a row as JSON: the parsed patch, or `null`.
pub open spec fn patch_json(p: Option<StoredJson>) -> JsonView {
    match p {
        Some(StoredJson::Parsed(v)) => v@,
        _ => JsonView::Null,
    }
}

/// The answer that describes a selected model to the client.
pub open spec fn response_spec(row: SelectedRow) -> JsonView {
    JsonView::Object(
        seq![
            ("model_id"@, JsonView::Str(row.model_id@)),
            ("display_name"@, opt_str_json(opt_view(row.display_name))),
            ("is_enabled"@, JsonView::Bool(row.is_enabled)),
            ("metadata_known"@, JsonView::Bool(row.metadata_known)),
            ("has_custom_config"@, JsonView::Bool(row.override_patch is Some)),
            ("selected_at"@, JsonView::Str(row.selected_at@)),
            ("api_snapshot_at"@, opt_str_json(opt_view(row.api_snapshot_at))),
            ("effective"@, effective_spec(row)),
            ("override_patch"@, patch_json(row.override_patch)),
        ],
    )
}

/// An optional string as JSON.
fn opt_str_value(s: &Option<String>) -> (r: JsonValue)
    ensures
        r@ == opt_str_json(opt_view(*s)),
{
    match s {
        Some(t) => JsonValue::String(t.clone()),
        None => JsonValue::Null,
    }
}

impl SelectedRow {
    /// The snapshot with the user's override merge-patch applied (see `effective_spec`).
    pub fn effective(&self) -> (r: JsonValue)
        ensures
            r@ == effective_spec(*self),
    {
        let mut base = match &self.snapshot {
            StoredJson::Parsed(v) => copy_json(v),
            StoredJson::Invalid => {
                let mut es: Vec<(String, JsonValue)> = Vec::new();
                es.push((owned("id"), JsonValue::String(self.model_id.clone())));
                proof {
                    lemma_jv_entries(es@);
                }
                assert(jv_entries(es@) =~= seq![("id"@, JsonView::Str(self.model_id@))]);
                JsonValue::Object(es)
            },
        };
        if let Some(StoredJson::Parsed(p)) = &self.override_patch {
            merge_patch(&mut base, p);
        }
        base
    }

    /// Whether the user saved an override patch for this model.
    pub fn has_custom_config(&self) -> (b: bool)
        ensures
            b == (self.override_patch is Some),
    {
        self.override_patch.is_some()
    }

    /// The description of this selected model that the client gets (see `response_spec`).
    pub fn to_response(&self) -> (r: JsonValue)
        ensures
            r@ == response_spec(*self),
    {
        let patch = match &self.override_patch {
            Some(StoredJson::Parsed(v)) => copy_json(v),
            _ => JsonValue::Null,
        };
        let mut es: Vec<(String, JsonValue)> = Vec::new();
        es.push((owned("model_id"), JsonValue::String(self.model_id.clone())));
        es.push((owned("display_name"), opt_str_value(&self.display_name)));
        es.push((owned("is_enabled"), JsonValue::Bool(self.is_enabled)));
        es.push((owned("metadata_known"), JsonValue::Bool(self.metadata_known)));
        es.push((owned("has_custom_config"), JsonValue::Bool(self.has_custom_config())));
        es.push((owned("selected_at"), JsonValue::String(self.selected_at.clone())));
        es.push((owned("api_snapshot_at"), opt_str_value(&self.api_snapshot_at)));
        es.push((owned("effective"), self.effective()));
        es.push((owned("override_patch"), patch));
        proof {
            lemma_jv_entries(es@);
        }
        let ghost want = seq![
            ("model_id"@, JsonView::Str(self.model_id@)),
            ("display_name"@, opt_str_json(opt_view(self.display_name))),
            ("is_enabled"@, JsonView::Bool(self.is_enabled)),
            ("metadata_known"@, JsonView::Bool(self.metadata_known)),
            ("has_custom_config"@, JsonView::Bool(self.override_patch is Some)),
            ("selected_at"@, JsonView::Str(self.selected_at@)),
            ("api_snapshot_at"@, opt_str_json(opt_view(self.api_snapshot_at))),
            ("effective"@, effective_spec(*self)),
            ("override_patch"@, patch_json(self.override_patch)),
        ];
        assert(jv_entries(es@) =~= want);
        JsonValue::Object(es)
    }
}

/// The columns kept beside a snapshot for filtering: the context window (as a signed
/// number), whether the model takes images, and whether it calls tools (`false` when unknown).
pub open spec fn snapshot_columns_spec(e: ModelEntryView) -> (Option<i64>, bool, bool) {
    (
        match e.limit.context {
            Some(c) => Some(c as i64),
            None => None,
        },
        supports_view(e, "image"@),
        match e.tool_call {
            Some(t) => t,
            None => false,
        },
    )
}

/// The filtering columns stored with the snapshot of `entry` (see `snapshot_columns_spec`).
pub fn snapshot_columns(entry: &ModelEntry) -> (r: (Option<i64>, bool, bool))
    ensures
        r == snapshot_columns_spec(entry@),
{
    let context = match entry.context() {
        Some(c) => Some(c as i64),
        None => None,
    };
    let has_image = entry.supports("image");
    let tool_call = match entry.tool_call {
        Some(t) => t,
        None => false,
    };
    (context, has_image, tool_call)
}

} // verus!
