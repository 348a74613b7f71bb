//! The rows that the database holds, as the library reads them.
use vstd::prelude::*;
use crate::domain::opt_view;
use crate::json::{JsonNumber, JsonValue};

verus! {

/// A provider as stored. `headers` and `options` are the stored JSON texts, parsed;
/// `None` when absent or not valid JSON.
#[derive(Debug)]
pub struct ProviderRow {
    pub id: String,
    pub name: String,
    pub npm: String,
    pub base_url: Option<String>,
    pub api_key_env: Option<String>,
    pub api_key: Option<String>,
    pub models_dev_key: Option<String>,
    pub headers: Option<JsonValue>,
    pub options: Option<JsonValue>,
    pub enabled: bool,
    pub is_applied: bool,
    pub needs_reapply: bool,
    pub source: String,
    pub created_at: String,
    pub updated_at: String,
}

/// A provider as the user enters it.
#[derive(Debug)]
pub struct ProviderInput {
    pub id: String,
    pub name: String,
    pub npm: String,
    pub base_url: Option<String>,
    pub api_key_env: Option<String>,
    pub api_key: Option<String>,
    pub models_dev_key: Option<String>,
    pub headers: Option<JsonValue>,
    pub options: Option<JsonValue>,
    pub enabled: bool,
}

/// The npm package a provider uses when none is given.
pub fn default_npm() -> (s: String)
    ensures
        s@ == "@ai-sdk/openai-compatible"@,
{
    crate::text::string_of(&crate::text::chars_of("@ai-sdk/openai-compatible"))
}

/// Providers are enabled unless the input says otherwise.
pub fn default_true() -> (b: bool)
    ensures
        b,
{
    true
}

/// Which API key a provider uses: a non-empty raw key wins; otherwise the value of
/// the named environment variable, as `env_value` gives it (`None` when unset).
pub open spec fn api_key_spec(raw: Option<Seq<char>>, env_value: Option<Seq<char>>) -> Option<Seq<char>> {
    match raw {
        Some(k) if k.len() > 0 => Some(k),
        _ => env_value,
    }
}

impl ProviderRow {
    /// The API key to use, given the value of the environment variable that
    /// `api_key_env` names (`None` when that is unset or no variable is named): a
    /// non-empty raw key wins, else that value.
    pub fn resolve_api_key(&self, env_value: Option<String>) -> (r: Option<String>)
        ensures
            opt_view(r) == api_key_spec(opt_view(self.api_key), opt_view(env_value)),
    {
        if let Some(k) = &self.api_key {
            if crate::text::chars_of(k.as_str()).len() > 0 {
                return Some(k.clone());
            }
        }
        env_value
    }
}

/// A row of the user's local model library: models matched by a pattern in their id.
/// Prices are numbers (`JsonNumber`).
#[derive(Debug)]
pub struct ModelLibraryRow {
    pub id: i64,
    pub pattern: String,
    pub name: String,
    pub family: Option<String>,
    pub attachment: bool,
    pub reasoning: bool,
    pub tool_call: bool,
    pub temperature: bool,
    pub context: Option<i64>,
    pub max_output: Option<i64>,
    pub cost_input: Option<JsonNumber>,
    pub cost_output: Option<JsonNumber>,
}

/// A cached catalog of one provider: its total and the rows as stored JSON text.
#[derive(Debug)]
pub struct CatalogCacheRow {
    pub total_available: i64,
    pub models_json: String,
}

/// When models.dev was last refreshed, and what it held.
#[derive(Debug)]
pub struct ModelsDevRefreshRow {
    pub source_url: String,
    pub provider_count: i64,
    pub model_count: i64,
    pub refreshed_at: String,
}

} // verus!
