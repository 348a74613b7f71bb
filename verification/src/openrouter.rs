//! Models listed by OpenRouter's `/api/v1/models`, as the library holds them.
use vstd::prelude::*;

verus! {

/// The input modalities of an OpenRouter model.
#[derive(Debug, Clone)]
pub struct OpenRouterModelArchitecture {
    pub input_modalities: Vec<String>,
}

/// OpenRouter's per-token prices, as the decimal strings it sends.
#[derive(Debug, Clone)]
pub struct OpenRouterModelPricing {
    pub prompt: String,
    pub completion: String,
    pub input_cache_read: Option<String>,
    pub input_cache_write: Option<String>,
}

/// One OpenRouter model.
#[derive(Debug, Clone)]
pub struct OpenRouterModel {
    pub id: String,
    pub name: String,
    pub context_length: u64,
    pub architecture: OpenRouterModelArchitecture,
    pub pricing: OpenRouterModelPricing,
    pub supported_parameters: Vec<String>,
}

} // verus!
