use ocm_backend::candidates::{candidate_match_score, generate_candidates, match_candidate_ids, match_openrouter};
use ocm_backend::catalog::{build_catalog, cached_source, fetch_catalog, filtered_ids, CatalogQuery};
use ocm_backend::db::ModelLibraryRow;
use ocm_backend::domain::{Limit, Modalities, ModelEntry};
use ocm_backend::index::{from_records, priority_for, ProviderRecord};
use ocm_backend::json::{JsonNumber, JsonValue};
use ocm_backend::modelsdev::{
    default_provider_priority, lookup_modelsdev_by_candidate_with_origin, modelsdev_provider_rank, ModelsDevData,
};
use ocm_backend::openrouter::{OpenRouterModel, OpenRouterModelArchitecture, OpenRouterModelPricing};
use ocm_backend::resolve::{modelsdev_detail, refresh_catalog, resolve_model_metadata, resolve_model_metadata_detail, resolve_provider_model};

fn meta_with(models: Vec<ModelEntry>) -> ModelsDevData {
    let mut data = ModelsDevData::new();
    for m in models {
        data.by_id.push((m.id.clone(), m));
    }
    data
}

fn lookup_meta<'a>(meta: &'a ModelsDevData, id: &str) -> Option<&'a ModelEntry> {
    meta.lookup_with_origin(id, None).map(|found| found.entry)
}

fn lookup_family<'a>(meta: &'a ModelsDevData, family: &str) -> Option<&'a ModelEntry> {
    meta.lookup_by_family_with_origin(family, None).map(|found| found.entry)
}

fn entry(id: &str, ctx: u64, img: bool, tools: bool) -> ModelEntry {
    let mut e = ModelEntry::bare(id);
    e.name = Some(id.into());
    e.tool_call = Some(tools);
    e.modalities = Modalities {
        input: if img { vec!["text".into(), "image".into()] } else { vec!["text".into()] },
        output: vec!["text".into()],
    };
    e.limit = Limit { context: Some(ctx), input: None, output: None };
    e.status = Some("active".into());
    e
}

fn resolved_for(meta: &ModelsDevData, ids: &[String]) -> Vec<(ModelEntry, bool, &'static str)> {
    let mut resolved = Vec::new();
    for id in ids {
        let known = lookup_meta(meta, id);
        let entry = match known {
            Some(e) => e.copy(),
            None => ModelEntry::bare(id),
        };
        resolved.push((entry, known.is_some(), if known.is_some() { "models.dev" } else { "provider-only" }));
    }
    resolved
}

fn grok_openrouter() -> OpenRouterModel {
    OpenRouterModel {
        id: "x-ai/grok-4.20-0309-non-reasoning".to_string(),
        name: "Grok 4.20 (Non-Reasoning)".to_string(),
        architecture: OpenRouterModelArchitecture { input_modalities: vec!["text".into(), "image".into()] },
        supported_parameters: vec!["tools".into()],
        context_length: 2_000_000,
        pricing: OpenRouterModelPricing {
            prompt: "0.00000125".to_string(),
            completion: "0.000005".to_string(),
            input_cache_read: None,
            input_cache_write: None,
        },
    }
}

fn record(models: Vec<ModelEntry>) -> ProviderRecord {
    ProviderRecord {
        id: None,
        name: None,
        npm: None,
        api: None,
        doc: None,
        env: None,
        models: models.into_iter().map(|m| (m.id.clone(), m)).collect(),
        extra: vec![],
        raw: JsonValue::Null,
    }
}

#[test]
fn joins_and_marks_provider_only_ids() {
    let meta = meta_with(vec![entry("gpt-4o", 128_000, true, true)]);
    let ids = vec!["gpt-4o".to_string(), "mystery-model".to_string()];
    let resolved = resolved_for(&meta, &ids);

    let out = build_catalog(resolved, &vec![], &vec![], &CatalogQuery::none());
    assert_eq!(out.len(), 2);
    let mystery = out.iter().find(|m| m.entry.id == "mystery-model").unwrap();
    assert!(!mystery.meta.metadata_known);
    assert_eq!(mystery.meta.source, "provider-only");
    let known = out.iter().find(|m| m.entry.id == "gpt-4o").unwrap();
    assert!(known.meta.metadata_known);
    assert_eq!(known.entry.context(), Some(128_000));
}

#[test]
fn modelsdev_id_lookup_ignores_ascii_case() {
    let meta = meta_with(vec![entry("stepfun-ai/step-3.7-flash", 128_000, false, true)]);
    let found = lookup_meta(&meta, "stepfun-ai/Step-3.7-Flash").unwrap();
    assert_eq!(found.id, "stepfun-ai/step-3.7-flash");
    assert_eq!(found.context(), Some(128_000));
}

#[test]
fn image_and_context_filters_exclude_unknown_metadata() {
    let meta = meta_with(vec![entry("vision-big", 200_000, true, true), entry("text-small", 8_000, false, true)]);
    let ids = vec!["vision-big".to_string(), "text-small".to_string(), "mystery".to_string()];
    let resolved = resolved_for(&meta, &ids);
    let mut q = CatalogQuery::none();
    q.support_image = Some(true);
    q.min_context = Some(128_000);
    let out = build_catalog(resolved, &vec![], &vec![], &q);
    let names: Vec<_> = out.iter().map(|m| m.entry.id.as_str()).collect();
    assert_eq!(names, vec!["vision-big"]);
}

#[test]
fn search_matches_provider_only_ids() {
    let meta = meta_with(vec![]);
    let ids = vec!["grok-4-fast".to_string(), "gemini-pro".to_string()];
    let resolved = resolved_for(&meta, &ids);
    let mut q = CatalogQuery::none();
    q.search = Some("GROK".into());
    let out = build_catalog(resolved, &vec![], &vec![], &q);
    assert_eq!(out.len(), 1);
    assert_eq!(out[0].entry.id, "grok-4-fast");
}

#[test]
fn selected_sort_first() {
    let meta = meta_with(vec![entry("aaa", 1000, false, false), entry("zzz", 1000, false, false)]);
    let ids = vec!["aaa".to_string(), "zzz".to_string()];
    let resolved = resolved_for(&meta, &ids);
    let sel = vec!["zzz".to_string()];
    let out = build_catalog(resolved, &sel, &vec![], &CatalogQuery::none());
    assert_eq!(out[0].entry.id, "zzz");
    assert!(out[0].meta.is_selected);
}

#[test]
fn test_candidate_generation() {
    let candidates = generate_candidates("grok-4.20-0309-non-reasoning-console");
    assert!(candidates.contains(&"grok-4.20-0309-non-reasoning".to_string()));
    assert!(candidates.contains(&"grok".to_string()));
    assert!(candidates.contains(&"grok-4.20-0309-non-reasoning-console".to_string()));

    let candidates_with_slash = generate_candidates("x-ai/grok-4.20-0309-non-reasoning-console");
    assert!(candidates_with_slash.contains(&"grok-4.20-0309-non-reasoning".to_string()));
    assert!(candidates_with_slash.contains(&"grok".to_string()));
}

#[test]
fn test_match_openrouter_candidates() {
    let openrouter_models = vec![grok_openrouter()];
    let candidates = generate_candidates("grok-4.20-0309-non-reasoning-console");
    let mut matched = None;
    for (i, candidate) in candidates.iter().enumerate() {
        let allow_substring = i == 0;
        if let Some(m) = match_openrouter(candidate, &openrouter_models, allow_substring) {
            matched = Some(m);
            break;
        }
    }
    assert!(matched.is_some());
    assert_eq!(matched.unwrap().id, "x-ai/grok-4.20-0309-non-reasoning");
}

#[test]
fn modelsdev_candidate_lookup_prefers_openrouter_over_peer_matches() {
    let mut meta = ModelsDevData::new();
    meta.by_provider.push((
        "kilo".to_string(),
        vec![("x-ai/grok-4.20-multi-agent".to_string(), entry("x-ai/grok-4.20-multi-agent", 2_000_000, true, false))],
    ));
    meta.by_provider.push((
        "xai".to_string(),
        vec![("grok-4.20-multi-agent-0309".to_string(), entry("grok-4.20-multi-agent-0309", 2_000_000, true, false))],
    ));
    meta.by_provider.push((
        "openrouter".to_string(),
        vec![("x-ai/grok-4.20-multi-agent".to_string(), entry("x-ai/grok-4.20-multi-agent", 2_000_000, true, false))],
    ));

    let found = lookup_modelsdev_by_candidate_with_origin(&meta, "grok-4.20-multi-agent", None).unwrap();
    let origin = found.origin.unwrap();
    assert_eq!(origin.provider, "openrouter");
    assert_eq!(origin.model_id, "x-ai/grok-4.20-multi-agent");
}

#[test]
fn test_family_lookup_models_dev() {
    let mut model = entry("grok-build-0-1", 256_000, true, true);
    model.family = Some("grok-build".to_string());
    let meta = meta_with(vec![model]);

    let id = "grok-build-console";
    let candidates = generate_candidates(id);

    let mut resolved = None;
    for candidate in &candidates {
        if let Some(known) = lookup_meta(&meta, candidate) {
            resolved = Some(known.copy());
            break;
        }
        if let Some(known) = lookup_family(&meta, candidate) {
            let mut entry = known.copy();
            entry.id = id.to_string();
            resolved = Some(entry);
            break;
        }
    }

    assert!(resolved.is_some());
    let entry = resolved.unwrap();
    assert_eq!(entry.id, "grok-build-console");
    assert_eq!(entry.family.as_deref(), Some("grok-build"));
    assert_eq!(entry.context(), Some(256_000));
}

#[test]
fn test_specific_candidate_precedence() {
    let meta = meta_with(vec![entry("grok-4", 256_000, false, true)]);
    let openrouter_models = vec![grok_openrouter()];

    let id = "grok-4.20-0309-console";
    let candidates = generate_candidates(id);

    let mut matched_source = None;
    let mut matched_entry = None;

    for (i, candidate) in candidates.iter().enumerate() {
        if let Some(known) = lookup_meta(&meta, candidate) {
            matched_source = Some("models.dev");
            let mut entry = known.copy();
            entry.id = id.to_string();
            matched_entry = Some(entry);
            break;
        }
        if let Some(known) = lookup_modelsdev_by_candidate_with_origin(&meta, candidate, None) {
            matched_source = Some("models.dev");
            let mut entry = known.entry.copy();
            entry.id = id.to_string();
            matched_entry = Some(entry);
            break;
        }
        let allow_substring = i == 0;
        if let Some(or_model) = match_openrouter(candidate, &openrouter_models, allow_substring) {
            matched_source = Some("openrouter");
            let mut entry = ModelEntry::bare(id);
            entry.name = Some(or_model.name.clone());
            entry.limit = Limit { context: Some(or_model.context_length), input: None, output: None };
            matched_entry = Some(entry);
            break;
        }
    }

    assert_eq!(matched_source, Some("openrouter"));
    let entry = matched_entry.unwrap();
    assert_eq!(entry.id, "grok-4.20-0309-console");
    assert_eq!(entry.context(), Some(2_000_000));
}

#[test]
fn resolution_prefers_openrouter_for_the_specific_candidate() {
    let meta = meta_with(vec![entry("grok-4", 256_000, false, true)]);
    let or = vec![grok_openrouter()];
    let (e, known, source) = resolve_model_metadata("grok-4.20-0309-console", None, &meta, &[], Some(&or), &[None]);
    assert!(known);
    assert_eq!(source, "openrouter");
    assert_eq!(e.id, "grok-4.20-0309-console");
    assert_eq!(e.context(), Some(2_000_000));
    assert_eq!(e.family.as_deref(), Some("x-ai"));
    assert_eq!(e.attachment, Some(true));
    assert_eq!(e.tool_call, Some(true));
    assert_eq!(e.reasoning, Some(false));
}

#[test]
fn resolution_uses_the_local_library_first() {
    let meta = meta_with(vec![entry("deepseek-chat", 64_000, false, true)]);
    let lib = vec![ModelLibraryRow {
        id: 1,
        pattern: "DeepSeek".into(),
        name: "DeepSeek Local".into(),
        family: Some("deepseek".into()),
        attachment: true,
        reasoning: false,
        tool_call: true,
        temperature: true,
        context: Some(100_000),
        max_output: Some(8_000),
        cost_input: Some(JsonNumber::PosInt(1)),
        cost_output: None,
    }];
    let r = resolve_model_metadata_detail("deepseek-chat", None, &meta, &lib, None, &[]);
    assert_eq!(r.source, "local-library");
    assert_eq!(r.match_detail.strategy, "local-pattern");
    assert_eq!(r.match_detail.pattern.as_deref(), Some("DeepSeek"));
    assert_eq!(r.entry.name.as_deref(), Some("DeepSeek Local"));
    assert_eq!(r.entry.context(), Some(100_000));
    assert_eq!(r.entry.limit.output, Some(8_000));
    assert_eq!(r.entry.modalities.input, vec!["text".to_string(), "image".to_string()]);
    assert!(r.entry.cost.is_some());
}

#[test]
fn resolution_falls_back_to_provider_only() {
    let meta = meta_with(vec![]);
    let r = resolve_model_metadata_detail("mystery", None, &meta, &[], None, &[]);
    assert!(!r.metadata_known);
    assert_eq!(r.source, "provider-only");
    assert_eq!(r.match_detail.strategy, "provider-only");
    assert_eq!(r.entry.id, "mystery");
}

#[test]
fn resolution_reports_exact_modelsdev_match_with_origin() {
    let data = from_records(vec![("openai".to_string(), record(vec![entry("gpt-4o", 128_000, true, true)]))], None);
    let r = resolve_model_metadata_detail("gpt-4o", None, &data, &[], None, &[]);
    assert_eq!(r.source, "models.dev");
    assert_eq!(r.match_detail.strategy, "models.dev-exact-id");
    assert_eq!(r.match_detail.provider.as_deref(), Some("openai"));
    assert_eq!(r.match_detail.model_id.as_deref(), Some("gpt-4o"));
    assert_eq!(r.match_detail.candidate.as_deref(), Some("gpt-4o"));
}

#[test]
fn provider_model_resolution_reports_availability() {
    let meta = meta_with(vec![entry("gpt-4o", 128_000, true, true)]);
    let ids = vec!["gpt-4o".to_string()];
    let r = resolve_provider_model("p", "gpt-4o", &ids, None, &meta, &[], None, &[]);
    assert!(r.available);
    assert_eq!(r.provider_id, "p");
    let r2 = resolve_provider_model("p", "other", &ids, None, &meta, &[], None, &[]);
    assert!(!r2.available);
    assert_eq!(r2.source, "provider-only");
}

#[test]
fn refresh_catalog_counts_all_ids() {
    let meta = meta_with(vec![entry("b-model", 1000, false, false)]);
    let ids = vec!["b-model".to_string(), "a-model".to_string()];
    let r = refresh_catalog(&ids, None, &meta, &[], None, &[], &vec![], &vec![]);
    assert_eq!(r.total_available, 2);
    assert_eq!(r.matched, 2);
    assert_eq!(r.models[0].entry.id, "a-model");
    assert_eq!(r.models[1].meta.source, "models.dev");
}

#[test]
fn fetch_catalog_without_cache_is_empty() {
    let r = fetch_catalog(None, &vec![], &vec![], &CatalogQuery::none());
    assert_eq!(r.total_available, 0);
    assert_eq!(r.matched, 0);
    let r2 = fetch_catalog(Some((-5, vec![(ModelEntry::bare("x"), false, "provider-only")])), &vec![], &vec![], &CatalogQuery::none());
    assert_eq!(r2.total_available, 0);
    assert_eq!(r2.matched, 1);
}

#[test]
fn filtered_ids_keep_catalog_order() {
    let meta = meta_with(vec![entry("vision", 200_000, true, true), entry("text", 8_000, false, true)]);
    let ids = vec!["vision".to_string(), "text".to_string(), "unknown".to_string()];
    let mut q = CatalogQuery::none();
    q.tool_call = Some(true);
    let out = filtered_ids(resolved_for(&meta, &ids), &q);
    assert_eq!(out, vec!["text".to_string(), "vision".to_string()]);
}

#[test]
fn from_records_orders_providers_and_first_wins() {
    let mut a = entry("shared", 1, false, false);
    a.name = Some("from-zeta".into());
    let mut b = entry("shared", 2, false, false);
    b.name = Some("from-openrouter".into());
    let mut blank = entry("", 3, false, false);
    blank.name = Some("blank".into());
    let mut rec = record(vec![b]);
    rec.models.push(("keyed".to_string(), blank));
    let data = from_records(
        vec![("zeta".to_string(), record(vec![a])), ("openrouter".to_string(), rec)],
        None,
    );
    assert_eq!(data.providers[0].key, "openrouter");
    assert_eq!(data.providers[1].key, "zeta");
    assert_eq!(data.providers[0].priority, 0);
    assert_eq!(data.providers[1].priority, 100);
    let found = data.lookup_with_origin("shared", None).unwrap();
    assert_eq!(found.entry.name.as_deref(), Some("from-openrouter"));
    assert_eq!(found.origin.unwrap().provider, "openrouter");
    let keyed = data.lookup_with_origin("keyed", None).unwrap();
    assert_eq!(keyed.entry.id, "keyed");
    assert_eq!(data.model_count(), 2);
}

#[test]
fn stored_priorities_override_defaults() {
    let prios = vec![("poe".to_string(), -1i64)];
    assert_eq!(priority_for("poe", Some(&prios)), -1);
    assert_eq!(priority_for("poe", None), 1000);
    assert_eq!(priority_for("unknown", Some(&prios)), 100);
    let data = from_records(
        vec![("openrouter".to_string(), record(vec![])), ("poe".to_string(), record(vec![]))],
        Some(&prios),
    );
    assert_eq!(data.providers[0].key, "poe");
}

#[test]
fn provider_ranks_and_priorities() {
    assert_eq!(modelsdev_provider_rank("openrouter"), 0);
    assert_eq!(modelsdev_provider_rank("xai"), 10);
    assert_eq!(modelsdev_provider_rank("vercel"), 20);
    assert_eq!(modelsdev_provider_rank("kilo"), 30);
    assert_eq!(modelsdev_provider_rank("302ai"), 40);
    assert_eq!(modelsdev_provider_rank("venice"), 50);
    assert_eq!(modelsdev_provider_rank("poe"), 1000);
    assert_eq!(modelsdev_provider_rank("other"), 100);
    assert_eq!(default_provider_priority("xai"), 10);
}

#[test]
fn candidate_scores() {
    assert!(match_candidate_ids("grok-4", "x-ai/grok-4"));
    assert!(candidate_match_score("grok-4", "x-ai/grok-4").is_some());
    assert!(!match_candidate_ids("grok-4", "gemini-3"));
}

#[test]
fn cached_source_labels() {
    assert_eq!(cached_source("models.dev"), "models.dev");
    assert_eq!(cached_source("local-library"), "local-library");
    assert_eq!(cached_source("openrouter"), "openrouter");
    assert_eq!(cached_source("anything"), "provider-only");
}

#[test]
fn modelsdev_detail_carries_origin() {
    let d = modelsdev_detail(
        Some(ocm_backend::modelsdev::ModelsDevOrigin { provider: "xai".into(), model_id: "grok".into() }),
        "grok",
        "models.dev-family",
    );
    assert_eq!(d.source, "models.dev");
    assert_eq!(d.provider.as_deref(), Some("xai"));
    assert_eq!(d.model_id.as_deref(), Some("grok"));
    assert_eq!(d.strategy, "models.dev-family");
    let none = modelsdev_detail(None, "c", "models.dev-exact-id");
    assert!(none.provider.is_none());
    assert_eq!(none.candidate.as_deref(), Some("c"));
}
