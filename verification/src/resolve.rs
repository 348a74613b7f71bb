//! Finding metadata for a provider's model id: candidate by candidate, from the local
//! model library, then models.dev (exact id, candidate match, family), then OpenRouter.
use vstd::prelude::*;
use crate::candidates::{candidates_of, openrouter_match};
use crate::db::ModelLibraryRow;
use crate::domain::{
    bare_view, opt_cost, opt_view, Cost, CostView, Limit, ModalitiesView, Modalities, ModelEntry,
    ModelEntryView,
};
use crate::modelsdev::{
    candidate_lookup_spec, family_lookup_spec, lookup_modelsdev_by_candidate_with_origin,
    lookup_spec, lookup_view, LookupView, ModelsDevData, ModelsDevLookup, ModelsDevOrigin,
};
use crate::openrouter::OpenRouterModel;
use crate::catalog::{build_catalog, catalog_of, no_filters, resolved_view, resolved_views, row_views, CatalogQuery, CatalogResult, ResolvedView};
use crate::text::{chars_of, contains_chars, contains_seq, lowercase_chars, lowercased, string_of, string_views, views};

verus! {

/// How a model's metadata was found.
#[derive(Debug)]
pub struct ModelMatchDetail {
    pub source: &'static str,
    pub provider: Option<String>,
    pub model_id: Option<String>,
    pub candidate: Option<String>,
    pub strategy: &'static str,
    pub pattern: Option<String>,
}

/// The mathematical form of `ModelMatchDetail`.
pub struct DetailView {
    pub source: Seq<char>,
    pub provider: Option<Seq<char>>,
    pub model_id: Option<Seq<char>>,
    pub candidate: Option<Seq<char>>,
    pub strategy: Seq<char>,
    pub pattern: Option<Seq<char>>,
}

impl View for ModelMatchDetail {
    type V = DetailView;

    open spec fn view(&self) -> DetailView {
        DetailView {
            source: self.source@,
            provider: opt_view(self.provider),
            model_id: opt_view(self.model_id),
            candidate: opt_view(self.candidate),
            strategy: self.strategy@,
            pattern: opt_view(self.pattern),
        }
    }
}

/// Metadata found for a model id.
#[derive(Debug)]
pub struct ResolvedMetadata {
    pub entry: ModelEntry,
    pub metadata_known: bool,
    pub source: &'static str,
    pub match_detail: ModelMatchDetail,
}

/// The mathematical form of `ResolvedMetadata`.
pub struct ResolvedMetaView {
    pub entry: ModelEntryView,
    pub metadata_known: bool,
    pub source: Seq<char>,
    pub detail: DetailView,
}

impl View for ResolvedMetadata {
    type V = ResolvedMetaView;

    open spec fn view(&self) -> ResolvedMetaView {
        ResolvedMetaView {
            entry: self.entry@,
            metadata_known: self.metadata_known,
            source: self.source@,
            detail: self.match_detail@,
        }
    }
}

/// The metadata of an id found nowhere: a bare entry.
pub open spec fn provider_only(id: Seq<char>) -> ResolvedMetaView {
    ResolvedMetaView {
        entry: bare_view(id),
        metadata_known: false,
        source: "provider-only"@,
        detail: DetailView {
            source: "provider-only"@,
            provider: None,
            model_id: None,
            candidate: None,
            strategy: "provider-only"@,
            pattern: None,
        },
    }
}

/// `c` as an unsigned number (`as u64`).
pub open spec fn as_u64_opt(c: Option<i64>) -> Option<u64> {
    match c {
        Some(v) => Some(v as u64),
        None => None,
    }
}

/// The entry built from a local library row for `id`.
pub open spec fn library_entry(id: Seq<char>, row: ModelLibraryRow) -> ModelEntryView {
    ModelEntryView {
        name: Some(row.name@),
        family: opt_view(row.family),
        attachment: Some(row.attachment),
        reasoning: Some(row.reasoning),
        tool_call: Some(row.tool_call),
        temperature: Some(row.temperature),
        modalities: ModalitiesView {
            input: if row.attachment {
                seq!["text"@, "image"@]
            } else {
                seq!["text"@]
            },
            output: seq!["text"@],
        },
        limit: Limit { context: as_u64_opt(row.context), input: None, output: as_u64_opt(row.max_output) },
        cost: if row.cost_input is Some || row.cost_output is Some {
            Some(CostView {
                input: row.cost_input,
                output: row.cost_output,
                cache_read: None,
                cache_write: None,
                input_audio: None,
                output_audio: None,
                reasoning: None,
                context_over_200k: None,
                tiers: None,
            })
        } else {
            None
        },
        ..bare_view(id)
    }
}

/// The metadata from a local library row matched by candidate `c`.
pub open spec fn from_library(id: Seq<char>, c: Seq<char>, row: ModelLibraryRow) -> ResolvedMetaView {
    ResolvedMetaView {
        entry: library_entry(id, row),
        metadata_known: true,
        source: "local-library"@,
        detail: DetailView {
            source: "local-library"@,
            provider: None,
            model_id: None,
            candidate: Some(c),
            strategy: "local-pattern"@,
            pattern: Some(row.pattern@),
        },
    }
}

/// The metadata from a models.dev lookup for candidate `c`, with the entry's id set to `id`.
pub open spec fn from_modelsdev(id: Seq<char>, c: Seq<char>, l: LookupView, strategy: Seq<char>) -> ResolvedMetaView {
    ResolvedMetaView {
        entry: ModelEntryView { id: id, ..l.entry },
        metadata_known: true,
        source: "models.dev"@,
        detail: DetailView {
            source: "models.dev"@,
            provider: match l.origin {
                Some(o) => Some(o.0),
                None => None,
            },
            model_id: match l.origin {
                Some(o) => Some(o.1),
                None => None,
            },
            candidate: Some(c),
            strategy: strategy,
            pattern: None,
        },
    }
}

/// The part of `s` before its first `/`.
pub open spec fn before_first_slash(s: Seq<char>) -> Seq<char>
    decreases s.len(),
{
    if s.len() == 0 || s[0] == '/' {
        Seq::empty()
    } else {
        seq![s[0]] + before_first_slash(s.drop_first())
    }
}

/// The entry built from an OpenRouter model for `id`, with the prices given.
pub open spec fn openrouter_entry(id: Seq<char>, m: OpenRouterModel, cost: Option<CostView>) -> ModelEntryView {
    let params = string_views(m.supported_parameters@);
    let inputs = string_views(m.architecture.input_modalities@);
    ModelEntryView {
        name: Some(m.name@),
        family: Some(before_first_slash(m.id@)),
        attachment: Some(inputs.contains("image"@)),
        modalities: ModalitiesView { input: inputs, output: seq!["text"@] },
        tool_call: Some(params.contains("tools"@)),
        reasoning: Some(params.contains("reasoning"@) || params.contains("include_reasoning"@)),
        limit: Limit { context: Some(m.context_length), input: None, output: None },
        cost: cost,
        ..bare_view(id)
    }
}

/// The metadata from OpenRouter model `m` matched by candidate `c`.
pub open spec fn from_openrouter(id: Seq<char>, c: Seq<char>, m: OpenRouterModel, cost: Option<CostView>, first: bool) -> ResolvedMetaView {
    ResolvedMetaView {
        entry: openrouter_entry(id, m, cost),
        metadata_known: true,
        source: "openrouter"@,
        detail: DetailView {
            source: "openrouter"@,
            provider: Some("openrouter"@),
            model_id: Some(m.id@),
            candidate: Some(c),
            strategy: if first {
                "openrouter-candidate-or-substring"@
            } else {
                "openrouter-candidate"@
            },
            pattern: None,
        },
    }
}

/// The price given for the OpenRouter model at position `k`; none past the end of `costs`.
pub open spec fn cost_at(costs: Seq<Option<Cost>>, k: int) -> Option<CostView> {
    if 0 <= k < costs.len() {
        opt_cost(costs[k])
    } else {
        None
    }
}

/// Whether library row `row` matches candidate `c`: `c` holds its lowercased pattern.
pub open spec fn row_matches(c: Seq<char>) -> spec_fn(ModelLibraryRow) -> bool {
    |row: ModelLibraryRow| contains_seq(c, lowercased(row.pattern@))
}

/// The metadata for `id` from candidate `cands[i]` on: at each candidate, the first
/// local library row whose lowercased pattern it holds; else models.dev by exact id,
/// then by candidate match, then by family; else the OpenRouter model it matches (by
/// substring only for the first candidate). When no candidate finds anything, a bare
/// entry from the provider only.
pub open spec fn resolve_from(
    id: Seq<char>,
    cands: Seq<Seq<char>>,
    i: int,
    d: &ModelsDevData,
    scope: Option<Seq<char>>,
    lib: Seq<ModelLibraryRow>,
    or_models: Option<Seq<OpenRouterModel>>,
    or_costs: Seq<Option<Cost>>,
) -> ResolvedMetaView
    decreases cands.len() - i,
{
    if i < 0 || i >= cands.len() {
        provider_only(id)
    } else {
        let c = cands[i];
        match crate::candidates::first_index(lib, row_matches(c)) {
            Some(k) => from_library(id, c, lib[k]),
            None => match lookup_spec(d.provs(), d.ids(), d.origins(), c, scope) {
                Some(l) => from_modelsdev(id, c, l, "models.dev-exact-id"@),
                None => match candidate_lookup_spec(d.provs(), c, scope) {
                    Some(l) => from_modelsdev(id, c, l, "models.dev-candidate-id"@),
                    None => match family_lookup_spec(d.provs(), d.ids(), d.origins(), c, scope) {
                        Some(l) => from_modelsdev(id, c, l, "models.dev-family"@),
                        None => {
                            let found = match or_models {
                                Some(list) => match openrouter_match(c, list, i == 0) {
                                    Some(k) => Some(from_openrouter(id, c, list[k], cost_at(or_costs, k), i == 0)),
                                    None => None,
                                },
                                None => None,
                            };
                            match found {
                                Some(r) => r,
                                None => resolve_from(id, cands, i + 1, d, scope, lib, or_models, or_costs),
                            }
                        },
                    },
                },
            },
        }
    }
}

} // verus!

verus! {

/// Where the first local library row that candidate `c` matches stands.
fn find_library_row(lib: &[ModelLibraryRow], c: &Vec<char>) -> (r: Option<usize>)
    ensures
        r matches Some(k) ==> k < lib@.len() && crate::candidates::first_index(lib@, row_matches(c@)) == Some(k as int),
        r is None ==> crate::candidates::first_index(lib@, row_matches(c@)) is None,
{
    let ghost p = row_matches(c@);
    let mut i: usize = 0;
    while i < lib.len()
        invariant
            i <= lib@.len(),
            p == row_matches(c@),
            forall|j: int| 0 <= j < i ==> !p(#[trigger] lib@[j]),
        decreases lib.len() - i,
    {
        let pat = lowercase_chars(&chars_of(lib[i].pattern.as_str()));
        if contains_chars(c, &pat) {
            proof {
                crate::candidates::lemma_first_index_found(lib@, p, i as int);
            }
            return Some(i);
        }
        i = i + 1;
    }
    proof {
        crate::candidates::lemma_first_index_none(lib@, p);
    }
    None
}

/// `c` as an unsigned number.
fn as_u64(c: Option<i64>) -> (r: Option<u64>)
    ensures
        r == as_u64_opt(c),
{
    match c {
        Some(v) => Some(v as u64),
        None => None,
    }
}

/// The metadata that local library row `row`, matched by candidate `c`, gives `id`.
fn library_metadata(id: &str, c: &String, row: &ModelLibraryRow) -> (r: ResolvedMetadata)
    ensures
        r@ == from_library(id@, c@, *row),
{
    let mut entry = ModelEntry::bare(id);
    entry.name = Some(row.name.clone());
    entry.family = crate::domain::copy_opt_string(&row.family);
    entry.attachment = Some(row.attachment);
    entry.reasoning = Some(row.reasoning);
    entry.tool_call = Some(row.tool_call);
    entry.temperature = Some(row.temperature);
    let input = if row.attachment {
        crate::domain::strings_from(&vec!["text", "image"])
    } else {
        crate::domain::strings_from(&vec!["text"])
    };
    entry.modalities = Modalities { input: input, output: crate::domain::strings_from(&vec!["text"]) };
    entry.limit = Limit { context: as_u64(row.context), input: None, output: as_u64(row.max_output) };
    if row.cost_input.is_some() || row.cost_output.is_some() {
        entry.cost = Some(Cost {
            input: row.cost_input,
            output: row.cost_output,
            cache_read: None,
            cache_write: None,
            input_audio: None,
            output_audio: None,
            reasoning: None,
            context_over_200k: None,
            tiers: None,
        });
    }
    let r = ResolvedMetadata {
        entry: entry,
        metadata_known: true,
        source: "local-library",
        match_detail: ModelMatchDetail {
            source: "local-library",
            provider: None,
            model_id: None,
            candidate: Some(c.clone()),
            strategy: "local-pattern",
            pattern: Some(row.pattern.clone()),
        },
    };
    let ghost le = library_entry(id@, *row);
    assert(r@.entry.modalities.input == le.modalities.input);
    assert(r@.entry.modalities.output == le.modalities.output);
    assert(r@.entry.limit == le.limit);
    assert(r@.entry.cost == le.cost);
    assert(r@.entry.name == le.name);
    assert(r@.entry.family == le.family);
    assert(r@.entry.id == le.id);
    assert(r@.entry == le);
    r
}

/// How a models.dev lookup found its model: by `strategy`, from `origin`, for `candidate`.
pub fn modelsdev_detail(origin: Option<ModelsDevOrigin>, candidate: &str, strategy: &'static str) -> (d: ModelMatchDetail)
    ensures
        d@ == (DetailView {
            source: "models.dev"@,
            provider: match origin {
                Some(o) => Some(o.provider@),
                None => None,
            },
            model_id: match origin {
                Some(o) => Some(o.model_id@),
                None => None,
            },
            candidate: Some(candidate@),
            strategy: strategy@,
            pattern: None,
        }),
{
    let (provider, model_id) = match origin {
        Some(o) => (Some(o.provider), Some(o.model_id)),
        None => (None, None),
    };
    ModelMatchDetail {
        source: "models.dev",
        provider: provider,
        model_id: model_id,
        candidate: Some(string_of(&chars_of(candidate))),
        strategy: strategy,
        pattern: None,
    }
}

/// The metadata that models.dev lookup `known`, found by candidate `c`, gives `id`.
fn modelsdev_metadata(id: &str, c: &str, known: ModelsDevLookup<'_>, strategy: &'static str) -> (r: ResolvedMetadata)
    ensures
        r@ == from_modelsdev(id@, c@, lookup_view(Some(known)).unwrap(), strategy@),
{
    let mut entry = known.entry.copy();
    entry.id = string_of(&chars_of(id));
    let origin = match &known.origin {
        Some(o) => Some(o.copy()),
        None => None,
    };
    ResolvedMetadata {
        entry: entry,
        metadata_known: true,
        source: "models.dev",
        match_detail: modelsdev_detail(origin, c, strategy),
    }
}

/// The part of `s` before its first `/` (`split('/').next()`).
fn before_first_slash_chars(s: &Vec<char>) -> (r: Vec<char>)
    ensures
        r@ == before_first_slash(s@),
{
    let mut i: usize = 0;
    while i < s.len() && s[i] != '/'
        invariant
            i <= s.len(),
            forall|k: int| 0 <= k < i ==> s@[k] != '/',
        decreases s.len() - i,
    {
        i = i + 1;
    }
    let r = crate::text::take_chars(s, i);
    proof {
        lemma_before_first_slash(s@, i as int);
    }
    r
}

/// `before_first_slash` is the part up to the first `/`.
proof fn lemma_before_first_slash(s: Seq<char>, i: int)
    requires
        0 <= i <= s.len(),
        forall|k: int| 0 <= k < i ==> s[k] != '/',
        i == s.len() || s[i] == '/',
    ensures
        before_first_slash(s) == s.take(i),
    decreases i,
{
    if i > 0 {
        assert forall|k: int| 0 <= k < i - 1 implies s.drop_first()[k] != '/' by {
            assert(s.drop_first()[k] == s[k + 1]);
        }
        lemma_before_first_slash(s.drop_first(), i - 1);
        assert(s.take(i) == seq![s[0]] + s.drop_first().take(i - 1));
    }
}

/// The metadata that OpenRouter model `m`, matched by candidate `c`, gives `id`, with
/// the prices `cost`; `first` tells whether `c` was the first candidate.
fn openrouter_metadata(id: &str, c: &String, m: &OpenRouterModel, cost: &Option<Cost>, first: bool) -> (r: ResolvedMetadata)
    ensures
        r@ == from_openrouter(id@, c@, *m, opt_cost(*cost), first),
{
    let mut entry = ModelEntry::bare(id);
    entry.name = Some(m.name.clone());
    entry.family = Some(string_of(&before_first_slash_chars(&chars_of(m.id.as_str()))));
    entry.attachment = Some(crate::domain::strings_contain(&m.architecture.input_modalities, "image"));
    entry.modalities = Modalities {
        input: crate::domain::copy_strings(&m.architecture.input_modalities),
        output: crate::domain::strings_from(&vec!["text"]),
    };
    entry.tool_call = Some(crate::domain::strings_contain(&m.supported_parameters, "tools"));
    let r1 = crate::domain::strings_contain(&m.supported_parameters, "reasoning");
    let r2 = crate::domain::strings_contain(&m.supported_parameters, "include_reasoning");
    entry.reasoning = Some(r1 || r2);
    entry.limit = Limit { context: Some(m.context_length), input: None, output: None };
    entry.cost = match cost {
        Some(k) => Some(k.copy()),
        None => None,
    };
    let r = ResolvedMetadata {
        entry: entry,
        metadata_known: true,
        source: "openrouter",
        match_detail: ModelMatchDetail {
            source: "openrouter",
            provider: Some(string_of(&chars_of("openrouter"))),
            model_id: Some(m.id.clone()),
            candidate: Some(c.clone()),
            strategy: if first {
                "openrouter-candidate-or-substring"
            } else {
                "openrouter-candidate"
            },
            pattern: None,
        },
    };
    let ghost oe = openrouter_entry(id@, *m, opt_cost(*cost));
    assert(r@.entry.modalities.input == oe.modalities.input);
    assert(r@.entry.modalities.output == oe.modalities.output);
    assert(r@.entry.family == oe.family);
    assert(r@.entry.attachment == oe.attachment);
    assert(r@.entry.tool_call == oe.tool_call);
    assert(r@.entry.reasoning == oe.reasoning);
    assert(r@.entry.cost == oe.cost);
    assert(r@.entry.limit == oe.limit);
    assert(r@.entry == oe);
    r
}

/// The metadata for a provider's model `id`, with how it was found (see `resolve_from`):
/// the local library, models.dev and the OpenRouter list (`None` when it could not be
/// had), tried candidate by candidate. `openrouter_costs[k]` holds the prices of
/// `openrouter[k]` per million tokens.
pub fn resolve_model_metadata_detail(
    id: &str,
    scope: Option<&str>,
    models_dev: &ModelsDevData,
    local_library: &[ModelLibraryRow],
    openrouter: Option<&[OpenRouterModel]>,
    openrouter_costs: &[Option<Cost>],
) -> (r: ResolvedMetadata)
    ensures
        r@ == resolve_from(
            id@,
            candidates_of(id@),
            0,
            models_dev,
            match scope {
                Some(s) => Some(s@),
                None => None,
            },
            local_library@,
            match openrouter {
                Some(l) => Some(l@),
                None => None,
            },
            openrouter_costs@,
        ),
{
    let ghost sc = match scope {
        Some(s) => Some(s@),
        None => None,
    };
    let ghost orm = match openrouter {
        Some(l) => Some(l@),
        None => None,
    };
    let ghost lib = local_library@;
    let ghost costs = openrouter_costs@;
    let candidates = crate::candidates::generate_candidates(id);
    let ghost cands = candidates_of(id@);
    let mut i: usize = 0;
    while i < candidates.len()
        invariant
            i <= candidates@.len(),
            string_views(candidates@) == cands,
            cands == candidates_of(id@),
            lib == local_library@,
            costs == openrouter_costs@,
            sc == (match scope {
                Some(s) => Some(s@),
                None => None,
            }),
            orm == (match openrouter {
                Some(l) => Some(l@),
                None => None,
            }),
            resolve_from(id@, cands, 0, models_dev, sc, lib, orm, costs) == resolve_from(id@, cands, i as int, models_dev, sc, lib, orm, costs),
        decreases candidates.len() - i,
    {
        let c = &candidates[i];
        assert(cands[i as int] == c@);
        let cc = chars_of(c.as_str());
        if let Some(k) = find_library_row(local_library, &cc) {
            return library_metadata(id, c, &local_library[k]);
        }
        if let Some(known) = models_dev.lookup_with_origin(c.as_str(), scope) {
            return modelsdev_metadata(id, c.as_str(), known, "models.dev-exact-id");
        }
        if let Some(known) = lookup_modelsdev_by_candidate_with_origin(models_dev, c.as_str(), scope) {
            return modelsdev_metadata(id, c.as_str(), known, "models.dev-candidate-id");
        }
        if let Some(known) = models_dev.lookup_by_family_with_origin(c.as_str(), scope) {
            return modelsdev_metadata(id, c.as_str(), known, "models.dev-family");
        }
        if let Some(list) = openrouter {
            let allow_substring = i == 0;
            if let Some(k) = crate::candidates::openrouter_match_index(c.as_str(), list, allow_substring) {
                let cost = if k < openrouter_costs.len() {
                    match &openrouter_costs[k] {
                        Some(x) => Some(x.copy()),
                        None => None,
                    }
                } else {
                    None
                };
                return openrouter_metadata(id, c, &list[k], &cost, allow_substring);
            }
        }
        i = i + 1;
    }
    provider_only_metadata(id)
}

/// The metadata of an id found nowhere.
fn provider_only_metadata(id: &str) -> (r: ResolvedMetadata)
    ensures
        r@ == provider_only(id@),
{
    ResolvedMetadata {
        entry: ModelEntry::bare(id),
        metadata_known: false,
        source: "provider-only",
        match_detail: ModelMatchDetail {
            source: "provider-only",
            provider: None,
            model_id: None,
            candidate: None,
            strategy: "provider-only",
            pattern: None,
        },
    }
}

/// `resolve_model_metadata_detail` without the detail: the entry, whether metadata
/// was found, and where from.
pub fn resolve_model_metadata(
    id: &str,
    scope: Option<&str>,
    models_dev: &ModelsDevData,
    local_library: &[ModelLibraryRow],
    openrouter: Option<&[OpenRouterModel]>,
    openrouter_costs: &[Option<Cost>],
) -> (r: (ModelEntry, bool, &'static str))
    ensures
        ({
            let v = resolve_from(
                id@,
                candidates_of(id@),
                0,
                models_dev,
                match scope {
                    Some(s) => Some(s@),
                    None => None,
                },
                local_library@,
                match openrouter {
                    Some(l) => Some(l@),
                    None => None,
                },
                openrouter_costs@,
            );
            resolved_view(r) == (v.entry, v.metadata_known, v.source)
        }),
{
    let m = resolve_model_metadata_detail(id, scope, models_dev, local_library, openrouter, openrouter_costs);
    (m.entry, m.metadata_known, m.source)
}

/// What is known of one model of a provider: whether the provider lists it, and its metadata.
#[derive(Debug)]
pub struct ModelResolution {
    pub provider_id: String,
    pub id: String,
    pub available: bool,
    pub metadata_known: bool,
    pub source: &'static str,
    pub match_detail: ModelMatchDetail,
    pub entry: ModelEntry,
}

/// Resolves `model_id` of provider `provider_id`, whose live ids are `ids`: the model is
/// available when `ids` lists it, and its metadata is `resolve_model_metadata_detail`'s.
pub fn resolve_provider_model(
    provider_id: &str,
    model_id: &str,
    ids: &Vec<String>,
    scope: Option<&str>,
    models_dev: &ModelsDevData,
    local_library: &[ModelLibraryRow],
    openrouter: Option<&[OpenRouterModel]>,
    openrouter_costs: &[Option<Cost>],
) -> (r: ModelResolution)
    ensures
        r.provider_id@ == provider_id@,
        r.id@ == model_id@,
        r.available == string_views(ids@).contains(model_id@),
        ({
            let v = resolve_from(
                model_id@,
                candidates_of(model_id@),
                0,
                models_dev,
                match scope {
                    Some(s) => Some(s@),
                    None => None,
                },
                local_library@,
                match openrouter {
                    Some(l) => Some(l@),
                    None => None,
                },
                openrouter_costs@,
            );
            &&& r.metadata_known == v.metadata_known
            &&& r.source@ == v.source
            &&& r.match_detail@ == v.detail
            &&& r.entry@ == v.entry
        }),
{
    let m = resolve_model_metadata_detail(model_id, scope, models_dev, local_library, openrouter, openrouter_costs);
    ModelResolution {
        provider_id: string_of(&chars_of(provider_id)),
        id: string_of(&chars_of(model_id)),
        available: crate::domain::strings_contain(ids, model_id),
        metadata_known: m.metadata_known,
        source: m.source,
        match_detail: m.match_detail,
        entry: m.entry,
    }
}

/// The resolved metadata of each id, in order.
pub open spec fn resolve_all(
    ids: Seq<Seq<char>>,
    d: &ModelsDevData,
    scope: Option<Seq<char>>,
    lib: Seq<ModelLibraryRow>,
    or_models: Option<Seq<OpenRouterModel>>,
    or_costs: Seq<Option<Cost>>,
) -> Seq<ResolvedView> {
    ids.map_values(|id: Seq<char>| {
        let v = resolve_from(id, candidates_of(id), 0, d, scope, lib, or_models, or_costs);
        (v.entry, v.metadata_known, v.source)
    })
}

/// A provider's catalog built from its live ids: each id resolved, then joined with
/// the selection (see `build_catalog`) under no filter.
pub fn refresh_catalog(
    ids: &Vec<String>,
    scope: Option<&str>,
    models_dev: &ModelsDevData,
    local_library: &[ModelLibraryRow],
    openrouter: Option<&[OpenRouterModel]>,
    openrouter_costs: &[Option<Cost>],
    selected: &Vec<String>,
    customized: &Vec<String>,
) -> (r: CatalogResult)
    ensures
        r.total_available == ids@.len(),
        r.matched == r.models@.len(),
        row_views(r.models@) == catalog_of(
            resolve_all(
                string_views(ids@),
                models_dev,
                match scope {
                    Some(s) => Some(s@),
                    None => None,
                },
                local_library@,
                match openrouter {
                    Some(l) => Some(l@),
                    None => None,
                },
                openrouter_costs@,
            ),
            string_views(selected@),
            string_views(customized@),
            no_filters(),
        ),
{
    let ghost sc = match scope {
        Some(s) => Some(s@),
        None => None,
    };
    let ghost orm = match openrouter {
        Some(l) => Some(l@),
        None => None,
    };
    let ghost all = resolve_all(string_views(ids@), models_dev, sc, local_library@, orm, openrouter_costs@);
    let mut resolved: Vec<(ModelEntry, bool, &'static str)> = Vec::new();
    let mut i: usize = 0;
    while i < ids.len()
        invariant
            i <= ids@.len(),
            all == resolve_all(string_views(ids@), models_dev, sc, local_library@, orm, openrouter_costs@),
            sc == (match scope {
                Some(s) => Some(s@),
                None => None,
            }),
            orm == (match openrouter {
                Some(l) => Some(l@),
                None => None,
            }),
            resolved_views(resolved@) == all.take(i as int),
        decreases ids.len() - i,
    {
        let r = resolve_model_metadata(ids[i].as_str(), scope, models_dev, local_library, openrouter, openrouter_costs);
        let ghost before = resolved@;
        resolved.push(r);
        assert(resolved_views(resolved@) == resolved_views(before).push(resolved_view(r)));
        assert(all.take(i + 1) == all.take(i as int).push(all[i as int]));
        i = i + 1;
    }
    assert(all.take(ids@.len() as int) == all);
    let q = CatalogQuery::none();
    let models = build_catalog(resolved, selected, customized, &q);
    let matched = models.len();
    CatalogResult { total_available: ids.len(), matched: matched, models: models }
}

/// Whatever the inputs, a model's metadata counts as known exactly when it does not
/// come from the provider alone, and the detail names the same source as the metadata.
pub proof fn known_unless_provider_only(
    id: Seq<char>,
    cands: Seq<Seq<char>>,
    i: int,
    d: &ModelsDevData,
    scope: Option<Seq<char>>,
    lib: Seq<ModelLibraryRow>,
    or_models: Option<Seq<OpenRouterModel>>,
    or_costs: Seq<Option<Cost>>,
)
    ensures
        ({
            let r = resolve_from(id, cands, i, d, scope, lib, or_models, or_costs);
            &&& r.metadata_known <==> r.source != "provider-only"@
            &&& r.detail.source == r.source
        }),
    decreases cands.len() - i,
{
    reveal_strlit("provider-only");
    reveal_strlit("local-library");
    reveal_strlit("models.dev");
    reveal_strlit("openrouter");
    assert("provider-only"@[0] != "local-library"@[0]);
    assert("provider-only"@[0] != "models.dev"@[0]);
    assert("provider-only"@[0] != "openrouter"@[0]);
    if 0 <= i < cands.len() {
        known_unless_provider_only(id, cands, i + 1, d, scope, lib, or_models, or_costs);
    }
}


/// Metadata taken from the local library carries the flags and figures of a library
/// row whose pattern it names: its name, attachment, reasoning and tool-call flags
/// each from the same field of that row, and its context and output limits from the
/// row's, whatever the other fields hold.
pub proof fn library_metadata_copies_the_row(
    id: Seq<char>,
    cands: Seq<Seq<char>>,
    i: int,
    d: &ModelsDevData,
    scope: Option<Seq<char>>,
    lib: Seq<ModelLibraryRow>,
    or_models: Option<Seq<OpenRouterModel>>,
    or_costs: Seq<Option<Cost>>,
)
    ensures
        ({
            let r = resolve_from(id, cands, i, d, scope, lib, or_models, or_costs);
            r.source == "local-library"@ ==> exists|k: int|
                0 <= k < lib.len() && #[trigger] lib[k].pattern@ == r.detail.pattern->0 && r.detail.pattern is Some
                    && r.entry.name == Some(lib[k].name@) && r.entry.attachment == Some(lib[k].attachment)
                    && r.entry.reasoning == Some(lib[k].reasoning) && r.entry.tool_call == Some(lib[k].tool_call)
                    && r.entry.limit.context == (match lib[k].context {
                    Some(c) => Some(c as u64),
                    None => None,
                }) && r.entry.limit.output == (match lib[k].max_output {
                    Some(o) => Some(o as u64),
                    None => None,
                })
        }),
    decreases cands.len() - i,
{
    reveal_strlit("provider-only");
    reveal_strlit("local-library");
    reveal_strlit("models.dev");
    reveal_strlit("openrouter");
    assert("provider-only"@[0] != "local-library"@[0]);
    assert("models.dev"@[0] != "local-library"@[0]);
    assert("openrouter"@[0] != "local-library"@[0]);
    if 0 <= i < cands.len() {
        library_metadata_copies_the_row(id, cands, i + 1, d, scope, lib, or_models, or_costs);
        let c = cands[i];
        if let Some(k) = crate::candidates::first_index(lib, row_matches(c)) {
            crate::candidates::lemma_first_index_props(lib, row_matches(c));
            assert(lib[k].pattern@ == lib[k].pattern@);
        }
    }
}

} // verus!
