//! The model schema shared by models.dev, the selection snapshots and opencode.json.
use vstd::prelude::*;
use crate::json::{copy_json, JsonNumber, JsonValue, JsonView};
use crate::text::{chars_eq, chars_of, string_views};

verus! {

/// The view of an optional string.
pub open spec fn opt_view(o: Option<String>) -> Option<Seq<char>> {
    match o {
        Some(s) => Some(s@),
        None => None,
    }
}

/// The view of an optional JSON value.
pub open spec fn opt_json(o: Option<JsonValue>) -> Option<JsonView> {
    match o {
        Some(v) => Some(v@),
        None => None,
    }
}

/// A copy of an optional string.
pub fn copy_opt_string(o: &Option<String>) -> (r: Option<String>)
    ensures
        opt_view(r) == opt_view(*o),
{
    match o {
        Some(s) => Some(s.clone()),
        None => None,
    }
}

/// A copy of an optional JSON value.
pub fn copy_opt_json(o: &Option<JsonValue>) -> (r: Option<JsonValue>)
    ensures
        opt_json(r) == opt_json(*o),
{
    match o {
        Some(v) => Some(copy_json(v)),
        None => None,
    }
}

/// A copy of a list of strings.
pub fn copy_strings(v: &Vec<String>) -> (r: Vec<String>)
    ensures
        string_views(r@) == string_views(v@),
{
    let mut r: Vec<String> = Vec::new();
    let mut i: usize = 0;
    while i < v.len()
        invariant
            i <= v.len(),
            string_views(r@) == string_views(v@).take(i as int),
        decreases v.len() - i,
    {
        let s = v[i].clone();
        let ghost before = r@;
        r.push(s);
        assert(string_views(r@) == string_views(before).push(s@));
        assert(string_views(v@).take(i + 1) == string_views(v@).take(i as int).push(v@[i as int]@));
        i = i + 1;
    }
    assert(string_views(v@).take(v.len() as int) == string_views(v@));
    r
}

/// A list of strings holding the given literals.
pub fn strings_from(v: &Vec<&str>) -> (r: Vec<String>)
    ensures
        string_views(r@) == v@.map_values(|s: &str| s@),
{
    let mut r: Vec<String> = Vec::new();
    let mut i: usize = 0;
    while i < v.len()
        invariant
            i <= v.len(),
            string_views(r@) == v@.map_values(|s: &str| s@).take(i as int),
        decreases v.len() - i,
    {
        let s = crate::text::string_of(&chars_of(v[i]));
        let ghost before = r@;
        r.push(s);
        assert(string_views(r@) == string_views(before).push(s@));
        assert(v@.map_values(|s: &str| s@).take(i + 1) == v@.map_values(|s: &str| s@).take(i as int).push(v@[i as int]@));
        i = i + 1;
    }
    assert(v@.map_values(|s: &str| s@).take(v.len() as int) == v@.map_values(|s: &str| s@));
    r
}

/// Whether the list of strings holds `s`.
pub fn strings_contain(v: &Vec<String>, s: &str) -> (b: bool)
    ensures
        b == string_views(v@).contains(s@),
{
    let sc = chars_of(s);
    let mut i: usize = 0;
    while i < v.len()
        invariant
            i <= v.len(),
            sc@ == s@,
            forall|k: int| 0 <= k < i ==> string_views(v@)[k] != s@,
        decreases v.len() - i,
    {
        if chars_eq(&chars_of(v[i].as_str()), &sc) {
            assert(string_views(v@)[i as int] == s@);
            return true;
        }
        i = i + 1;
    }
    false
}

/// Input and output modalities of a model.
#[derive(Debug)]
pub struct Modalities {
    pub input: Vec<String>,
    pub output: Vec<String>,
}

/// Token limits of a model.
#[derive(Debug, Clone, Copy, PartialEq, Eq, Structural)]
pub struct Limit {
    pub context: Option<u64>,
    pub input: Option<u64>,
    pub output: Option<u64>,
}

/// Prices of a model. Plain prices are numbers; the tiered forms stay JSON.
#[derive(Debug)]
pub struct Cost {
    pub input: Option<JsonNumber>,
    pub output: Option<JsonNumber>,
    pub cache_read: Option<JsonNumber>,
    pub cache_write: Option<JsonNumber>,
    pub input_audio: Option<JsonNumber>,
    pub output_audio: Option<JsonNumber>,
    pub reasoning: Option<JsonNumber>,
    pub context_over_200k: Option<JsonValue>,
    pub tiers: Option<JsonValue>,
}

/// A single model entry: the same shape as a models.dev or opencode `models[id]` object.
#[derive(Debug)]
pub struct ModelEntry {
    pub id: String,
    pub name: Option<String>,
    pub family: Option<String>,
    pub attachment: Option<bool>,
    pub reasoning: Option<bool>,
    pub tool_call: Option<bool>,
    pub temperature: Option<bool>,
    pub release_date: Option<String>,
    pub last_updated: Option<String>,
    pub knowledge: Option<String>,
    pub status: Option<String>,
    pub open_weights: Option<bool>,
    pub structured_output: Option<bool>,
    pub experimental: Option<JsonValue>,
    pub interleaved: Option<JsonValue>,
    pub provider: Option<JsonValue>,
    pub modalities: Modalities,
    pub limit: Limit,
    pub cost: Option<Cost>,
}

/// The mathematical form of `Modalities`.
pub struct ModalitiesView {
    pub input: Seq<Seq<char>>,
    pub output: Seq<Seq<char>>,
}

/// The mathematical form of `Cost`.
pub struct CostView {
    pub input: Option<JsonNumber>,
    pub output: Option<JsonNumber>,
    pub cache_read: Option<JsonNumber>,
    pub cache_write: Option<JsonNumber>,
    pub input_audio: Option<JsonNumber>,
    pub output_audio: Option<JsonNumber>,
    pub reasoning: Option<JsonNumber>,
    pub context_over_200k: Option<JsonView>,
    pub tiers: Option<JsonView>,
}

/// The mathematical form of `ModelEntry`.
pub struct ModelEntryView {
    pub id: Seq<char>,
    pub name: Option<Seq<char>>,
    pub family: Option<Seq<char>>,
    pub attachment: Option<bool>,
    pub reasoning: Option<bool>,
    pub tool_call: Option<bool>,
    pub temperature: Option<bool>,
    pub release_date: Option<Seq<char>>,
    pub last_updated: Option<Seq<char>>,
    pub knowledge: Option<Seq<char>>,
    pub status: Option<Seq<char>>,
    pub open_weights: Option<bool>,
    pub structured_output: Option<bool>,
    pub experimental: Option<JsonView>,
    pub interleaved: Option<JsonView>,
    pub provider: Option<JsonView>,
    pub modalities: ModalitiesView,
    pub limit: Limit,
    pub cost: Option<CostView>,
}

impl View for Modalities {
    type V = ModalitiesView;

    open spec fn view(&self) -> ModalitiesView {
        ModalitiesView { input: string_views(self.input@), output: string_views(self.output@) }
    }
}

impl View for Cost {
    type V = CostView;

    open spec fn view(&self) -> CostView {
        CostView {
            input: self.input,
            output: self.output,
            cache_read: self.cache_read,
            cache_write: self.cache_write,
            input_audio: self.input_audio,
            output_audio: self.output_audio,
            reasoning: self.reasoning,
            context_over_200k: opt_json(self.context_over_200k),
            tiers: opt_json(self.tiers),
        }
    }
}

/// The view of an optional cost.
pub open spec fn opt_cost(o: Option<Cost>) -> Option<CostView> {
    match o {
        Some(c) => Some(c@),
        None => None,
    }
}

impl View for ModelEntry {
    type V = ModelEntryView;

    open spec fn view(&self) -> ModelEntryView {
        ModelEntryView {
            id: self.id@,
            name: opt_view(self.name),
            family: opt_view(self.family),
            attachment: self.attachment,
            reasoning: self.reasoning,
            tool_call: self.tool_call,
            temperature: self.temperature,
            release_date: opt_view(self.release_date),
            last_updated: opt_view(self.last_updated),
            knowledge: opt_view(self.knowledge),
            status: opt_view(self.status),
            open_weights: self.open_weights,
            structured_output: self.structured_output,
            experimental: opt_json(self.experimental),
            interleaved: opt_json(self.interleaved),
            provider: opt_json(self.provider),
            modalities: self.modalities@,
            limit: self.limit,
            cost: opt_cost(self.cost),
        }
    }
}

/// A limit with nothing set.
pub open spec fn no_limit() -> Limit {
    Limit { context: None, input: None, output: None }
}

/// The entry for an id that has no metadata: only the id is set.
pub open spec fn bare_view(id: Seq<char>) -> ModelEntryView {
    ModelEntryView {
        id: id,
        name: None,
        family: None,
        attachment: None,
        reasoning: None,
        tool_call: None,
        temperature: None,
        release_date: None,
        last_updated: None,
        knowledge: None,
        status: None,
        open_weights: None,
        structured_output: None,
        experimental: None,
        interleaved: None,
        provider: None,
        modalities: ModalitiesView { input: Seq::empty(), output: Seq::empty() },
        limit: no_limit(),
        cost: None,
    }
}

/// Whether an entry lists `modality` among its input modalities.
pub open spec fn supports_view(e: ModelEntryView, modality: Seq<char>) -> bool {
    e.modalities.input.contains(modality)
}

impl Modalities {
    /// No modalities.
    pub fn empty() -> (m: Modalities)
        ensures
            m@.input == Seq::<Seq<char>>::empty(),
            m@.output == Seq::<Seq<char>>::empty(),
    {
        Modalities { input: Vec::new(), output: Vec::new() }
    }

    /// A copy of these modalities.
    pub fn copy(&self) -> (r: Modalities)
        ensures
            r@ == self@,
    {
        Modalities { input: copy_strings(&self.input), output: copy_strings(&self.output) }
    }
}

impl Limit {
    /// A limit with nothing set.
    pub fn none() -> (l: Limit)
        ensures
            l == no_limit(),
    {
        Limit { context: None, input: None, output: None }
    }
}

impl Cost {
    /// A copy of this cost.
    pub fn copy(&self) -> (r: Cost)
        ensures
            r@ == self@,
    {
        Cost {
            input: self.input,
            output: self.output,
            cache_read: self.cache_read,
            cache_write: self.cache_write,
            input_audio: self.input_audio,
            output_audio: self.output_audio,
            reasoning: self.reasoning,
            context_over_200k: copy_opt_json(&self.context_over_200k),
            tiers: copy_opt_json(&self.tiers),
        }
    }
}

impl ModelEntry {
    /// A minimal entry for an id with no models.dev metadata.
    pub fn bare(id: &str) -> (e: ModelEntry)
        ensures
            e@ == bare_view(id@),
    {
        let idc = chars_of(id);
        ModelEntry {
            id: crate::text::string_of(&idc),
            name: None,
            family: None,
            attachment: None,
            reasoning: None,
            tool_call: None,
            temperature: None,
            release_date: None,
            last_updated: None,
            knowledge: None,
            status: None,
            open_weights: None,
            structured_output: None,
            experimental: None,
            interleaved: None,
            provider: None,
            modalities: Modalities::empty(),
            limit: Limit::none(),
            cost: None,
        }
    }

    /// Whether the model accepts `modality` as input.
    pub fn supports(&self, modality: &str) -> (b: bool)
        ensures
            b == supports_view(self@, modality@),
    {
        strings_contain(&self.modalities.input, modality)
    }

    /// The model's context window, when known.
    pub fn context(&self) -> (c: Option<u64>)
        ensures
            c == self@.limit.context,
    {
        self.limit.context
    }

    /// A copy of this entry.
    pub fn copy(&self) -> (r: ModelEntry)
        ensures
            r@ == self@,
    {
        ModelEntry {
            id: self.id.clone(),
            name: copy_opt_string(&self.name),
            family: copy_opt_string(&self.family),
            attachment: self.attachment,
            reasoning: self.reasoning,
            tool_call: self.tool_call,
            temperature: self.temperature,
            release_date: copy_opt_string(&self.release_date),
            last_updated: copy_opt_string(&self.last_updated),
            knowledge: copy_opt_string(&self.knowledge),
            status: copy_opt_string(&self.status),
            open_weights: self.open_weights,
            structured_output: self.structured_output,
            experimental: copy_opt_json(&self.experimental),
            interleaved: copy_opt_json(&self.interleaved),
            provider: copy_opt_json(&self.provider),
            modalities: self.modalities.copy(),
            limit: self.limit,
            cost: match &self.cost {
                Some(c) => Some(c.copy()),
                None => None,
            },
        }
    }
}

/// Per-row metadata layered on top of a `ModelEntry` in the catalog listing.
#[derive(Debug)]
pub struct ModelMeta {
    pub is_selected: bool,
    pub has_custom_config: bool,
    /// False when the id came only from the provider and no metadata was found.
    pub metadata_known: bool,
    pub source: &'static str,
}

/// A catalog row: the model entry plus its catalog metadata.
#[derive(Debug)]
pub struct CatalogModel {
    pub entry: ModelEntry,
    pub meta: ModelMeta,
}

} // verus!
