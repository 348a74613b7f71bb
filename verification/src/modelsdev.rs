//! The models.dev metadata index: every provider's models, and a global id index in
//! which the provider with the best priority wins on an id collision.
use vstd::prelude::*;
use crate::candidates::match_score;
use crate::catalog::{chars_lt, seq_lt, str_eq};
use crate::domain::{opt_json, opt_view, ModelEntry, ModelEntryView};
use crate::json::JsonValue;
use crate::text::{chars_of, lowercase_chars, lowercased};

verus! {

/// Where an indexed model came from: the models.dev provider key and the model's key there.
#[derive(Debug)]
pub struct ModelsDevOrigin {
    pub provider: String,
    pub model_id: String,
}

impl ModelsDevOrigin {
    /// A copy of this origin.
    pub fn copy(&self) -> (r: ModelsDevOrigin)
        ensures
            r.provider@ == self.provider@,
            r.model_id@ == self.model_id@,
    {
        ModelsDevOrigin { provider: self.provider.clone(), model_id: self.model_id.clone() }
    }
}

/// One models.dev provider with its models.
#[derive(Debug)]
pub struct ModelsDevProvider {
    pub key: String,
    pub id: Option<String>,
    pub name: Option<String>,
    pub npm: Option<String>,
    pub api: Option<JsonValue>,
    pub doc: Option<JsonValue>,
    pub env: Option<JsonValue>,
    pub priority: i64,
    pub raw: JsonValue,
    pub models: Vec<(String, ModelEntry)>,
}

/// The models.dev index. Each list has distinct keys, like the maps it stands for.
#[derive(Debug)]
pub struct ModelsDevData {
    pub providers: Vec<ModelsDevProvider>,
    /// Global index: model id to entry. The first provider (by priority) wins on a collision.
    pub by_id: Vec<(String, ModelEntry)>,
    /// Origin of each entry of `by_id`, under the same model id.
    pub by_id_origin: Vec<(String, ModelsDevOrigin)>,
    /// Per-provider models, keyed by the models.dev provider key.
    pub by_provider: Vec<(String, Vec<(String, ModelEntry)>)>,
}

/// A model found in the index, with where it came from when known.
#[derive(Debug)]
pub struct ModelsDevLookup<'a> {
    pub entry: &'a ModelEntry,
    pub origin: Option<ModelsDevOrigin>,
}

/// The mathematical form of a lookup result: the entry and the (provider, model id) origin.
pub struct LookupView {
    pub entry: ModelEntryView,
    pub origin: Option<(Seq<char>, Seq<char>)>,
}

/// The mathematical form of an optional lookup result.
pub open spec fn lookup_view(r: Option<ModelsDevLookup>) -> Option<LookupView> {
    match r {
        Some(l) => Some(LookupView {
            entry: l.entry@,
            origin: match l.origin {
                Some(o) => Some((o.provider@, o.model_id@)),
                None => None,
            },
        }),
        None => None,
    }
}

/// The (key, entry) pairs of a model list.
pub open spec fn model_list(v: Seq<(String, ModelEntry)>) -> Seq<(Seq<char>, ModelEntryView)> {
    v.map_values(|p: (String, ModelEntry)| (p.0@, p.1@))
}

/// The (key, models) pairs of the per-provider index.
pub open spec fn provider_list(v: Seq<(String, Vec<(String, ModelEntry)>)>) -> Seq<(Seq<char>, Seq<(Seq<char>, ModelEntryView)>)> {
    v.map_values(|p: (String, Vec<(String, ModelEntry)>)| (p.0@, model_list(p.1@)))
}

/// The (model id, origin) pairs of the origin index.
pub open spec fn origin_list(v: Seq<(String, ModelsDevOrigin)>) -> Seq<(Seq<char>, (Seq<char>, Seq<char>))> {
    v.map_values(|p: (String, ModelsDevOrigin)| (p.0@, (p.1.provider@, p.1.model_id@)))
}

/// The position of the first pair whose key is `k`.
pub open spec fn first_key<A>(es: Seq<(Seq<char>, A)>, k: Seq<char>) -> Option<int> {
    crate::candidates::first_index(es, |p: (Seq<char>, A)| p.0 == k)
}

/// Whether two characters are equal ignoring ASCII case.
pub open spec fn ascii_fold_eq(a: char, b: char) -> bool {
    let x = a as u32;
    let y = b as u32;
    x == y || (65 <= x <= 90 && x + 32 == y) || (65 <= y <= 90 && y + 32 == x)
}

/// Whether `a` and `b` are equal ignoring ASCII case (`str::eq_ignore_ascii_case`).
pub open spec fn eq_ignore_ascii_case(a: Seq<char>, b: Seq<char>) -> bool {
    a.len() == b.len() && forall|i: int| 0 <= i < a.len() ==> ascii_fold_eq(#[trigger] a[i], b[i])
}

/// The position of the first pair whose key equals `k` ignoring ASCII case.
pub open spec fn first_key_ci<A>(es: Seq<(Seq<char>, A)>, k: Seq<char>) -> Option<int> {
    crate::candidates::first_index(es, |p: (Seq<char>, A)| eq_ignore_ascii_case(p.0, k))
}

/// The origin recorded for model id `k`.
pub open spec fn origin_of(os: Seq<(Seq<char>, (Seq<char>, Seq<char>))>, k: Seq<char>) -> Option<(Seq<char>, Seq<char>)> {
    match first_key(os, k) {
        Some(i) => Some(os[i].1),
        None => None,
    }
}

/// The lookup of `id` inside provider `key`: the model with that key, else the first
/// whose key equals it ignoring ASCII case.
pub open spec fn scoped_lookup(
    provs: Seq<(Seq<char>, Seq<(Seq<char>, ModelEntryView)>)>,
    key: Seq<char>,
    id: Seq<char>,
) -> Option<LookupView> {
    match first_key(provs, key) {
        Some(pi) => {
            let ms = provs[pi].1;
            match first_key(ms, id) {
                Some(mi) => Some(LookupView { entry: ms[mi].1, origin: Some((key, id)) }),
                None => match first_key_ci(ms, id) {
                    Some(mi) => Some(LookupView { entry: ms[mi].1, origin: Some((key, ms[mi].0)) }),
                    None => None,
                },
            }
        },
        None => None,
    }
}

/// Looking up model `id`: inside the scoped provider first (exact key, then ignoring
/// ASCII case), then in the global index (exact id, then ignoring ASCII case), with
/// the origin recorded for the id found.
pub open spec fn lookup_spec(
    provs: Seq<(Seq<char>, Seq<(Seq<char>, ModelEntryView)>)>,
    by_id: Seq<(Seq<char>, ModelEntryView)>,
    origins: Seq<(Seq<char>, (Seq<char>, Seq<char>))>,
    id: Seq<char>,
    scope: Option<Seq<char>>,
) -> Option<LookupView> {
    let scoped = match scope {
        Some(key) => scoped_lookup(provs, key, id),
        None => None,
    };
    if scoped is Some {
        scoped
    } else {
        match first_key(by_id, id) {
            Some(k) => Some(LookupView { entry: by_id[k].1, origin: origin_of(origins, id) }),
            None => match first_key_ci(by_id, id) {
                Some(k) => Some(LookupView { entry: by_id[k].1, origin: origin_of(origins, by_id[k].0) }),
                None => None,
            },
        }
    }
}

/// Whether an entry's family equals `fl` after lowercasing.
pub open spec fn family_is(e: ModelEntryView, fl: Seq<char>) -> bool {
    e.family matches Some(f) && lowercased(f) == fl
}

/// Looking up a model by family (ignoring case): the first such model of the scoped
/// provider, else the first of the global index.
pub open spec fn family_lookup_spec(
    provs: Seq<(Seq<char>, Seq<(Seq<char>, ModelEntryView)>)>,
    by_id: Seq<(Seq<char>, ModelEntryView)>,
    origins: Seq<(Seq<char>, (Seq<char>, Seq<char>))>,
    family: Seq<char>,
    scope: Option<Seq<char>>,
) -> Option<LookupView> {
    let fl = lowercased(family);
    let scoped = match scope {
        Some(key) => match first_key(provs, key) {
            Some(pi) => {
                let ms = provs[pi].1;
                match crate::candidates::first_index(ms, |p: (Seq<char>, ModelEntryView)| family_is(p.1, fl)) {
                    Some(mi) => Some(LookupView { entry: ms[mi].1, origin: Some((key, ms[mi].0)) }),
                    None => None,
                }
            },
            None => None,
        },
        None => None,
    };
    if scoped is Some {
        scoped
    } else {
        match crate::candidates::first_index(by_id, |p: (Seq<char>, ModelEntryView)| family_is(p.1, fl)) {
            Some(k) => Some(LookupView { entry: by_id[k].1, origin: origin_of(origins, by_id[k].0) }),
            None => None,
        }
    }
}

/// Whether the characters `a` and `b` are equal ignoring ASCII case.
pub fn eq_ignore_ascii_case_chars(a: &Vec<char>, b: &Vec<char>) -> (r: bool)
    ensures
        r == eq_ignore_ascii_case(a@, b@),
{
    if a.len() != b.len() {
        return false;
    }
    let mut i: usize = 0;
    while i < a.len()
        invariant
            a.len() == b.len(),
            i <= a.len(),
            forall|k: int| 0 <= k < i ==> ascii_fold_eq(#[trigger] a@[k], b@[k]),
        decreases a.len() - i,
    {
        let x = a[i] as u32;
        let y = b[i] as u32;
        let ok = x == y || (65 <= x && x <= 90 && x + 32 == y) || (65 <= y && y <= 90 && y + 32 == x);
        if !ok {
            return false;
        }
        i = i + 1;
    }
    true
}

/// Where key `k` stands in a list of pairs keyed by strings.
fn find_model(es: &Vec<(String, ModelEntry)>, k: &str) -> (r: Option<usize>)
    ensures
        r matches Some(i) ==> first_key(model_list(es@), k@) == Some(i as int) && i < es@.len(),
        r is None ==> first_key(model_list(es@), k@) is None,
{
    let ghost ms = model_list(es@);
    let ghost p = |q: (Seq<char>, ModelEntryView)| q.0 == k@;
    let mut i: usize = 0;
    while i < es.len()
        invariant
            i <= es.len(),
            ms == model_list(es@),
            p == |q: (Seq<char>, ModelEntryView)| q.0 == k@,
            forall|j: int| 0 <= j < i ==> !p(#[trigger] ms[j]),
        decreases es.len() - i,
    {
        if str_eq(es[i].0.as_str(), k) {
            proof {
                crate::candidates::lemma_first_index_found(ms, p, i as int);
            }
            return Some(i);
        }
        i = i + 1;
    }
    proof {
        crate::candidates::lemma_first_index_none(ms, p);
    }
    None
}

/// Where the first key equal to `k` ignoring ASCII case stands.
fn find_model_ci(es: &Vec<(String, ModelEntry)>, k: &str) -> (r: Option<usize>)
    ensures
        r matches Some(i) ==> first_key_ci(model_list(es@), k@) == Some(i as int) && i < es@.len(),
        r is None ==> first_key_ci(model_list(es@), k@) is None,
{
    let ghost ms = model_list(es@);
    let ghost p = |q: (Seq<char>, ModelEntryView)| eq_ignore_ascii_case(q.0, k@);
    let kc = chars_of(k);
    let mut i: usize = 0;
    while i < es.len()
        invariant
            i <= es.len(),
            kc@ == k@,
            ms == model_list(es@),
            p == |q: (Seq<char>, ModelEntryView)| eq_ignore_ascii_case(q.0, k@),
            forall|j: int| 0 <= j < i ==> !p(#[trigger] ms[j]),
        decreases es.len() - i,
    {
        if eq_ignore_ascii_case_chars(&chars_of(es[i].0.as_str()), &kc) {
            proof {
                crate::candidates::lemma_first_index_found(ms, p, i as int);
            }
            return Some(i);
        }
        i = i + 1;
    }
    proof {
        crate::candidates::lemma_first_index_none(ms, p);
    }
    None
}

/// Where provider `k` stands in the per-provider index.
fn find_provider(ps: &Vec<(String, Vec<(String, ModelEntry)>)>, k: &str) -> (r: Option<usize>)
    ensures
        r matches Some(i) ==> first_key(provider_list(ps@), k@) == Some(i as int) && i < ps@.len(),
        r is None ==> first_key(provider_list(ps@), k@) is None,
{
    let ghost pl = provider_list(ps@);
    let ghost p = |q: (Seq<char>, Seq<(Seq<char>, ModelEntryView)>)| q.0 == k@;
    let mut i: usize = 0;
    while i < ps.len()
        invariant
            i <= ps.len(),
            pl == provider_list(ps@),
            p == |q: (Seq<char>, Seq<(Seq<char>, ModelEntryView)>)| q.0 == k@,
            forall|j: int| 0 <= j < i ==> !p(#[trigger] pl[j]),
        decreases ps.len() - i,
    {
        if str_eq(ps[i].0.as_str(), k) {
            proof {
                crate::candidates::lemma_first_index_found(pl, p, i as int);
            }
            return Some(i);
        }
        i = i + 1;
    }
    proof {
        crate::candidates::lemma_first_index_none(pl, p);
    }
    None
}

/// The origin recorded for model id `k`.
fn find_origin(os: &Vec<(String, ModelsDevOrigin)>, k: &str) -> (r: Option<ModelsDevOrigin>)
    ensures
        match r {
            Some(o) => origin_of(origin_list(os@), k@) == Some((o.provider@, o.model_id@)),
            None => origin_of(origin_list(os@), k@) is None,
        },
{
    let ghost ol = origin_list(os@);
    let ghost p = |q: (Seq<char>, (Seq<char>, Seq<char>))| q.0 == k@;
    let mut i: usize = 0;
    while i < os.len()
        invariant
            i <= os.len(),
            ol == origin_list(os@),
            p == |q: (Seq<char>, (Seq<char>, Seq<char>))| q.0 == k@,
            forall|j: int| 0 <= j < i ==> !p(#[trigger] ol[j]),
        decreases os.len() - i,
    {
        if str_eq(os[i].0.as_str(), k) {
            proof {
                crate::candidates::lemma_first_index_found(ol, p, i as int);
            }
            return Some(os[i].1.copy());
        }
        i = i + 1;
    }
    proof {
        crate::candidates::lemma_first_index_none(ol, p);
    }
    None
}

impl ModelsDevData {
    /// The index's providers, global index and origins, in mathematical form.
    pub open spec fn provs(&self) -> Seq<(Seq<char>, Seq<(Seq<char>, ModelEntryView)>)> {
        provider_list(self.by_provider@)
    }

    pub open spec fn ids(&self) -> Seq<(Seq<char>, ModelEntryView)> {
        model_list(self.by_id@)
    }

    pub open spec fn origins(&self) -> Seq<(Seq<char>, (Seq<char>, Seq<char>))> {
        origin_list(self.by_id_origin@)
    }

    /// Whether the global index holds each model id once, as the map it stands for does.
    pub open spec fn ids_distinct(&self) -> bool {
        forall|a: int, b: int|
            0 <= a < b < self.ids().len() ==> (#[trigger] self.ids()[a]).0 != (#[trigger] self.ids()[b]).0
    }

    /// An empty index.
    pub fn new() -> (d: ModelsDevData)
        ensures
            d.ids_distinct(),
            d.providers@.len() == 0,
            d.by_id@.len() == 0,
            d.by_id_origin@.len() == 0,
            d.by_provider@.len() == 0,
    {
        ModelsDevData { providers: Vec::new(), by_id: Vec::new(), by_id_origin: Vec::new(), by_provider: Vec::new() }
    }

    /// Looks up model `id` (see `lookup_spec`): in the scoped provider first, then globally,
    /// each time by exact key and then ignoring ASCII case.
    pub fn lookup_with_origin(&self, id: &str, scope: Option<&str>) -> (r: Option<ModelsDevLookup<'_>>)
        ensures
            lookup_view(r) == lookup_spec(self.provs(), self.ids(), self.origins(), id@, match scope {
                Some(s) => Some(s@),
                None => None,
            }),
    {
        if let Some(key) = scope {
            if let Some(pi) = find_provider(&self.by_provider, key) {
                let ms = &self.by_provider[pi].1;
                assert(self.provs()[pi as int].1 == model_list(ms@));
                if let Some(mi) = find_model(ms, id) {
                    let kc = chars_of(key);
                    let ic = chars_of(id);
                    return Some(ModelsDevLookup {
                        entry: &ms[mi].1,
                        origin: Some(ModelsDevOrigin { provider: crate::text::string_of(&kc), model_id: crate::text::string_of(&ic) }),
                    });
                }
                if let Some(mi) = find_model_ci(ms, id) {
                    let kc = chars_of(key);
                    return Some(ModelsDevLookup {
                        entry: &ms[mi].1,
                        origin: Some(ModelsDevOrigin { provider: crate::text::string_of(&kc), model_id: ms[mi].0.clone() }),
                    });
                }
            }
        }
        if let Some(k) = find_model(&self.by_id, id) {
            return Some(ModelsDevLookup { entry: &self.by_id[k].1, origin: find_origin(&self.by_id_origin, id) });
        }
        if let Some(k) = find_model_ci(&self.by_id, id) {
            return Some(ModelsDevLookup {
                entry: &self.by_id[k].1,
                origin: find_origin(&self.by_id_origin, self.by_id[k].0.as_str()),
            });
        }
        None
    }

    /// The number of models in the global index.
    pub fn model_count(&self) -> (n: usize)
        ensures
            n == self.by_id@.len(),
    {
        self.by_id.len()
    }
}

} // verus!

verus! {

/// Where the first model of the list whose family is `fl` (after lowercasing) stands.
fn find_family(es: &Vec<(String, ModelEntry)>, fl: &Vec<char>) -> (r: Option<usize>)
    ensures
        r matches Some(i) ==> i < es@.len() && crate::candidates::first_index(
            model_list(es@),
            |p: (Seq<char>, ModelEntryView)| family_is(p.1, fl@),
        ) == Some(i as int),
        r is None ==> crate::candidates::first_index(
            model_list(es@),
            |p: (Seq<char>, ModelEntryView)| family_is(p.1, fl@),
        ) is None,
{
    let ghost ms = model_list(es@);
    let ghost p = |q: (Seq<char>, ModelEntryView)| family_is(q.1, fl@);
    let mut i: usize = 0;
    while i < es.len()
        invariant
            i <= es.len(),
            ms == model_list(es@),
            p == |q: (Seq<char>, ModelEntryView)| family_is(q.1, fl@),
            forall|j: int| 0 <= j < i ==> !p(#[trigger] ms[j]),
        decreases es.len() - i,
    {
        let hit = match &es[i].1.family {
            Some(f) => crate::text::chars_eq(&lowercase_chars(&chars_of(f.as_str())), fl),
            None => false,
        };
        if hit {
            proof {
                crate::candidates::lemma_first_index_found(ms, p, i as int);
            }
            return Some(i);
        }
        i = i + 1;
    }
    proof {
        crate::candidates::lemma_first_index_none(ms, p);
    }
    None
}

impl ModelsDevData {
    /// Looks up a model by family, ignoring case (see `family_lookup_spec`).
    pub fn lookup_by_family_with_origin(&self, family: &str, scope: Option<&str>) -> (r: Option<ModelsDevLookup<'_>>)
        ensures
            lookup_view(r) == family_lookup_spec(self.provs(), self.ids(), self.origins(), family@, match scope {
                Some(s) => Some(s@),
                None => None,
            }),
    {
        let fl = lowercase_chars(&chars_of(family));
        if let Some(key) = scope {
            if let Some(pi) = find_provider(&self.by_provider, key) {
                let ms = &self.by_provider[pi].1;
                assert(self.provs()[pi as int].1 == model_list(ms@));
                if let Some(mi) = find_family(ms, &fl) {
                    let kc = chars_of(key);
                    return Some(ModelsDevLookup {
                        entry: &ms[mi].1,
                        origin: Some(ModelsDevOrigin { provider: crate::text::string_of(&kc), model_id: ms[mi].0.clone() }),
                    });
                }
            }
        }
        if let Some(k) = find_family(&self.by_id, &fl) {
            return Some(ModelsDevLookup {
                entry: &self.by_id[k].1,
                origin: find_origin(&self.by_id_origin, self.by_id[k].0.as_str()),
            });
        }
        None
    }
}

/// Rank of a models.dev provider when several match a candidate: lower is preferred.
pub open spec fn provider_rank_spec(p: Seq<char>) -> usize {
    if p == "openrouter"@ {
        0
    } else if p == "xai"@ {
        10
    } else if p == "vercel"@ {
        20
    } else if p == "kilo"@ {
        30
    } else if p == "302ai"@ {
        40
    } else if p == "venice"@ {
        50
    } else if p == "poe"@ {
        1000
    } else {
        100
    }
}

/// Rank of a models.dev provider when several match a candidate (OpenRouter first,
/// POE last, unknown providers in between).
pub fn modelsdev_provider_rank(provider: &str) -> (r: usize)
    ensures
        r == provider_rank_spec(provider@),
{
    if str_eq(provider, "openrouter") {
        0
    } else if str_eq(provider, "xai") {
        10
    } else if str_eq(provider, "vercel") {
        20
    } else if str_eq(provider, "kilo") {
        30
    } else if str_eq(provider, "302ai") {
        40
    } else if str_eq(provider, "venice") {
        50
    } else if str_eq(provider, "poe") {
        1000
    } else {
        100
    }
}

/// Default priority of a models.dev provider, used to order providers when the same
/// model id appears under several of them.
pub open spec fn default_priority_spec(p: Seq<char>) -> i64 {
    provider_rank_spec(p) as i64
}

/// Default priority of a models.dev provider (OpenRouter first, POE last, unknown
/// providers at 100).
pub fn default_provider_priority(provider: &str) -> (r: i64)
    ensures
        r == default_priority_spec(provider@),
{
    modelsdev_provider_rank(provider) as i64
}

/// A candidate match: its score, provider rank and (provider, model id) origin, and the entry.
pub struct CandidateMatch {
    pub score: u8,
    pub entry: ModelEntryView,
    pub provider: Seq<char>,
    pub model_id: Seq<char>,
}

/// Whether match `a` is preferred to `b`: lower score, then lower provider rank, then
/// smaller model id.
pub open spec fn match_before(a: CandidateMatch, b: CandidateMatch) -> bool {
    a.score < b.score || (a.score == b.score && (provider_rank_spec(a.provider) < provider_rank_spec(b.provider) || (
    provider_rank_spec(a.provider) == provider_rank_spec(b.provider) && seq_lt(a.model_id, b.model_id))))
}

/// The matches of candidate `c` among the models of provider `key`, in list order.
pub open spec fn matches_in(key: Seq<char>, ms: Seq<(Seq<char>, ModelEntryView)>, c: Seq<char>) -> Seq<CandidateMatch>
    decreases ms.len(),
{
    if ms.len() == 0 {
        Seq::empty()
    } else {
        let prev = matches_in(key, ms.drop_last(), c);
        match match_score(c, ms.last().1.id) {
            Some(s) => prev.push(CandidateMatch { score: s, entry: ms.last().1, provider: key, model_id: ms.last().0 }),
            None => prev,
        }
    }
}

/// The matches of candidate `c` among all providers, in list order.
pub open spec fn matches_all(provs: Seq<(Seq<char>, Seq<(Seq<char>, ModelEntryView)>)>, c: Seq<char>) -> Seq<CandidateMatch>
    decreases provs.len(),
{
    if provs.len() == 0 {
        Seq::empty()
    } else {
        matches_all(provs.drop_last(), c) + matches_in(provs.last().0, provs.last().1, c)
    }
}

/// The preferred match of a list: the first among those that no other is preferred to.
pub open spec fn best_match(ms: Seq<CandidateMatch>) -> Option<CandidateMatch>
    decreases ms.len(),
{
    if ms.len() == 0 {
        None
    } else {
        match best_match(ms.drop_last()) {
            None => Some(ms.last()),
            Some(b) => if match_before(ms.last(), b) {
                Some(ms.last())
            } else {
                Some(b)
            },
        }
    }
}

/// The model that candidate `c` matches best (see `match_score` and `match_before`):
/// inside the scoped provider when a scope is given, else across all providers.
pub open spec fn candidate_lookup_spec(
    provs: Seq<(Seq<char>, Seq<(Seq<char>, ModelEntryView)>)>,
    c: Seq<char>,
    scope: Option<Seq<char>>,
) -> Option<LookupView> {
    let ms = match scope {
        Some(key) => match first_key(provs, key) {
            Some(pi) => matches_in(key, provs[pi].1, c),
            None => Seq::empty(),
        },
        None => matches_all(provs, c),
    };
    match best_match(ms) {
        Some(b) => Some(LookupView { entry: b.entry, origin: Some((b.provider, b.model_id)) }),
        None => None,
    }
}

/// The best candidate so far, as positions in the index with its key values.
pub struct Best {
    pub pi: usize,
    pub mi: usize,
    pub score: u8,
    pub rank: usize,
    pub model_id: Vec<char>,
}

/// Whether the positions and key values of `best` fit the index.
pub open spec fn best_ok(d: &ModelsDevData, best: Option<Best>) -> bool {
    best matches Some(b) ==> {
        &&& b.pi < d.provs().len()
        &&& b.mi < d.provs()[b.pi as int].1.len()
        &&& b.rank == provider_rank_spec(d.provs()[b.pi as int].0)
        &&& b.model_id@ == d.provs()[b.pi as int].1[b.mi as int].0
    }
}

/// The match that `best` stands for.
pub open spec fn best_view(d: &ModelsDevData, best: Option<Best>) -> Option<CandidateMatch> {
    match best {
        None => None,
        Some(b) => Some(CandidateMatch {
            score: b.score,
            entry: d.provs()[b.pi as int].1[b.mi as int].1,
            provider: d.provs()[b.pi as int].0,
            model_id: d.provs()[b.pi as int].1[b.mi as int].0,
        }),
    }
}

/// Scans provider `pi`'s models for candidate `c`, keeping the best match so far.
fn scan_provider(
    d: &ModelsDevData,
    pi: usize,
    c: &str,
    best: Option<Best>,
    Ghost(before): Ghost<Seq<CandidateMatch>>,
) -> (r: Option<Best>)
    requires
        pi < d.by_provider@.len(),
        best_view(d, best) == best_match(before),
        best_ok(d, best),
    ensures
        best_view(d, r) == best_match(before + matches_in(d.provs()[pi as int].0, d.provs()[pi as int].1, c@)),
        best_ok(d, r),
{
    let ms = &d.by_provider[pi].1;
    let ghost key = d.provs()[pi as int].0;
    let ghost mv = d.provs()[pi as int].1;
    assert(mv == model_list(ms@));
    assert(key == d.by_provider@[pi as int].0@);
    let rank = modelsdev_provider_rank(d.by_provider[pi].0.as_str());
    let mut cur = best;
    let mut mi: usize = 0;
    assert(mv.take(0) == Seq::<(Seq<char>, ModelEntryView)>::empty());
    assert(before + matches_in(key, mv.take(0), c@) == before);
    while mi < ms.len()
        invariant
            pi < d.by_provider@.len(),
            ms == d.by_provider@[pi as int].1,
            mv == model_list(ms@),
            mv == d.provs()[pi as int].1,
            key == d.provs()[pi as int].0,
            rank == provider_rank_spec(key),
            mi <= ms.len(),
            best_view(d, cur) == best_match(before + matches_in(key, mv.take(mi as int), c@)),
            best_ok(d, cur),
        decreases ms.len() - mi,
    {
        let ghost t = mv.take(mi + 1);
        assert(t.drop_last() == mv.take(mi as int));
        assert(t.last() == mv[mi as int]);
        assert(mv[mi as int] == (ms@[mi as int].0@, ms@[mi as int].1@));
        let score = crate::candidates::candidate_match_score(c, ms[mi].1.id.as_str());
        let ghost prev = before + matches_in(key, mv.take(mi as int), c@);
        match score {
            Some(sc) => {
                let mid = chars_of(ms[mi].0.as_str());
                let ghost cm = CandidateMatch { score: sc, entry: mv[mi as int].1, provider: key, model_id: mv[mi as int].0 };
                assert(before + matches_in(key, t, c@) == prev.push(cm));
                assert(prev.push(cm).drop_last() == prev);
                assert(prev.push(cm).last() == cm);
                let better = match &cur {
                    None => true,
                    Some(b) => sc < b.score || (sc == b.score && (rank < b.rank || (rank == b.rank
                        && chars_lt(&mid, &b.model_id)))),
                };
                if better {
                    cur = Some(Best { pi, mi, score: sc, rank, model_id: mid });
                }
            },
            None => {
                assert(before + matches_in(key, t, c@) == prev);
            },
        }
        mi = mi + 1;
    }
    assert(mv.take(ms.len() as int) == mv);
    cur
}

/// The model of the index that `candidate` matches best (see `candidate_lookup_spec`).
pub fn lookup_modelsdev_by_candidate_with_origin<'a>(
    models_dev: &'a ModelsDevData,
    candidate: &str,
    scope: Option<&str>,
) -> (r: Option<ModelsDevLookup<'a>>)
    ensures
        lookup_view(r) == candidate_lookup_spec(models_dev.provs(), candidate@, match scope {
            Some(s) => Some(s@),
            None => None,
        }),
{
    let ghost provs = models_dev.provs();
    let best = match scope {
        Some(key) => match find_provider(&models_dev.by_provider, key) {
            Some(pi) => {
                proof {
                    crate::candidates::lemma_first_index_props(provs, |q: (Seq<char>, Seq<(Seq<char>, ModelEntryView)>)| q.0 == key@);
                }
                assert(provs[pi as int].0 == key@);
                assert(Seq::<CandidateMatch>::empty() + matches_in(provs[pi as int].0, provs[pi as int].1, candidate@)
                    == matches_in(provs[pi as int].0, provs[pi as int].1, candidate@));
                scan_provider(models_dev, pi, candidate, None, Ghost(Seq::empty()))
            },
            None => None,
        },
        None => {
            let mut cur: Option<Best> = None;
            let mut p: usize = 0;
            assert(provs.take(0) == Seq::<(Seq<char>, Seq<(Seq<char>, ModelEntryView)>)>::empty());
            while p < models_dev.by_provider.len()
                invariant
                    p <= models_dev.by_provider@.len(),
                    provs == models_dev.provs(),
                    best_view(models_dev, cur) == best_match(matches_all(provs.take(p as int), candidate@)),
                    best_ok(models_dev, cur),
                decreases models_dev.by_provider.len() - p,
            {
                let ghost t = provs.take(p + 1);
                assert(t.drop_last() == provs.take(p as int));
                assert(t.last() == provs[p as int]);
                cur = scan_provider(models_dev, p, candidate, cur, Ghost(matches_all(provs.take(p as int), candidate@)));
                p = p + 1;
            }
            assert(provs.take(models_dev.by_provider.len() as int) == provs);
            cur
        },
    };
    match best {
        Some(b) => {
            let pe = &models_dev.by_provider[b.pi];
            let me = &pe.1[b.mi];
            assert(provs[b.pi as int] == (pe.0@, model_list(pe.1@)));
            assert(model_list(pe.1@)[b.mi as int] == (me.0@, me.1@));
            Some(ModelsDevLookup {
                entry: &me.1,
                origin: Some(ModelsDevOrigin { provider: pe.0.clone(), model_id: me.0.clone() }),
            })
        },
        None => None,
    }
}


/// `first_key` is `i` when entry `i` is the first with key `k`.
proof fn lemma_first_key_is<A>(es: Seq<(Seq<char>, A)>, k: Seq<char>, i: int)
    requires
        0 <= i < es.len(),
        es[i].0 == k,
        forall|j: int| 0 <= j < i ==> (#[trigger] es[j]).0 != k,
    ensures
        first_key(es, k) == Some(i),
    decreases i,
{
    if i > 0 {
        assert forall|j: int| 0 <= j < i - 1 implies (#[trigger] es.drop_first()[j]).0 != k by {
            assert(es.drop_first()[j] == es[j + 1]);
        }
        assert(es[0].0 != k);
        lemma_first_key_is(es.drop_first(), k, i - 1);
    }
}

/// A lookup scoped to a provider that holds the id gives that provider's entry for the
/// id, with origin (scope, id), whatever the global index and the other providers hold.
pub proof fn scoped_lookup_prefers_the_scoped_provider(
    provs: Seq<(Seq<char>, Seq<(Seq<char>, ModelEntryView)>)>,
    by_id: Seq<(Seq<char>, ModelEntryView)>,
    origins: Seq<(Seq<char>, (Seq<char>, Seq<char>))>,
    id: Seq<char>,
    scope: Seq<char>,
    pi: int,
    mi: int,
)
    requires
        0 <= pi < provs.len(),
        provs[pi].0 == scope,
        forall|q: int| 0 <= q < pi ==> (#[trigger] provs[q]).0 != scope,
        0 <= mi < provs[pi].1.len(),
        provs[pi].1[mi].0 == id,
        forall|m: int| 0 <= m < mi ==> (#[trigger] provs[pi].1[m]).0 != id,
    ensures
        lookup_spec(provs, by_id, origins, id, Some(scope)) == Some(
            LookupView { entry: provs[pi].1[mi].1, origin: Some((scope, id)) },
        ),
{
    lemma_first_key_is(provs, scope, pi);
    let ms = provs[pi].1;
    assert forall|m: int| 0 <= m < mi implies (#[trigger] ms[m]).0 != id by {
        assert(ms[m] == provs[pi].1[m]);
    }
    lemma_first_key_is(ms, id, mi);
    assert(first_key(ms, id) == Some(mi));
}

} // verus!
