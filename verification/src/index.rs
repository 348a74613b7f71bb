//! Building the models.dev index from provider records: providers ordered by priority
//! and key, model ids filled in from their keys, and a global id index in which the
//! first provider in that order wins.
use vstd::prelude::*;
use crate::candidates::{first_index, lemma_first_index_found, lemma_first_index_none, lemma_first_index_props};
use crate::catalog::{chars_lt, seq_lt, str_eq, views_of};
use crate::domain::{copy_opt_json, copy_opt_string, opt_json, opt_view, ModelEntry, ModelEntryView};
use crate::json::{copy_json, JsonValue};
use crate::modelsdev::{
    default_priority_spec, default_provider_priority, first_key, model_list, origin_list, provider_list,
    ModelsDevData, ModelsDevOrigin, ModelsDevProvider,
};
use crate::sort::{lemma_sorted_insert_at, stable_sorted};
use crate::text::{chars_of, string_of};

verus! {

/// One provider of the models.dev document as read: its fields, its models by key,
/// the fields the library does not read, and the record as JSON (`raw`), as it is stored.
#[derive(Debug)]
pub struct ProviderRecord {
    pub id: Option<String>,
    pub name: Option<String>,
    pub npm: Option<String>,
    pub api: Option<JsonValue>,
    pub doc: Option<JsonValue>,
    pub env: Option<JsonValue>,
    pub models: Vec<(String, ModelEntry)>,
    pub extra: Vec<(String, JsonValue)>,
    pub raw: JsonValue,
}

/// Stored priorities, as (provider key, priority) pairs.
pub open spec fn prio_list(v: Seq<(String, i64)>) -> Seq<(Seq<char>, i64)> {
    v.map_values(|p: (String, i64)| (p.0@, p.1))
}

/// The priority of provider `p`: the stored one when there is one, else its default.
pub open spec fn priority_spec(p: Seq<char>, prios: Option<Seq<(Seq<char>, i64)>>) -> i64 {
    match prios {
        Some(m) => match first_key(m, p) {
            Some(i) => m[i].1,
            None => default_priority_spec(p),
        },
        None => default_priority_spec(p),
    }
}

/// The view of optional stored priorities.
pub open spec fn opt_prios(p: Option<&Vec<(String, i64)>>) -> Option<Seq<(Seq<char>, i64)>> {
    match p {
        Some(m) => Some(prio_list(m@)),
        None => None,
    }
}

/// The priority of `provider`: the stored one when `priorities` has it, else its default.
pub fn priority_for(provider: &str, priorities: Option<&Vec<(String, i64)>>) -> (r: i64)
    ensures
        r == priority_spec(provider@, opt_prios(priorities)),
{
    match priorities {
        Some(m) => {
            let ghost pl = prio_list(m@);
            let ghost p = |q: (Seq<char>, i64)| q.0 == provider@;
            let mut i: usize = 0;
            while i < m.len()
                invariant
                    i <= m@.len(),
                    pl == prio_list(m@),
                    opt_prios(priorities) == Some(pl),
                    p == |q: (Seq<char>, i64)| q.0 == provider@,
                    forall|j: int| 0 <= j < i ==> !p(#[trigger] pl[j]),
                decreases m.len() - i,
            {
                if str_eq(m[i].0.as_str(), provider) {
                    proof {
                        lemma_first_index_found(pl, p, i as int);
                    }
                    assert(pl[i as int].1 == m@[i as int].1);
                    return m[i].1;
                }
                i = i + 1;
            }
            proof {
                lemma_first_index_none(pl, p);
            }
            default_provider_priority(provider)
        },
        None => default_provider_priority(provider),
    }
}

/// Whether record `a` sorts before record `b`: lower priority first, then by key.
pub open spec fn record_before(keys: Seq<Seq<char>>, prios: Seq<i64>, a: usize, b: usize) -> bool {
    prios[a as int] < prios[b as int] || (prios[a as int] == prios[b as int] && seq_lt(keys[a as int], keys[b as int]))
}

/// The positions of the records in the order the index takes them.
pub open spec fn record_order(keys: Seq<Seq<char>>, prios: Seq<i64>) -> Seq<usize> {
    stable_sorted(Seq::new(keys.len(), |i: int| i as usize), |a: usize, b: usize| record_before(keys, prios, a, b))
}

/// An entry with an empty id takes its key as id.
pub open spec fn fill_id(k: Seq<char>, e: ModelEntryView) -> ModelEntryView {
    if e.id.len() == 0 {
        ModelEntryView { id: k, ..e }
    } else {
        e
    }
}

/// A model list with each empty id filled from its key.
pub open spec fn filled(ms: Seq<(Seq<char>, ModelEntryView)>) -> Seq<(Seq<char>, ModelEntryView)> {
    ms.map_values(|p: (Seq<char>, ModelEntryView)| (p.0, fill_id(p.0, p.1)))
}

/// The record keys of the input.
pub open spec fn record_keys(raw: Seq<(String, ProviderRecord)>) -> Seq<Seq<char>> {
    raw.map_values(|p: (String, ProviderRecord)| p.0@)
}

/// The priority of each record of the input.
pub open spec fn record_prios(raw: Seq<(String, ProviderRecord)>, prios: Option<Seq<(Seq<char>, i64)>>) -> Seq<i64> {
    raw.map_values(|p: (String, ProviderRecord)| priority_spec(p.0@, prios))
}

/// The providers of the index: each record's key and filled models, in record order.
pub open spec fn sorted_records(raw: Seq<(String, ProviderRecord)>, prios: Option<Seq<(Seq<char>, i64)>>) -> Seq<(Seq<char>, Seq<(Seq<char>, ModelEntryView)>)> {
    record_order(record_keys(raw), record_prios(raw, prios)).map_values(
        |i: usize| (raw[i as int].0@, filled(model_list(raw[i as int].1.models@))),
    )
}

/// A global index entry: model key, and the provider key with the entry.
pub type IndexEntry = (Seq<char>, (Seq<char>, ModelEntryView));

/// `acc` with provider `pk`'s models added in order, each only when its key is new.
pub open spec fn add_models(acc: Seq<IndexEntry>, pk: Seq<char>, ms: Seq<(Seq<char>, ModelEntryView)>) -> Seq<IndexEntry>
    decreases ms.len(),
{
    if ms.len() == 0 {
        acc
    } else {
        let prev = add_models(acc, pk, ms.drop_last());
        let m = ms.last();
        if first_key(prev, m.0) is Some {
            prev
        } else {
            prev.push((m.0, (pk, m.1)))
        }
    }
}

/// The global index of the providers, taken in order: the first provider with a key wins.
pub open spec fn global_index(ps: Seq<(Seq<char>, Seq<(Seq<char>, ModelEntryView)>)>) -> Seq<IndexEntry>
    decreases ps.len(),
{
    if ps.len() == 0 {
        Seq::empty()
    } else {
        add_models(global_index(ps.drop_last()), ps.last().0, ps.last().1)
    }
}

/// The (key, entry) pairs of an index.
pub open spec fn index_ids(ix: Seq<IndexEntry>) -> Seq<(Seq<char>, ModelEntryView)> {
    ix.map_values(|t: IndexEntry| (t.0, t.1.1))
}

/// The (key, origin) pairs of an index: the provider key and the model key.
pub open spec fn index_origins(ix: Seq<IndexEntry>) -> Seq<(Seq<char>, (Seq<char>, Seq<char>))> {
    ix.map_values(|t: IndexEntry| (t.0, (t.1.0, t.0)))
}

/// Whether provider `p` holds record `rec` of key `key` with priority `prio`.
pub open spec fn provider_holds(p: ModelsDevProvider, key: Seq<char>, rec: ProviderRecord, prio: i64) -> bool {
    &&& p.key@ == key
    &&& opt_view(p.id) == opt_view(rec.id)
    &&& opt_view(p.name) == opt_view(rec.name)
    &&& opt_view(p.npm) == opt_view(rec.npm)
    &&& opt_json(p.api) == opt_json(rec.api)
    &&& opt_json(p.doc) == opt_json(rec.doc)
    &&& opt_json(p.env) == opt_json(rec.env)
    &&& p.priority == prio
    &&& p.raw@ == rec.raw@
    &&& model_list(p.models@) == filled(model_list(rec.models@))
}

/// Changing only the values of a keyed list does not move its first key.
proof fn lemma_first_key_same_keys<A, B>(s: Seq<(Seq<char>, A)>, t: Seq<(Seq<char>, B)>, k: Seq<char>)
    requires
        s.len() == t.len(),
        forall|i: int| 0 <= i < s.len() ==> (#[trigger] s[i]).0 == t[i].0,
    ensures
        first_key(s, k) == first_key(t, k),
    decreases s.len(),
{
    if s.len() > 0 && s[0].0 != k {
        assert forall|i: int| 0 <= i < s.len() - 1 implies (#[trigger] s.drop_first()[i]).0 == t.drop_first()[i].0 by {
            assert(s.drop_first()[i] == s[i + 1]);
            assert(t.drop_first()[i] == t[i + 1]);
        }
        lemma_first_key_same_keys(s.drop_first(), t.drop_first(), k);
    }
}

/// Whether `es` holds key `k`.
fn has_key(es: &Vec<(String, ModelEntry)>, k: &str) -> (b: bool)
    ensures
        b == (first_key(model_list(es@), k@) is Some),
{
    let ghost ms = model_list(es@);
    let ghost p = |q: (Seq<char>, ModelEntryView)| q.0 == k@;
    let mut i: usize = 0;
    while i < es.len()
        invariant
            i <= es@.len(),
            ms == model_list(es@),
            p == |q: (Seq<char>, ModelEntryView)| q.0 == k@,
            forall|j: int| 0 <= j < i ==> !p(#[trigger] ms[j]),
        decreases es.len() - i,
    {
        if str_eq(es[i].0.as_str(), k) {
            proof {
                lemma_first_index_found(ms, p, i as int);
            }
            return true;
        }
        i = i + 1;
    }
    proof {
        lemma_first_index_none(ms, p);
    }
    false
}

/// The models of a record with each empty id filled from its key.
fn filled_models(ms: &Vec<(String, ModelEntry)>) -> (r: Vec<(String, ModelEntry)>)
    ensures
        model_list(r@) == filled(model_list(ms@)),
{
    let ghost target = filled(model_list(ms@));
    let mut r: Vec<(String, ModelEntry)> = Vec::new();
    let mut i: usize = 0;
    while i < ms.len()
        invariant
            i <= ms@.len(),
            target == filled(model_list(ms@)),
            model_list(r@) == target.take(i as int),
        decreases ms.len() - i,
    {
        let k = ms[i].0.clone();
        let mut e = ms[i].1.copy();
        if chars_of(e.id.as_str()).len() == 0 {
            e.id = ms[i].0.clone();
        }
        let ghost before = r@;
        r.push((k, e));
        assert(model_list(r@) == model_list(before).push((k@, e@)));
        assert(target.take(i + 1) == target.take(i as int).push(target[i as int]));
        i = i + 1;
    }
    assert(target.take(ms@.len() as int) == target);
    r
}

/// A copy of a model list.
fn copy_models(ms: &Vec<(String, ModelEntry)>) -> (r: Vec<(String, ModelEntry)>)
    ensures
        model_list(r@) == model_list(ms@),
{
    let ghost target = model_list(ms@);
    let mut r: Vec<(String, ModelEntry)> = Vec::new();
    let mut i: usize = 0;
    while i < ms.len()
        invariant
            i <= ms@.len(),
            target == model_list(ms@),
            model_list(r@) == target.take(i as int),
        decreases ms.len() - i,
    {
        let ghost before = r@;
        r.push((ms[i].0.clone(), ms[i].1.copy()));
        assert(model_list(r@) == model_list(before).push(target[i as int]));
        assert(target.take(i + 1) == target.take(i as int).push(target[i as int]));
        i = i + 1;
    }
    assert(target.take(ms@.len() as int) == target);
    r
}

/// Whether record `a` sorts before record `b`, by their priorities and keys.
fn record_lt_exec(keys: &Vec<Vec<char>>, prios: &Vec<i64>, a: usize, b: usize) -> (r: bool)
    requires
        keys.len() == prios.len(),
        a < keys.len(),
        b < keys.len(),
    ensures
        r == record_before(views_of(keys@), prios@, a, b),
{
    prios[a] < prios[b] || (prios[a] == prios[b] && chars_lt(&keys[a], &keys[b]))
}

/// The record positions stably sorted by priority, then key.
fn sort_record_indices(keys: &Vec<Vec<char>>, prios: &Vec<i64>) -> (r: Vec<usize>)
    requires
        keys.len() == prios.len(),
    ensures
        r@ == record_order(views_of(keys@), prios@),
        forall|k: int| 0 <= k < r.len() ==> (#[trigger] r@[k]) < keys.len(),
{
    let n = keys.len();
    let ghost lt = |a: usize, b: usize| record_before(views_of(keys@), prios@, a, b);
    let ghost all = Seq::new(n as nat, |i: int| i as usize);
    let mut out: Vec<usize> = Vec::new();
    let mut i: usize = 0;
    assert(all.take(0) == Seq::<usize>::empty());
    while i < n
        invariant
            i <= n,
            n == keys.len(),
            n == prios.len(),
            all == Seq::new(n as nat, |i: int| i as usize),
            lt == |a: usize, b: usize| record_before(views_of(keys@), prios@, a, b),
            out@ == stable_sorted(all.take(i as int), lt),
            forall|k: int| 0 <= k < out.len() ==> (#[trigger] out@[k]) < i,
        decreases n - i,
    {
        let ghost s = out@;
        let mut j: usize = out.len();
        while j > 0 && record_lt_exec(keys, prios, i, out[j - 1])
            invariant
                j <= out.len(),
                out@ == s,
                n == keys.len(),
                n == prios.len(),
                i < n,
                lt == |a: usize, b: usize| record_before(views_of(keys@), prios@, a, b),
                forall|k: int| 0 <= k < out.len() ==> (#[trigger] out@[k]) < i,
                forall|k: int| j <= k < s.len() ==> lt(i, #[trigger] s[k]),
            decreases j,
        {
            j = j - 1;
        }
        proof {
            lemma_sorted_insert_at(s, i, lt, j as int);
            let t = all.take(i + 1);
            assert(t.drop_last() == all.take(i as int));
            assert(t.last() == i);
        }
        out.insert(j, i);
        i = i + 1;
    }
    assert(all.take(n as int) == all);
    assert(views_of(keys@).len() == n);
    out
}

/// The provider at position `j` of the index holds the record that comes `j`th in order.
pub open spec fn providers_hold(
    ps: Seq<ModelsDevProvider>,
    raw: Seq<(String, ProviderRecord)>,
    prios: Option<Seq<(Seq<char>, i64)>>,
    upto: int,
) -> bool {
    let ord = record_order(record_keys(raw), record_prios(raw, prios));
    forall|j: int| 0 <= j < upto ==> #[trigger] provider_holds(
        ps[j],
        raw[ord[j] as int].0@,
        raw[ord[j] as int].1,
        priority_spec(raw[ord[j] as int].0@, prios),
    )
}

/// The models.dev index of the provider records `raw` (distinct keys, as in the
/// document), with the stored `priorities`: providers in order of priority, then key;
/// each model with an empty id takes its key; the global index takes each model key
/// from the first provider in that order that has it.
pub fn from_records(raw: Vec<(String, ProviderRecord)>, priorities: Option<&Vec<(String, i64)>>) -> (d: ModelsDevData)
    ensures
        d.provs() == sorted_records(raw@, opt_prios(priorities)),
        d.ids() == index_ids(global_index(sorted_records(raw@, opt_prios(priorities)))),
        d.origins() == index_origins(global_index(sorted_records(raw@, opt_prios(priorities)))),
        d.providers@.len() == raw@.len(),
        providers_hold(d.providers@, raw@, opt_prios(priorities), raw@.len() as int),
        d.ids_distinct(),
{
    let ghost pv = opt_prios(priorities);
    let n = raw.len();
    let mut keys: Vec<Vec<char>> = Vec::new();
    let mut prios: Vec<i64> = Vec::new();
    let mut i: usize = 0;
    while i < n
        invariant
            n == raw@.len(),
            i <= n,
            pv == opt_prios(priorities),
            views_of(keys@) == record_keys(raw@).take(i as int),
            prios@ == record_prios(raw@, pv).take(i as int),
        decreases n - i,
    {
        let ghost kb = keys@;
        keys.push(chars_of(raw[i].0.as_str()));
        prios.push(priority_for(raw[i].0.as_str(), priorities));
        assert(views_of(keys@) == views_of(kb).push(raw@[i as int].0@));
        assert(record_keys(raw@).take(i + 1) == record_keys(raw@).take(i as int).push(raw@[i as int].0@));
        assert(record_prios(raw@, pv).take(i + 1) == record_prios(raw@, pv).take(i as int).push(
            priority_spec(raw@[i as int].0@, pv),
        ));
        i = i + 1;
    }
    assert(record_keys(raw@).take(n as int) == record_keys(raw@));
    assert(record_prios(raw@, pv).take(n as int) == record_prios(raw@, pv));
    let ord = sort_record_indices(&keys, &prios);
    let ghost ordv = record_order(record_keys(raw@), record_prios(raw@, pv));
    let ghost sr = sorted_records(raw@, pv);
    proof {
        crate::sort::lemma_stable_sorted_elems(
            Seq::new(n as nat, |i: int| i as usize),
            |a: usize, b: usize| record_before(record_keys(raw@), record_prios(raw@, pv), a, b),
        );
    }
    assert(ord@ == ordv);
    assert(sr.len() == n);
    let mut providers: Vec<ModelsDevProvider> = Vec::new();
    let mut by_id: Vec<(String, ModelEntry)> = Vec::new();
    let mut by_id_origin: Vec<(String, ModelsDevOrigin)> = Vec::new();
    let mut by_provider: Vec<(String, Vec<(String, ModelEntry)>)> = Vec::new();
    let ghost mut ix: Seq<IndexEntry> = Seq::empty();
    let mut j: usize = 0;
    assert(sr.take(0) == Seq::<(Seq<char>, Seq<(Seq<char>, ModelEntryView)>)>::empty());
    while j < n
        invariant
            n == raw@.len(),
            j <= n,
            pv == opt_prios(priorities),
            ord@ == ordv,
            ordv == record_order(record_keys(raw@), record_prios(raw@, pv)),
            ordv.len() == n,
            forall|k: int| 0 <= k < ord.len() ==> (#[trigger] ord@[k]) < n,
            sr == sorted_records(raw@, pv),
            sr.len() == n,
            provider_list(by_provider@) == sr.take(j as int),
            ix == global_index(sr.take(j as int)),
            model_list(by_id@) == index_ids(ix),
            origin_list(by_id_origin@) == index_origins(ix),
            providers@.len() == j,
            providers_hold(providers@, raw@, pv, j as int),
        decreases n - j,
    {
        let pi = ord[j];
        let key = &raw[pi].0;
        let rec = &raw[pi].1;
        let pm = filled_models(&rec.models);
        assert(sr[j as int] == (key@, model_list(pm@)));
        let ghost ms = model_list(pm@);
        let ghost ix0 = ix;
        let mut m: usize = 0;
        assert(ms.take(0) == Seq::<(Seq<char>, ModelEntryView)>::empty());
        while m < pm.len()
            invariant
                m <= pm@.len(),
                ms == model_list(pm@),
                ix == add_models(ix0, key@, ms.take(m as int)),
                model_list(by_id@) == index_ids(ix),
                origin_list(by_id_origin@) == index_origins(ix),
            decreases pm.len() - m,
        {
            let k = &pm[m].0;
            let ghost t = ms.take(m + 1);
            assert(t.drop_last() == ms.take(m as int));
            assert(t.last() == ms[m as int]);
            assert(ms[m as int].0 == k@);
            proof {
                lemma_first_key_same_keys(model_list(by_id@), ix, k@);
            }
            if !has_key(&by_id, k.as_str()) {
                let ghost before_ids = by_id@;
                let ghost before_origins = by_id_origin@;
                by_id.push((k.clone(), pm[m].1.copy()));
                by_id_origin.push((k.clone(), ModelsDevOrigin { provider: key.clone(), model_id: k.clone() }));
                proof {
                    let e = (k@, (key@, ms[m as int].1));
                    assert(model_list(by_id@) == model_list(before_ids).push((k@, ms[m as int].1)));
                    assert(origin_list(by_id_origin@) == origin_list(before_origins).push((k@, (key@, k@))));
                    assert(index_ids(ix.push(e)) == index_ids(ix).push((k@, ms[m as int].1)));
                    assert(index_origins(ix.push(e)) == index_origins(ix).push((k@, (key@, k@))));
                    ix = ix.push(e);
                }
            }
            m = m + 1;
        }
        assert(ms.take(pm@.len() as int) == ms);
        proof {
            let t = sr.take(j + 1);
            assert(t.drop_last() == sr.take(j as int));
            assert(t.last() == sr[j as int]);
        }
        let ghost prio = priority_spec(key@, pv);
        let p = ModelsDevProvider {
            key: key.clone(),
            id: copy_opt_string(&rec.id),
            name: copy_opt_string(&rec.name),
            npm: copy_opt_string(&rec.npm),
            api: copy_opt_json(&rec.api),
            doc: copy_opt_json(&rec.doc),
            env: copy_opt_json(&rec.env),
            priority: priority_for(key.as_str(), priorities),
            raw: copy_json(&rec.raw),
            models: copy_models(&pm),
        };
        assert(provider_holds(p, key@, *rec, prio));
        let ghost pb = providers@;
        providers.push(p);
        assert forall|q: int| 0 <= q < j + 1 implies #[trigger] provider_holds(
            providers@[q],
            raw@[ordv[q] as int].0@,
            raw@[ordv[q] as int].1,
            priority_spec(raw@[ordv[q] as int].0@, pv),
        ) by {
            if q < j {
                assert(providers@[q] == pb[q]);
            }
        }
        let ghost bp = by_provider@;
        by_provider.push((key.clone(), pm));
        assert(provider_list(by_provider@) == provider_list(bp).push((key@, ms)));
        j = j + 1;
    }
    assert(sr.take(n as int) == sr);
    let d = ModelsDevData { providers: providers, by_id: by_id, by_id_origin: by_id_origin, by_provider: by_provider };
    proof {
        index_takes_each_key_from_the_first_provider(raw@, pv);
        let gi = global_index(sorted_records(raw@, pv));
        assert(d.ids() == index_ids(gi));
        assert forall|a: int, b: int| 0 <= a < b < d.ids().len() implies (#[trigger] d.ids()[a]).0 != (
        #[trigger] d.ids()[b]).0 by {
            assert(d.ids()[a].0 == gi[a].0);
            assert(d.ids()[b].0 == gi[b].0);
        }
    }
    d
}

/// When no position is found, no entry has the key.
proof fn lemma_first_key_none_all<A>(s: Seq<(Seq<char>, A)>, k: Seq<char>)
    requires
        first_key(s, k) is None,
    ensures
        forall|i: int| 0 <= i < s.len() ==> (#[trigger] s[i]).0 != k,
    decreases s.len(),
{
    if s.len() > 0 {
        let p = |q: (Seq<char>, A)| q.0 == k;
        assert(!p(s[0]));
        lemma_first_key_none_all(s.drop_first(), k);
        assert forall|i: int| 0 <= i < s.len() implies (#[trigger] s[i]).0 != k by {
            if i > 0 {
                assert(s[i] == s.drop_first()[i - 1]);
            }
        }
    }
}

/// A position found holds the key.
proof fn lemma_first_key_found<A>(s: Seq<(Seq<char>, A)>, k: Seq<char>)
    ensures
        first_key(s, k) matches Some(i) ==> 0 <= i < s.len() && s[i].0 == k,
    decreases s.len(),
{
    if s.len() > 0 && s[0].0 != k {
        lemma_first_key_found(s.drop_first(), k);
        if first_key(s.drop_first(), k) is Some {
            let i = first_key(s.drop_first(), k)->0;
            assert(s.drop_first()[i] == s[i + 1]);
        }
    }
}

/// When an entry has the key, a position is found.
proof fn lemma_first_key_some<A>(s: Seq<(Seq<char>, A)>, k: Seq<char>, i: int)
    requires
        0 <= i < s.len(),
        s[i].0 == k,
    ensures
        first_key(s, k) is Some,
{
    if first_key(s, k) is None {
        lemma_first_key_none_all(s, k);
    }
}

/// Whether no two entries of the index share a key.
pub open spec fn index_keys_distinct(ix: Seq<IndexEntry>) -> bool {
    forall|a: int, b: int| 0 <= a < b < ix.len() ==> (#[trigger] ix[a]).0 != (#[trigger] ix[b]).0
}

/// Whether the index holds every model key of every provider.
pub open spec fn index_covers(ix: Seq<IndexEntry>, ps: Seq<(Seq<char>, Seq<(Seq<char>, ModelEntryView)>)>) -> bool {
    forall|q: int, m: int| 0 <= q < ps.len() && 0 <= m < ps[q].1.len() ==> first_key(ix, (#[trigger] ps[q].1[m]).0) is Some
}

/// Whether index entry `e` is model `m` of provider `q`, and no provider before `q` has its key.
pub open spec fn from_first_provider(e: IndexEntry, ps: Seq<(Seq<char>, Seq<(Seq<char>, ModelEntryView)>)>, q: int, m: int) -> bool {
    &&& 0 <= q < ps.len()
    &&& 0 <= m < ps[q].1.len()
    &&& e == (ps[q].1[m].0, (ps[q].0, ps[q].1[m].1))
    &&& forall|r: int| 0 <= r < q ==> first_key(#[trigger] ps[r].1, e.0) is None
}

/// Whether index entry `e` is a model of the first provider that has its key.
pub open spec fn entry_from_first(e: IndexEntry, ps: Seq<(Seq<char>, Seq<(Seq<char>, ModelEntryView)>)>) -> bool {
    exists|q: int, m: int| #[trigger] from_first_provider(e, ps, q, m)
}

/// Whether every entry of the index comes from the first provider that has its key.
pub open spec fn index_from_first(ix: Seq<IndexEntry>, ps: Seq<(Seq<char>, Seq<(Seq<char>, ModelEntryView)>)>) -> bool {
    forall|x: int| 0 <= x < ix.len() ==> #[trigger] entry_from_first(ix[x], ps)
}

/// Adding a provider's models keeps the index's properties for the providers so far.
proof fn lemma_add_models(
    acc: Seq<IndexEntry>,
    ps: Seq<(Seq<char>, Seq<(Seq<char>, ModelEntryView)>)>,
    pk: Seq<char>,
    ms: Seq<(Seq<char>, ModelEntryView)>,
    n: int,
)
    requires
        0 <= n <= ms.len(),
        index_keys_distinct(acc),
        index_covers(acc, ps),
        index_from_first(acc, ps),
    ensures
        ({
            let r = add_models(acc, pk, ms.take(n));
            let ps2 = ps.push((pk, ms));
            &&& index_keys_distinct(r)
            &&& index_covers(r, ps)
            &&& forall|m: int| 0 <= m < n ==> first_key(r, (#[trigger] ms[m]).0) is Some
            &&& index_from_first(r, ps2)
            &&& r.len() >= acc.len()
            &&& forall|x: int| 0 <= x < acc.len() ==> r[x] == #[trigger] acc[x]
        }),
    decreases n,
{
    let ps2 = ps.push((pk, ms));
    assert forall|r: int| 0 <= r < ps.len() implies #[trigger] ps2[r] == ps[r] by {}
    if n == 0 {
        assert(ms.take(0) =~= Seq::<(Seq<char>, ModelEntryView)>::empty());
        assert(add_models(acc, pk, ms.take(0)) == acc);
        assert forall|x: int| 0 <= x < acc.len() implies #[trigger] entry_from_first(acc[x], ps2) by {
            assert(entry_from_first(acc[x], ps));
            let (q, m) = choose|q: int, m: int| #[trigger] from_first_provider(acc[x], ps, q, m);
            assert(from_first_provider(acc[x], ps2, q, m));
        }
    } else {
        lemma_add_models(acc, ps, pk, ms, n - 1);
        let t = ms.take(n);
        assert(t.drop_last() =~= ms.take(n - 1));
        assert(t.last() == ms[n - 1]);
        let prev = add_models(acc, pk, ms.take(n - 1));
        let k = ms[n - 1].0;
        if first_key(prev, k) is Some {
            assert(add_models(acc, pk, t) == prev);
            assert(index_from_first(prev, ps2));
        } else {
            let e = (k, (pk, ms[n - 1].1));
            let r = prev.push(e);
            assert(add_models(acc, pk, t) == r);
            lemma_first_key_none_all(prev, k);
            assert forall|a: int, b: int| 0 <= a < b < r.len() implies (#[trigger] r[a]).0 != (#[trigger] r[b]).0 by {
                assert(r[a] == prev[a]);
                if b < prev.len() {
                    assert(r[b] == prev[b]);
                }
            }
            assert forall|q: int, m: int| 0 <= q < ps.len() && 0 <= m < ps[q].1.len() implies first_key(r, (#[trigger] ps[q].1[m]).0) is Some by {
                let i = first_key(prev, ps[q].1[m].0)->0;
                lemma_first_key_found(prev, ps[q].1[m].0);
                assert(r[i] == prev[i]);
                lemma_first_key_some(r, ps[q].1[m].0, i);
            }
            assert forall|m: int| 0 <= m < n implies first_key(r, (#[trigger] ms[m]).0) is Some by {
                if m < n - 1 {
                    let i = first_key(prev, ms[m].0)->0;
                    lemma_first_key_found(prev, ms[m].0);
                    assert(r[i] == prev[i]);
                    lemma_first_key_some(r, ms[m].0, i);
                } else {
                    lemma_first_key_some(r, k, prev.len() as int);
                }
            }
            assert forall|x: int| 0 <= x < r.len() implies #[trigger] entry_from_first(r[x], ps2) by {
                if x < prev.len() {
                    assert(r[x] == prev[x]);
                    assert(entry_from_first(prev[x], ps2));
                } else {
                    assert forall|q: int| 0 <= q < ps.len() implies first_key(#[trigger] ps2[q].1, k) is None by {
                        assert(ps2[q] == ps[q]);
                        if first_key(ps[q].1, k) is Some {
                            let m = first_key(ps[q].1, k)->0;
                            lemma_first_key_found(ps[q].1, k);
                            assert(0 <= m < ps[q].1.len());
                            assert(ps[q].1[m].0 == k);
                            assert(first_key(prev, ps[q].1[m].0) is Some);
                            assert(false);
                        }
                    }
                    assert(from_first_provider(r[x], ps2, ps.len() as int, n - 1));
                }
            }
        }
    }
}

/// Adding providers in order keeps the index's properties.
proof fn lemma_global_index(ps: Seq<(Seq<char>, Seq<(Seq<char>, ModelEntryView)>)>)
    ensures
        index_keys_distinct(global_index(ps)),
        index_covers(global_index(ps), ps),
        index_from_first(global_index(ps), ps),
    decreases ps.len(),
{
    if ps.len() > 0 {
        let pre = ps.drop_last();
        lemma_global_index(pre);
        let (pk, ms) = ps.last();
        lemma_add_models(global_index(pre), pre, pk, ms, ms.len() as int);
        assert(ms.take(ms.len() as int) =~= ms);
        assert(pre.push((pk, ms)) =~= ps);
        let r = global_index(ps);
        assert forall|q: int, m: int| 0 <= q < ps.len() && 0 <= m < ps[q].1.len() implies first_key(r, (#[trigger] ps[q].1[m]).0) is Some by {
            if q < pre.len() {
                assert(ps[q] == pre[q]);
            } else {
                assert(ps[q].1[m] == ms[m]);
            }
        }
    }
}

/// The global index of the models.dev records holds each model key once; it holds
/// every model key of every provider; and each of its entries is a model of the first
/// provider, in priority order, that has its key.
pub proof fn index_takes_each_key_from_the_first_provider(raw: Seq<(String, ProviderRecord)>, prios: Option<Seq<(Seq<char>, i64)>>)
    ensures
        index_keys_distinct(global_index(sorted_records(raw, prios))),
        index_covers(global_index(sorted_records(raw, prios)), sorted_records(raw, prios)),
        index_from_first(global_index(sorted_records(raw, prios)), sorted_records(raw, prios)),
{
    lemma_global_index(sorted_records(raw, prios));
}

} // verus!
