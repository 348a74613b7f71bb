//! JSON values as the library holds them, and the operations on them that the
//! opencode.json logic needs: lookups, merge-patch and pruning of empty values.
use vstd::prelude::*;
use crate::text::{chars_eq, chars_of};

verus! {

/// A JSON number as serde_json keeps it: a non-negative integer, a negative
/// integer, or a float (held by its IEEE-754 bits).
#[derive(Debug, Clone, Copy, PartialEq, Eq, Structural)]
pub enum JsonNumber {
    PosInt(u64),
    NegInt(i64),
    Float(u64),
}

/// A JSON value. Objects are lists of (key, value) entries with distinct keys.
#[derive(Debug)]
pub enum JsonValue {
    Null,
    Bool(bool),
    Number(JsonNumber),
    String(String),
    Array(Vec<JsonValue>),
    Object(Vec<(String, JsonValue)>),
}

/// The mathematical form of a JSON value.
pub enum JsonView {
    Null,
    Bool(bool),
    Number(JsonNumber),
    Str(Seq<char>),
    Array(Seq<JsonView>),
    Object(Seq<(Seq<char>, JsonView)>),
}

/// The mathematical form of `v`.
pub open spec fn jv(v: JsonValue) -> JsonView
    decreases v,
{
    match v {
        JsonValue::Null => JsonView::Null,
        JsonValue::Bool(b) => JsonView::Bool(b),
        JsonValue::Number(n) => JsonView::Number(n),
        JsonValue::String(s) => JsonView::Str(s@),
        JsonValue::Array(items) => JsonView::Array(jv_items(items@)),
        JsonValue::Object(es) => JsonView::Object(jv_entries(es@)),
    }
}

/// The mathematical forms of the values in `s`.
pub open spec fn jv_items(s: Seq<JsonValue>) -> Seq<JsonView>
    decreases s,
{
    if s.len() == 0 {
        Seq::empty()
    } else {
        jv_items(s.drop_last()).push(jv(s.last()))
    }
}

/// The mathematical forms of the entries in `s`.
pub open spec fn jv_entries(s: Seq<(String, JsonValue)>) -> Seq<(Seq<char>, JsonView)>
    decreases s,
{
    if s.len() == 0 {
        Seq::empty()
    } else {
        jv_entries(s.drop_last()).push((s.last().0@, jv(s.last().1)))
    }
}

impl View for JsonValue {
    type V = JsonView;

    open spec fn view(&self) -> JsonView {
        jv(*self)
    }
}

pub broadcast proof fn lemma_jv_items(s: Seq<JsonValue>)
    ensures
        #[trigger] jv_items(s).len() == s.len(),
        forall|i: int| 0 <= i < s.len() ==> #[trigger] jv_items(s)[i] == jv(s[i]),
    decreases s.len(),
{
    if s.len() > 0 {
        lemma_jv_items(s.drop_last());
    }
}

pub broadcast proof fn lemma_jv_entries(s: Seq<(String, JsonValue)>)
    ensures
        #[trigger] jv_entries(s).len() == s.len(),
        forall|i: int|
            0 <= i < s.len() ==> #[trigger] jv_entries(s)[i] == (s[i].0@, jv(s[i].1)),
    decreases s.len(),
{
    if s.len() > 0 {
        lemma_jv_entries(s.drop_last());
    }
}

/// Entries of a JSON object, in mathematical form.
pub type Entries = Seq<(Seq<char>, JsonView)>;

/// The position of the first entry with key `k`.
pub open spec fn find_key(es: Entries, k: Seq<char>) -> Option<int>
    decreases es.len(),
{
    if es.len() == 0 {
        None
    } else if es[0].0 == k {
        Some(0)
    } else {
        match find_key(es.drop_first(), k) {
            Some(i) => Some(i + 1),
            None => None,
        }
    }
}

/// The value under key `k`.
pub open spec fn get_key(es: Entries, k: Seq<char>) -> Option<JsonView> {
    match find_key(es, k) {
        Some(i) => Some(es[i].1),
        None => None,
    }
}

/// `es` with key `k` set to `v`: replaced in place when present, added at the end otherwise.
pub open spec fn set_key(es: Entries, k: Seq<char>, v: JsonView) -> Entries {
    match find_key(es, k) {
        Some(i) => es.update(i, (k, v)),
        None => es.push((k, v)),
    }
}

/// `es` without key `k`.
pub open spec fn del_key(es: Entries, k: Seq<char>) -> Entries {
    match find_key(es, k) {
        Some(i) => es.remove(i),
        None => es,
    }
}

pub proof fn lemma_find_key(es: Entries, k: Seq<char>)
    ensures
        find_key(es, k) matches Some(i) ==> 0 <= i < es.len() && es[i].0 == k && forall|j: int|
            0 <= j < i ==> (#[trigger] es[j]).0 != k,
        find_key(es, k) is None ==> forall|j: int| 0 <= j < es.len() ==> (#[trigger] es[j]).0 != k,
    decreases es.len(),
{
    if es.len() > 0 && es[0].0 != k {
        lemma_find_key(es.drop_first(), k);
        assert forall|j: int| 1 <= j < es.len() implies es[j] == es.drop_first()[j - 1] by {}
    }
}

pub proof fn lemma_find_key_is(es: Entries, k: Seq<char>, i: int)
    requires
        0 <= i < es.len(),
        es[i].0 == k,
        forall|j: int| 0 <= j < i ==> (#[trigger] es[j]).0 != k,
    ensures
        find_key(es, k) == Some(i),
{
    lemma_find_key(es, k);
    match find_key(es, k) {
        Some(m) => {
            if m < i {
                assert(es[m].0 != k);
            }
            if m > i {
                assert(es[i].0 != k);
            }
        },
        None => {
            assert(es[i].0 != k);
        },
    }
}

/// Where key `k` stands among the entries of `es`.
pub fn find_entry(es: &Vec<(String, JsonValue)>, k: &str) -> (r: Option<usize>)
    ensures
        r matches Some(i) ==> find_key(jv_entries(es@), k@) == Some(i as int),
        r is None ==> find_key(jv_entries(es@), k@) is None,
{
    broadcast use lemma_jv_entries;
    let ghost e = jv_entries(es@);
    let kc = chars_of(k);
    proof {
        lemma_jv_entries(es@);
    }
    assert(e.len() == es@.len());
    let mut i: usize = 0;
    while i < es.len()
        invariant
            i <= es.len(),
            kc@ == k@,
            e == jv_entries(es@),
            e.len() == es@.len(),
            forall|j: int| 0 <= j < es@.len() ==> #[trigger] e[j] == (es@[j].0@, jv(es@[j].1)),
            forall|j: int| 0 <= j < i ==> (#[trigger] e[j]).0 != k@,
        decreases es.len() - i,
    {
        if chars_eq(&chars_of(es[i].0.as_str()), &kc) {
            proof {
                lemma_find_key_is(e, k@, i as int);
            }
            return Some(i);
        }
        assert(e[i as int].0 == es@[i as int].0@);
        i = i + 1;
    }
    proof {
        lemma_find_key(e, k@);
        if find_key(e, k@) is Some {
            let m = find_key(e, k@)->0;
            assert(e[m].0 != k@);
        }
    }
    None
}

/// A copy of `v`.
#[verifier::loop_isolation(false)]
pub fn copy_json(v: &JsonValue) -> (r: JsonValue)
    ensures
        r@ == v@,
    decreases v,
{
    broadcast use lemma_jv_items, lemma_jv_entries;
    match v {
        JsonValue::Null => JsonValue::Null,
        JsonValue::Bool(b) => JsonValue::Bool(*b),
        JsonValue::Number(n) => JsonValue::Number(*n),
        JsonValue::String(s) => JsonValue::String(s.clone()),
        JsonValue::Array(items) => {
            let mut out: Vec<JsonValue> = Vec::new();
            let mut i: usize = 0;
            while i < items.len()
                invariant
                    i <= items.len(),
                    jv_items(out@) == jv_items(items@).take(i as int),
                decreases items.len() - i,
            {
                let c = copy_json(&items[i]);
                let ghost before = out@;
                out.push(c);
                assert(out@.drop_last() == before);
                assert(jv_items(items@).take(i + 1) == jv_items(items@).take(i as int).push(
                    jv(items@[i as int]),
                ));
                i = i + 1;
            }
            assert(jv_items(items@).take(items.len() as int) == jv_items(items@));
            JsonValue::Array(out)
        },
        JsonValue::Object(es) => {
            let mut out: Vec<(String, JsonValue)> = Vec::new();
            let mut i: usize = 0;
            while i < es.len()
                invariant
                    i <= es.len(),
                    jv_entries(out@) == jv_entries(es@).take(i as int),
                decreases es.len() - i,
            {
                let c = copy_json(&es[i].1);
                let k = es[i].0.clone();
                let ghost before = out@;
                out.push((k, c));
                assert(out@.drop_last() == before);
                assert(jv_entries(es@).take(i + 1) == jv_entries(es@).take(i as int).push(
                    (es@[i as int].0@, jv(es@[i as int].1)),
                ));
                i = i + 1;
            }
            assert(jv_entries(es@).take(es.len() as int) == jv_entries(es@));
            JsonValue::Object(out)
        },
    }
}

} // verus!

verus! {

/// RFC 7386 JSON merge-patch of `p` onto `t`: a non-object patch replaces the target;
/// an object patch is applied key by key to the target's entries (an empty object
/// when the target is not one): a `null` removes the key, any other value is
/// merged into the key's old value (or `null`).
pub open spec fn merged(t: JsonView, p: JsonView) -> JsonView
    decreases p, 0int,
{
    match p {
        JsonView::Object(ps) => JsonView::Object(
            merged_entries(
                match t {
                    JsonView::Object(te) => te,
                    _ => Seq::empty(),
                },
                ps,
                0,
            ),
        ),
        _ => p,
    }
}

/// The entries `te` after applying the patch entries `ps[i..]` in order.
pub open spec fn merged_entries(te: Entries, ps: Entries, i: int) -> Entries
    decreases ps, ps.len() - i,
{
    if i < 0 || i >= ps.len() {
        te
    } else {
        let k = ps[i].0;
        let pv = ps[i].1;
        let te2 = if pv is Null {
            del_key(te, k)
        } else {
            let old = match get_key(te, k) {
                Some(o) => o,
                None => JsonView::Null,
            };
            set_key(te, k, merged(old, pv))
        };
        merged_entries(te2, ps, i + 1)
    }
}

/// `target` with the merge-patch `patch` applied (see `merged`).
#[verifier::loop_isolation(false)]
pub fn merge_value(target: JsonValue, patch: &JsonValue) -> (r: JsonValue)
    ensures
        r@ == merged(target@, patch@),
    decreases patch,
{
    broadcast use lemma_jv_entries;
    match patch {
        JsonValue::Object(ps) => {
            let ghost tv = target@;
            let mut te: Vec<(String, JsonValue)> = match target {
                JsonValue::Object(es) => es,
                _ => Vec::new(),
            };
            let ghost pe = jv_entries(ps@);
            assert(jv_entries(te@) == (match tv {
                JsonView::Object(x) => x,
                _ => Seq::empty(),
            }));
            let mut i: usize = 0;
            while i < ps.len()
                invariant
                    i <= ps.len(),
                    pe == jv_entries(ps@),
                    merged(tv, patch@) == JsonView::Object(merged_entries(jv_entries(te@), pe, i as int)),
                decreases ps.len() - i,
            {
                let k = &ps[i].0;
                let pv = &ps[i].1;
                assert(pe[i as int] == (k@, jv(*pv)));
                let found = find_entry(&te, k.as_str());
                let ghost e0 = jv_entries(te@);
                proof {
                    lemma_find_key(e0, k@);
                }
                if let JsonValue::Null = pv {
                    if let Some(idx) = found {
                        te.remove(idx);
                        assert(jv_entries(te@) == e0.remove(idx as int));
                    }
                } else {
                    match found {
                        Some(idx) => {
                            let (kk, old) = te.remove(idx);
                            assert(e0[idx as int] == (kk@, jv(old)));
                            let nv = merge_value(old, pv);
                            te.insert(idx, (kk, nv));
                            assert(jv_entries(te@) == e0.update(idx as int, (k@, nv@)));
                        },
                        None => {
                            let nv = merge_value(JsonValue::Null, pv);
                            te.push((k.clone(), nv));
                            assert(jv_entries(te@) == e0.push((k@, nv@)));
                        },
                    }
                }
                i = i + 1;
            }
            JsonValue::Object(te)
        },
        _ => copy_json(patch),
    }
}

/// Applies the RFC 7386 JSON merge-patch `patch` onto `target`, in place.
pub fn merge_patch(target: &mut JsonValue, patch: &JsonValue)
    ensures
        final(target)@ == merged(old(target)@, patch@),
{
    let mut t = JsonValue::Null;
    std::mem::swap(&mut t, target);
    *target = merge_value(t, patch);
}

} // verus!

verus! {

/// Whether `v` is `null`, an empty array or an empty object.
pub open spec fn is_empty_view(v: JsonView) -> bool {
    match v {
        JsonView::Null => true,
        JsonView::Array(items) => items.len() == 0,
        JsonView::Object(es) => es.len() == 0,
        _ => false,
    }
}

/// `v` with empty values removed from every array and object, deepest first, so
/// that a container emptied by the removal is removed too.
pub open spec fn pruned(v: JsonView) -> JsonView
    decreases v,
{
    match v {
        JsonView::Array(items) => JsonView::Array(pruned_items(items)),
        JsonView::Object(es) => JsonView::Object(pruned_entries(es)),
        _ => v,
    }
}

/// The pruned items of `s` that are not empty.
pub open spec fn pruned_items(s: Seq<JsonView>) -> Seq<JsonView>
    decreases s,
{
    if s.len() == 0 {
        Seq::empty()
    } else {
        let x = pruned(s[0]);
        if is_empty_view(x) {
            pruned_items(s.drop_first())
        } else {
            seq![x] + pruned_items(s.drop_first())
        }
    }
}

/// The entries of `s` with pruned values, without those whose value is empty.
pub open spec fn pruned_entries(s: Entries) -> Entries
    decreases s,
{
    if s.len() == 0 {
        Seq::empty()
    } else {
        let x = pruned(s[0].1);
        if is_empty_view(x) {
            pruned_entries(s.drop_first())
        } else {
            seq![(s[0].0, x)] + pruned_entries(s.drop_first())
        }
    }
}

/// Whether `v` is `null`, an empty array or an empty object.
pub fn is_empty_json_value(value: &JsonValue) -> (b: bool)
    ensures
        b == is_empty_view(value@),
{
    broadcast use lemma_jv_items, lemma_jv_entries;
    match value {
        JsonValue::Null => true,
        JsonValue::Array(items) => items.len() == 0,
        JsonValue::Object(es) => es.len() == 0,
        _ => false,
    }
}

/// `value` with empty values pruned (see `pruned`).
#[verifier::loop_isolation(false)]
pub fn prune_value(value: JsonValue) -> (r: JsonValue)
    ensures
        r@ == pruned(value@),
    decreases value,
{
    broadcast use lemma_jv_items, lemma_jv_entries;
    match value {
        JsonValue::Array(items) => {
            let ghost iv = jv_items(items@);
            let ghost orig = items@;
            assert(forall|j: int| 0 <= j < orig.len() ==> decreases_to!(value => #[trigger] orig[j]));
            let n = items.len();
            let mut rest = items;
            let mut out: Vec<JsonValue> = Vec::new();
            let mut i: usize = 0;
            assert(jv_items(out@) + pruned_items(iv.subrange(0, n as int)) == pruned_items(iv)) by {
                assert(jv_items(out@) == Seq::<JsonView>::empty());
                assert(iv.subrange(0, n as int) == iv);
            }
            while i < n
                invariant
                    i <= n,
                    n == iv.len(),
                    rest.len() == n - i,
                    forall|k: int| 0 <= k < n - i ==> jv(#[trigger] rest@[k]) == iv[i + k],
                    forall|k: int| 0 <= k < n - i ==> #[trigger] rest@[k] == orig[i + k],
                    orig.len() == n,
                    jv_items(out@) + pruned_items(iv.subrange(i as int, n as int)) == pruned_items(iv),
                decreases n - i,
            {
                let x = rest.remove(0);
                assert(x == orig[i as int]);
                assert(jv(x) == iv[i as int]);
                let px = prune_value(x);
                let ghost sub = iv.subrange(i as int, n as int);
                assert(sub.drop_first() == iv.subrange(i + 1, n as int));
                assert(sub[0] == iv[i as int]);
                if !is_empty_json_value(&px) {
                    let ghost before = jv_items(out@);
                    out.push(px);
                    assert(jv_items(out@) == before.push(px@));
                    assert(before + (seq![px@] + pruned_items(sub.drop_first())) == before.push(px@)
                        + pruned_items(sub.drop_first()));
                }
                i = i + 1;
            }
            assert(iv.subrange(n as int, n as int) == Seq::<JsonView>::empty());
            assert(jv_items(out@) + Seq::<JsonView>::empty() == jv_items(out@));
            JsonValue::Array(out)
        },
        JsonValue::Object(es) => {
            let ghost ev = jv_entries(es@);
            let ghost orig = es@;
            assert(forall|j: int| 0 <= j < orig.len() ==> decreases_to!(value => #[trigger] orig[j].1));
            let n = es.len();
            let mut rest = es;
            let mut out: Vec<(String, JsonValue)> = Vec::new();
            let mut i: usize = 0;
            assert(jv_entries(out@) + pruned_entries(ev.subrange(0, n as int)) == pruned_entries(ev)) by {
                assert(jv_entries(out@) == Seq::<(Seq<char>, JsonView)>::empty());
                assert(ev.subrange(0, n as int) == ev);
            }
            while i < n
                invariant
                    i <= n,
                    n == ev.len(),
                    rest.len() == n - i,
                    forall|k: int| 0 <= k < n - i ==> (#[trigger] rest@[k]).0@ == ev[i + k].0 && jv(rest@[k].1) == ev[i + k].1,
                    forall|k: int| 0 <= k < n - i ==> #[trigger] rest@[k] == orig[i + k],
                    orig.len() == n,
                    jv_entries(out@) + pruned_entries(ev.subrange(i as int, n as int)) == pruned_entries(ev),
                decreases n - i,
            {
                let (k, x) = rest.remove(0);
                assert(x == orig[i as int].1);
                assert(jv(x) == ev[i as int].1);
                let px = prune_value(x);
                let ghost sub = ev.subrange(i as int, n as int);
                assert(sub.drop_first() == ev.subrange(i + 1, n as int));
                assert(sub[0] == ev[i as int]);
                if !is_empty_json_value(&px) {
                    let ghost before = jv_entries(out@);
                    out.push((k, px));
                    assert(jv_entries(out@) == before.push((ev[i as int].0, px@)));
                    assert(before + (seq![(ev[i as int].0, px@)] + pruned_entries(sub.drop_first())) == before.push((ev[i as int].0, px@))
                        + pruned_entries(sub.drop_first()));
                }
                i = i + 1;
            }
            assert(ev.subrange(n as int, n as int) == Seq::<(Seq<char>, JsonView)>::empty());
            assert(jv_entries(out@) + Seq::<(Seq<char>, JsonView)>::empty() == jv_entries(out@));
            JsonValue::Object(out)
        },
        other => other,
    }
}

/// Removes empty arrays, empty objects and `null`s from `value`, in place and at every depth.
pub fn prune_empty_values(value: &mut JsonValue)
    ensures
        final(value)@ == pruned(old(value)@),
{
    let mut t = JsonValue::Null;
    std::mem::swap(&mut t, value);
    *value = prune_value(t);
}

} // verus!

verus! {

/// Whether no array or object anywhere inside `v` holds an empty value.
pub open spec fn clean(v: JsonView) -> bool
    decreases v,
{
    match v {
        JsonView::Array(items) => clean_items(items),
        JsonView::Object(es) => clean_entries(es),
        _ => true,
    }
}

/// Whether every item of `s` is non-empty and clean.
pub open spec fn clean_items(s: Seq<JsonView>) -> bool
    decreases s,
{
    s.len() == 0 || (!is_empty_view(s[0]) && clean(s[0]) && clean_items(s.drop_first()))
}

/// Whether every value of `s` is non-empty and clean.
pub open spec fn clean_entries(s: Entries) -> bool
    decreases s,
{
    s.len() == 0 || (!is_empty_view(s[0].1) && clean(s[0].1) && clean_entries(s.drop_first()))
}

proof fn lemma_pruned_clean(v: JsonView)
    ensures
        clean(pruned(v)),
    decreases v,
{
    match v {
        JsonView::Array(items) => lemma_pruned_items_clean(items),
        JsonView::Object(es) => lemma_pruned_entries_clean(es),
        _ => {},
    }
}

proof fn lemma_pruned_items_clean(s: Seq<JsonView>)
    ensures
        clean_items(pruned_items(s)),
    decreases s,
{
    if s.len() > 0 {
        lemma_pruned_clean(s[0]);
        lemma_pruned_items_clean(s.drop_first());
        let x = pruned(s[0]);
        let r = seq![x] + pruned_items(s.drop_first());
        assert(r.drop_first() == pruned_items(s.drop_first()));
    }
}

proof fn lemma_pruned_entries_clean(s: Entries)
    ensures
        clean_entries(pruned_entries(s)),
    decreases s,
{
    if s.len() > 0 {
        lemma_pruned_clean(s[0].1);
        lemma_pruned_entries_clean(s.drop_first());
        let x = pruned(s[0].1);
        let r = seq![(s[0].0, x)] + pruned_entries(s.drop_first());
        assert(r.drop_first() == pruned_entries(s.drop_first()));
    }
}

proof fn lemma_clean_fixed(v: JsonView)
    requires
        clean(v),
    ensures
        pruned(v) == v,
    decreases v,
{
    match v {
        JsonView::Array(items) => lemma_clean_items_fixed(items),
        JsonView::Object(es) => lemma_clean_entries_fixed(es),
        _ => {},
    }
}

proof fn lemma_clean_items_fixed(s: Seq<JsonView>)
    requires
        clean_items(s),
    ensures
        pruned_items(s) == s,
    decreases s,
{
    if s.len() > 0 {
        lemma_clean_fixed(s[0]);
        lemma_clean_items_fixed(s.drop_first());
        assert(seq![s[0]] + s.drop_first() == s);
    }
}

proof fn lemma_clean_entries_fixed(s: Entries)
    requires
        clean_entries(s),
    ensures
        pruned_entries(s) == s,
    decreases s,
{
    if s.len() > 0 {
        lemma_clean_fixed(s[0].1);
        lemma_clean_entries_fixed(s.drop_first());
        assert(seq![(s[0].0, s[0].1)] + s.drop_first() == s);
    }
}

/// After pruning, no array or object anywhere inside the value holds a `null`, an
/// empty array or an empty object.
pub proof fn prune_leaves_no_empty_values(v: JsonView)
    ensures
        clean(pruned(v)),
{
    lemma_pruned_clean(v);
}

/// Pruning twice gives what pruning once gives.
pub proof fn prune_is_idempotent(v: JsonView)
    ensures
        pruned(pruned(v)) == pruned(v),
{
    lemma_pruned_clean(v);
    lemma_clean_fixed(pruned(v));
}

} // verus!

verus! {

/// `es` with each entry of `ms` set in order (`Map::insert` for each).
pub open spec fn set_all(es: Entries, ms: Entries) -> Entries
    decreases ms.len(),
{
    if ms.len() == 0 {
        es
    } else {
        let prev = set_all(es, ms.drop_last());
        set_key(prev, ms.last().0, ms.last().1)
    }
}

/// `es` without any of the keys `ks`.
pub open spec fn del_keys(es: Entries, ks: Seq<Seq<char>>) -> Entries
    decreases ks.len(),
{
    if ks.len() == 0 {
        es
    } else {
        del_key(del_keys(es, ks.drop_last()), ks.last())
    }
}

/// The value under key `k` of an object, if any.
pub fn obj_get<'a>(es: &'a Vec<(String, JsonValue)>, k: &str) -> (r: Option<&'a JsonValue>)
    ensures
        match r {
            Some(v) => get_key(jv_entries(es@), k@) == Some(v@),
            None => get_key(jv_entries(es@), k@) is None,
        },
{
    broadcast use lemma_jv_entries;
    match find_entry(es, k) {
        Some(i) => {
            proof {
                lemma_find_key(jv_entries(es@), k@);
            }
            Some(&es[i].1)
        },
        None => None,
    }
}

/// Sets key `k` of an object to `v` (`Map::insert`).
pub fn obj_set(es: &mut Vec<(String, JsonValue)>, k: &str, v: JsonValue)
    ensures
        jv_entries(final(es)@) == set_key(jv_entries(old(es)@), k@, v@),
{
    broadcast use lemma_jv_entries;
    let ghost e0 = jv_entries(es@);
    let ghost vv = v@;
    match find_entry(es, k) {
        Some(i) => {
            proof {
                lemma_find_key(e0, k@);
            }
            es.set(i, (crate::text::owned(k), v));
            assert(jv_entries(es@) =~= e0.update(i as int, (k@, vv)));
        },
        None => {
            es.push((crate::text::owned(k), v));
            assert(jv_entries(es@) =~= e0.push((k@, vv)));
        },
    }
}

/// Removes key `k` from an object (`Map::remove`).
pub fn obj_remove(es: &mut Vec<(String, JsonValue)>, k: &str)
    ensures
        jv_entries(final(es)@) == del_key(jv_entries(old(es)@), k@),
{
    broadcast use lemma_jv_entries;
    let ghost e0 = jv_entries(es@);
    match find_entry(es, k) {
        Some(i) => {
            proof {
                lemma_find_key(e0, k@);
            }
            es.remove(i);
            assert(jv_entries(es@) =~= e0.remove(i as int));
        },
        None => {},
    }
}

/// Removes each of the keys `ks` from an object.
pub fn obj_remove_all(es: &mut Vec<(String, JsonValue)>, ks: &Vec<&str>)
    ensures
        jv_entries(final(es)@) == del_keys(jv_entries(old(es)@), ks@.map_values(|s: &str| s@)),
{
    let ghost e0 = jv_entries(es@);
    let ghost kv = ks@.map_values(|s: &str| s@);
    let mut i: usize = 0;
    while i < ks.len()
        invariant
            i <= ks.len(),
            kv == ks@.map_values(|s: &str| s@),
            jv_entries(es@) == del_keys(e0, kv.take(i as int)),
        decreases ks.len() - i,
    {
        obj_remove(es, ks[i]);
        assert(kv.take(i + 1).drop_last() == kv.take(i as int));
        i = i + 1;
    }
    assert(kv.take(ks.len() as int) == kv);
}

/// Sets each entry of `ms` in an object, in order.
pub fn obj_set_all(es: &mut Vec<(String, JsonValue)>, ms: &Vec<(String, JsonValue)>)
    ensures
        jv_entries(final(es)@) == set_all(jv_entries(old(es)@), jv_entries(ms@)),
{
    broadcast use lemma_jv_entries;
    let ghost e0 = jv_entries(es@);
    let ghost mv = jv_entries(ms@);
    let mut i: usize = 0;
    while i < ms.len()
        invariant
            i <= ms.len(),
            mv == jv_entries(ms@),
            mv.len() == ms@.len(),
            jv_entries(es@) == set_all(e0, mv.take(i as int)),
        decreases ms.len() - i,
    {
        let ghost before = jv_entries(es@);
        let c = copy_json(&ms[i].1);
        obj_set(es, ms[i].0.as_str(), c);
        assert(mv.take(i + 1).drop_last() == mv.take(i as int));
        assert(mv.take(i + 1).last() == mv[i as int]);
        proof {
            lemma_jv_entries(ms@);
        }
        assert(mv[i as int] == (ms@[i as int].0@, c@));
        assert(set_all(e0, mv.take(i + 1)) == set_key(set_all(e0, mv.take(i as int)), mv[i as int].0, mv[i as int].1));
        i = i + 1;
    }
    assert(mv.take(ms.len() as int) == mv);
}

} // verus!

verus! {

/// After setting key `k` to `v`, the value under `k` is `v`.
pub proof fn lemma_set_key_get(es: Entries, k: Seq<char>, v: JsonView)
    ensures
        get_key(set_key(es, k, v), k) == Some(v),
{
    lemma_find_key(es, k);
    match find_key(es, k) {
        Some(i) => {
            let t = es.update(i, (k, v));
            assert forall|j: int| 0 <= j < i implies (#[trigger] t[j]).0 != k by {
                assert(t[j] == es[j]);
            }
            lemma_find_key_is(t, k, i);
        },
        None => {
            let t = es.push((k, v));
            assert forall|j: int| 0 <= j < es.len() implies (#[trigger] t[j]).0 != k by {
                assert(t[j] == es[j]);
            }
            lemma_find_key_is(t, k, es.len() as int);
        },
    }
}

} // verus!

verus! {

/// The entries of an object; none for any other value.
pub open spec fn obj_entries(v: JsonView) -> Entries {
    match v {
        JsonView::Object(es) => es,
        _ => Seq::empty(),
    }
}

/// Entries with the same keys in the same places find every key in the same place.
pub proof fn lemma_find_key_same_keys(s: Entries, t: Entries, k: Seq<char>)
    requires
        s.len() == t.len(),
        forall|i: int| 0 <= i < s.len() ==> (#[trigger] s[i]).0 == t[i].0,
    ensures
        find_key(s, k) == find_key(t, k),
    decreases s.len(),
{
    if s.len() > 0 && s[0].0 != k {
        assert forall|i: int| 0 <= i < s.len() - 1 implies (#[trigger] s.drop_first()[i]).0 == t.drop_first()[i].0 by {
            assert(s.drop_first()[i] == s[i + 1]);
            assert(t.drop_first()[i] == t[i + 1]);
        }
        lemma_find_key_same_keys(s.drop_first(), t.drop_first(), k);
    }
}

/// Setting key `k` leaves the value under any other key as it was.
pub proof fn lemma_set_key_other(es: Entries, k: Seq<char>, v: JsonView, k2: Seq<char>)
    requires
        k2 != k,
    ensures
        get_key(set_key(es, k, v), k2) == get_key(es, k2),
{
    lemma_find_key(es, k);
    lemma_find_key(es, k2);
    match find_key(es, k) {
        Some(i) => {
            let t = es.update(i, (k, v));
            lemma_find_key_same_keys(t, es, k2);
            lemma_find_key(t, k2);
        },
        None => {
            let t = es.push((k, v));
            lemma_find_key(t, k2);
            match find_key(es, k2) {
                Some(j) => {
                    assert forall|m: int| 0 <= m < j implies (#[trigger] t[m]).0 != k2 by {
                        assert(t[m] == es[m]);
                    }
                    assert(t[j] == es[j]);
                    lemma_find_key_is(t, k2, j);
                },
                None => {
                    match find_key(t, k2) {
                        Some(j) => {
                            if j < es.len() {
                                assert(t[j] == es[j]);
                            }
                        },
                        None => {},
                    }
                },
            }
        },
    }
}

/// Setting entries with keys other than `k2` leaves the value under `k2` as it was.
pub proof fn lemma_set_all_other(es: Entries, ms: Entries, k2: Seq<char>)
    requires
        forall|j: int| 0 <= j < ms.len() ==> (#[trigger] ms[j]).0 != k2,
    ensures
        get_key(set_all(es, ms), k2) == get_key(es, k2),
    decreases ms.len(),
{
    if ms.len() > 0 {
        assert forall|j: int| 0 <= j < ms.len() - 1 implies (#[trigger] ms.drop_last()[j]).0 != k2 by {
            assert(ms.drop_last()[j] == ms[j]);
        }
        lemma_set_all_other(es, ms.drop_last(), k2);
        assert(ms.last() == ms[ms.len() - 1]);
        lemma_set_key_other(set_all(es, ms.drop_last()), ms.last().0, ms.last().1, k2);
    }
}

/// After setting entries whose keys are distinct, the value under the key of entry `j` is its value.
pub proof fn lemma_set_all_get(es: Entries, ms: Entries, j: int)
    requires
        0 <= j < ms.len(),
        forall|a: int, b: int| 0 <= a < b < ms.len() ==> (#[trigger] ms[a]).0 != (#[trigger] ms[b]).0,
    ensures
        get_key(set_all(es, ms), ms[j].0) == Some(ms[j].1),
    decreases ms.len(),
{
    let last = ms.len() - 1;
    if j == last {
        lemma_set_key_get(set_all(es, ms.drop_last()), ms.last().0, ms.last().1);
    } else {
        assert forall|a: int, b: int| 0 <= a < b < ms.drop_last().len() implies (#[trigger] ms.drop_last()[a]).0
            != (#[trigger] ms.drop_last()[b]).0 by {
            assert(ms.drop_last()[a] == ms[a]);
            assert(ms.drop_last()[b] == ms[b]);
        }
        lemma_set_all_get(es, ms.drop_last(), j);
        assert(ms.drop_last()[j] == ms[j]);
        assert(ms[j].0 != ms[last].0);
        lemma_set_key_other(set_all(es, ms.drop_last()), ms.last().0, ms.last().1, ms[j].0);
    }
}

/// The value under a key survives pruning, pruned, when its pruned form is not empty.
pub proof fn lemma_pruned_get(es: Entries, k: Seq<char>)
    requires
        get_key(es, k) matches Some(v) && !is_empty_view(pruned(v)),
    ensures
        get_key(pruned_entries(es), k) == Some(pruned(get_key(es, k)->0)),
    decreases es.len(),
{
    lemma_find_key(es, k);
    let v = get_key(es, k)->0;
    let x = pruned(es[0].1);
    let rest = pruned_entries(es.drop_first());
    if es[0].0 == k {
        assert(v == es[0].1);
        let r = seq![(es[0].0, x)] + rest;
        assert(r[0] == (k, x));
        lemma_find_key_is(r, k, 0);
    } else {
        let i = find_key(es, k)->0;
        assert forall|m: int| 0 <= m < i - 1 implies (#[trigger] es.drop_first()[m]).0 != k by {
            assert(es.drop_first()[m] == es[m + 1]);
        }
        assert(es.drop_first()[i - 1] == es[i]);
        lemma_find_key_is(es.drop_first(), k, i - 1);
        lemma_pruned_get(es.drop_first(), k);
        if !is_empty_view(x) {
            let r = seq![(es[0].0, x)] + rest;
            lemma_find_key(rest, k);
            let j = find_key(rest, k)->0;
            assert(r[j + 1] == rest[j]);
            assert forall|m: int| 0 <= m < j + 1 implies (#[trigger] r[m]).0 != k by {
                if m > 0 {
                    assert(r[m] == rest[m - 1]);
                }
            }
            lemma_find_key_is(r, k, j + 1);
        }
    }
}

/// A clean value that is not empty is left as it is by pruning.
pub proof fn lemma_pruned_clean_value(v: JsonView)
    requires
        clean(v),
    ensures
        pruned(v) == v,
{
    lemma_clean_fixed(v);
}

} // verus!

verus! {

/// A key whose every entry prunes to nothing is gone after pruning.
pub proof fn lemma_pruned_absent(es: Entries, k: Seq<char>)
    requires
        forall|i: int| 0 <= i < es.len() && (#[trigger] es[i]).0 == k ==> is_empty_view(pruned(es[i].1)),
    ensures
        get_key(pruned_entries(es), k) is None,
    decreases es.len(),
{
    if es.len() > 0 {
        assert forall|i: int| 0 <= i < es.drop_first().len() && (#[trigger] es.drop_first()[i]).0 == k implies is_empty_view(
            pruned(es.drop_first()[i].1),
        ) by {
            assert(es.drop_first()[i] == es[i + 1]);
        }
        lemma_pruned_absent(es.drop_first(), k);
        let rest = pruned_entries(es.drop_first());
        lemma_find_key(rest, k);
        let x = pruned(es[0].1);
        if !is_empty_view(x) {
            assert(es[0].0 != k);
            let r = seq![(es[0].0, x)] + rest;
            assert forall|m: int| 0 <= m < r.len() implies (#[trigger] r[m]).0 != k by {
                if m > 0 {
                    assert(r[m] == rest[m - 1]);
                }
            }
            lemma_find_key(r, k);
        }
    }
}

} // verus!

verus! {

/// Whether no two entries share a key.
pub open spec fn distinct_keys(es: Entries) -> bool {
    forall|a: int, b: int| 0 <= a < b < es.len() ==> (#[trigger] es[a]).0 != (#[trigger] es[b]).0
}

/// Removing key `k` leaves the value under any other key as it was.
pub proof fn lemma_del_key_other(es: Entries, k: Seq<char>, k2: Seq<char>)
    requires
        k2 != k,
    ensures
        get_key(del_key(es, k), k2) == get_key(es, k2),
{
    lemma_find_key(es, k);
    lemma_find_key(es, k2);
    match find_key(es, k) {
        Some(i) => {
            let t = es.remove(i);
            lemma_find_key(t, k2);
            match find_key(es, k2) {
                Some(j) => {
                    let jt = if j < i { j } else { j - 1 };
                    assert(j != i);
                    assert(t[jt] == es[j]);
                    assert forall|m: int| 0 <= m < jt implies (#[trigger] t[m]).0 != k2 by {
                        if m < i {
                            assert(t[m] == es[m]);
                        } else {
                            assert(t[m] == es[m + 1]);
                        }
                    }
                    lemma_find_key_is(t, k2, jt);
                },
                None => {
                    if find_key(t, k2) is Some {
                        let m = find_key(t, k2)->0;
                        if m < i {
                            assert(t[m] == es[m]);
                        } else {
                            assert(t[m] == es[m + 1]);
                        }
                    }
                },
            }
        },
        None => {},
    }
}

/// Without repeated keys, a removed key is gone.
pub proof fn lemma_del_key_gone(es: Entries, k: Seq<char>)
    requires
        distinct_keys(es),
    ensures
        get_key(del_key(es, k), k) is None,
        distinct_keys(del_key(es, k)),
{
    lemma_find_key(es, k);
    match find_key(es, k) {
        Some(i) => {
            let t = es.remove(i);
            assert forall|m: int| 0 <= m < t.len() implies (#[trigger] t[m]).0 != k by {
                if m < i {
                    assert(t[m] == es[m]);
                } else {
                    assert(t[m] == es[m + 1]);
                }
            }
            lemma_find_key(t, k);
            assert forall|a: int, b: int| 0 <= a < b < t.len() implies (#[trigger] t[a]).0 != (#[trigger] t[b]).0 by {
                let ea = if a < i { a } else { a + 1 };
                let eb = if b < i { b } else { b + 1 };
                assert(t[a] == es[ea]);
                assert(t[b] == es[eb]);
            }
        },
        None => {},
    }
}

/// Setting a key keeps the keys distinct.
pub proof fn lemma_set_key_distinct(es: Entries, k: Seq<char>, v: JsonView)
    requires
        distinct_keys(es),
    ensures
        distinct_keys(set_key(es, k, v)),
{
    lemma_find_key(es, k);
    match find_key(es, k) {
        Some(i) => {
            let t = es.update(i, (k, v));
            assert forall|a: int, b: int| 0 <= a < b < t.len() implies (#[trigger] t[a]).0 != (#[trigger] t[b]).0 by {
                assert(t[a].0 == es[a].0);
                assert(t[b].0 == es[b].0);
            }
        },
        None => {
            let t = es.push((k, v));
            assert forall|a: int, b: int| 0 <= a < b < t.len() implies (#[trigger] t[a]).0 != (#[trigger] t[b]).0 by {
                assert(t[a] == es[a]);
                if b < es.len() {
                    assert(t[b] == es[b]);
                }
            }
        },
    }
}

/// One step of a merge-patch, on the entries `te`, for the patch entry `(k, pv)`.
pub open spec fn merge_step(te: Entries, k: Seq<char>, pv: JsonView) -> Entries {
    if pv is Null {
        del_key(te, k)
    } else {
        let old = match get_key(te, k) {
            Some(o) => o,
            None => JsonView::Null,
        };
        set_key(te, k, merged(old, pv))
    }
}

/// The steps of a merge-patch for keys other than `k` leave `k` as it was.
proof fn lemma_merged_entries_other(te: Entries, ps: Entries, i: int, k: Seq<char>)
    requires
        0 <= i,
        forall|m: int| i <= m < ps.len() ==> (#[trigger] ps[m]).0 != k,
    ensures
        get_key(merged_entries(te, ps, i), k) == get_key(te, k),
    decreases ps.len() - i,
{
    if i < ps.len() {
        let te2 = merge_step(te, ps[i].0, ps[i].1);
        assert(merged_entries(te, ps, i) == merged_entries(te2, ps, i + 1));
        if ps[i].1 is Null {
            lemma_del_key_other(te, ps[i].0, k);
        } else {
            let old = match get_key(te, ps[i].0) {
                Some(o) => o,
                None => JsonView::Null,
            };
            lemma_set_key_other(te, ps[i].0, merged(old, ps[i].1), k);
        }
        lemma_merged_entries_other(te2, ps, i + 1, k);
    }
}

/// The steps of a merge-patch keep the keys distinct.
proof fn lemma_merged_entries_distinct(te: Entries, ps: Entries, i: int)
    requires
        0 <= i,
        distinct_keys(te),
    ensures
        distinct_keys(merged_entries(te, ps, i)),
    decreases ps.len() - i,
{
    if i < ps.len() {
        let te2 = merge_step(te, ps[i].0, ps[i].1);
        assert(merged_entries(te, ps, i) == merged_entries(te2, ps, i + 1));
        if ps[i].1 is Null {
            lemma_del_key_gone(te, ps[i].0);
        } else {
            let old = match get_key(te, ps[i].0) {
                Some(o) => o,
                None => JsonView::Null,
            };
            lemma_set_key_distinct(te, ps[i].0, merged(old, ps[i].1));
        }
        lemma_merged_entries_distinct(te2, ps, i + 1);
    }
}

/// What a merge-patch leaves under the key of patch entry `j`, from step `i` on.
proof fn lemma_merged_entries_key(te: Entries, ps: Entries, i: int, j: int)
    requires
        0 <= i <= j < ps.len(),
        distinct_keys(ps),
        ps[j].1 is Null ==> distinct_keys(te),
    ensures
        get_key(merged_entries(te, ps, i), ps[j].0) == (if ps[j].1 is Null {
            None
        } else {
            Some(merged(
                match get_key(te, ps[j].0) {
                    Some(o) => o,
                    None => JsonView::Null,
                },
                ps[j].1,
            ))
        }),
    decreases j - i,
{
    let k = ps[j].0;
    let te2 = merge_step(te, ps[i].0, ps[i].1);
    assert(merged_entries(te, ps, i) == merged_entries(te2, ps, i + 1));
    if i == j {
        assert forall|m: int| i + 1 <= m < ps.len() implies (#[trigger] ps[m]).0 != k by {
            assert(ps[j].0 != ps[m].0);
        }
        lemma_merged_entries_other(te2, ps, i + 1, k);
        if ps[i].1 is Null {
            lemma_del_key_gone(te, k);
        } else {
            let old = match get_key(te, k) {
                Some(o) => o,
                None => JsonView::Null,
            };
            lemma_set_key_get(te, k, merged(old, ps[i].1));
        }
    } else {
        assert(ps[i].0 != k);
        if ps[i].1 is Null {
            lemma_del_key_other(te, ps[i].0, k);
            if ps[j].1 is Null {
                lemma_del_key_gone(te, ps[i].0);
            }
        } else {
            let old = match get_key(te, ps[i].0) {
                Some(o) => o,
                None => JsonView::Null,
            };
            lemma_set_key_other(te, ps[i].0, merged(old, ps[i].1), k);
            if ps[j].1 is Null {
                lemma_set_key_distinct(te, ps[i].0, merged(old, ps[i].1));
            }
        }
        lemma_merged_entries_key(te2, ps, i + 1, j);
    }
}

/// A merge-patch that is not an object replaces the target.
pub proof fn merge_patch_non_object_replaces(t: JsonView, p: JsonView)
    requires
        !(p is Object),
    ensures
        merged(t, p) == p,
{
}

/// An empty merge-patch object leaves an object target as it was.
pub proof fn merge_patch_empty_object_keeps_target(t: JsonView)
    requires
        t is Object,
    ensures
        merged(t, JsonView::Object(Seq::empty())) == t,
{
}

/// After a merge-patch whose keys are distinct, each key of the patch with a non-null
/// value holds that value merged into what the target held there (`null` when
/// nothing), and each key with a `null` value is gone when the target's keys are distinct.
pub proof fn merge_patch_sets_and_removes_keys(t: JsonView, ps: Entries, j: int)
    requires
        0 <= j < ps.len(),
        distinct_keys(ps),
        ps[j].1 is Null ==> distinct_keys(obj_entries(t)),
    ensures
        merged(t, JsonView::Object(ps)) is Object,
        get_key(obj_entries(merged(t, JsonView::Object(ps))), ps[j].0) == (if ps[j].1 is Null {
            None
        } else {
            Some(merged(
                match get_key(obj_entries(t), ps[j].0) {
                    Some(o) => o,
                    None => JsonView::Null,
                },
                ps[j].1,
            ))
        }),
{
    lemma_merged_entries_key(obj_entries(t), ps, 0, j);
}

/// A merge-patch keeps every key of the target that the patch does not name.
pub proof fn merge_patch_keeps_other_keys(t: JsonView, ps: Entries, k: Seq<char>)
    requires
        t is Object,
        forall|m: int| 0 <= m < ps.len() ==> (#[trigger] ps[m]).0 != k,
    ensures
        get_key(obj_entries(merged(t, JsonView::Object(ps))), k) == get_key(obj_entries(t), k),
{
    lemma_merged_entries_other(obj_entries(t), ps, 0, k);
}

/// A merge-patch object applied to a target whose keys are distinct leaves an object
/// whose keys are distinct.
pub proof fn merge_patch_keeps_keys_distinct(t: JsonView, ps: Entries)
    requires
        distinct_keys(obj_entries(t)),
    ensures
        merged(t, JsonView::Object(ps)) is Object,
        distinct_keys(obj_entries(merged(t, JsonView::Object(ps)))),
{
    lemma_merged_entries_distinct(obj_entries(t), ps, 0);
}

/// Whether every object in `v`, at any depth through the values of objects, has
/// distinct keys (as every value read from JSON text does).
pub open spec fn keys_unique(v: JsonView) -> bool
    decreases v,
{
    match v {
        JsonView::Object(es) => distinct_keys(es) && keys_unique_entries(es),
        _ => true,
    }
}

/// Whether every value of `s` satisfies `keys_unique`.
pub open spec fn keys_unique_entries(s: Entries) -> bool
    decreases s,
{
    s.len() == 0 || (keys_unique(s[0].1) && keys_unique_entries(s.drop_first()))
}

proof fn lemma_keys_unique_entry(s: Entries, i: int)
    requires
        keys_unique_entries(s),
        0 <= i < s.len(),
    ensures
        keys_unique(s[i].1),
    decreases s.len(),
{
    if i > 0 {
        lemma_keys_unique_entry(s.drop_first(), i - 1);
        assert(s.drop_first()[i - 1] == s[i]);
    }
}

/// Setting a key to the value it already holds changes nothing.
proof fn lemma_set_key_same(es: Entries, k: Seq<char>, v: JsonView)
    requires
        get_key(es, k) == Some(v),
    ensures
        set_key(es, k, v) == es,
{
    lemma_find_key(es, k);
    let i = find_key(es, k)->0;
    assert(es.update(i, (k, v)) =~= es);
}

/// The value under key `k` of `te`, or `null`, satisfies `keys_unique`.
proof fn lemma_keys_unique_get(te: Entries, k: Seq<char>)
    requires
        keys_unique_entries(te),
    ensures
        keys_unique(match get_key(te, k) {
            Some(o) => o,
            None => JsonView::Null,
        }),
{
    lemma_find_key(te, k);
    if let Some(i) = find_key(te, k) {
        lemma_keys_unique_entry(te, i);
    }
}

/// Running the patch entries `ps[i..]` again over what the whole patch gave leaves it.
proof fn lemma_merged_entries_fixed(te: Entries, ps: Entries, i: int)
    requires
        0 <= i <= ps.len(),
        distinct_keys(te),
        keys_unique_entries(te),
        distinct_keys(ps),
        keys_unique_entries(ps),
    ensures
        merged_entries(merged_entries(te, ps, 0), ps, i) == merged_entries(te, ps, 0),
    decreases ps, ps.len() - i,
{
    let tn = merged_entries(te, ps, 0);
    if i < ps.len() {
        let k = ps[i].0;
        let pv = ps[i].1;
        lemma_merged_entries_key(te, ps, 0, i);
        if pv is Null {
            lemma_find_key(tn, k);
            assert(del_key(tn, k) == tn);
        } else {
            let old = match get_key(te, k) {
                Some(o) => o,
                None => JsonView::Null,
            };
            lemma_keys_unique_get(te, k);
            lemma_keys_unique_entry(ps, i);
            lemma_merged_idempotent(old, pv);
            lemma_set_key_same(tn, k, merged(old, pv));
        }
        assert(merged_entries(tn, ps, i) == merged_entries(merge_step(tn, k, pv), ps, i + 1));
        lemma_merged_entries_fixed(te, ps, i + 1);
    }
}

proof fn lemma_merged_idempotent(t: JsonView, p: JsonView)
    requires
        keys_unique(t),
        keys_unique(p),
    ensures
        merged(merged(t, p), p) == merged(t, p),
    decreases p, 0int,
{
    if let JsonView::Object(ps) = p {
        let te = obj_entries(t);
        lemma_merged_entries_fixed(te, ps, 0);
    }
}

/// Applying the same merge-patch a second time changes nothing, for a target and a
/// patch whose objects have distinct keys at every depth.
pub proof fn merge_patch_is_idempotent(t: JsonView, p: JsonView)
    requires
        keys_unique(t),
        keys_unique(p),
    ensures
        merged(merged(t, p), p) == merged(t, p),
{
    lemma_merged_idempotent(t, p);
}

} // verus!
