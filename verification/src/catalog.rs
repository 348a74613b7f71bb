//! The catalog of one provider: its live model ids joined with metadata, filtered by
//! the user's query, with selected models first and then by id.
use vstd::prelude::*;
use crate::domain::{opt_view, supports_view, CatalogModel, ModelEntry, ModelEntryView, ModelMeta};
use crate::sort::{
    lemma_sorted_insert_at, lemma_stable_sorted_elems, lemma_stable_sorted_map, sorted_insert,
    stable_sorted,
};
use crate::text::{chars_of, contains_chars, contains_seq, lowercase_chars, lowercased, string_views};

verus! {

/// Filter parameters for a catalog listing.
#[derive(Debug)]
pub struct CatalogQuery {
    pub search: Option<String>,
    pub support_image: Option<bool>,
    pub support_audio: Option<bool>,
    pub support_video: Option<bool>,
    pub tool_call: Option<bool>,
    pub reasoning: Option<bool>,
    pub min_context: Option<u64>,
    pub max_context: Option<u64>,
    pub status: Option<String>,
}

/// The mathematical form of `CatalogQuery`.
pub struct QueryView {
    pub search: Option<Seq<char>>,
    pub support_image: Option<bool>,
    pub support_audio: Option<bool>,
    pub support_video: Option<bool>,
    pub tool_call: Option<bool>,
    pub reasoning: Option<bool>,
    pub min_context: Option<u64>,
    pub max_context: Option<u64>,
    pub status: Option<Seq<char>>,
}

impl View for CatalogQuery {
    type V = QueryView;

    open spec fn view(&self) -> QueryView {
        QueryView {
            search: opt_view(self.search),
            support_image: self.support_image,
            support_audio: self.support_audio,
            support_video: self.support_video,
            tool_call: self.tool_call,
            reasoning: self.reasoning,
            min_context: self.min_context,
            max_context: self.max_context,
            status: opt_view(self.status),
        }
    }
}

impl CatalogQuery {
    /// The query with no filter set.
    pub fn none() -> (q: CatalogQuery)
        ensures
            q@ == no_filters(),
    {
        CatalogQuery {
            search: None,
            support_image: None,
            support_audio: None,
            support_video: None,
            tool_call: None,
            reasoning: None,
            min_context: None,
            max_context: None,
            status: None,
        }
    }
}

/// The query with no filter set.
pub open spec fn no_filters() -> QueryView {
    QueryView {
        search: None,
        support_image: None,
        support_audio: None,
        support_video: None,
        tool_call: None,
        reasoning: None,
        min_context: None,
        max_context: None,
        status: None,
    }
}

/// Whether the query filters on anything that only metadata can tell.
pub open spec fn needs_meta(q: QueryView) -> bool {
    q.support_image is Some || q.support_audio is Some || q.support_video is Some
        || q.tool_call is Some || q.reasoning is Some || q.min_context is Some
        || q.max_context is Some || q.status is Some
}

/// Whether a model passes the query: the search term (ignoring case) occurs in its id
/// or name; models without metadata fail every metadata filter; and each set filter
/// holds (a missing flag counts as false, a missing context as 0 for the minimum and
/// as the largest value for the maximum).
pub open spec fn passes_spec(e: ModelEntryView, known: bool, q: QueryView) -> bool {
    &&& (q.search matches Some(term) ==> {
        let t = lowercased(term);
        contains_seq(lowercased(e.id), t) || (e.name matches Some(n) && contains_seq(lowercased(n), t))
    })
    &&& (needs_meta(q) ==> known)
    &&& (q.support_image matches Some(w) ==> supports_view(e, "image"@) == w)
    &&& (q.support_audio matches Some(w) ==> supports_view(e, "audio"@) == w)
    &&& (q.support_video matches Some(w) ==> supports_view(e, "video"@) == w)
    &&& (q.tool_call matches Some(w) ==> (e.tool_call == Some(true)) == w)
    &&& (q.reasoning matches Some(w) ==> (e.reasoning == Some(true)) == w)
    &&& (q.min_context matches Some(m) ==> (match e.limit.context {
        Some(c) => c,
        None => 0,
    }) >= m)
    &&& (q.max_context matches Some(m) ==> (match e.limit.context {
        Some(c) => c,
        None => u64::MAX,
    }) <= m)
    &&& (q.status matches Some(s) ==> e.status == Some(s))
}

/// Whether `flag` is set and true.
fn flag(b: Option<bool>) -> (r: bool)
    ensures
        r == (b == Some(true)),
{
    match b {
        Some(v) => v,
        None => false,
    }
}

/// Whether a model passes the active filters (see `passes_spec`).
pub fn passes(entry: &ModelEntry, metadata_known: bool, q: &CatalogQuery) -> (b: bool)
    ensures
        b == passes_spec(entry@, metadata_known, q@),
{
    if let Some(term) = &q.search {
        let t = lowercase_chars(&chars_of(term.as_str()));
        let idl = lowercase_chars(&chars_of(entry.id.as_str()));
        let id_match = contains_chars(&idl, &t);
        let name_match = match &entry.name {
            Some(n) => {
                let nl = lowercase_chars(&chars_of(n.as_str()));
                contains_chars(&nl, &t)
            },
            None => false,
        };
        if !id_match && !name_match {
            return false;
        }
    }
    let needs = q.support_image.is_some() || q.support_audio.is_some() || q.support_video.is_some()
        || q.tool_call.is_some() || q.reasoning.is_some() || q.min_context.is_some()
        || q.max_context.is_some() || q.status.is_some();
    if needs && !metadata_known {
        return false;
    }
    if let Some(want) = q.support_image {
        if entry.supports("image") != want {
            return false;
        }
    }
    if let Some(want) = q.support_audio {
        if entry.supports("audio") != want {
            return false;
        }
    }
    if let Some(want) = q.support_video {
        if entry.supports("video") != want {
            return false;
        }
    }
    if let Some(want) = q.tool_call {
        if flag(entry.tool_call) != want {
            return false;
        }
    }
    if let Some(want) = q.reasoning {
        if flag(entry.reasoning) != want {
            return false;
        }
    }
    if let Some(min) = q.min_context {
        let c = match entry.context() {
            Some(c) => c,
            None => 0,
        };
        if c < min {
            return false;
        }
    }
    if let Some(max) = q.max_context {
        let c = match entry.context() {
            Some(c) => c,
            None => u64::MAX,
        };
        if c > max {
            return false;
        }
    }
    if let Some(status) = &q.status {
        match &entry.status {
            Some(s) => {
                if !crate::text::chars_eq(&chars_of(s.as_str()), &chars_of(status.as_str())) {
                    return false;
                }
            },
            None => {
                return false;
            },
        }
    }
    true
}

/// Whether `a` comes before `b` in code point order (the order of `String`'s `cmp`,
/// since UTF-8 keeps it).
pub open spec fn seq_lt(a: Seq<char>, b: Seq<char>) -> bool
    decreases a.len(),
{
    if b.len() == 0 {
        false
    } else if a.len() == 0 {
        true
    } else if (a[0] as u32) < (b[0] as u32) {
        true
    } else if a[0] == b[0] {
        seq_lt(a.drop_first(), b.drop_first())
    } else {
        false
    }
}

/// Whether the characters `a` come before `b` in code point order.
pub fn chars_lt(a: &Vec<char>, b: &Vec<char>) -> (r: bool)
    ensures
        r == seq_lt(a@, b@),
{
    let mut i: usize = 0;
    assert(a@.subrange(0, a@.len() as int) == a@);
    assert(b@.subrange(0, b@.len() as int) == b@);
    while i < a.len() && i < b.len()
        invariant
            i <= a.len(),
            i <= b.len(),
            seq_lt(a@, b@) == seq_lt(a@.subrange(i as int, a@.len() as int), b@.subrange(i as int, b@.len() as int)),
        decreases a.len() - i,
    {
        let ghost sa = a@.subrange(i as int, a@.len() as int);
        let ghost sb = b@.subrange(i as int, b@.len() as int);
        assert(sa[0] == a@[i as int] && sb[0] == b@[i as int]);
        if (a[i] as u32) < (b[i] as u32) {
            return true;
        }
        if a[i] != b[i] {
            return false;
        }
        assert(sa.drop_first() == a@.subrange(i + 1, a@.len() as int));
        assert(sb.drop_first() == b@.subrange(i + 1, b@.len() as int));
        i = i + 1;
    }
    i < b.len()
}

/// The mathematical form of a catalog row.
pub struct CatalogModelView {
    pub entry: ModelEntryView,
    pub is_selected: bool,
    pub has_custom_config: bool,
    pub metadata_known: bool,
    pub source: Seq<char>,
}

impl View for CatalogModel {
    type V = CatalogModelView;

    open spec fn view(&self) -> CatalogModelView {
        CatalogModelView {
            entry: self.entry@,
            is_selected: self.meta.is_selected,
            has_custom_config: self.meta.has_custom_config,
            metadata_known: self.meta.metadata_known,
            source: self.meta.source@,
        }
    }
}

/// A resolved model: its entry, whether metadata was found, and where it came from.
pub type ResolvedView = (ModelEntryView, bool, Seq<char>);

/// The mathematical form of a resolved model.
pub open spec fn resolved_view(r: (ModelEntry, bool, &'static str)) -> ResolvedView {
    (r.0@, r.1, r.2@)
}

/// The catalog row for a resolved model.
pub open spec fn catalog_row(r: ResolvedView, selected: Seq<Seq<char>>, customized: Seq<Seq<char>>) -> CatalogModelView {
    CatalogModelView {
        entry: r.0,
        is_selected: selected.contains(r.0.id),
        has_custom_config: customized.contains(r.0.id),
        metadata_known: r.1,
        source: r.2,
    }
}

/// The rows of the resolved models that pass the query, in their order.
pub open spec fn filtered_rows(
    rs: Seq<ResolvedView>,
    selected: Seq<Seq<char>>,
    customized: Seq<Seq<char>>,
    q: QueryView,
) -> Seq<CatalogModelView>
    decreases rs.len(),
{
    if rs.len() == 0 {
        Seq::empty()
    } else {
        let prev = filtered_rows(rs.drop_last(), selected, customized, q);
        let r = rs.last();
        if passes_spec(r.0, r.1, q) {
            prev.push(catalog_row(r, selected, customized))
        } else {
            prev
        }
    }
}

/// Whether row `a` sorts strictly before row `b`: selected rows first, then by id.
pub open spec fn row_before(a: CatalogModelView, b: CatalogModelView) -> bool {
    (a.is_selected && !b.is_selected) || (a.is_selected == b.is_selected && seq_lt(a.entry.id, b.entry.id))
}

/// The catalog listing: the rows of the models that pass the query, stably sorted
/// with selected models first and then by id.
pub open spec fn catalog_of(
    rs: Seq<ResolvedView>,
    selected: Seq<Seq<char>>,
    customized: Seq<Seq<char>>,
    q: QueryView,
) -> Seq<CatalogModelView> {
    stable_sorted(filtered_rows(rs, selected, customized, q), |a: CatalogModelView, b: CatalogModelView| row_before(a, b))
}

/// The views of a list of catalog rows.
pub open spec fn row_views(v: Seq<CatalogModel>) -> Seq<CatalogModelView> {
    v.map_values(|m: CatalogModel| m@)
}

/// The views of a list of resolved models.
pub open spec fn resolved_views(v: Seq<(ModelEntry, bool, &'static str)>) -> Seq<ResolvedView> {
    v.map_values(|r: (ModelEntry, bool, &'static str)| resolved_view(r))
}

/// The rows that pass the query, in input order.
fn filter_rows(
    resolved_models: Vec<(ModelEntry, bool, &'static str)>,
    selected: &Vec<String>,
    customized: &Vec<String>,
    query: &CatalogQuery,
) -> (rows: Vec<CatalogModel>)
    ensures
        row_views(rows@) == filtered_rows(
            resolved_views(resolved_models@),
            string_views(selected@),
            string_views(customized@),
            query@,
        ),
{
    let ghost rs = resolved_views(resolved_models@);
    let ghost sel = string_views(selected@);
    let ghost cus = string_views(customized@);
    let n = resolved_models.len();
    // Reverse once so that popping yields the models in the order they came in.
    let mut rest = resolved_models;
    let mut rev: Vec<(ModelEntry, bool, &'static str)> = Vec::new();
    while rest.len() > 0
        invariant
            rest.len() + rev.len() == n,
            rs.len() == n,
            forall|k: int| 0 <= k < rest.len() ==> resolved_view(#[trigger] rest@[k]) == rs[k],
            forall|k: int| 0 <= k < rev.len() ==> resolved_view(#[trigger] rev@[k]) == rs[n - 1 - k],
        decreases rest.len(),
    {
        let x = rest.pop().unwrap();
        rev.push(x);
    }
    let mut rows: Vec<CatalogModel> = Vec::new();
    let mut i: usize = 0;
    assert(rs.take(0) == Seq::<ResolvedView>::empty());
    while i < n
        invariant
            i <= n,
            rs.len() == n,
            rev.len() == n - i,
            forall|k: int| 0 <= k < rev.len() ==> resolved_view(#[trigger] rev@[k]) == rs[n - 1 - k],
            row_views(rows@) == filtered_rows(rs.take(i as int), sel, cus, query@),
            sel == string_views(selected@),
            cus == string_views(customized@),
        decreases n - i,
    {
        let (entry, metadata_known, source) = rev.pop().unwrap();
        let ghost t = rs.take(i + 1);
        assert(t.drop_last() == rs.take(i as int));
        assert(t.last() == rs[i as int]);
        if passes(&entry, metadata_known, query) {
            let is_selected = crate::domain::strings_contain(selected, entry.id.as_str());
            let has_custom_config = crate::domain::strings_contain(customized, entry.id.as_str());
            let m = CatalogModel {
                entry,
                meta: ModelMeta { is_selected, has_custom_config, metadata_known, source },
            };
            let ghost before = rows@;
            rows.push(m);
            assert(row_views(rows@) == row_views(before).push(m@));
        }
        i = i + 1;
    }
    assert(rs.take(n as int) == rs);
    rows
}

/// Indices `0..n` stably sorted so that the rows they name are in catalog order.
fn sort_row_indices(sel: &Vec<bool>, ids: &Vec<Vec<char>>) -> (r: Vec<usize>)
    requires
        sel.len() == ids.len(),
    ensures
        r@ == stable_sorted(
            Seq::new(sel.len() as nat, |i: int| i as usize),
            |a: usize, b: usize| index_before(sel@, views_of(ids@), a, b),
        ),
        forall|k: int| 0 <= k < r.len() ==> (#[trigger] r@[k]) < sel.len(),
{
    let n = sel.len();
    let ghost lt = |a: usize, b: usize| index_before(sel@, views_of(ids@), a, b);
    let ghost all = Seq::new(n as nat, |i: int| i as usize);
    let mut out: Vec<usize> = Vec::new();
    let mut i: usize = 0;
    assert(all.take(0) == Seq::<usize>::empty());
    while i < n
        invariant
            i <= n,
            n == sel.len(),
            n == ids.len(),
            all == Seq::new(n as nat, |i: int| i as usize),
            lt == |a: usize, b: usize| index_before(sel@, views_of(ids@), a, b),
            out@ == stable_sorted(all.take(i as int), lt),
            forall|k: int| 0 <= k < out.len() ==> (#[trigger] out@[k]) < i,
        decreases n - i,
    {
        let ghost s = out@;
        let mut j: usize = out.len();
        while j > 0 && index_lt_exec(sel, ids, i, out[j - 1])
            invariant
                j <= out.len(),
                out@ == s,
                n == sel.len(),
                n == ids.len(),
                i < n,
                lt == |a: usize, b: usize| index_before(sel@, views_of(ids@), a, b),
                forall|k: int| 0 <= k < out.len() ==> (#[trigger] out@[k]) < i,
                forall|k: int| j <= k < s.len() ==> lt(i, #[trigger] s[k]),
            decreases j,
        {
            j = j - 1;
        }
        proof {
            lemma_sorted_insert_at(s, i, lt, j as int);
            let t = all.take(i + 1);
            assert(t.drop_last() == all.take(i as int));
            assert(t.last() == i);
        }
        out.insert(j, i);
        i = i + 1;
    }
    assert(all.take(n as int) == all);
    out
}

/// The views of a list of character vectors.
pub open spec fn views_of(v: Seq<Vec<char>>) -> Seq<Seq<char>> {
    v.map_values(|c: Vec<char>| c@)
}

/// Whether row `a` sorts before row `b`, by their flags and ids.
pub open spec fn index_before(sel: Seq<bool>, ids: Seq<Seq<char>>, a: usize, b: usize) -> bool {
    (sel[a as int] && !sel[b as int]) || (sel[a as int] == sel[b as int] && seq_lt(ids[a as int], ids[b as int]))
}

fn index_lt_exec(sel: &Vec<bool>, ids: &Vec<Vec<char>>, a: usize, b: usize) -> (r: bool)
    requires
        sel.len() == ids.len(),
        a < sel.len(),
        b < sel.len(),
    ensures
        r == index_before(sel@, views_of(ids@), a, b),
{
    (sel[a] && !sel[b]) || (sel[a] == sel[b] && chars_lt(&ids[a], &ids[b]))
}

/// Joins the resolved models with the selection state and filters them by `query`.
/// The result holds, in order, the rows of the models that pass the query (see
/// `passes_spec`), stably sorted with selected models first and then by id.
pub fn build_catalog(
    resolved_models: Vec<(ModelEntry, bool, &'static str)>,
    selected: &Vec<String>,
    customized: &Vec<String>,
    query: &CatalogQuery,
) -> (out: Vec<CatalogModel>)
    ensures
        row_views(out@) == catalog_of(
            resolved_views(resolved_models@),
            string_views(selected@),
            string_views(customized@),
            query@,
        ),
{
    let ghost rv = resolved_views(resolved_models@);
    let rows = filter_rows(resolved_models, selected, customized, query);
    let ghost rws = row_views(rows@);
    let n = rows.len();
    let mut sel: Vec<bool> = Vec::new();
    let mut ids: Vec<Vec<char>> = Vec::new();
    let mut k: usize = 0;
    while k < n
        invariant
            k <= n,
            n == rows.len(),
            rws == row_views(rows@),
            sel.len() == k,
            ids.len() == k,
            forall|m: int| 0 <= m < k ==> #[trigger] sel@[m] == rws[m].is_selected,
            forall|m: int| 0 <= m < k ==> (#[trigger] ids@[m])@ == rws[m].entry.id,
        decreases n - k,
    {
        sel.push(rows[k].meta.is_selected);
        ids.push(chars_of(rows[k].entry.id.as_str()));
        k = k + 1;
    }
    let order = sort_row_indices(&sel, &ids);
    let mut slots: Vec<Option<CatalogModel>> = Vec::new();
    let mut rows = rows;
    let mut rev: Vec<CatalogModel> = Vec::new();
    while rows.len() > 0
        invariant
            rows.len() + rev.len() == n,
            rws.len() == n,
            forall|m: int| 0 <= m < rows.len() ==> (#[trigger] rows@[m])@ == rws[m],
            forall|m: int| 0 <= m < rev.len() ==> (#[trigger] rev@[m])@ == rws[n - 1 - m],
        decreases rows.len(),
    {
        let x = rows.pop().unwrap();
        rev.push(x);
    }
    while rev.len() > 0
        invariant
            rev.len() + slots.len() == n,
            rws.len() == n,
            forall|m: int| 0 <= m < rev.len() ==> (#[trigger] rev@[m])@ == rws[n - 1 - m],
            forall|m: int| 0 <= m < slots.len() ==> ((#[trigger] slots@[m]) matches Some(x) && x@ == rws[m]),
        decreases rev.len(),
    {
        let x = rev.pop().unwrap();
        slots.push(Some(x));
    }
    let ghost idx_lt = |a: usize, b: usize| index_before(sel@, views_of(ids@), a, b);
    let ghost all = Seq::new(n as nat, |i: int| i as usize);
    let ghost f = |i: usize| rws[i as int];
    let ghost row_lt = |a: CatalogModelView, b: CatalogModelView| row_before(a, b);
    let ghost dom = |i: usize| (i as int) < n;
    proof {
        assert forall|p: usize, q: usize| dom(p) && dom(q) implies #[trigger] idx_lt(p, q) == row_lt(f(p), f(q)) by {
            assert(sel@[p as int] == rws[p as int].is_selected);
            assert(ids@[p as int]@ == rws[p as int].entry.id);
            assert(sel@[q as int] == rws[q as int].is_selected);
            assert(ids@[q as int]@ == rws[q as int].entry.id);
            assert(views_of(ids@)[p as int] == ids@[p as int]@);
            assert(views_of(ids@)[q as int] == ids@[q as int]@);
        }
        lemma_stable_sorted_map(all, f, row_lt, idx_lt, dom);
        assert(all.map_values(f) =~= rws);
        lemma_stable_sorted_elems(all, idx_lt);
        assert(all.no_duplicates());
    }
    let mut out: Vec<CatalogModel> = Vec::new();
    let mut i: usize = 0;
    while i < order.len()
        invariant
            i <= order.len(),
            order.len() == n,
            slots.len() == n,
            rws.len() == n,
            order@.no_duplicates(),
            forall|m: int| 0 <= m < order.len() ==> (#[trigger] order@[m]) < n,
            forall|m: int| i <= m < order.len() ==> ((#[trigger] slots@[order@[m] as int]) matches Some(x) && x@ == rws[order@[m] as int]),
            out@.len() == i,
            forall|m: int| 0 <= m < i ==> (#[trigger] out@[m])@ == rws[order@[m] as int],
        decreases order.len() - i,
    {
        let idx = order[i];
        let ghost before = slots@;
        let taken = slots[idx].take();
        assert(slots@ == before.update(idx as int, None));
        assert forall|m: int| i < m < order.len() implies ((#[trigger] slots@[order@[m] as int]) matches Some(x) && x@ == rws[order@[m] as int]) by {
            assert(order@[m] != order@[i as int]);
        }
        match taken {
            Some(x) => {
                out.push(x);
            },
            None => {
                assert(false);
            },
        }
        i = i + 1;
    }
    proof {
        assert(row_views(out@) =~= stable_sorted(all, idx_lt).map_values(f));
    }
    out
}

} // verus!

verus! {

/// The ids of the models that pass the query, sorted by id (what "select all
/// filtered" selects across the whole result set).
pub fn filtered_ids(resolved_models: Vec<(ModelEntry, bool, &'static str)>, query: &CatalogQuery) -> (ids: Vec<String>)
    ensures
        string_views(ids@) == catalog_of(
            resolved_views(resolved_models@),
            Seq::empty(),
            Seq::empty(),
            query@,
        ).map_values(|m: CatalogModelView| m.entry.id),
{
    let empty: Vec<String> = Vec::new();
    assert(string_views(empty@) == Seq::<Seq<char>>::empty());
    let rows = build_catalog(resolved_models, &empty, &empty, query);
    let ghost target = row_views(rows@).map_values(|m: CatalogModelView| m.entry.id);
    let mut ids: Vec<String> = Vec::new();
    let mut i: usize = 0;
    while i < rows.len()
        invariant
            i <= rows.len(),
            target == row_views(rows@).map_values(|m: CatalogModelView| m.entry.id),
            string_views(ids@) == target.take(i as int),
        decreases rows.len() - i,
    {
        let s = rows[i].entry.id.clone();
        let ghost before = ids@;
        ids.push(s);
        assert(string_views(ids@) == string_views(before).push(s@));
        assert(target.take(i + 1) == target.take(i as int).push(target[i as int]));
        i = i + 1;
    }
    assert(target.take(rows.len() as int) == target);
    ids
}

/// The source label stored in the catalog cache, as one of the four known labels.
pub open spec fn cached_source_spec(s: Seq<char>) -> Seq<char> {
    if s == "models.dev"@ {
        "models.dev"@
    } else if s == "local-library"@ {
        "local-library"@
    } else if s == "openrouter"@ {
        "openrouter"@
    } else {
        "provider-only"@
    }
}

/// Whether the string slice `s` equals `t`.
pub fn str_eq(s: &str, t: &str) -> (b: bool)
    ensures
        b == (s@ == t@),
{
    crate::text::chars_eq(&chars_of(s), &chars_of(t))
}

/// Maps a source label read back from the catalog cache to its static label; unknown
/// labels count as provider-only.
pub fn cached_source(source: &str) -> (r: &'static str)
    ensures
        r@ == cached_source_spec(source@),
{
    if str_eq(source, "models.dev") {
        "models.dev"
    } else if str_eq(source, "local-library") {
        "local-library"
    } else if str_eq(source, "openrouter") {
        "openrouter"
    } else {
        "provider-only"
    }
}

/// A catalog listing with its counts.
#[derive(Debug)]
pub struct CatalogResult {
    /// Total ids the provider key exposes (before filtering).
    pub total_available: usize,
    /// How many matched the filters.
    pub matched: usize,
    pub models: Vec<CatalogModel>,
}

/// The listing built from a provider's catalog cache, when it has one: `total_available`
/// is the stored total (0 when negative, converted as `as usize` converts), `matched`
/// the number of rows. Without a cache the listing is empty.
pub fn fetch_catalog(
    cache: Option<(i64, Vec<(ModelEntry, bool, &'static str)>)>,
    selected: &Vec<String>,
    customized: &Vec<String>,
    query: &CatalogQuery,
) -> (r: CatalogResult)
    ensures
        match cache {
            Some((total_available, resolved_models)) => {
                &&& row_views(r.models@) == catalog_of(
                    resolved_views(resolved_models@),
                    string_views(selected@),
                    string_views(customized@),
                    query@,
                )
                &&& r.total_available == (if total_available < 0 { 0i64 } else { total_available }) as usize
            },
            None => r.models@.len() == 0 && r.total_available == 0,
        },
        r.matched == r.models.len(),
{
    match cache {
        Some((total_available, resolved_models)) => {
            let models = build_catalog(resolved_models, selected, customized, query);
            let total: i64 = if total_available < 0 {
                0
            } else {
                total_available
            };
            let matched = models.len();
            CatalogResult { total_available: total as usize, matched, models }
        },
        None => CatalogResult { total_available: 0, matched: 0, models: Vec::new() },
    }
}

} // verus!

verus! {

proof fn lemma_seq_lt_irreflexive(a: Seq<char>)
    ensures
        !seq_lt(a, a),
    decreases a.len(),
{
    if a.len() > 0 {
        lemma_seq_lt_irreflexive(a.drop_first());
    }
}

proof fn lemma_seq_lt_transitive(a: Seq<char>, b: Seq<char>, c: Seq<char>)
    requires
        seq_lt(a, b),
        seq_lt(b, c),
    ensures
        seq_lt(a, c),
    decreases a.len(),
{
    if a.len() > 0 && b.len() > 0 && c.len() > 0 {
        if a[0] == b[0] && b[0] == c[0] {
            lemma_seq_lt_transitive(a.drop_first(), b.drop_first(), c.drop_first());
        }
    }
}

proof fn lemma_seq_lt_total(a: Seq<char>, b: Seq<char>)
    ensures
        a == b || seq_lt(a, b) || seq_lt(b, a),
    decreases a.len(),
{
    if a.len() > 0 && b.len() > 0 {
        if a[0] == b[0] {
            lemma_seq_lt_total(a.drop_first(), b.drop_first());
            if a.drop_first() == b.drop_first() {
                assert(a == seq![a[0]] + a.drop_first());
                assert(b == seq![b[0]] + b.drop_first());
            }
        } else {
            vstd::utf8::char_u32_cast(a[0], a[0] as u32);
            vstd::utf8::char_u32_cast(b[0], b[0] as u32);
            assert((a[0] as u32) != (b[0] as u32));
        }
    } else if a.len() == 0 && b.len() == 0 {
        assert(a == b);
    }
}

proof fn lemma_row_before_order()
    ensures
        crate::sort::strict_weak_order(|a: CatalogModelView, b: CatalogModelView| row_before(a, b)),
{
    let lt = |a: CatalogModelView, b: CatalogModelView| row_before(a, b);
    assert forall|a: CatalogModelView| !#[trigger] lt(a, a) by {
        lemma_seq_lt_irreflexive(a.entry.id);
    }
    assert forall|a: CatalogModelView, b: CatalogModelView, c: CatalogModelView|
        #[trigger] lt(a, b) && #[trigger] lt(b, c) implies lt(a, c) by {
        if seq_lt(a.entry.id, b.entry.id) && seq_lt(b.entry.id, c.entry.id) {
            lemma_seq_lt_transitive(a.entry.id, b.entry.id, c.entry.id);
        }
    }
    assert forall|a: CatalogModelView, b: CatalogModelView, c: CatalogModelView|
        !#[trigger] lt(a, b) && !#[trigger] lt(b, c) implies !lt(a, c) by {
        lemma_seq_lt_total(a.entry.id, b.entry.id);
        lemma_seq_lt_total(b.entry.id, c.entry.id);
        lemma_seq_lt_irreflexive(a.entry.id);
        if seq_lt(b.entry.id, a.entry.id) && seq_lt(c.entry.id, b.entry.id) {
            lemma_seq_lt_transitive(c.entry.id, b.entry.id, a.entry.id);
        }
        if seq_lt(c.entry.id, a.entry.id) && seq_lt(a.entry.id, c.entry.id) {
            lemma_seq_lt_transitive(a.entry.id, c.entry.id, a.entry.id);
        }
    }
}

/// The catalog lists selected models before the others and, within each group, by
/// id in ascending order; it holds exactly the rows of the models that pass the
/// query, each as often as it was resolved.
pub proof fn catalog_is_sorted_selection_of_passing_rows(
    rs: Seq<ResolvedView>,
    selected: Seq<Seq<char>>,
    customized: Seq<Seq<char>>,
    q: QueryView,
)
    ensures
        forall|i: int, j: int|
            0 <= i < j < catalog_of(rs, selected, customized, q).len() ==> !row_before(
                #[trigger] catalog_of(rs, selected, customized, q)[j],
                #[trigger] catalog_of(rs, selected, customized, q)[i],
            ),
        catalog_of(rs, selected, customized, q).to_multiset() == filtered_rows(rs, selected, customized, q).to_multiset(),
{
    lemma_row_before_order();
    crate::sort::stable_sorted_is_ordered_permutation(
        filtered_rows(rs, selected, customized, q),
        |a: CatalogModelView, b: CatalogModelView| row_before(a, b),
    );
}

/// Every row that `filtered_rows` keeps passes the query and is the row of one of
/// the resolved models.
pub proof fn filtered_rows_pass(
    rs: Seq<ResolvedView>,
    selected: Seq<Seq<char>>,
    customized: Seq<Seq<char>>,
    q: QueryView,
)
    ensures
        forall|k: int| 0 <= k < filtered_rows(rs, selected, customized, q).len() ==> {
            let r = #[trigger] filtered_rows(rs, selected, customized, q)[k];
            &&& passes_spec(r.entry, r.metadata_known, q)
            &&& exists|m: int| 0 <= m < rs.len() && r == catalog_row(rs[m], selected, customized)
        },
    decreases rs.len(),
{
    if rs.len() > 0 {
        filtered_rows_pass(rs.drop_last(), selected, customized, q);
        let prev = filtered_rows(rs.drop_last(), selected, customized, q);
        let all = filtered_rows(rs, selected, customized, q);
        assert forall|k: int| 0 <= k < all.len() implies {
            let r = #[trigger] all[k];
            &&& passes_spec(r.entry, r.metadata_known, q)
            &&& exists|m: int| 0 <= m < rs.len() && r == catalog_row(rs[m], selected, customized)
        } by {
            if k < prev.len() {
                assert(all[k] == prev[k]);
                let r = prev[k];
                let m = choose|m: int| 0 <= m < rs.drop_last().len() && r == catalog_row(rs.drop_last()[m], selected, customized);
                assert(rs.drop_last()[m] == rs[m]);
            } else {
                assert(all[k] == catalog_row(rs.last(), selected, customized));
                assert(rs[rs.len() - 1] == rs.last());
            }
        }
    }
}


/// The context filters bound the context of what passes. With only a maximum `m` set,
/// a model passes exactly when its metadata is known and its context is at most `m`
/// (a missing context counts as unbounded); with only a minimum `m`, exactly when its
/// metadata is known and its context is at least `m` (a missing context counts as 0).
/// Under any query, a passing model with a known context lies within the set bounds.
pub proof fn context_filters_bound_the_context(e: ModelEntryView, known: bool, m: u64, q: QueryView)
    ensures
        passes_spec(e, known, QueryView { max_context: Some(m), ..no_filters() }) <==> known && match e.limit.context {
            Some(c) => c <= m,
            None => m == u64::MAX,
        },
        passes_spec(e, known, QueryView { min_context: Some(m), ..no_filters() }) <==> known && match e.limit.context {
            Some(c) => c >= m,
            None => m == 0,
        },
        forall|c: u64, hi: u64|
            passes_spec(e, known, q) && e.limit.context == Some(c) && q.max_context == Some(hi) ==> c <= hi,
        forall|c: u64, lo: u64|
            passes_spec(e, known, q) && e.limit.context == Some(c) && q.min_context == Some(lo) ==> c >= lo,
{
}

} // verus!
