//! Candidate ids for fuzzy model-id matching across providers.
use vstd::prelude::*;
use crate::openrouter::OpenRouterModel;
use crate::text::{
    after_last_slash, after_last_slash_chars, chars_eq, chars_of, contains_chars, contains_seq,
    lowercase_chars, lowercased, string_views, strings_of, utf8_len, utf8_len_of, views,
};

verus! {

/// The separators at which an id is cut into shorter candidates.
pub open spec fn is_sep(c: char) -> bool {
    c == '-' || c == '_' || c == '.'
}

/// The position of the last separator in `s`.
pub open spec fn last_sep(s: Seq<char>) -> Option<int>
    decreases s.len(),
{
    if s.len() == 0 {
        None
    } else if is_sep(s.last()) {
        Some(s.len() - 1)
    } else {
        last_sep(s.drop_last())
    }
}

/// The position of the first separator in `s`.
pub open spec fn first_sep(s: Seq<char>) -> Option<int>
    decreases s.len(),
{
    if s.len() == 0 {
        None
    } else if is_sep(s[0]) {
        Some(0)
    } else {
        match first_sep(s.drop_first()) {
            Some(p) => Some(p + 1),
            None => None,
        }
    }
}

pub proof fn lemma_last_sep_bounds(s: Seq<char>)
    ensures
        last_sep(s) matches Some(p) ==> 0 <= p < s.len() && is_sep(s[p]),
        last_sep(s) is None ==> forall|k: int| 0 <= k < s.len() ==> !is_sep(#[trigger] s[k]),
        last_sep(s) matches Some(p) ==> forall|k: int| p < k < s.len() ==> !is_sep(#[trigger] s[k]),
    decreases s.len(),
{
    if s.len() > 0 && !is_sep(s.last()) {
        lemma_last_sep_bounds(s.drop_last());
        assert forall|k: int| 0 <= k < s.len() - 1 implies s[k] == s.drop_last()[k] by {}
    }
}

pub proof fn lemma_first_sep_bounds(s: Seq<char>)
    ensures
        first_sep(s) matches Some(p) ==> 0 <= p < s.len() && is_sep(s[p]),
        first_sep(s) is None ==> forall|k: int| 0 <= k < s.len() ==> !is_sep(#[trigger] s[k]),
        first_sep(s) matches Some(p) ==> forall|k: int| 0 <= k < p ==> !is_sep(#[trigger] s[k]),
    decreases s.len(),
{
    if s.len() > 0 && !is_sep(s[0]) {
        lemma_first_sep_bounds(s.drop_first());
        assert forall|k: int| 1 <= k < s.len() implies s[k] == s.drop_first()[k - 1] by {}
    }
}

/// Successively shorter prefixes of `s`, each cut at its last separator, while they
/// keep at least three bytes.
pub open spec fn right_stripped_of(s: Seq<char>) -> Seq<Seq<char>>
    decreases s.len(),
{
    match last_sep(s) {
        None => Seq::empty(),
        Some(p) => {
            proof {
                lemma_last_sep_bounds(s);
            }
            let c = s.take(p);
            if utf8_len(c) >= 3 {
                seq![c] + right_stripped_of(c)
            } else {
                Seq::empty()
            }
        },
    }
}

/// Successively shorter suffixes of `s`, each cut after its first separator, while
/// they keep at least three bytes.
pub open spec fn left_stripped_of(s: Seq<char>) -> Seq<Seq<char>>
    decreases s.len(),
{
    match first_sep(s) {
        None => Seq::empty(),
        Some(p) => {
            proof {
                lemma_first_sep_bounds(s);
            }
            let c = s.skip(p + 1);
            if utf8_len(c) >= 3 {
                seq![c] + left_stripped_of(c)
            } else {
                Seq::empty()
            }
        },
    }
}

/// Each entry of `cs` followed by its lowercase form.
pub open spec fn with_lower(cs: Seq<Seq<char>>) -> Seq<Seq<char>>
    decreases cs.len(),
{
    if cs.len() == 0 {
        Seq::empty()
    } else {
        with_lower(cs.drop_last()) + seq![cs.last(), lowercased(cs.last())]
    }
}

/// The right-stripped forms of each left-stripped form, with their lowercase forms.
pub open spec fn cross_of(ls: Seq<Seq<char>>) -> Seq<Seq<char>>
    decreases ls.len(),
{
    if ls.len() == 0 {
        Seq::empty()
    } else {
        cross_of(ls.drop_last()) + with_lower(right_stripped_of(ls.last()))
    }
}

/// Every candidate considered for `id`, in order, before short ones and repeats are dropped.
pub open spec fn raw_candidates(id: Seq<char>) -> Seq<Seq<char>> {
    let base = after_last_slash(id);
    seq![id, lowercased(id), base, lowercased(base)] + with_lower(right_stripped_of(base))
        + with_lower(left_stripped_of(base)) + cross_of(left_stripped_of(base))
}

/// `acc` with `s` added at the end, unless `s` is shorter than three bytes or already there.
pub open spec fn add_candidate(acc: Seq<Seq<char>>, s: Seq<char>) -> Seq<Seq<char>> {
    if utf8_len(s) >= 3 && !acc.contains(s) {
        acc.push(s)
    } else {
        acc
    }
}

/// The entries of `items` in order, without those shorter than three bytes and
/// without repeats (the first occurrence stays).
pub open spec fn dedup_long(items: Seq<Seq<char>>) -> Seq<Seq<char>>
    decreases items.len(),
{
    if items.len() == 0 {
        Seq::empty()
    } else {
        add_candidate(dedup_long(items.drop_last()), items.last())
    }
}

/// The candidates generated for `id`.
pub open spec fn candidates_of(id: Seq<char>) -> Seq<Seq<char>> {
    dedup_long(raw_candidates(id))
}

/// Successively shorter prefixes of `s` cut at the last `-`, `_` or `.`, while they
/// keep at least three bytes.
fn right_stripped(s: &Vec<char>) -> (r: Vec<Vec<char>>)
    ensures
        views(r@) == right_stripped_of(s@),
{
    let mut r: Vec<Vec<char>> = Vec::new();
    let mut curr: Vec<char> = s.clone();
    assert(views(r@) + right_stripped_of(curr@) == right_stripped_of(s@));
    loop
        invariant
            views(r@) + right_stripped_of(curr@) == right_stripped_of(s@),
        decreases curr.len(),
    {
        let mut j: usize = curr.len();
        assert(curr@.take(curr@.len() as int) == curr@);
        while j > 0 && !(curr[j - 1] == '-' || curr[j - 1] == '_' || curr[j - 1] == '.')
            invariant
                j <= curr.len(),
                last_sep(curr@) == last_sep(curr@.take(j as int)),
            decreases j,
        {
            assert(curr@.take(j as int).drop_last() == curr@.take(j - 1));
            j = j - 1;
        }
        if j == 0 {
            assert(last_sep(curr@.take(0)) is None);
            assert(views(r@) + Seq::<Seq<char>>::empty() == views(r@));
            return r;
        }
        proof {
            let t = curr@.take(j as int);
            assert(is_sep(t.last()));
            lemma_last_sep_bounds(curr@);
        }
        let mut c: Vec<char> = Vec::new();
        let mut k: usize = 0;
        while k < j - 1
            invariant
                j <= curr.len(),
                k <= j - 1,
                c@ == curr@.take(k as int),
            decreases j - 1 - k,
        {
            c.push(curr[k]);
            k = k + 1;
            assert(c@ == curr@.take(k as int));
        }
        if utf8_len_of(&c) >= 3 {
            let ghost before = views(r@);
            r.push(c.clone());
            assert(views(r@) == before.push(c@));
            assert(before + (seq![c@] + right_stripped_of(c@)) == before.push(c@) + right_stripped_of(c@));
            curr = c;
        } else {
            assert(views(r@) + Seq::<Seq<char>>::empty() == views(r@));
            return r;
        }
    }
}

/// Successively shorter suffixes of `s` cut after the first `-`, `_` or `.`, while
/// they keep at least three bytes.
fn left_stripped(s: &Vec<char>) -> (r: Vec<Vec<char>>)
    ensures
        views(r@) == left_stripped_of(s@),
{
    let mut r: Vec<Vec<char>> = Vec::new();
    let mut curr: Vec<char> = s.clone();
    assert(views(r@) + left_stripped_of(curr@) == left_stripped_of(s@));
    loop
        invariant
            views(r@) + left_stripped_of(curr@) == left_stripped_of(s@),
        decreases curr.len(),
    {
        let mut j: usize = 0;
        while j < curr.len() && !(curr[j] == '-' || curr[j] == '_' || curr[j] == '.')
            invariant
                j <= curr.len(),
                forall|k: int| 0 <= k < j ==> !is_sep(#[trigger] curr@[k]),
            decreases curr.len() - j,
        {
            j = j + 1;
        }
        proof {
            lemma_first_sep_bounds(curr@);
        }
        if j == curr.len() {
            assert(first_sep(curr@) is None) by {
                if first_sep(curr@) is Some {
                    let p = first_sep(curr@)->0;
                    assert(!is_sep(curr@[p]));
                }
            }
            assert(views(r@) + Seq::<Seq<char>>::empty() == views(r@));
            return r;
        }
        assert(first_sep(curr@) == Some(j as int)) by {
            if first_sep(curr@) is None {
                assert(!is_sep(curr@[j as int]));
            } else {
                let p = first_sep(curr@)->0;
                assert(!(p < j));
                assert(!(p > j));
            }
        }
        let mut c: Vec<char> = Vec::new();
        let mut k: usize = j + 1;
        while k < curr.len()
            invariant
                j < curr.len(),
                j + 1 <= k <= curr.len(),
                c@ == curr@.subrange(j + 1, k as int),
            decreases curr.len() - k,
        {
            c.push(curr[k]);
            k = k + 1;
            assert(c@ == curr@.subrange(j + 1, k as int));
        }
        assert(c@ == curr@.skip(j + 1));
        if utf8_len_of(&c) >= 3 {
            let ghost before = views(r@);
            r.push(c.clone());
            assert(views(r@) == before.push(c@));
            assert(before + (seq![c@] + left_stripped_of(c@)) == before.push(c@) + left_stripped_of(c@));
            curr = c;
        } else {
            assert(views(r@) + Seq::<Seq<char>>::empty() == views(r@));
            return r;
        }
    }
}

/// Appends each entry of `cs` and its lowercase form to `out`.
fn push_with_lower(out: &mut Vec<Vec<char>>, cs: &Vec<Vec<char>>)
    ensures
        views(final(out)@) == views(old(out)@) + with_lower(views(cs@)),
{
    let ghost start = views(out@);
    let mut k: usize = 0;
    assert(views(cs@).take(0) == Seq::<Seq<char>>::empty());
    assert(start + Seq::<Seq<char>>::empty() == start);
    while k < cs.len()
        invariant
            k <= cs.len(),
            views(out@) == start + with_lower(views(cs@).take(k as int)),
        decreases cs.len() - k,
    {
        let c = cs[k].clone();
        let lc = lowercase_chars(&c);
        let ghost before = views(out@);
        out.push(c);
        out.push(lc);
        let ghost t = views(cs@).take(k + 1);
        assert(t.drop_last() == views(cs@).take(k as int));
        assert(t.last() == cs@[k as int]@);
        assert(views(out@) == before + seq![t.last(), lowercased(t.last())]);
        k = k + 1;
    }
    assert(views(cs@).take(cs.len() as int) == views(cs@));
}

/// Whether the list of character vectors holds `s`.
fn contains_vec(acc: &Vec<Vec<char>>, s: &Vec<char>) -> (b: bool)
    ensures
        b == views(acc@).contains(s@),
{
    let mut k: usize = 0;
    while k < acc.len()
        invariant
            k <= acc.len(),
            forall|m: int| 0 <= m < k ==> views(acc@)[m] != s@,
        decreases acc.len() - k,
    {
        if chars_eq(&acc[k], s) {
            assert(views(acc@)[k as int] == s@);
            return true;
        }
        k = k + 1;
    }
    false
}

/// The candidate ids generated for `id`, most specific first: `id` itself and its
/// lowercase form, the part after the last `/`, then forms cut at `-`, `_` and `.`
/// from the right, from the left, and from both sides. Entries shorter than three
/// bytes and repeats are left out.
pub fn generate_candidates(id: &str) -> (r: Vec<String>)
    ensures
        string_views(r@) == candidates_of(id@),
{
    let idc = chars_of(id);
    let v = candidate_chars(&idc);
    strings_of(&v)
}

/// The raw candidates of `id`, in order, before short ones and repeats are dropped.
fn raw_candidate_chars(id: &Vec<char>) -> (raw: Vec<Vec<char>>)
    ensures
        views(raw@) == raw_candidates(id@),
{
    let mut raw: Vec<Vec<char>> = Vec::new();
    let base = after_last_slash_chars(id);
    raw.push(id.clone());
    raw.push(lowercase_chars(id));
    raw.push(base.clone());
    raw.push(lowercase_chars(&base));
    assert(views(raw@) == seq![id@, lowercased(id@), base@, lowercased(base@)]);
    let rs = right_stripped(&base);
    push_with_lower(&mut raw, &rs);
    let ls = left_stripped(&base);
    push_with_lower(&mut raw, &ls);
    push_cross(&mut raw, &ls);
    raw
}

/// Appends the right-stripped forms (and lowercase forms) of each entry of `ls`.
fn push_cross(raw: &mut Vec<Vec<char>>, ls: &Vec<Vec<char>>)
    ensures
        views(final(raw)@) == views(old(raw)@) + cross_of(views(ls@)),
{
    let mut k: usize = 0;
    let ghost mid = views(raw@);
    assert(views(ls@).take(0) == Seq::<Seq<char>>::empty());
    assert(mid + cross_of(Seq::<Seq<char>>::empty()) == mid);
    while k < ls.len()
        invariant
            k <= ls.len(),
            views(raw@) == mid + cross_of(views(ls@).take(k as int)),
        decreases ls.len() - k,
    {
        let rr = right_stripped(&ls[k]);
        push_with_lower(raw, &rr);
        let ghost t = views(ls@).take(k + 1);
        assert(t.drop_last() == views(ls@).take(k as int));
        assert(t.last() == ls@[k as int]@);
        k = k + 1;
    }
    assert(views(ls@).take(ls.len() as int) == views(ls@));
}

/// The entries of `raw` without short ones and repeats.
fn dedup_long_chars(raw: &Vec<Vec<char>>) -> (out: Vec<Vec<char>>)
    ensures
        views(out@) == dedup_long(views(raw@)),
{
    let mut out: Vec<Vec<char>> = Vec::new();
    let mut i: usize = 0;
    assert(views(raw@).take(0) == Seq::<Seq<char>>::empty());
    while i < raw.len()
        invariant
            i <= raw.len(),
            views(out@) == dedup_long(views(raw@).take(i as int)),
        decreases raw.len() - i,
    {
        let ghost t = views(raw@).take(i + 1);
        assert(t.drop_last() == views(raw@).take(i as int));
        assert(t.last() == raw@[i as int]@);
        if utf8_len_of(&raw[i]) >= 3 && !contains_vec(&out, &raw[i]) {
            let ghost before = views(out@);
            out.push(raw[i].clone());
            assert(views(out@) == before.push(raw@[i as int]@));
        }
        i = i + 1;
    }
    assert(views(raw@).take(raw.len() as int) == views(raw@));
    out
}

/// The candidate ids for the characters `id`.
pub fn candidate_chars(id: &Vec<char>) -> (r: Vec<Vec<char>>)
    ensures
        views(r@) == candidates_of(id@),
{
    let raw = raw_candidate_chars(id);
    dedup_long_chars(&raw)
}

} // verus!

verus! {

/// How closely candidate `c` matches `other`: 0 when it equals `other` or its part
/// after the last `/` (ignoring case), 1 when it is one of that part's candidates.
pub open spec fn match_score(c: Seq<char>, other: Seq<char>) -> Option<u8> {
    let cl = lowercased(c);
    let ol = lowercased(other);
    let ob = after_last_slash(ol);
    if cl == ol || cl == ob {
        Some(0)
    } else if candidates_of(ob).contains(cl) {
        Some(1)
    } else {
        None
    }
}

/// How closely candidate `c` matches the id `other_id`: `Some(0)` for an exact match
/// of the id or its last `/` part (ignoring case), `Some(1)` when `c` is among the
/// candidates of that part, `None` otherwise.
pub fn candidate_match_score(c: &str, other_id: &str) -> (r: Option<u8>)
    ensures
        r == match_score(c@, other_id@),
{
    let cv = chars_of(c);
    let ov = chars_of(other_id);
    let cl = lowercase_chars(&cv);
    let ol = lowercase_chars(&ov);
    let ob = after_last_slash_chars(&ol);
    if chars_eq(&cl, &ol) || chars_eq(&cl, &ob) {
        return Some(0);
    }
    let oc = candidate_chars(&ob);
    if contains_vec(&oc, &cl) {
        Some(1)
    } else {
        None
    }
}

/// Whether candidate `c` matches the id `other_id` at all.
pub fn match_candidate_ids(c: &str, other_id: &str) -> (b: bool)
    ensures
        b == (match_score(c@, other_id@) is Some),
{
    candidate_match_score(c, other_id).is_some()
}

} // verus!

verus! {

/// The first position in `s` whose entry satisfies `p`.
pub open spec fn first_index<A>(s: Seq<A>, p: spec_fn(A) -> bool) -> Option<int>
    decreases s.len(),
{
    if s.len() == 0 {
        None
    } else if p(s[0]) {
        Some(0)
    } else {
        match first_index(s.drop_first(), p) {
            Some(k) => Some(k + 1),
            None => None,
        }
    }
}

/// `first_index` is `i` when `s[i]` is the first entry that satisfies `p`.
pub proof fn lemma_first_index_found<A>(s: Seq<A>, p: spec_fn(A) -> bool, i: int)
    requires
        0 <= i < s.len(),
        p(s[i]),
        forall|k: int| 0 <= k < i ==> !p(#[trigger] s[k]),
    ensures
        first_index(s, p) == Some(i),
    decreases i,
{
    if i > 0 {
        assert forall|k: int| 0 <= k < i - 1 implies !p(#[trigger] s.drop_first()[k]) by {
            assert(s.drop_first()[k] == s[k + 1]);
        }
        assert(!p(s[0]));
        lemma_first_index_found(s.drop_first(), p, i - 1);
    }
}

/// What `first_index` finds is in range and satisfies `p`.
pub proof fn lemma_first_index_props<A>(s: Seq<A>, p: spec_fn(A) -> bool)
    ensures
        first_index(s, p) matches Some(i) ==> 0 <= i < s.len() && p(s[i]),
    decreases s.len(),
{
    if s.len() > 0 && !p(s[0]) {
        lemma_first_index_props(s.drop_first(), p);
        if first_index(s.drop_first(), p) is Some {
            let i = first_index(s.drop_first(), p)->0;
            assert(s.drop_first()[i] == s[i + 1]);
        }
    }
}

/// `first_index` is `None` when no entry satisfies `p`.
pub proof fn lemma_first_index_none<A>(s: Seq<A>, p: spec_fn(A) -> bool)
    requires
        forall|k: int| 0 <= k < s.len() ==> !p(#[trigger] s[k]),
    ensures
        first_index(s, p) is None,
    decreases s.len(),
{
    if s.len() > 0 {
        assert(!p(s[0]));
        assert forall|k: int| 0 <= k < s.len() - 1 implies !p(#[trigger] s.drop_first()[k]) by {
            assert(s.drop_first()[k] == s[k + 1]);
        }
        lemma_first_index_none(s.drop_first(), p);
    }
}

/// The OpenRouter model whose id equals `our` ignoring case.
pub open spec fn or_same_id(ol: Seq<char>) -> spec_fn(OpenRouterModel) -> bool {
    |m: OpenRouterModel| lowercased(m.id@) == ol
}

/// The OpenRouter model whose id's last `/` part equals `ob` ignoring case.
pub open spec fn or_same_base(ob: Seq<char>) -> spec_fn(OpenRouterModel) -> bool {
    |m: OpenRouterModel| after_last_slash(lowercased(m.id@)) == ob
}

/// The OpenRouter model that candidate `ob` matches.
pub open spec fn or_candidate(ob: Seq<char>) -> spec_fn(OpenRouterModel) -> bool {
    |m: OpenRouterModel| match_score(ob, m.id@) is Some
}

/// The OpenRouter model whose lowercase id holds `ob` or is held in it.
pub open spec fn or_substring(ob: Seq<char>) -> spec_fn(OpenRouterModel) -> bool {
    |m: OpenRouterModel| contains_seq(lowercased(m.id@), ob) || contains_seq(ob, lowercased(m.id@))
}

/// Which OpenRouter model `our` matches: the first with the same id ignoring case,
/// else the first with the same last `/` part, else the first that the part matches
/// as a candidate, else (when allowed) the first whose id holds the part or is held in it.
pub open spec fn openrouter_match(our: Seq<char>, models: Seq<OpenRouterModel>, allow_substring: bool) -> Option<int> {
    let ol = lowercased(our);
    let ob = after_last_slash(ol);
    match first_index(models, or_same_id(ol)) {
        Some(k) => Some(k),
        None => match first_index(models, or_same_base(ob)) {
            Some(k) => Some(k),
            None => match first_index(models, or_candidate(ob)) {
                Some(k) => Some(k),
                None => if allow_substring {
                    first_index(models, or_substring(ob))
                } else {
                    None
                },
            },
        },
    }
}

/// Finds the OpenRouter model that `our_id` most likely names (see `openrouter_match`).
pub fn match_openrouter<'a>(our_id: &str, openrouter_models: &'a [OpenRouterModel], allow_substring: bool) -> (r: Option<&'a OpenRouterModel>)
    ensures
        r == (match openrouter_match(our_id@, openrouter_models@, allow_substring) {
            Some(k) => Some(&openrouter_models@[k]),
            None => None,
        }),
{
    match openrouter_match_index(our_id, openrouter_models, allow_substring) {
        Some(k) => Some(&openrouter_models[k]),
        None => None,
    }
}

/// Where the OpenRouter model that `our_id` most likely names stands (see `openrouter_match`).
pub fn openrouter_match_index(our_id: &str, openrouter_models: &[OpenRouterModel], allow_substring: bool) -> (r: Option<usize>)
    ensures
        r matches Some(k) ==> k < openrouter_models@.len() && openrouter_match(our_id@, openrouter_models@, allow_substring) == Some(k as int),
        r is None ==> openrouter_match(our_id@, openrouter_models@, allow_substring) is None,
{
    let ourv = chars_of(our_id);
    let ol = lowercase_chars(&ourv);
    let ob = after_last_slash_chars(&ol);
    let ghost ms = openrouter_models@;
    let n = openrouter_models.len();
    let mut lows: Vec<Vec<char>> = Vec::new();
    let mut i: usize = 0;
    while i < n
        invariant
            n == ms.len(),
            ms == openrouter_models@,
            i <= n,
            lows.len() == i,
            forall|k: int| 0 <= k < i ==> (#[trigger] lows@[k])@ == lowercased(ms[k].id@),
            forall|k: int| 0 <= k < i ==> !(or_same_id(ol@))(#[trigger] ms[k]),
            ol@ == lowercased(our_id@),
        decreases n - i,
    {
        let idc = chars_of(openrouter_models[i].id.as_str());
        let l = lowercase_chars(&idc);
        if chars_eq(&l, &ol) {
            proof {
                lemma_first_index_found(ms, or_same_id(ol@), i as int);
            }
            return Some(i);
        }
        lows.push(l);
        i = i + 1;
    }
    proof {
        lemma_first_index_none(ms, or_same_id(ol@));
    }
    let mut i: usize = 0;
    while i < n
        invariant
            n == ms.len(),
            ms == openrouter_models@,
            i <= n,
            lows.len() == n,
            forall|k: int| 0 <= k < n ==> (#[trigger] lows@[k])@ == lowercased(ms[k].id@),
            forall|k: int| 0 <= k < i ==> !(or_same_base(ob@))(#[trigger] ms[k]),
            ol@ == lowercased(our_id@),
            ob@ == after_last_slash(ol@),
            first_index(ms, or_same_id(ol@)) is None,
        decreases n - i,
    {
        let b = after_last_slash_chars(&lows[i]);
        if chars_eq(&b, &ob) {
            proof {
                lemma_first_index_found(ms, or_same_base(ob@), i as int);
            }
            return Some(i);
        }
        i = i + 1;
    }
    proof {
        lemma_first_index_none(ms, or_same_base(ob@));
    }
    let obs = crate::text::string_of(&ob);
    let mut i: usize = 0;
    while i < n
        invariant
            n == ms.len(),
            ms == openrouter_models@,
            i <= n,
            obs@ == ob@,
            forall|k: int| 0 <= k < i ==> !(or_candidate(ob@))(#[trigger] ms[k]),
            ol@ == lowercased(our_id@),
            ob@ == after_last_slash(ol@),
            first_index(ms, or_same_id(ol@)) is None,
            first_index(ms, or_same_base(ob@)) is None,
        decreases n - i,
    {
        if match_candidate_ids(obs.as_str(), openrouter_models[i].id.as_str()) {
            proof {
                lemma_first_index_found(ms, or_candidate(ob@), i as int);
            }
            return Some(i);
        }
        i = i + 1;
    }
    proof {
        lemma_first_index_none(ms, or_candidate(ob@));
    }
    if allow_substring {
        let mut i: usize = 0;
        while i < n
            invariant
                n == ms.len(),
                ms == openrouter_models@,
                i <= n,
                lows.len() == n,
                forall|k: int| 0 <= k < n ==> (#[trigger] lows@[k])@ == lowercased(ms[k].id@),
                forall|k: int| 0 <= k < i ==> !(or_substring(ob@))(#[trigger] ms[k]),
                ol@ == lowercased(our_id@),
                ob@ == after_last_slash(ol@),
                allow_substring,
                first_index(ms, or_same_id(ol@)) is None,
                first_index(ms, or_same_base(ob@)) is None,
                first_index(ms, or_candidate(ob@)) is None,
            decreases n - i,
        {
            if contains_chars(&lows[i], &ob) || contains_chars(&ob, &lows[i]) {
                proof {
                    lemma_first_index_found(ms, or_substring(ob@), i as int);
                }
                return Some(i);
            }
            i = i + 1;
        }
        proof {
            lemma_first_index_none(ms, or_substring(ob@));
        }
    }
    None
}

/// Dropping short entries and repeats leaves distinct long entries taken from the input,
/// with the first long entry first.
proof fn lemma_dedup_long(items: Seq<Seq<char>>)
    ensures
        dedup_long(items).no_duplicates(),
        forall|i: int| 0 <= i < dedup_long(items).len() ==> utf8_len(#[trigger] dedup_long(items)[i]) >= 3,
        forall|i: int| 0 <= i < dedup_long(items).len() ==> items.contains(#[trigger] dedup_long(items)[i]),
        items.len() > 0 && utf8_len(items[0]) >= 3 ==> dedup_long(items).len() > 0 && dedup_long(items)[0] == items[0],
    decreases items.len(),
{
    if items.len() > 0 {
        let pre = items.drop_last();
        lemma_dedup_long(pre);
        let prev = dedup_long(pre);
        let x = items.last();
        let r = dedup_long(items);
        assert forall|i: int| 0 <= i < r.len() implies items.contains(#[trigger] r[i]) by {
            if i < prev.len() {
                assert(r[i] == prev[i]);
                let j = choose|j: int| 0 <= j < pre.len() && pre[j] == prev[i];
                assert(items[j] == pre[j]);
            } else {
                assert(items[items.len() - 1] == x);
            }
        }
        if items.len() == 1 {
            assert(pre.len() == 0);
        } else if utf8_len(items[0]) >= 3 {
            assert(pre[0] == items[0]);
        }
    }
}

/// The candidates for an id hold no repeats and none shorter than three bytes; each is
/// one of the forms considered for the id; and the id itself comes first when it is at
/// least three bytes long.
pub proof fn candidates_are_distinct_long_forms_of_the_id(id: Seq<char>)
    ensures
        candidates_of(id).no_duplicates(),
        forall|i: int| 0 <= i < candidates_of(id).len() ==> utf8_len(#[trigger] candidates_of(id)[i]) >= 3,
        forall|i: int| 0 <= i < candidates_of(id).len() ==> raw_candidates(id).contains(#[trigger] candidates_of(id)[i]),
        utf8_len(id) >= 3 ==> candidates_of(id).len() > 0 && candidates_of(id)[0] == id,
{
    lemma_dedup_long(raw_candidates(id));
}

} // verus!
