//! Request parameters as they arrive (strings, robust across query encoders) and the
//! typed values the handlers work with.
use vstd::prelude::*;
use crate::catalog::{CatalogQuery, QueryView};
use crate::domain::opt_view;
use crate::error::AppError;
use crate::json::{jv_entries, lemma_jv_entries, JsonNumber, JsonValue, JsonView};
use crate::text::{chars_of, lowercase_chars, lowercased, owned, string_of, trim, trim_chars};

verus! {

/// The catalog filters as the query string gives them.
#[derive(Debug)]
pub struct ModelQueryParams {
    pub search: Option<String>,
    pub support_image: Option<String>,
    pub support_audio: Option<String>,
    pub support_video: Option<String>,
    pub tool_call: Option<String>,
    pub reasoning: Option<String>,
    pub min_context: Option<String>,
    pub max_context: Option<String>,
    pub status: Option<String>,
}

/// A list of model ids in a request body (empty when absent).
#[derive(Debug)]
pub struct ModelIdsBody {
    pub model_ids: Vec<String>,
}

/// Catalog filters in a request body (none when absent).
#[derive(Debug)]
pub struct FilterBody {
    pub filters: CatalogQuery,
}

/// The model id asked about by a resolve request.
#[derive(Debug)]
pub struct ResolveQueryParams {
    pub model_id: String,
}

/// A flag as a query string gives it: true when it reads `true`, `1`, `yes` or `on`
/// ignoring case, false otherwise; `None` when absent.
pub open spec fn parse_bool_spec(s: Option<Seq<char>>) -> Option<bool> {
    match s {
        Some(v) => {
            let l = lowercased(v);
            Some(l == "true"@ || l == "1"@ || l == "yes"@ || l == "on"@)
        },
        None => None,
    }
}

/// A flag as a query string gives it (see `parse_bool_spec`).
pub fn parse_bool(s: &Option<String>) -> (r: Option<bool>)
    ensures
        r == parse_bool_spec(opt_view(*s)),
{
    match s {
        Some(v) => {
            let l = lowercase_chars(&chars_of(v.as_str()));
            let b = crate::text::chars_eq(&l, &chars_of("true")) || crate::text::chars_eq(&l, &chars_of("1"))
                || crate::text::chars_eq(&l, &chars_of("yes")) || crate::text::chars_eq(&l, &chars_of("on"));
            Some(b)
        },
        None => None,
    }
}

/// Whether `c` is an ASCII decimal digit.
pub open spec fn is_digit(c: char) -> bool {
    '0' <= c <= '9'
}

/// The value of a string of decimal digits.
pub open spec fn digits_value(d: Seq<char>) -> int
    decreases d.len(),
{
    if d.len() == 0 {
        0
    } else {
        digits_value(d.drop_last()) * 10 + (d.last() as int - '0' as int)
    }
}

/// The digits of a number: the text without a leading `+`.
pub open spec fn unsigned_part(s: Seq<char>) -> Seq<char> {
    if s.len() > 0 && s[0] == '+' {
        s.drop_first()
    } else {
        s
    }
}

/// The value of one or more decimal digits, when it fits in a `u64`.
pub open spec fn digits_u64(d: Seq<char>) -> Option<u64> {
    if d.len() > 0 && (forall|i: int| 0 <= i < d.len() ==> is_digit(#[trigger] d[i])) && digits_value(d) <= u64::MAX {
        Some(digits_value(d) as u64)
    } else {
        None
    }
}

/// A decimal number as `u64::from_str` reads it: an optional `+`, then one or more
/// digits whose value fits in a `u64`.
pub open spec fn u64_of(s: Seq<char>) -> Option<u64> {
    digits_u64(unsigned_part(s))
}

/// A number as a query string gives it: `None` when absent, empty or not a `u64`.
pub open spec fn parse_u64_spec(s: Option<Seq<char>>) -> Option<u64> {
    match s {
        Some(v) => if v.len() == 0 {
            None
        } else {
            u64_of(v)
        },
        None => None,
    }
}

/// The value of digits never falls when more digits follow.
proof fn lemma_digits_value_grows(d: Seq<char>, i: int)
    requires
        0 <= i <= d.len(),
        forall|k: int| 0 <= k < d.len() ==> is_digit(#[trigger] d[k]),
    ensures
        digits_value(d.take(i)) <= digits_value(d),
        0 <= digits_value(d.take(i)),
    decreases d.len() - i,
{
    if i < d.len() {
        lemma_digits_value_grows(d, i + 1);
        let t = d.take(i + 1);
        assert(t.drop_last() == d.take(i));
        assert(t.last() == d[i]);
    } else {
        assert(d.take(i) == d);
        lemma_digits_value_nonneg(d);
    }
}

proof fn lemma_digits_value_nonneg(d: Seq<char>)
    requires
        forall|k: int| 0 <= k < d.len() ==> is_digit(#[trigger] d[k]),
    ensures
        0 <= digits_value(d),
    decreases d.len(),
{
    if d.len() > 0 {
        lemma_digits_value_nonneg(d.drop_last());
        assert(is_digit(d[d.len() - 1]));
    }
}

/// A decimal number as `u64::from_str` reads it (see `u64_of`).
pub fn parse_u64_str(s: &str) -> (r: Option<u64>)
    ensures
        r == u64_of(s@),
{
    let c = chars_of(s);
    let start: usize = if c.len() > 0 && c[0] == '+' {
        1
    } else {
        0
    };
    let ghost d = unsigned_part(s@);
    assert(d == c@.subrange(start as int, c@.len() as int));
    if start >= c.len() {
        return None;
    }
    let mut acc: u128 = 0;
    let mut i: usize = start;
    while i < c.len()
        invariant
            start <= i <= c.len(),
            c@ == s@,
            d == unsigned_part(s@),
            d.len() > 0,
            d == c@.subrange(start as int, c@.len() as int),
            forall|k: int| 0 <= k < i - start ==> is_digit(#[trigger] d[k]),
            acc as int == digits_value(d.take(i - start)),
            acc <= u64::MAX,
        decreases c.len() - i,
    {
        let ch = c[i];
        assert(d[i - start] == ch);
        if !('0' <= ch && ch <= '9') {
            assert(!is_digit(d[i - start]));
            assert(!(forall|q: int| 0 <= q < d.len() ==> is_digit(#[trigger] d[q])));
            assert(u64_of(s@) is None);
            return None;
        }
        let digit = (ch as u32 - '0' as u32) as u128;
        let ghost t = d.take(i - start + 1);
        assert(t.drop_last() == d.take(i - start));
        assert(t.last() == ch);
        acc = acc * 10 + digit;
        i = i + 1;
        if acc > 18446744073709551615u128 {
            proof {
                if forall|q: int| 0 <= q < d.len() ==> is_digit(#[trigger] d[q]) {
                    lemma_digits_value_grows(d, i - start);
                    assert(digits_value(d) > u64::MAX);
                }
            }
            assert(u64_of(s@) is None);
            return None;
        }
    }
    assert(d.take(d.len() as int) == d);
    Some(acc as u64)
}

/// A number as a query string gives it (see `parse_u64_spec`).
pub fn parse_u64(s: &Option<String>) -> (r: Option<u64>)
    ensures
        r == parse_u64_spec(opt_view(*s)),
{
    match s {
        Some(v) => if chars_of(v.as_str()).len() == 0 {
            None
        } else {
            parse_u64_str(v.as_str())
        },
        None => None,
    }
}

/// A string parameter, when present and not empty.
pub open spec fn non_empty_spec(s: Option<Seq<char>>) -> Option<Seq<char>> {
    match s {
        Some(v) => if v.len() > 0 {
            Some(v)
        } else {
            None
        },
        None => None,
    }
}

/// A string parameter, when present and not empty.
pub fn non_empty(s: &Option<String>) -> (r: Option<String>)
    ensures
        opt_view(r) == non_empty_spec(opt_view(*s)),
{
    match s {
        Some(v) => if chars_of(v.as_str()).len() > 0 {
            Some(v.clone())
        } else {
            None
        },
        None => None,
    }
}

impl ModelQueryParams {
    /// The typed filters: flags and numbers parsed, empty strings dropped.
    pub fn to_query(&self) -> (q: CatalogQuery)
        ensures
            q@ == (QueryView {
                search: non_empty_spec(opt_view(self.search)),
                support_image: parse_bool_spec(opt_view(self.support_image)),
                support_audio: parse_bool_spec(opt_view(self.support_audio)),
                support_video: parse_bool_spec(opt_view(self.support_video)),
                tool_call: parse_bool_spec(opt_view(self.tool_call)),
                reasoning: parse_bool_spec(opt_view(self.reasoning)),
                min_context: parse_u64_spec(opt_view(self.min_context)),
                max_context: parse_u64_spec(opt_view(self.max_context)),
                status: non_empty_spec(opt_view(self.status)),
            }),
    {
        CatalogQuery {
            search: non_empty(&self.search),
            support_image: parse_bool(&self.support_image),
            support_audio: parse_bool(&self.support_audio),
            support_video: parse_bool(&self.support_video),
            tool_call: parse_bool(&self.tool_call),
            reasoning: parse_bool(&self.reasoning),
            min_context: parse_u64(&self.min_context),
            max_context: parse_u64(&self.max_context),
            status: non_empty(&self.status),
        }
    }
}

/// The model id of a resolve request, trimmed; a bad request when it is blank.
pub fn resolve_model_id(params: &ResolveQueryParams) -> (r: Result<String, AppError>)
    ensures
        match r {
            Ok(id) => id@ == trim(params.model_id@) && id@.len() > 0,
            Err(e) => trim(params.model_id@).len() == 0 && (e matches AppError::BadRequest(m) && m@
                == "model_id query param is required"@),
        },
{
    let t = trim_chars(&chars_of(params.model_id.as_str()));
    if t.len() == 0 {
        Err(AppError::BadRequest(owned("model_id query param is required")))
    } else {
        Ok(string_of(&t))
    }
}

/// The answer to a health check: `{"status": "ok", "service": "ocm-backend"}`.
pub fn health() -> (r: JsonValue)
    ensures
        r@ == JsonView::Object(seq![("status"@, JsonView::Str("ok"@)), ("service"@, JsonView::Str("ocm-backend"@))]),
{
    let mut es: Vec<(String, JsonValue)> = Vec::new();
    es.push((owned("status"), JsonValue::String(owned("ok"))));
    es.push((owned("service"), JsonValue::String(owned("ocm-backend"))));
    proof {
        lemma_jv_entries(es@);
    }
    assert(jv_entries(es@) =~= seq![("status"@, JsonView::Str("ok"@)), ("service"@, JsonView::Str("ocm-backend"@))]);
    JsonValue::Object(es)
}

/// An object with one count: `{<key>: n}`.
pub fn count_body(key: &str, n: usize) -> (r: JsonValue)
    ensures
        r@ == JsonView::Object(seq![(key@, JsonView::Number(JsonNumber::PosInt(n as u64)))]),
{
    let mut es: Vec<(String, JsonValue)> = Vec::new();
    es.push((owned(key), JsonValue::Number(JsonNumber::PosInt(n as u64))));
    proof {
        lemma_jv_entries(es@);
    }
    assert(jv_entries(es@) =~= seq![(key@, JsonView::Number(JsonNumber::PosInt(n as u64)))]);
    JsonValue::Object(es)
}

} // verus!
