//! The error that every operation of the service reports, and the envelopes that
//! carry a result or an error to the client.
use vstd::prelude::*;
use crate::json::{jv_entries, JsonNumber, JsonValue, JsonView};
use crate::text::{cat, owned};

verus! {

/// Why a request failed. `Db` and `Json` carry the text of the underlying error.
#[derive(Debug)]
pub enum AppError {
    NotFound(String),
    BadRequest(String),
    Upstream(String),
    Db(String),
    Json(String),
    Internal(String),
}

/// The HTTP status and the numeric code that an error is answered with.
pub open spec fn parts_spec(e: AppError) -> (u16, i32) {
    match e {
        AppError::NotFound(_) => (404, 4040),
        AppError::BadRequest(_) => (400, 4000),
        AppError::Upstream(_) => (502, 5020),
        AppError::Db(_) => (500, 5000),
        AppError::Json(_) => (500, 5001),
        AppError::Internal(_) => (500, 5999),
    }
}

/// The message of an error, as it is shown to the client.
pub open spec fn message_spec(e: AppError) -> Seq<char> {
    match e {
        AppError::NotFound(m) => m@,
        AppError::BadRequest(m) => m@,
        AppError::Upstream(m) => "upstream provider error: "@ + m@,
        AppError::Db(m) => "database error: "@ + m@,
        AppError::Json(m) => "serialization error: "@ + m@,
        AppError::Internal(m) => m@,
    }
}

/// The JSON body that answers a failed request.
pub open spec fn error_body_spec(e: AppError) -> JsonView {
    JsonView::Object(
        seq![
            ("code"@, JsonView::Number(code_number(parts_spec(e).1))),
            ("message"@, JsonView::Str(message_spec(e))),
            ("data"@, JsonView::Null),
        ],
    )
}

/// A JSON number holding `i`.
pub open spec fn code_number(i: i32) -> JsonNumber {
    if i < 0 {
        JsonNumber::NegInt(i as i64)
    } else {
        JsonNumber::PosInt(i as u64)
    }
}

impl AppError {
    /// The HTTP status and the numeric code that this error is answered with.
    pub fn parts(&self) -> (r: (u16, i32))
        ensures
            r == parts_spec(*self),
    {
        match self {
            AppError::NotFound(_) => (404, 4040),
            AppError::BadRequest(_) => (400, 4000),
            AppError::Upstream(_) => (502, 5020),
            AppError::Db(_) => (500, 5000),
            AppError::Json(_) => (500, 5001),
            AppError::Internal(_) => (500, 5999),
        }
    }

    /// The message shown to the client.
    pub fn message(&self) -> (r: String)
        ensures
            r@ == message_spec(*self),
    {
        match self {
            AppError::NotFound(m) => m.clone(),
            AppError::BadRequest(m) => m.clone(),
            AppError::Upstream(m) => cat("upstream provider error: ", m.as_str()),
            AppError::Db(m) => cat("database error: ", m.as_str()),
            AppError::Json(m) => cat("serialization error: ", m.as_str()),
            AppError::Internal(m) => m.clone(),
        }
    }

    /// Whether the error is the server's fault (a 5xx status).
    pub fn is_server_error(&self) -> (b: bool)
        ensures
            b == (500 <= parts_spec(*self).0 < 600),
    {
        let (status, _) = self.parts();
        500 <= status && status < 600
    }

    /// The body that answers a request that failed with this error:
    /// `{ "code": <code>, "message": <message>, "data": null }`.
    pub fn body(&self) -> (r: JsonValue)
        ensures
            r@ == error_body_spec(*self),
    {
        let (_, code) = self.parts();
        let n = if code < 0 {
            JsonNumber::NegInt(code as i64)
        } else {
            JsonNumber::PosInt(code as u64)
        };
        let mut es: Vec<(String, JsonValue)> = Vec::new();
        es.push((owned("code"), JsonValue::Number(n)));
        es.push((owned("message"), JsonValue::String(self.message())));
        es.push((owned("data"), JsonValue::Null));
        proof {
            crate::json::lemma_jv_entries(es@);
        }
        assert(jv_entries(es@) =~= seq![
            ("code"@, JsonView::Number(code_number(parts_spec(*self).1))),
            ("message"@, JsonView::Str(message_spec(*self))),
            ("data"@, JsonView::Null),
        ]);
        let r = JsonValue::Object(es);
        r
    }
}

/// A copy of a cached error for another caller: not found, bad request and upstream
/// errors keep their kind and message; any other error becomes an internal error
/// with its message.
pub fn unwrap_cache_err(err: &AppError) -> (r: AppError)
    ensures
        match *err {
            AppError::NotFound(m) => r matches AppError::NotFound(n) && n@ == m@,
            AppError::BadRequest(m) => r matches AppError::BadRequest(n) && n@ == m@,
            AppError::Upstream(m) => r matches AppError::Upstream(n) && n@ == m@,
            _ => r matches AppError::Internal(n) && n@ == message_spec(*err),
        },
{
    match err {
        AppError::NotFound(m) => AppError::NotFound(m.clone()),
        AppError::BadRequest(m) => AppError::BadRequest(m.clone()),
        AppError::Upstream(m) => AppError::Upstream(m.clone()),
        _ => AppError::Internal(err.message()),
    }
}

/// A successful result, answered as `{ "code": 0, "data": <payload> }`.
pub struct ApiOk<T>(pub T);

/// The body that answers a successful request with `data`.
pub fn ok_body(data: JsonValue) -> (r: JsonValue)
    ensures
        r@ == JsonView::Object(seq![("code"@, JsonView::Number(JsonNumber::PosInt(0))), ("data"@, data@)]),
{
    let ghost d = data@;
    let mut es: Vec<(String, JsonValue)> = Vec::new();
    es.push((owned("code"), JsonValue::Number(JsonNumber::PosInt(0))));
    es.push((owned("data"), data));
    proof {
        crate::json::lemma_jv_entries(es@);
    }
    assert(jv_entries(es@) =~= seq![("code"@, JsonView::Number(JsonNumber::PosInt(0))), ("data"@, d)]);
    let r = JsonValue::Object(es);
    r
}

} // verus!
