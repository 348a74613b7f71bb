//! The service around the logic: its configuration, the files it serves, the model
//! lists providers answer with, and the tray icon.
use vstd::prelude::*;
use crate::error::AppError;
use crate::json::{get_key, jv_entries, jv_items, lemma_jv_entries, lemma_jv_items, obj_get, JsonValue, JsonView};
use crate::json_text::{json_of_text, parse_json_text};
use crate::params::{u64_of, parse_u64_str};
use crate::text::{cat, cat3, chars_of, owned, string_of, string_views};

verus! {

/// The service's configuration. Times are in seconds.
#[derive(Debug)]
pub struct Config {
    pub database_url: String,
    pub bind: String,
    pub frontend_url: String,
    pub models_dev_url: String,
    pub models_dev_ttl_secs: u64,
    pub provider_list_ttl_secs: u64,
    pub opencode_config_path: String,
}

/// A setting, or its default when unset.
pub open spec fn or_default(v: Option<Seq<char>>, d: Seq<char>) -> Seq<char> {
    match v {
        Some(s) => s,
        None => d,
    }
}

/// A number setting: its value when it reads as a `u64`, else the default.
pub open spec fn u64_or_default(v: Option<Seq<char>>, d: u64) -> u64 {
    match v {
        Some(s) => match u64_of(s) {
            Some(n) => n,
            None => d,
        },
        None => d,
    }
}

fn string_or(v: Option<String>, d: &str) -> (r: String)
    ensures
        r@ == or_default(crate::domain::opt_view(v), d@),
{
    match v {
        Some(s) => s,
        None => owned(d),
    }
}

fn u64_or(v: Option<String>, d: u64) -> (r: u64)
    ensures
        r == u64_or_default(crate::domain::opt_view(v), d),
{
    match v {
        Some(s) => match parse_u64_str(s.as_str()) {
            Some(n) => n,
            None => d,
        },
        None => d,
    }
}

impl Config {
    /// The configuration from the values of its environment variables (`None` when
    /// unset), each falling back to its default; `default_opencode_path` is the
    /// opencode.json in the user's configuration directory.
    pub fn from_values(
        database_url: Option<String>,
        bind: Option<String>,
        frontend_url: Option<String>,
        models_dev_url: Option<String>,
        models_dev_ttl: Option<String>,
        provider_list_ttl: Option<String>,
        opencode_config: Option<String>,
        default_opencode_path: String,
    ) -> (c: Config)
        ensures
            c.database_url@ == or_default(crate::domain::opt_view(database_url), "sqlite:data/ocm.db?mode=rwc"@),
            c.bind@ == or_default(crate::domain::opt_view(bind), "127.0.0.1:8787"@),
            c.frontend_url@ == or_default(crate::domain::opt_view(frontend_url), "http://localhost:5174/"@),
            c.models_dev_url@ == or_default(crate::domain::opt_view(models_dev_url), "https://models.dev/api.json"@),
            c.models_dev_ttl_secs == u64_or_default(crate::domain::opt_view(models_dev_ttl), 86400),
            c.provider_list_ttl_secs == u64_or_default(crate::domain::opt_view(provider_list_ttl), 300),
            c.opencode_config_path@ == or_default(crate::domain::opt_view(opencode_config), default_opencode_path@),
    {
        Config {
            database_url: string_or(database_url, "sqlite:data/ocm.db?mode=rwc"),
            bind: string_or(bind, "127.0.0.1:8787"),
            frontend_url: string_or(frontend_url, "http://localhost:5174/"),
            models_dev_url: string_or(models_dev_url, "https://models.dev/api.json"),
            models_dev_ttl_secs: u64_or(models_dev_ttl, 86400),
            provider_list_ttl_secs: u64_or(provider_list_ttl, 300),
            opencode_config_path: match opencode_config {
                Some(p) => p,
                None => default_opencode_path,
            },
        }
    }
}

/// `s` without its leading slashes.
pub open spec fn without_leading_slashes(s: Seq<char>) -> Seq<char>
    decreases s.len(),
{
    if s.len() > 0 && s[0] == '/' {
        without_leading_slashes(s.drop_first())
    } else {
        s
    }
}

/// The embedded file a request path asks for: the path without leading slashes, or
/// `index.html` when nothing is left.
pub open spec fn asset_path_spec(p: Seq<char>) -> Seq<char> {
    let t = without_leading_slashes(p);
    if t.len() == 0 {
        "index.html"@
    } else {
        t
    }
}

/// The embedded file a request path asks for (see `asset_path_spec`).
pub fn asset_path(uri_path: &str) -> (r: String)
    ensures
        r@ == asset_path_spec(uri_path@),
{
    let c = chars_of(uri_path);
    let mut i: usize = 0;
    assert(c@.subrange(0, c@.len() as int) == c@);
    while i < c.len() && c[i] == '/'
        invariant
            i <= c.len(),
            c@ == uri_path@,
            without_leading_slashes(c@.subrange(i as int, c@.len() as int)) == without_leading_slashes(uri_path@),
        decreases c.len() - i,
    {
        assert(c@.subrange(i as int, c@.len() as int).drop_first() == c@.subrange(i + 1, c@.len() as int));
        i = i + 1;
    }
    let mut r: Vec<char> = Vec::new();
    let mut j: usize = i;
    while j < c.len()
        invariant
            i <= j <= c.len(),
            r@ == c@.subrange(i as int, j as int),
        decreases c.len() - j,
    {
        r.push(c[j]);
        assert(c@.subrange(i as int, j + 1) == c@.subrange(i as int, j as int).push(c@[j as int]));
        j = j + 1;
    }
    proof {
        let t = c@.subrange(i as int, c@.len() as int);
        if t.len() > 0 {
            assert(t[0] == c@[i as int]);
        }
    }
    if r.len() == 0 {
        owned("index.html")
    } else {
        string_of(&r)
    }
}

/// The part of `s` after its last `.` (all of `s` when it has none).
pub open spec fn extension_of(s: Seq<char>) -> Seq<char>
    decreases s.len(),
{
    if s.len() == 0 {
        s
    } else if s.last() == '.' {
        Seq::empty()
    } else {
        extension_of(s.drop_last()).push(s.last())
    }
}

/// The content type of an embedded file, by the part of its path after the last `.`.
pub open spec fn mime_type_spec(path: Seq<char>) -> Seq<char> {
    let e = extension_of(path);
    if e == "html"@ {
        "text/html"@
    } else if e == "css"@ {
        "text/css"@
    } else if e == "js"@ {
        "application/javascript"@
    } else if e == "json"@ {
        "application/json"@
    } else if e == "png"@ {
        "image/png"@
    } else if e == "svg"@ {
        "image/svg+xml"@
    } else if e == "ico"@ {
        "image/x-icon"@
    } else if e == "woff2"@ {
        "font/woff2"@
    } else if e == "woff"@ {
        "font/woff"@
    } else if e == "ttf"@ {
        "font/ttf"@
    } else {
        "application/octet-stream"@
    }
}

/// The characters of `s` after its last `.`.
fn extension_chars(s: &Vec<char>) -> (r: Vec<char>)
    ensures
        r@ == extension_of(s@),
{
    let mut n = s.len();
    while n > 0 && s[n - 1] != '.'
        invariant
            n <= s.len(),
            forall|k: int| n <= k < s.len() ==> s@[k] != '.',
        decreases n,
    {
        n = n - 1;
    }
    let mut r: Vec<char> = Vec::new();
    let mut j: usize = n;
    while j < s.len()
        invariant
            n <= j <= s.len(),
            r@ == s@.subrange(n as int, j as int),
        decreases s.len() - j,
    {
        r.push(s[j]);
        assert(s@.subrange(n as int, j + 1) == s@.subrange(n as int, j as int).push(s@[j as int]));
        j = j + 1;
    }
    proof {
        lemma_extension_of(s@, n as int);
    }
    r
}

proof fn lemma_extension_of(s: Seq<char>, n: int)
    requires
        0 <= n <= s.len(),
        forall|k: int| n <= k < s.len() ==> s[k] != '.',
        n == 0 || s[n - 1] == '.',
    ensures
        extension_of(s) == s.subrange(n, s.len() as int),
    decreases s.len(),
{
    if s.len() > 0 {
        if s.last() == '.' {
            assert(n == s.len());
        } else {
            lemma_extension_of(s.drop_last(), n);
            assert(s.subrange(n, s.len() as int) == s.drop_last().subrange(n, s.len() - 1).push(s.last()));
        }
    }
}

/// The content type of an embedded file (see `mime_type_spec`).
pub fn mime_type(path: &str) -> (r: &'static str)
    ensures
        r@ == mime_type_spec(path@),
{
    let e = extension_chars(&chars_of(path));
    if crate::text::chars_eq(&e, &chars_of("html")) {
        "text/html"
    } else if crate::text::chars_eq(&e, &chars_of("css")) {
        "text/css"
    } else if crate::text::chars_eq(&e, &chars_of("js")) {
        "application/javascript"
    } else if crate::text::chars_eq(&e, &chars_of("json")) {
        "application/json"
    } else if crate::text::chars_eq(&e, &chars_of("png")) {
        "image/png"
    } else if crate::text::chars_eq(&e, &chars_of("svg")) {
        "image/svg+xml"
    } else if crate::text::chars_eq(&e, &chars_of("ico")) {
        "image/x-icon"
    } else if crate::text::chars_eq(&e, &chars_of("woff2")) {
        "font/woff2"
    } else if crate::text::chars_eq(&e, &chars_of("woff")) {
        "font/woff"
    } else if crate::text::chars_eq(&e, &chars_of("ttf")) {
        "font/ttf"
    } else {
        "application/octet-stream"
    }
}

/// The address of a provider's model list: its base URL without trailing slashes, then `/models`.
pub fn models_url(base_url: &str) -> (r: String)
    ensures
        r@ == crate::backup::trim_end_char(base_url@, '/') + "/models"@,
{
    let c = chars_of(base_url);
    let mut n = c.len();
    assert(c@.take(n as int) == c@);
    while n > 0 && c[n - 1] == '/'
        invariant
            n <= c.len(),
            c@ == base_url@,
            crate::backup::trim_end_char(c@.take(n as int), '/') == crate::backup::trim_end_char(base_url@, '/'),
        decreases n,
    {
        assert(c@.take(n as int).drop_last() == c@.take(n - 1));
        n = n - 1;
    }
    let base = string_of(&crate::text::take_chars(&c, n));
    cat(base.as_str(), "/models")
}

/// The model list in a provider's answer: the `data` array when there is one, else the
/// answer itself when it is an array.
pub open spec fn id_list(body: JsonView) -> Option<Seq<JsonView>> {
    let data = match body {
        JsonView::Object(es) => get_key(es, "data"@),
        _ => None,
    };
    match data {
        Some(JsonView::Array(items)) => Some(items),
        _ => match body {
            JsonView::Array(items) => Some(items),
            _ => None,
        },
    }
}

/// The string `id`s of the listed models, in order; the others are skipped.
pub open spec fn ids_of(items: Seq<JsonView>) -> Seq<Seq<char>>
    decreases items.len(),
{
    if items.len() == 0 {
        Seq::empty()
    } else {
        let prev = ids_of(items.drop_last());
        match items.last() {
            JsonView::Object(es) => match get_key(es, "id"@) {
                Some(JsonView::Str(s)) => prev.push(s),
                _ => prev,
            },
            _ => prev,
        }
    }
}

/// The model ids of a provider's answer to a model-list request at `url` (see `id_list`
/// and `ids_of`); an upstream error when the answer has no list.
pub fn fetch_model_ids(url: &str, body: &JsonValue) -> (r: Result<Vec<String>, AppError>)
    ensures
        match r {
            Ok(ids) => id_list(body@) matches Some(items) && string_views(ids@) == ids_of(items),
            Err(e) => id_list(body@) is None && (e matches AppError::Upstream(m) && m@ == url@
                + ": unexpected /models shape"@),
        },
{
    broadcast use lemma_jv_entries, lemma_jv_items;
    let data = match body {
        JsonValue::Object(es) => obj_get(es, "data"),
        _ => None,
    };
    let items = match data {
        Some(JsonValue::Array(items)) => items,
        _ => match body {
            JsonValue::Array(items) => items,
            _ => {
                return Err(AppError::Upstream(cat(url, ": unexpected /models shape")));
            },
        },
    };
    let ghost iv = jv_items(items@);
    let mut ids: Vec<String> = Vec::new();
    let mut i: usize = 0;
    while i < items.len()
        invariant
            i <= items.len(),
            iv == jv_items(items@),
            iv.len() == items@.len(),
            string_views(ids@) == ids_of(iv.take(i as int)),
        decreases items.len() - i,
    {
        proof {
            lemma_jv_items(items@);
        }
        let ghost t = iv.take(i + 1);
        assert(t.drop_last() == iv.take(i as int));
        assert(t.last() == items@[i as int]@);
        if let JsonValue::Object(es) = &items[i] {
            if let Some(JsonValue::String(s)) = obj_get(es, "id") {
                let ghost before = ids@;
                ids.push(s.clone());
                assert(string_views(ids@) == string_views(before).push(s@));
            }
        }
        i = i + 1;
    }
    assert(iv.take(items@.len() as int) == iv);
    Ok(ids)
}

/// The model ids of a provider's answer text to a model-list request at `url`: an
/// upstream error naming the parser's message when the text is not valid JSON, else
/// as `fetch_model_ids` gives for the value it holds.
pub fn model_ids_of_text(url: &str, text: &str) -> (r: Result<Vec<String>, AppError>)
    ensures
        match json_of_text(text@) {
            None => r matches Err(AppError::Upstream(m)) && exists|d: Seq<char>| m@ == "parse "@ + url@ + ": "@ + d,
            Some(body) => match r {
                Ok(ids) => id_list(body) matches Some(items) && string_views(ids@) == ids_of(items),
                Err(e) => id_list(body) is None && (e matches AppError::Upstream(m) && m@ == url@
                    + ": unexpected /models shape"@),
            },
        },
{
    match parse_json_text(text) {
        Ok(body) => fetch_model_ids(url, &body),
        Err(d) => {
            let head = cat3("parse ", url, ": ");
            let m = cat(head.as_str(), d.as_str());
            assert(m@ == "parse "@ + url@ + ": "@ + d@);
            Err(AppError::Upstream(m))
        },
    }
}

/// What the tray menu asks of the service.
#[derive(Debug, Clone, Copy, PartialEq, Eq, Structural)]
pub enum TrayCommand {
    OpenPage,
    Exit,
}

/// The side of the square tray icon, in pixels.
pub const ICON_SIZE: usize = 16;

/// The ARGB colour of the icon's pixel at column `x`, row `y`: a dark border, a white
/// cross on the diagonals, green elsewhere.
pub open spec fn icon_color(x: int, y: int) -> Seq<u8> {
    if x == 0 || y == 0 || x == 15 || y == 15 {
        seq![255u8, 26u8, 88u8, 56u8]
    } else if x == y || x + y == 15 {
        seq![255u8, 255u8, 255u8, 255u8]
    } else {
        seq![255u8, 42u8, 157u8, 93u8]
    }
}

/// The ARGB bytes of the tray icon, row by row: four bytes per pixel.
pub fn icon_pixels() -> (data: Vec<u8>)
    ensures
        data@.len() == 1024,
        forall|y: int, x: int, j: int|
            0 <= y < 16 && 0 <= x < 16 && 0 <= j < 4 ==> #[trigger] data@[(y * 16 + x) * 4 + j] == icon_color(x, y)[j],
{
    let mut data: Vec<u8> = Vec::new();
    let mut y: usize = 0;
    while y < ICON_SIZE
        invariant
            y <= 16,
            data@.len() == y * 64,
            forall|yy: int, x: int, j: int|
                0 <= yy < y && 0 <= x < 16 && 0 <= j < 4 ==> #[trigger] data@[(yy * 16 + x) * 4 + j] == icon_color(x, yy)[j],
        decreases 16 - y,
    {
        let mut x: usize = 0;
        while x < ICON_SIZE
            invariant
                y < 16,
                x <= 16,
                data@.len() == y * 64 + x * 4,
                forall|yy: int, xx: int, j: int|
                    0 <= yy < y && 0 <= xx < 16 && 0 <= j < 4 ==> #[trigger] data@[(yy * 16 + xx) * 4 + j] == icon_color(xx, yy)[j],
                forall|xx: int, j: int|
                    0 <= xx < x && 0 <= j < 4 ==> #[trigger] data@[(y * 16 + xx) * 4 + j] == icon_color(xx, y as int)[j],
            decreases 16 - x,
        {
            let border = x == 0 || y == 0 || x == ICON_SIZE - 1 || y == ICON_SIZE - 1;
            let diagonal = x == y || x + y == ICON_SIZE - 1;
            let (a, r, g, b): (u8, u8, u8, u8) = if border {
                (255, 26, 88, 56)
            } else if diagonal {
                (255, 255, 255, 255)
            } else {
                (255, 42, 157, 93)
            };
            let ghost before = data@;
            data.push(a);
            data.push(r);
            data.push(g);
            data.push(b);
            let ghost c = icon_color(x as int, y as int);
            assert(c == seq![a, r, g, b]);
            assert forall|yy: int, xx: int, j: int|
                0 <= yy < y && 0 <= xx < 16 && 0 <= j < 4 implies #[trigger] data@[(yy * 16 + xx) * 4 + j] == icon_color(xx, yy)[j] by {
                assert((yy * 16 + xx) * 4 + j < y * 64) by (nonlinear_arith)
                    requires
                        0 <= yy < y,
                        0 <= xx < 16,
                        0 <= j < 4,
                ;
                assert(data@[(yy * 16 + xx) * 4 + j] == before[(yy * 16 + xx) * 4 + j]);
            }
            assert forall|xx: int, j: int|
                0 <= xx < x + 1 && 0 <= j < 4 implies #[trigger] data@[(y * 16 + xx) * 4 + j] == icon_color(xx, y as int)[j] by {
                if xx < x {
                    assert((y * 16 + xx) * 4 + j < y * 64 + x * 4);
                    assert(data@[(y * 16 + xx) * 4 + j] == before[(y * 16 + xx) * 4 + j]);
                } else {
                    assert((y * 16 + xx) * 4 + j == y * 64 + x * 4 + j);
                }
            }
            x = x + 1;
        }
        y = y + 1;
    }
    data
}

} // verus!
