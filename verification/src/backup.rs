//! Backing the database up to Nutstore (a WebDAV service) and restoring it: the
//! settings it needs, the URLs it writes to, and how it reads the database address.
use vstd::prelude::*;
use crate::error::AppError;
use crate::text::{cat, cat3, chars_of, owned, string_of, trim, trim_chars};

verus! {

/// The WebDAV address used when none is set.
pub open spec fn nutstore_default_url() -> Seq<char> {
    "https://dav.jianguoyun.com/dav/"@
}

/// The remote file that always holds the latest backup.
pub open spec fn latest_backup_file() -> Seq<char> {
    "ocm-latest.sqlite3"@
}

/// The remote file that always holds the latest backup.
pub fn latest_backup_file_name() -> (r: &'static str)
    ensures
        r@ == latest_backup_file(),
{
    "ocm-latest.sqlite3"
}

/// What a backup reports: the database file, where it was written, and its size.
#[derive(Debug)]
pub struct NutstoreBackupReport {
    pub database_path: String,
    pub remote_archive_url: String,
    pub remote_latest_url: String,
    pub bytes_uploaded: usize,
}

/// What a restore reports: where it read from, and how many rows came back.
#[derive(Debug)]
pub struct NutstoreRestoreReport {
    pub remote_url: String,
    pub providers_restored: usize,
    pub selected_models_restored: usize,
}

/// The Nutstore settings kept in the settings file.
#[derive(Debug)]
pub struct NutstoreSettings {
    pub server_url: String,
    pub enabled: bool,
    pub username: String,
    pub password: String,
    pub remote_dir: String,
}

/// The server address used when the settings give none.
pub fn default_server_url() -> (r: String)
    ensures
        r@ == nutstore_default_url(),
{
    owned("https://dav.jianguoyun.com/dav/")
}

impl NutstoreSettings {
    /// Settings with backups off, the default server, and nothing else set.
    pub fn default_settings() -> (r: NutstoreSettings)
        ensures
            !r.enabled,
            r.server_url@ == nutstore_default_url(),
            r.username@.len() == 0,
            r.password@.len() == 0,
            r.remote_dir@.len() == 0,
    {
        NutstoreSettings {
            enabled: false,
            server_url: default_server_url(),
            username: String::new(),
            password: String::new(),
            remote_dir: String::new(),
        }
    }
}

/// The settings file: the Nutstore settings.
#[derive(Debug)]
pub struct SettingsFile {
    pub nutstore: NutstoreSettings,
}

impl SettingsFile {
    /// A settings file with the default Nutstore settings.
    pub fn default_file() -> (r: SettingsFile)
        ensures
            !r.nutstore.enabled,
            r.nutstore.server_url@ == nutstore_default_url(),
            r.nutstore.username@.len() == 0,
            r.nutstore.password@.len() == 0,
            r.nutstore.remote_dir@.len() == 0,
    {
        SettingsFile { nutstore: NutstoreSettings::default_settings() }
    }
}

/// Why the settings do not allow a backup or restore, if they do not: backups off,
/// no user name (blank), or no password.
pub open spec fn nutstore_refusal(enabled: bool, username: Seq<char>, password: Seq<char>) -> Option<Seq<char>> {
    if !enabled {
        Some("坚果云备份未启用"@)
    } else if trim(username).len() == 0 {
        Some("请先填写坚果云用户名"@)
    } else if password.len() == 0 {
        Some("请先填写坚果云应用密码"@)
    } else {
        None
    }
}

/// Checks that the settings allow a backup or restore (see `nutstore_refusal`).
pub fn check_nutstore_settings(config: &NutstoreSettings) -> (r: Result<(), AppError>)
    ensures
        match r {
            Ok(()) => nutstore_refusal(config.enabled, config.username@, config.password@) is None,
            Err(e) => e matches AppError::BadRequest(m) && nutstore_refusal(config.enabled, config.username@, config.password@)
                == Some(m@),
        },
{
    if !config.enabled {
        return Err(AppError::BadRequest(owned("坚果云备份未启用")));
    }
    if trim_chars(&chars_of(config.username.as_str())).len() == 0 {
        return Err(AppError::BadRequest(owned("请先填写坚果云用户名")));
    }
    if chars_of(config.password.as_str()).len() == 0 {
        return Err(AppError::BadRequest(owned("请先填写坚果云应用密码")));
    }
    Ok(())
}

/// The server address to use: the trimmed setting, or the default when it is blank.
pub open spec fn effective_server_url_spec(s: Seq<char>) -> Seq<char> {
    if trim(s).len() == 0 {
        nutstore_default_url()
    } else {
        trim(s)
    }
}

/// The server address to use (see `effective_server_url_spec`).
pub fn effective_server_url(server_url: &str) -> (r: String)
    ensures
        r@ == effective_server_url_spec(server_url@),
{
    let t = trim_chars(&chars_of(server_url));
    if t.len() == 0 {
        default_server_url()
    } else {
        string_of(&t)
    }
}

/// `s` without any trailing `c`.
pub open spec fn trim_end_char(s: Seq<char>, c: char) -> Seq<char>
    decreases s.len(),
{
    if s.len() > 0 && s.last() == c {
        trim_end_char(s.drop_last(), c)
    } else {
        s
    }
}

/// `s` without any leading `c`.
pub open spec fn trim_start_char(s: Seq<char>, c: char) -> Seq<char>
    decreases s.len(),
{
    if s.len() > 0 && s[0] == c {
        trim_start_char(s.drop_first(), c)
    } else {
        s
    }
}

/// `s` without any leading or trailing `c`.
pub open spec fn trim_char(s: Seq<char>, c: char) -> Seq<char> {
    trim_end_char(trim_start_char(s, c), c)
}

/// The characters of `s` without any trailing `c`.
fn trim_end_char_exec(s: &Vec<char>, c: char) -> (r: Vec<char>)
    ensures
        r@ == trim_end_char(s@, c),
{
    let mut n = s.len();
    assert(s@.take(n as int) == s@);
    while n > 0 && s[n - 1] == c
        invariant
            n <= s.len(),
            trim_end_char(s@.take(n as int), c) == trim_end_char(s@, c),
        decreases n,
    {
        assert(s@.take(n as int).drop_last() == s@.take(n - 1));
        n = n - 1;
    }
    crate::text::take_chars(s, n)
}

/// The characters of `s` without any leading `c`.
fn trim_start_char_exec(s: &Vec<char>, c: char) -> (r: Vec<char>)
    ensures
        r@ == trim_start_char(s@, c),
{
    let mut i: usize = 0;
    assert(s@.subrange(0, s@.len() as int) == s@);
    while i < s.len() && s[i] == c
        invariant
            i <= s.len(),
            trim_start_char(s@.subrange(i as int, s@.len() as int), c) == trim_start_char(s@, c),
        decreases s.len() - i,
    {
        assert(s@.subrange(i as int, s@.len() as int).drop_first() == s@.subrange(i + 1, s@.len() as int));
        i = i + 1;
    }
    let mut r: Vec<char> = Vec::new();
    let mut j: usize = i;
    while j < s.len()
        invariant
            i <= j <= s.len(),
            r@ == s@.subrange(i as int, j as int),
        decreases s.len() - j,
    {
        r.push(s[j]);
        assert(s@.subrange(i as int, j + 1) == s@.subrange(i as int, j as int).push(s@[j as int]));
        j = j + 1;
    }
    proof {
        let t = s@.subrange(i as int, s@.len() as int);
        if t.len() > 0 {
            assert(t[0] == s@[i as int]);
        }
    }
    r
}

/// The URL of `file_name` in `remote_dir` on the server: the trimmed server address
/// without trailing slashes, the trimmed directory without surrounding slashes (left
/// out when empty), and the file name, joined by slashes.
pub open spec fn remote_url_spec(server_url: Seq<char>, remote_dir: Seq<char>, file_name: Seq<char>) -> Seq<char> {
    let base = trim_end_char(trim(server_url), '/');
    let dir = trim_char(trim(remote_dir), '/');
    if dir.len() == 0 {
        base + "/"@ + file_name
    } else {
        base + "/"@ + dir + "/"@ + file_name
    }
}

/// The URL of `file_name` in `remote_dir` on the server (see `remote_url_spec`).
pub fn build_remote_url(server_url: &str, remote_dir: &str, file_name: &str) -> (r: String)
    ensures
        r@ == remote_url_spec(server_url@, remote_dir@, file_name@),
{
    let base = string_of(&trim_end_char_exec(&trim_chars(&chars_of(server_url)), '/'));
    let dir = string_of(&trim_end_char_exec(&trim_start_char_exec(&trim_chars(&chars_of(remote_dir)), '/'), '/'));
    if chars_of(dir.as_str()).len() == 0 {
        cat3(base.as_str(), "/", file_name)
    } else {
        let head = cat3(base.as_str(), "/", dir.as_str());
        let r = cat3(head.as_str(), "/", file_name);
        assert(r@ == base@ + "/"@ + dir@ + "/"@ + file_name@);
        r
    }
}

/// The non-empty parts of `s` between slashes, in order; `cur` is the part read so far.
pub open spec fn segments_from(s: Seq<char>, cur: Seq<char>) -> Seq<Seq<char>>
    decreases s.len(),
{
    if s.len() == 0 {
        if cur.len() > 0 {
            seq![cur]
        } else {
            Seq::empty()
        }
    } else if s[0] == '/' {
        (if cur.len() > 0 {
            seq![cur]
        } else {
            Seq::empty()
        }) + segments_from(s.drop_first(), Seq::empty())
    } else {
        segments_from(s.drop_first(), cur.push(s[0]))
    }
}

/// The URLs of the directories to create for the segments `segs`, each under the
/// previous one: `base`, the path so far (`acc`) and the segment, and a final slash.
pub open spec fn dir_urls(base: Seq<char>, acc: Seq<char>, segs: Seq<Seq<char>>) -> Seq<Seq<char>>
    decreases segs.len(),
{
    if segs.len() == 0 {
        Seq::empty()
    } else {
        let a = acc + "/"@ + segs[0];
        seq![base + a + "/"@] + dir_urls(base, a, segs.drop_first())
    }
}

/// The directories to create on the server before writing into `remote_dir`, outermost
/// first: none when the trimmed directory without surrounding slashes is empty.
pub open spec fn remote_dir_urls_spec(server_url: Seq<char>, remote_dir: Seq<char>) -> Seq<Seq<char>> {
    let dir = trim_char(trim(remote_dir), '/');
    if dir.len() == 0 {
        Seq::empty()
    } else {
        dir_urls(trim_end_char(trim(server_url), '/'), Seq::empty(), segments_from(dir, Seq::empty()))
    }
}

/// The non-empty parts of `s` between slashes.
fn segments_of(s: &Vec<char>) -> (r: Vec<Vec<char>>)
    ensures
        crate::text::views(r@) == segments_from(s@, Seq::empty()),
{
    let mut r: Vec<Vec<char>> = Vec::new();
    let mut cur: Vec<char> = Vec::new();
    let mut i: usize = 0;
    assert(s@.subrange(0, s@.len() as int) == s@);
    while i < s.len()
        invariant
            i <= s.len(),
            crate::text::views(r@) + segments_from(s@.subrange(i as int, s@.len() as int), cur@) == segments_from(s@, Seq::empty()),
        decreases s.len() - i,
    {
        let ghost rest = s@.subrange(i as int, s@.len() as int);
        assert(rest[0] == s@[i as int]);
        assert(rest.drop_first() == s@.subrange(i + 1, s@.len() as int));
        if s[i] == '/' {
            if cur.len() > 0 {
                let ghost before = r@;
                r.push(cur);
                assert(crate::text::views(r@) == crate::text::views(before).push(cur@));
                assert(crate::text::views(before) + (seq![cur@] + segments_from(rest.drop_first(), Seq::empty()))
                    == crate::text::views(r@) + segments_from(rest.drop_first(), Seq::empty()));
            } else {
                assert(Seq::<Seq<char>>::empty() + segments_from(rest.drop_first(), Seq::empty()) == segments_from(rest.drop_first(), Seq::empty()));
            }
            cur = Vec::new();
            assert(cur@ == Seq::<char>::empty());
        } else {
            cur.push(s[i]);
        }
        i = i + 1;
    }
    let ghost rest = s@.subrange(i as int, s@.len() as int);
    assert(rest.len() == 0);
    if cur.len() > 0 {
        let ghost before = r@;
        r.push(cur);
        assert(crate::text::views(r@) == crate::text::views(before).push(cur@));
    } else {
        assert(crate::text::views(r@) + Seq::<Seq<char>>::empty() == crate::text::views(r@));
    }
    r
}

/// The directories to create on the server before writing into `remote_dir` (see
/// `remote_dir_urls_spec`).
pub fn remote_dir_urls(server_url: &str, remote_dir: &str) -> (r: Vec<String>)
    ensures
        crate::text::string_views(r@) == remote_dir_urls_spec(server_url@, remote_dir@),
{
    let dir = trim_end_char_exec(&trim_start_char_exec(&trim_chars(&chars_of(remote_dir)), '/'), '/');
    let mut out: Vec<String> = Vec::new();
    if dir.len() == 0 {
        return out;
    }
    let base = string_of(&trim_end_char_exec(&trim_chars(&chars_of(server_url)), '/'));
    let segs = segments_of(&dir);
    let ghost sv = crate::text::views(segs@);
    let ghost all = dir_urls(base@, Seq::empty(), sv);
    let mut acc = string_of(&Vec::new());
    assert(acc@ == Seq::<char>::empty());
    let mut k: usize = 0;
    assert(sv.subrange(0, sv.len() as int) == sv);
    assert(crate::text::string_views(out@) == Seq::<Seq<char>>::empty());
    assert(Seq::<Seq<char>>::empty() + all == all);
    while k < segs.len()
        invariant
            k <= segs.len(),
            sv == crate::text::views(segs@),
            sv.len() == segs@.len(),
            crate::text::string_views(out@) + dir_urls(base@, acc@, sv.subrange(k as int, sv.len() as int)) == all,
        decreases segs.len() - k,
    {
        let ghost rest = sv.subrange(k as int, sv.len() as int);
        assert(rest[0] == segs@[k as int]@);
        assert(rest.drop_first() == sv.subrange(k + 1, sv.len() as int));
        let seg = string_of(&segs[k]);
        let a = cat3(acc.as_str(), "/", seg.as_str());
        let url = cat3(base.as_str(), a.as_str(), "/");
        let ghost before = out@;
        out.push(url);
        assert(crate::text::string_views(out@) == crate::text::string_views(before).push(url@));
        assert(crate::text::string_views(before) + (seq![url@] + dir_urls(base@, a@, rest.drop_first()))
            == crate::text::string_views(out@) + dir_urls(base@, a@, rest.drop_first()));
        acc = a;
        k = k + 1;
    }
    assert(sv.subrange(segs.len() as int, sv.len() as int) == Seq::<Seq<char>>::empty());
    assert(crate::text::string_views(out@) + Seq::<Seq<char>>::empty() == crate::text::string_views(out@));
    out
}

/// Whether the server accepted the creation of a directory: created (201), moved
/// (301), already there (405, "not allowed"), or any other success.
pub open spec fn mkcol_accepted_spec(status: u16) -> bool {
    status == 201 || status == 301 || status == 405 || (200 <= status <= 299)
}

/// Whether the server accepted the creation of a directory (see `mkcol_accepted_spec`).
pub fn mkcol_accepted(status: u16) -> (b: bool)
    ensures
        b == mkcol_accepted_spec(status),
{
    status == 201 || status == 301 || status == 405 || (200 <= status && status <= 299)
}

/// `s` without its leading repetitions of `p`.
pub open spec fn strip_leading(s: Seq<char>, p: Seq<char>) -> Seq<char>
    decreases s.len(),
{
    if p.len() > 0 && p.len() <= s.len() && s.subrange(0, p.len() as int) == p {
        strip_leading(s.subrange(p.len() as int, s.len() as int), p)
    } else {
        s
    }
}

/// The part of `s` before its first `?`.
pub open spec fn before_question(s: Seq<char>) -> Seq<char>
    decreases s.len(),
{
    if s.len() == 0 || s[0] == '?' {
        Seq::empty()
    } else {
        seq![s[0]] + before_question(s.drop_first())
    }
}

/// The file that a `sqlite:` database address names: the rest of the address without
/// leading `//` and without its `?` query; `None` when the address is not a
/// `sqlite:` one, or names no file (empty, or `:memory:`).
pub open spec fn sqlite_file_spec(url: Seq<char>) -> Option<Seq<char>> {
    if url.len() >= 7 && url.subrange(0, 7) == "sqlite:"@ {
        let path = before_question(strip_leading(url.subrange(7, url.len() as int), "//"@));
        if path.len() == 0 || path == ":memory:"@ {
            None
        } else {
            Some(path)
        }
    } else {
        None
    }
}

/// The characters of `s` before its first `?`.
fn before_question_exec(s: &Vec<char>) -> (r: Vec<char>)
    ensures
        r@ == before_question(s@),
{
    let mut i: usize = 0;
    while i < s.len() && s[i] != '?'
        invariant
            i <= s.len(),
            forall|k: int| 0 <= k < i ==> s@[k] != '?',
        decreases s.len() - i,
    {
        i = i + 1;
    }
    proof {
        lemma_before_question(s@, i as int);
    }
    crate::text::take_chars(s, i)
}

proof fn lemma_before_question(s: Seq<char>, i: int)
    requires
        0 <= i <= s.len(),
        forall|k: int| 0 <= k < i ==> s[k] != '?',
        i == s.len() || s[i] == '?',
    ensures
        before_question(s) == s.take(i),
    decreases i,
{
    if i > 0 {
        assert forall|k: int| 0 <= k < i - 1 implies s.drop_first()[k] != '?' by {
            assert(s.drop_first()[k] == s[k + 1]);
        }
        lemma_before_question(s.drop_first(), i - 1);
        assert(s.take(i) == seq![s[0]] + s.drop_first().take(i - 1));
    }
}

/// The file that a `sqlite:` database address names (see `sqlite_file_spec`).
fn sqlite_file(url: &Vec<char>) -> (r: Option<Vec<char>>)
    ensures
        match r {
            Some(p) => sqlite_file_spec(url@) == Some(p@),
            None => sqlite_file_spec(url@) is None,
        },
{
    let pre = chars_of("sqlite:");
    proof {
        reveal_strlit("sqlite:");
        reveal_strlit("//");
        reveal_strlit(":memory:");
    }
    if !crate::text::starts_with_chars(url, &pre) {
        return None;
    }
    let mut i: usize = 7;
    while url.len() - i >= 2 && url[i] == '/' && url[i + 1] == '/'
        invariant
            7 <= i <= url.len(),
            strip_leading(url@.subrange(i as int, url@.len() as int), "//"@) == strip_leading(url@.subrange(7, url@.len() as int), "//"@),
        decreases url.len() - i,
    {
        let ghost t = url@.subrange(i as int, url@.len() as int);
        proof {
            reveal_strlit("//");
        }
        assert(t.subrange(0, 2) =~= "//"@);
        assert(t.subrange(2, t.len() as int) == url@.subrange(i + 2, url@.len() as int));
        i = i + 2;
    }
    let mut rest: Vec<char> = Vec::new();
    let mut j: usize = i;
    while j < url.len()
        invariant
            i <= j <= url.len(),
            rest@ == url@.subrange(i as int, j as int),
        decreases url.len() - j,
    {
        rest.push(url[j]);
        assert(url@.subrange(i as int, j + 1) == url@.subrange(i as int, j as int).push(url@[j as int]));
        j = j + 1;
    }
    proof {
        let t = url@.subrange(i as int, url@.len() as int);
        if t.len() >= 2 && t.subrange(0, 2) == "//"@ {
            assert(t[0] == t.subrange(0, 2)[0]);
            assert(t[1] == t.subrange(0, 2)[1]);
        }
    }
    let path = before_question_exec(&rest);
    if path.len() == 0 || crate::text::chars_eq(&path, &chars_of(":memory:")) {
        return None;
    }
    Some(path)
}

/// The database file of a `sqlite:` address (see `sqlite_file_spec`); an internal
/// error when the address is not a `sqlite:` one, or names no file.
pub fn sqlite_path_from_url(database_url: &str) -> (r: Result<String, AppError>)
    ensures
        match r {
            Ok(p) => sqlite_file_spec(database_url@) == Some(p@),
            Err(e) => sqlite_file_spec(database_url@) is None && (e matches AppError::Internal(m) && m@ == (
                if database_url@.len() >= 7 && database_url@.subrange(0, 7) == "sqlite:"@ {
                    "当前数据库不是可备份的文件数据库"@
                } else {
                    "不支持的数据库地址: "@ + database_url@
                })),
        },
{
    let url = chars_of(database_url);
    let pre = chars_of("sqlite:");
    proof {
        reveal_strlit("sqlite:");
    }
    if !crate::text::starts_with_chars(&url, &pre) {
        return Err(AppError::Internal(cat("不支持的数据库地址: ", database_url)));
    }
    match sqlite_file(&url) {
        Some(p) => Ok(string_of(&p)),
        None => Err(AppError::Internal(owned("当前数据库不是可备份的文件数据库"))),
    }
}

/// The file that a database address names, when it names one (see `sqlite_file_spec`).
pub fn sqlite_file_path(database_url: &str) -> (r: Option<String>)
    ensures
        match r {
            Some(p) => sqlite_file_spec(database_url@) == Some(p@),
            None => sqlite_file_spec(database_url@) is None,
        },
{
    match sqlite_file(&chars_of(database_url)) {
        Some(p) => Some(string_of(&p)),
        None => None,
    }
}

/// `s` with every `'` doubled, as an SQL string literal holds it.
pub open spec fn sql_quoted(s: Seq<char>) -> Seq<char>
    decreases s.len(),
{
    if s.len() == 0 {
        Seq::empty()
    } else if s[0] == '\'' {
        seq!['\'', '\''] + sql_quoted(s.drop_first())
    } else {
        seq![s[0]] + sql_quoted(s.drop_first())
    }
}

/// `value` with every `'` doubled, for an SQL string literal.
pub fn sqlite_string(value: &str) -> (r: String)
    ensures
        r@ == sql_quoted(value@),
{
    let s = chars_of(value);
    let mut out: Vec<char> = Vec::new();
    let mut i: usize = 0;
    assert(s@.subrange(0, s@.len() as int) == s@);
    while i < s.len()
        invariant
            i <= s.len(),
            s@ == value@,
            out@ + sql_quoted(s@.subrange(i as int, s@.len() as int)) == sql_quoted(value@),
        decreases s.len() - i,
    {
        let ghost rest = s@.subrange(i as int, s@.len() as int);
        let ghost before = out@;
        assert(rest[0] == s@[i as int]);
        assert(rest.drop_first() == s@.subrange(i + 1, s@.len() as int));
        if s[i] == '\'' {
            out.push('\'');
            out.push('\'');
            assert(out@ == before + seq!['\'', '\'']);
        } else {
            out.push(s[i]);
            assert(out@ == before + seq![s@[i as int]]);
        }
        i = i + 1;
    }
    assert(s@.subrange(s@.len() as int, s@.len() as int) == Seq::<char>::empty());
    assert(out@ + Seq::<char>::empty() == out@);
    string_of(&out)
}

/// The text of an error answer worth showing: the trimmed body, cut to its first 200
/// characters, or a placeholder when it is blank.
pub open spec fn trimmed_error_body(body: Seq<char>) -> Seq<char> {
    let t = trim(body);
    if t.len() == 0 {
        "无响应内容"@
    } else if t.len() <= 200 {
        t
    } else {
        t.take(200)
    }
}

/// The text of an error answer worth showing (see `trimmed_error_body`).
pub fn trim_error_body(body: &str) -> (r: String)
    ensures
        r@ == trimmed_error_body(body@),
{
    let t = trim_chars(&chars_of(body));
    if t.len() == 0 {
        return owned("无响应内容");
    }
    if t.len() <= 200 {
        string_of(&t)
    } else {
        string_of(&crate::text::take_chars(&t, 200))
    }
}

/// The name of a dated backup of the database: the time stamp, the database file's
/// stem (`ocm` when it has none) and `.sqlite3`.
pub fn build_archive_file_name(timestamp: &str, stem: Option<&str>) -> (r: String)
    ensures
        r@ == timestamp@ + "."@ + (match stem {
            Some(s) => s@,
            None => "ocm"@,
        }) + ".sqlite3"@,
{
    let st = match stem {
        Some(s) => s,
        None => "ocm",
    };
    let head = cat3(timestamp, ".", st);
    cat(head.as_str(), ".sqlite3")
}

} // verus!
