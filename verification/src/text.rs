//! Character-level helpers shared by the rest of the library.
use vstd::prelude::*;

verus! {

broadcast use vstd::string::group_string_axioms;

/// The characters of a string slice, in order.
pub fn chars_of(s: &str) -> (v: Vec<char>)
    ensures
        v@ == s@,
{
    let mut v: Vec<char> = Vec::new();
    for c in it: s.chars()
        invariant
            v@ == it.seq().take(it.index()),
            it.seq() == s@,
    {
        v.push(c);
    }
    v
}

/// Appends one character to a string (`String::push`).
#[verifier::external_body]
fn push_char(s: &mut String, c: char)
    ensures
        final(s)@ == old(s)@.push(c),
{
    s.push(c);
}

/// A string holding exactly the given characters.
pub fn string_of(v: &Vec<char>) -> (s: String)
    ensures
        s@ == v@,
{
    let mut s = String::new();
    let mut i: usize = 0;
    while i < v.len()
        invariant
            i <= v.len(),
            s@ == v@.take(i as int),
        decreases v.len() - i,
    {
        push_char(&mut s, v[i]);
        i = i + 1;
        assert(v@.take(i as int) == v@.take(i - 1).push(v@[i - 1]));
    }
    assert(v@.take(v.len() as int) == v@);
    s
}

} // verus!

verus! {

/// The Unicode `White_Space` property, as `char::is_whitespace` documents it.
pub open spec fn is_ws(c: char) -> bool {
    let u = c as u32;
    ||| 0x9 <= u <= 0xD
    ||| u == 0x20 || u == 0x85 || u == 0xA0 || u == 0x1680
    ||| 0x2000 <= u <= 0x200A
    ||| u == 0x2028 || u == 0x2029 || u == 0x202F || u == 0x205F || u == 0x3000
}

/// Whether `c` is a whitespace character.
pub fn is_whitespace(c: char) -> (b: bool)
    ensures
        b == is_ws(c),
{
    let u = c as u32;
    (0x9 <= u && u <= 0xD) || u == 0x20 || u == 0x85 || u == 0xA0 || u == 0x1680 || (0x2000
        <= u && u <= 0x200A) || u == 0x2028 || u == 0x2029 || u == 0x202F || u == 0x205F || u
        == 0x3000
}

/// `s` without its leading whitespace.
pub open spec fn trim_start(s: Seq<char>) -> Seq<char>
    decreases s.len(),
{
    if s.len() > 0 && is_ws(s[0]) {
        trim_start(s.drop_first())
    } else {
        s
    }
}

/// `s` without its trailing whitespace.
pub open spec fn trim_end(s: Seq<char>) -> Seq<char>
    decreases s.len(),
{
    if s.len() > 0 && is_ws(s.last()) {
        trim_end(s.drop_last())
    } else {
        s
    }
}

/// `s` without leading and trailing whitespace (`str::trim`).
pub open spec fn trim(s: Seq<char>) -> Seq<char> {
    trim_end(trim_start(s))
}

proof fn lemma_trim_start_at(s: Seq<char>, i: int)
    requires
        0 <= i <= s.len(),
        forall|k: int| 0 <= k < i ==> is_ws(#[trigger] s[k]),
    ensures
        trim_start(s) == trim_start(s.subrange(i, s.len() as int)),
    decreases i,
{
    if i > 0 {
        lemma_trim_start_at(s.drop_first(), i - 1);
        assert(s.drop_first().subrange(i - 1, s.drop_first().len() as int) == s.subrange(
            i,
            s.len() as int,
        ));
    } else {
        assert(s.subrange(0, s.len() as int) == s);
    }
}

proof fn lemma_trim_end_at(s: Seq<char>, j: int)
    requires
        0 <= j <= s.len(),
        forall|k: int| j <= k < s.len() ==> is_ws(#[trigger] s[k]),
    ensures
        trim_end(s) == trim_end(s.subrange(0, j)),
    decreases s.len() - j,
{
    if j < s.len() {
        lemma_trim_end_at(s.drop_last(), j);
        assert(s.drop_last().subrange(0, j) == s.subrange(0, j));
    } else {
        assert(s.subrange(0, j) == s);
    }
}

/// The characters of `s` without leading and trailing whitespace.
pub fn trim_chars(s: &Vec<char>) -> (t: Vec<char>)
    ensures
        t@ == trim(s@),
{
    let n = s.len();
    let mut i: usize = 0;
    while i < n && is_whitespace(s[i])
        invariant
            n == s@.len(),
            i <= n,
            forall|k: int| 0 <= k < i ==> is_ws(#[trigger] s@[k]),
        decreases n - i,
    {
        i = i + 1;
    }
    proof {
        lemma_trim_start_at(s@, i as int);
    }
    let ghost u = s@.subrange(i as int, n as int);
    assert(i < n ==> !is_ws(u[0]));
    assert(trim_start(u) == u);
    let mut j: usize = n;
    while j > i && is_whitespace(s[j - 1])
        invariant
            n == s@.len(),
            i <= j <= n,
            u == s@.subrange(i as int, n as int),
            forall|k: int| j - i <= k < u.len() ==> is_ws(#[trigger] u[k]),
        decreases j - i,
    {
        j = j - 1;
    }
    proof {
        lemma_trim_end_at(u, j - i);
    }
    let mut t: Vec<char> = Vec::new();
    let mut k: usize = i;
    while k < j
        invariant
            i <= k <= j <= n,
            n == s@.len(),
            t@ == s@.subrange(i as int, k as int),
        decreases j - k,
    {
        t.push(s[k]);
        k = k + 1;
        assert(t@ == s@.subrange(i as int, k as int));
    }
    assert(u.subrange(0, j - i) == t@);
    t
}

/// Bytes that `c` takes in UTF-8 (`char::len_utf8`).
pub open spec fn char_utf8_len(c: char) -> nat {
    let u = c as u32;
    if u < 0x80 {
        1
    } else if u < 0x800 {
        2
    } else if u < 0x10000 {
        3
    } else {
        4
    }
}

/// Bytes that `s` takes in UTF-8 (`str::len`).
pub open spec fn utf8_len(s: Seq<char>) -> nat
    decreases s.len(),
{
    if s.len() == 0 {
        0
    } else {
        utf8_len(s.drop_last()) + char_utf8_len(s.last())
    }
}

/// Bytes that the characters of `s` take in UTF-8.
pub fn utf8_len_of(s: &Vec<char>) -> (n: u128)
    ensures
        n == utf8_len(s@),
{
    let mut n: u128 = 0;
    let mut i: usize = 0;
    while i < s.len()
        invariant
            i <= s.len(),
            n == utf8_len(s@.take(i as int)),
            n <= 4 * i,
        decreases s.len() - i,
    {
        let u = s[i] as u32;
        let w: u128 = if u < 0x80 {
            1
        } else if u < 0x800 {
            2
        } else if u < 0x10000 {
            3
        } else {
            4
        };
        assert(s@.take(i + 1).drop_last() == s@.take(i as int));
        n = n + w;
        i = i + 1;
    }
    assert(s@.take(s.len() as int) == s@);
    n
}

/// The first `n` bytes of `s` as characters, when `n` falls on a character boundary.
pub open spec fn byte_prefix(s: Seq<char>, n: int) -> Option<Seq<char>>
    decreases s.len(),
{
    if n == 0 {
        Some(Seq::empty())
    } else if s.len() == 0 || n < char_utf8_len(s[0]) {
        None
    } else {
        match byte_prefix(s.drop_first(), n - char_utf8_len(s[0])) {
            Some(p) => Some(seq![s[0]] + p),
            None => None,
        }
    }
}

proof fn lemma_byte_prefix_step(s: Seq<char>, k: int, n: int, used: int)
    requires
        0 <= k < s.len(),
        0 <= used <= n,
        byte_prefix(s, n) == (match byte_prefix(s.subrange(k, s.len() as int), n - used) {
            Some(p) => Some(s.subrange(0, k) + p),
            None => None,
        }),
        n - used >= char_utf8_len(s[k]),
        n - used != 0,
    ensures
        byte_prefix(s, n) == (match byte_prefix(
            s.subrange(k + 1, s.len() as int),
            n - used - char_utf8_len(s[k]),
        ) {
            Some(p) => Some(s.subrange(0, k + 1) + p),
            None => None,
        }),
{
    let t = s.subrange(k, s.len() as int);
    assert(t.drop_first() == s.subrange(k + 1, s.len() as int));
    assert(t[0] == s[k]);
    match byte_prefix(s.subrange(k + 1, s.len() as int), n - used - char_utf8_len(s[k])) {
        Some(p) => {
            assert(s.subrange(0, k) + (seq![s[k]] + p) == s.subrange(0, k + 1) + p);
        },
        None => {},
    }
}

/// The first `n` bytes of `s` as characters; `None` when byte `n` falls inside a character.
pub fn byte_prefix_of(s: &Vec<char>, n: u128) -> (r: Option<Vec<char>>)
    ensures
        match r {
            Some(p) => byte_prefix(s@, n as int) == Some(p@),
            None => byte_prefix(s@, n as int) is None,
        },
{
    let mut used: u128 = 0;
    let mut k: usize = 0;
    let mut p: Vec<char> = Vec::new();
    assert(s@.subrange(0, s@.len() as int) == s@);
    assert(s@.subrange(0, 0) + Seq::<char>::empty() == Seq::<char>::empty());
    while used < n
        invariant
            k <= s.len(),
            used <= n,
            p@ == s@.subrange(0, k as int),
            byte_prefix(s@, n as int) == (match byte_prefix(
                s@.subrange(k as int, s@.len() as int),
                n - used,
            ) {
                Some(q) => Some(s@.subrange(0, k as int) + q),
                None => None,
            }),
        decreases n - used,
    {
        if k >= s.len() {
            return None;
        }
        let u = s[k] as u32;
        let w: u128 = if u < 0x80 {
            1
        } else if u < 0x800 {
            2
        } else if u < 0x10000 {
            3
        } else {
            4
        };
        if n - used < w {
            let ghost t = s@.subrange(k as int, s@.len() as int);
            assert(t[0] == s@[k as int]);
            return None;
        }
        proof {
            lemma_byte_prefix_step(s@, k as int, n as int, used as int);
        }
        p.push(s[k]);
        used = used + w;
        k = k + 1;
    }
    assert(p@ + Seq::<char>::empty() == p@);
    Some(p)
}

/// Whether `s` begins with `p`.
pub open spec fn starts_with(s: Seq<char>, p: Seq<char>) -> bool {
    p.len() <= s.len() && s.subrange(0, p.len() as int) == p
}

/// Whether `s` ends with `p`.
pub open spec fn ends_with(s: Seq<char>, p: Seq<char>) -> bool {
    p.len() <= s.len() && s.subrange(s.len() - p.len(), s.len() as int) == p
}

/// Whether `s` begins with the characters of `p`.
pub fn starts_with_chars(s: &Vec<char>, p: &Vec<char>) -> (b: bool)
    ensures
        b == starts_with(s@, p@),
{
    if p.len() > s.len() {
        return false;
    }
    let mut i: usize = 0;
    while i < p.len()
        invariant
            p.len() <= s.len(),
            i <= p.len(),
            forall|k: int| 0 <= k < i ==> s@[k] == p@[k],
        decreases p.len() - i,
    {
        if s[i] != p[i] {
            assert(s@.subrange(0, p.len() as int)[i as int] != p@[i as int]);
            return false;
        }
        i = i + 1;
    }
    assert(s@.subrange(0, p.len() as int) == p@);
    true
}

/// Whether `s` is exactly the characters of `p`.
pub fn chars_eq(s: &Vec<char>, p: &Vec<char>) -> (b: bool)
    ensures
        b == (s@ == p@),
{
    if s.len() != p.len() {
        return false;
    }
    let r = starts_with_chars(s, p);
    assert(s@.subrange(0, s@.len() as int) == s@);
    r
}

/// The lines of `s` as `str::lines` splits it: at `\n`, dropping a `\r` right
/// before the `\n`, with no empty line after a final line ending.
pub open spec fn lines_of(s: Seq<char>) -> Seq<Seq<char>> {
    let pieces = split_newlines(s);
    let ended = pieces.drop_last().map_values(|l: Seq<char>| strip_cr(l));
    if pieces.last().len() == 0 {
        ended
    } else {
        ended.push(pieces.last())
    }
}

/// The pieces of `s` between `\n` characters; there is always at least one.
pub open spec fn split_newlines(s: Seq<char>) -> Seq<Seq<char>>
    decreases s.len(),
{
    if s.len() == 0 {
        seq![Seq::empty()]
    } else {
        let p = split_newlines(s.drop_last());
        if s.last() == '\n' {
            p.push(Seq::empty())
        } else {
            p.update(p.len() - 1, p.last().push(s.last()))
        }
    }
}

/// `l` without one trailing `\r`.
pub open spec fn strip_cr(l: Seq<char>) -> Seq<char> {
    if l.len() > 0 && l.last() == '\r' {
        l.drop_last()
    } else {
        l
    }
}

pub(crate) proof fn lemma_split_len(s: Seq<char>)
    ensures
        split_newlines(s).len() >= 1,
    decreases s.len(),
{
    if s.len() > 0 {
        lemma_split_len(s.drop_last());
    }
}

/// The views of a list of character vectors.
pub open spec fn views(v: Seq<Vec<char>>) -> Seq<Seq<char>> {
    v.map_values(|l: Vec<char>| l@)
}

fn strip_cr_vec(l: Vec<char>) -> (r: Vec<char>)
    ensures
        r@ == strip_cr(l@),
{
    let mut l = l;
    if l.len() > 0 && l[l.len() - 1] == '\r' {
        l.pop();
    }
    l
}

/// The lines of the characters `s`, as `str::lines` gives them.
pub fn lines_of_chars(s: &Vec<char>) -> (ls: Vec<Vec<char>>)
    ensures
        views(ls@) == lines_of(s@),
{
    let mut done: Vec<Vec<char>> = Vec::new();
    let mut cur: Vec<char> = Vec::new();
    let mut i: usize = 0;
    while i < s.len()
        invariant
            i <= s.len(),
            split_newlines(s@.take(i as int)) == views(done@).push(cur@),
        decreases s.len() - i,
    {
        proof {
            lemma_split_len(s@.take(i as int));
        }
        assert(s@.take(i + 1).drop_last() == s@.take(i as int));
        if s[i] == '\n' {
            let mut finished: Vec<char> = Vec::new();
            std::mem::swap(&mut finished, &mut cur);
            let ghost before = done@;
            done.push(finished);
            assert(views(done@) == views(before).push(finished@));
        } else {
            let ghost prev = cur@;
            cur.push(s[i]);
            assert(views(done@).push(cur@) == (views(done@).push(prev)).update(
                views(done@).len() as int,
                prev.push(s@[i as int]),
            ));
        }
        i = i + 1;
    }
    assert(s@.take(s.len() as int) == s@);
    let ghost pieces = split_newlines(s@);
    assert(pieces.drop_last() == views(done@));
    let mut ls: Vec<Vec<char>> = Vec::new();
    let mut k: usize = 0;
    while k < done.len()
        invariant
            k <= done.len(),
            pieces.drop_last() == views(done@),
            views(ls@) == views(done@).take(k as int).map_values(|l: Seq<char>| strip_cr(l)),
        decreases done.len() - k,
    {
        let l = done[k].clone();
        let r = strip_cr_vec(l);
        let ghost before = ls@;
        ls.push(r);
        assert(views(ls@) == views(before).push(r@));
        assert(views(done@).take(k + 1) == views(done@).take(k as int).push(done@[k as int]@));
        k = k + 1;
    }
    assert(views(done@).take(done.len() as int) == views(done@));
    if cur.len() > 0 {
        let ghost before = ls@;
        ls.push(cur);
        assert(views(ls@) == views(before).push(pieces.last()));
    }
    ls
}

/// The parts of `ls` joined with `sep` between them.
pub open spec fn join_with(ls: Seq<Seq<char>>, sep: Seq<char>) -> Seq<char>
    decreases ls.len(),
{
    if ls.len() == 0 {
        Seq::empty()
    } else if ls.len() == 1 {
        ls[0]
    } else {
        join_with(ls.drop_last(), sep) + sep + ls.last()
    }
}

/// The characters of `ls` joined with `sep` between them.
pub fn join_chars(ls: &Vec<Vec<char>>, sep: char) -> (out: Vec<char>)
    ensures
        out@ == join_with(views(ls@), seq![sep]),
{
    let mut out: Vec<char> = Vec::new();
    let mut k: usize = 0;
    while k < ls.len()
        invariant
            k <= ls.len(),
            out@ == join_with(views(ls@).take(k as int), seq![sep]),
        decreases ls.len() - k,
    {
        if k > 0 {
            out.push(sep);
        }
        let part = &ls[k];
        let mut j: usize = 0;
        let ghost start = out@;
        while j < part.len()
            invariant
                j <= part.len(),
                out@ == start + part@.take(j as int),
            decreases part.len() - j,
        {
            out.push(part[j]);
            j = j + 1;
            assert(part@.take(j as int) == part@.take(j - 1).push(part@[j - 1]));
        }
        assert(part@.take(part.len() as int) == part@);
        let ghost t = views(ls@).take(k + 1);
        assert(t.drop_last() == views(ls@).take(k as int));
        assert(t.last() == part@);
        if k == 0 {
            assert(out@ == part@);
        } else {
            assert(start == join_with(t.drop_last(), seq![sep]) + seq![sep]);
        }
        k = k + 1;
    }
    assert(views(ls@).take(ls.len() as int) == views(ls@));
    out
}

} // verus!

verus! {

/// Name for what `str::to_lowercase` returns for a string: its characters mapped by
/// Unicode's lowercase rules.
pub uninterp spec fn lowercased(s: Seq<char>) -> Seq<char>;

/// `str::to_lowercase`: the string mapped to lowercase by Unicode's rules.
#[verifier::external_body]
pub(crate) fn to_lowercase(s: &str) -> (r: String)
    ensures
        r@ == lowercased(s@),
{
    s.to_lowercase()
}

/// The characters of `s` mapped to lowercase.
pub fn lowercase_chars(s: &Vec<char>) -> (r: Vec<char>)
    ensures
        r@ == lowercased(s@),
{
    let st = string_of(s);
    let l = to_lowercase(st.as_str());
    chars_of(l.as_str())
}

/// The views of a list of strings.
pub open spec fn string_views(v: Seq<String>) -> Seq<Seq<char>> {
    v.map_values(|s: String| s@)
}

/// Strings holding the given lists of characters.
pub fn strings_of(v: &Vec<Vec<char>>) -> (r: Vec<String>)
    ensures
        string_views(r@) == views(v@),
{
    let mut r: Vec<String> = Vec::new();
    let mut k: usize = 0;
    while k < v.len()
        invariant
            k <= v.len(),
            string_views(r@) == views(v@).take(k as int),
        decreases v.len() - k,
    {
        let s = string_of(&v[k]);
        let ghost before = r@;
        r.push(s);
        assert(string_views(r@) == string_views(before).push(s@));
        assert(views(v@).take(k + 1) == views(v@).take(k as int).push(v@[k as int]@));
        k = k + 1;
    }
    assert(views(v@).take(v.len() as int) == views(v@));
    r
}

/// The part of `s` after its last `/` (all of `s` when it has none).
pub open spec fn after_last_slash(s: Seq<char>) -> Seq<char>
    decreases s.len(),
{
    if s.len() == 0 {
        s
    } else if s.last() == '/' {
        Seq::empty()
    } else {
        after_last_slash(s.drop_last()).push(s.last())
    }
}

/// The characters of `s` after its last `/`.
pub fn after_last_slash_chars(s: &Vec<char>) -> (r: Vec<char>)
    ensures
        r@ == after_last_slash(s@),
{
    let mut j: usize = s.len();
    assert(s@.take(s@.len() as int) == s@);
    assert(s@.subrange(s@.len() as int, s@.len() as int) == Seq::<char>::empty());
    while j > 0 && s[j - 1] != '/'
        invariant
            j <= s.len(),
            after_last_slash(s@) == after_last_slash(s@.take(j as int)) + s@.subrange(
                j as int,
                s@.len() as int,
            ),
        decreases j,
    {
        let ghost t = s@.take(j as int);
        assert(t.drop_last() == s@.take(j - 1));
        assert(s@.subrange(j - 1, s@.len() as int) == seq![t.last()] + s@.subrange(
            j as int,
            s@.len() as int,
        ));
        j = j - 1;
    }
    assert(s@.take(s@.len() as int) == s@);
    let mut r: Vec<char> = Vec::new();
    let mut k: usize = j;
    while k < s.len()
        invariant
            j <= k <= s.len(),
            r@ == s@.subrange(j as int, k as int),
        decreases s.len() - k,
    {
        r.push(s[k]);
        k = k + 1;
        assert(r@ == s@.subrange(j as int, k as int));
    }
    r
}

/// Whether `needle` occurs in `hay` as a contiguous run (`str::contains`).
pub open spec fn contains_seq(hay: Seq<char>, needle: Seq<char>) -> bool {
    exists|i: int| 0 <= i && i + needle.len() <= hay.len() && #[trigger] hay.subrange(i, i + needle.len()) == needle
}

/// Whether `hay` holds `needle` from position `i` on.
fn occurs_at(hay: &Vec<char>, needle: &Vec<char>, i: usize) -> (b: bool)
    requires
        i + needle.len() <= hay.len(),
    ensures
        b == (hay@.subrange(i as int, i + needle.len()) == needle@),
{
    let mut k: usize = 0;
    while k < needle.len()
        invariant
            i + needle.len() <= hay.len(),
            k <= needle.len(),
            forall|m: int| 0 <= m < k ==> hay@[i + m] == needle@[m],
        decreases needle.len() - k,
    {
        if hay[i + k] != needle[k] {
            assert(hay@.subrange(i as int, i + needle.len())[k as int] != needle@[k as int]);
            return false;
        }
        k = k + 1;
    }
    assert(hay@.subrange(i as int, i + needle.len()) == needle@);
    true
}

/// Whether `needle` occurs in `hay`.
pub fn contains_chars(hay: &Vec<char>, needle: &Vec<char>) -> (b: bool)
    ensures
        b == contains_seq(hay@, needle@),
{
    if needle.len() > hay.len() {
        return false;
    }
    let last = hay.len() - needle.len();
    let mut i: usize = 0;
    while i <= last
        invariant
            last == hay.len() - needle.len(),
            needle.len() <= hay.len(),
            i <= last,
            forall|k: int| 0 <= k < i ==> #[trigger] hay@.subrange(k, k + needle.len()) != needle@,
        ensures
            forall|k: int| 0 <= k <= last ==> #[trigger] hay@.subrange(k, k + needle.len()) != needle@,
        decreases last + 1 - i,
    {
        if occurs_at(hay, needle, i) {
            return true;
        }
        if i == last {
            assert(forall|k: int| 0 <= k <= last ==> #[trigger] hay@.subrange(k, k + needle.len()) != needle@);
            break;
        }
        i = i + 1;
    }
    assert(!contains_seq(hay@, needle@)) by {
        if contains_seq(hay@, needle@) {
            let k = choose|k: int| 0 <= k && k + needle.len() <= hay.len() && #[trigger] hay@.subrange(k, k + needle.len()) == needle@;
            assert(k <= last);
        }
    }
    false
}

/// The first `n` characters of `s`.
pub fn take_chars(s: &Vec<char>, n: usize) -> (r: Vec<char>)
    requires
        n <= s.len(),
    ensures
        r@ == s@.take(n as int),
{
    let mut r: Vec<char> = Vec::new();
    let mut i: usize = 0;
    while i < n
        invariant
            i <= n,
            n <= s.len(),
            r@ == s@.take(i as int),
        decreases n - i,
    {
        r.push(s[i]);
        assert(s@.take(i + 1) == s@.take(i as int).push(s@[i as int]));
        i = i + 1;
    }
    r
}

/// An owned copy of `s`.
pub fn owned(s: &str) -> (r: String)
    ensures
        r@ == s@,
{
    string_of(&chars_of(s))
}

/// `a` followed by `b`.
pub fn cat(a: &str, b: &str) -> (r: String)
    ensures
        r@ == a@ + b@,
{
    let mut v = chars_of(a);
    let w = chars_of(b);
    let mut i: usize = 0;
    while i < w.len()
        invariant
            i <= w.len(),
            w@ == b@,
            v@ == a@ + b@.take(i as int),
        decreases w.len() - i,
    {
        v.push(w[i]);
        assert(b@.take(i + 1) == b@.take(i as int).push(b@[i as int]));
        i = i + 1;
    }
    assert(b@.take(w.len() as int) == b@);
    string_of(&v)
}

/// `a`, `b` and `c` in a row.
pub fn cat3(a: &str, b: &str, c: &str) -> (r: String)
    ensures
        r@ == a@ + b@ + c@,
{
    let ab = cat(a, b);
    cat(ab.as_str(), c)
}

} // verus!
