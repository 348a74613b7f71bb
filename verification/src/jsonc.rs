//! Removing `//` and `/* */` comments from JSONC text so it parses as plain JSON.
use vstd::prelude::*;
use crate::text::{chars_of, string_of};

verus! {

/// Where the comment stripper stands while reading the text.
pub enum LexState {
    /// Plain JSON text.
    Code,
    /// Inside a string literal.
    InString,
    /// Right after a backslash inside a string literal.
    Escaped,
    /// Inside a `//` comment, up to the end of the line.
    LineComment,
    /// Inside a `/* */` comment; the flag is set when the previous character was `*`.
    BlockComment(bool),
}

/// The text that the stripper writes for `s[i..]` when it reaches position `i` in state `st`.
pub open spec fn stripped_from(s: Seq<char>, i: int, st: LexState) -> Seq<char>
    decreases s.len() - i,
{
    if i < 0 || i >= s.len() {
        Seq::empty()
    } else {
        let c = s[i];
        match st {
            LexState::Escaped => seq![c] + stripped_from(s, i + 1, LexState::InString),
            LexState::InString => {
                if c == '\\' {
                    seq![c] + stripped_from(s, i + 1, LexState::Escaped)
                } else if c == '"' {
                    seq![c] + stripped_from(s, i + 1, LexState::Code)
                } else {
                    seq![c] + stripped_from(s, i + 1, LexState::InString)
                }
            },
            LexState::LineComment => {
                if c == '\n' {
                    seq!['\n'] + stripped_from(s, i + 1, LexState::Code)
                } else {
                    stripped_from(s, i + 1, LexState::LineComment)
                }
            },
            LexState::BlockComment(star) => {
                if star && c == '/' {
                    stripped_from(s, i + 1, LexState::Code)
                } else if c == '\n' {
                    seq!['\n'] + stripped_from(s, i + 1, LexState::BlockComment(false))
                } else {
                    stripped_from(s, i + 1, LexState::BlockComment(c == '*'))
                }
            },
            LexState::Code => {
                if c == '"' {
                    seq![c] + stripped_from(s, i + 1, LexState::InString)
                } else if c == '/' && i + 1 < s.len() && s[i + 1] == '/' {
                    stripped_from(s, i + 1, LexState::LineComment)
                } else if c == '/' && i + 1 < s.len() && s[i + 1] == '*' {
                    stripped_from(s, i + 2, LexState::BlockComment(false))
                } else {
                    seq![c] + stripped_from(s, i + 1, LexState::Code)
                }
            },
        }
    }
}

/// JSONC text with its comments removed: the stripper's output from the start, in plain code.
pub open spec fn stripped(s: Seq<char>) -> Seq<char> {
    stripped_from(s, 0, LexState::Code)
}

/// Strip `// line` and `/* block */` comments from a JSONC string so that it can be
/// parsed as plain JSON. Text inside string literals is kept as it is, and the
/// newlines inside comments are kept so that line numbers do not move.
pub fn strip_jsonc_comments(src: &str) -> (out: String)
    ensures
        out@ == stripped(src@),
{
    let s = chars_of(src);
    let n = s.len();
    let mut out: Vec<char> = Vec::new();
    let mut st = LexState::Code;
    let mut i: usize = 0;
    while i < n
        invariant
            n == s@.len(),
            i <= n,
            out@ + stripped_from(s@, i as int, st) == stripped(s@),
        decreases n - i,
    {
        let c = s[i];
        let ghost old_out = out@;
        let ghost old_st = st;
        let ghost old_i = i as int;
        match st {
            LexState::Escaped => {
                out.push(c);
                st = LexState::InString;
                i = i + 1;
            },
            LexState::InString => {
                out.push(c);
                if c == '\\' {
                    st = LexState::Escaped;
                } else if c == '"' {
                    st = LexState::Code;
                }
                i = i + 1;
            },
            LexState::LineComment => {
                if c == '\n' {
                    out.push('\n');
                    st = LexState::Code;
                }
                i = i + 1;
            },
            LexState::BlockComment(star) => {
                if star && c == '/' {
                    st = LexState::Code;
                } else {
                    if c == '\n' {
                        out.push('\n');
                    }
                    st = LexState::BlockComment(c == '*');
                }
                i = i + 1;
            },
            LexState::Code => {
                if c == '"' {
                    out.push(c);
                    st = LexState::InString;
                    i = i + 1;
                } else if c == '/' && i + 1 < n && s[i + 1] == '/' {
                    st = LexState::LineComment;
                    i = i + 1;
                } else if c == '/' && i + 1 < n && s[i + 1] == '*' {
                    st = LexState::BlockComment(false);
                    i = i + 2;
                } else {
                    out.push(c);
                    i = i + 1;
                }
            },
        }
        assert(old_out + stripped_from(s@, old_i, old_st) == out@ + stripped_from(s@, i as int, st));
    }
    string_of(&out)
}

/// How many times `ch` occurs in `s[i..]`.
pub open spec fn count_from(s: Seq<char>, i: int, ch: char) -> nat
    decreases s.len() - i,
{
    if i < 0 || i >= s.len() {
        0
    } else {
        (if s[i] == ch { 1nat } else { 0nat }) + count_from(s, i + 1, ch)
    }
}

/// How many times `ch` occurs in `s`.
pub open spec fn count_char(s: Seq<char>, ch: char) -> nat {
    count_from(s, 0, ch)
}

proof fn lemma_count_concat(a: Seq<char>, b: Seq<char>, ch: char)
    ensures
        count_char(a + b, ch) == count_char(a, ch) + count_char(b, ch),
    decreases a.len(),
{
    if a.len() == 1 {
        assert(count_from(a, 1, ch) == 0);
    }
    if a.len() > 0 {
        lemma_count_shift(a + b, ch);
        lemma_count_shift(a, ch);
        assert((a + b).drop_first() == a.drop_first() + b);
        lemma_count_concat(a.drop_first(), b, ch);
    }
}

proof fn lemma_count_shift(s: Seq<char>, ch: char)
    requires
        s.len() > 0,
    ensures
        count_char(s, ch) == (if s[0] == ch { 1nat } else { 0nat }) + count_char(s.drop_first(), ch),
{
    lemma_count_from_suffix(s, 1, ch);
}

proof fn lemma_count_from_suffix(s: Seq<char>, i: int, ch: char)
    requires
        0 <= i <= s.len(),
    ensures
        count_from(s, i, ch) == count_char(s.subrange(i, s.len() as int), ch),
    decreases s.len() - i,
{
    let t = s.subrange(i, s.len() as int);
    if i < s.len() {
        lemma_count_from_suffix(s, i + 1, ch);
        lemma_count_from_offset(t, ch);
        assert(t.drop_first() == s.subrange(i + 1, s.len() as int));
    }
}

proof fn lemma_count_from_offset(t: Seq<char>, ch: char)
    requires
        t.len() > 0,
    ensures
        count_from(t, 1, ch) == count_char(t.drop_first(), ch),
{
    lemma_count_from_shifted(t, t.drop_first(), 1, ch);
}

proof fn lemma_count_from_shifted(t: Seq<char>, u: Seq<char>, k: int, ch: char)
    requires
        t.len() > 0,
        u == t.drop_first(),
        1 <= k <= t.len(),
    ensures
        count_from(t, k, ch) == count_from(u, k - 1, ch),
    decreases t.len() - k,
{
    if k < t.len() {
        lemma_count_from_shifted(t, u, k + 1, ch);
    }
}

proof fn lemma_count_single(c: char, ch: char)
    ensures
        count_char(seq![c], ch) == (if c == ch { 1nat } else { 0nat }),
{
    assert(count_from(seq![c], 1, ch) == 0);
}

/// Newlines the stripper writes for `s[i..]` equal the newlines of `s[i..]`.
proof fn lemma_stripped_newlines(s: Seq<char>, i: int, st: LexState)
    requires
        0 <= i <= s.len(),
    ensures
        count_char(stripped_from(s, i, st), '\n') == count_from(s, i, '\n'),
    decreases s.len() - i,
{
    if i < s.len() {
        let c = s[i];
        lemma_count_single(c, '\n');
        lemma_count_single('\n', '\n');
        match st {
            LexState::Code => {
                if c == '/' && i + 1 < s.len() && s[i + 1] == '*' {
                    lemma_stripped_newlines(s, i + 2, LexState::BlockComment(false));
                    assert(count_from(s, i + 1, '\n') == count_from(s, i + 2, '\n'));
                } else if c == '/' && i + 1 < s.len() && s[i + 1] == '/' {
                    lemma_stripped_newlines(s, i + 1, LexState::LineComment);
                } else if c == '"' {
                    lemma_stripped_newlines(s, i + 1, LexState::InString);
                    lemma_count_concat(seq![c], stripped_from(s, i + 1, LexState::InString), '\n');
                } else {
                    lemma_stripped_newlines(s, i + 1, LexState::Code);
                    lemma_count_concat(seq![c], stripped_from(s, i + 1, LexState::Code), '\n');
                }
            },
            LexState::Escaped => {
                lemma_stripped_newlines(s, i + 1, LexState::InString);
                lemma_count_concat(seq![c], stripped_from(s, i + 1, LexState::InString), '\n');
            },
            LexState::InString => {
                let next = if c == '\\' {
                    LexState::Escaped
                } else if c == '"' {
                    LexState::Code
                } else {
                    LexState::InString
                };
                lemma_stripped_newlines(s, i + 1, next);
                lemma_count_concat(seq![c], stripped_from(s, i + 1, next), '\n');
            },
            LexState::LineComment => {
                if c == '\n' {
                    lemma_stripped_newlines(s, i + 1, LexState::Code);
                    lemma_count_concat(seq!['\n'], stripped_from(s, i + 1, LexState::Code), '\n');
                } else {
                    lemma_stripped_newlines(s, i + 1, LexState::LineComment);
                }
            },
            LexState::BlockComment(star) => {
                if star && c == '/' {
                    lemma_stripped_newlines(s, i + 1, LexState::Code);
                } else if c == '\n' {
                    lemma_stripped_newlines(s, i + 1, LexState::BlockComment(false));
                    lemma_count_concat(
                        seq!['\n'],
                        stripped_from(s, i + 1, LexState::BlockComment(false)),
                        '\n',
                    );
                } else {
                    lemma_stripped_newlines(s, i + 1, LexState::BlockComment(c == '*'));
                }
            },
        }
    }
}

/// Stripping comments keeps every newline, so line numbers of the remaining JSON
/// are those of the input text.
pub proof fn strip_preserves_line_count(s: Seq<char>)
    ensures
        count_char(stripped(s), '\n') == count_char(s, '\n'),
{
    lemma_stripped_newlines(s, 0, LexState::Code);
}

/// Text in plain code with no `/` at all from `i` on is written out unchanged.
proof fn lemma_no_slash_unchanged(s: Seq<char>, i: int, st: LexState)
    requires
        0 <= i <= s.len(),
        forall|k: int| i <= k < s.len() ==> s[k] != '/',
        st is Code || st is InString || st is Escaped,
    ensures
        stripped_from(s, i, st) == s.subrange(i, s.len() as int),
    decreases s.len() - i,
{
    if i < s.len() {
        let c = s[i];
        let next = match st {
            LexState::Escaped => LexState::InString,
            LexState::InString => if c == '\\' {
                LexState::Escaped
            } else if c == '"' {
                LexState::Code
            } else {
                LexState::InString
            },
            _ => if c == '"' {
                LexState::InString
            } else {
                LexState::Code
            },
        };
        lemma_no_slash_unchanged(s, i + 1, next);
        assert(s.subrange(i, s.len() as int) == seq![c] + s.subrange(i + 1, s.len() as int));
    }
}

/// Text with no `/` cannot hold a comment, and stripping leaves it unchanged.
pub proof fn strip_without_slash_is_identity(s: Seq<char>)
    requires
        !s.contains('/'),
    ensures
        stripped(s) == s,
{
    assert forall|k: int| 0 <= k < s.len() implies s[k] != '/' by {
        if s[k] == '/' {
            assert(s.contains('/'));
        }
    }
    lemma_no_slash_unchanged(s, 0, LexState::Code);
    assert(s.subrange(0, s.len() as int) == s);
}

} // verus!
