//! Putting each model object under a `"models": {` key of pretty-printed JSON on one line.
use vstd::prelude::*;
use crate::text::{
    byte_prefix, byte_prefix_of, chars_of, is_ws, lemma_split_len, split_newlines, strip_cr, join_chars, join_with, lines_of, lines_of_chars,
    starts_with, starts_with_chars, string_of, trim, trim_chars, trim_end, trim_start, utf8_len,
    utf8_len_of, char_utf8_len, views,
};

verus! {

/// `s` with every run of spaces shortened to one space; `prev_space` tells whether
/// the character before `s` was a space.
pub open spec fn squeeze(s: Seq<char>, prev_space: bool) -> Seq<char>
    decreases s.len(),
{
    if s.len() == 0 {
        Seq::empty()
    } else if s[0] == ' ' {
        if prev_space {
            squeeze(s.drop_first(), true)
        } else {
            seq![' '] + squeeze(s.drop_first(), true)
        }
    } else {
        seq![s[0]] + squeeze(s.drop_first(), false)
    }
}

/// The text `"models": {` that opens a block of models.
pub open spec fn models_key() -> Seq<char> {
    seq!['"', 'm', 'o', 'd', 'e', 'l', 's', '"', ':', ' ', '{']
}

/// Whether a trimmed line closes an object.
pub open spec fn is_close(t: Seq<char>) -> bool {
    t == seq!['}'] || t == seq!['}', ',']
}

/// Bytes that a line's surrounding whitespace takes (its byte length minus that of its trim).
pub open spec fn indent(l: Seq<char>) -> int {
    utf8_len(l) - utf8_len(trim(l))
}

/// Where the lines of one model object opened at indent `ind` end, scanning from `j`:
/// just after the first line at that indent that closes an object, or at the end.
pub open spec fn model_end(ls: Seq<Seq<char>>, j: int, ind: int) -> int
    decreases ls.len() - j,
{
    if j < 0 || j >= ls.len() {
        j
    } else if indent(ls[j]) == ind && is_close(trim(ls[j])) {
        j + 1
    } else {
        model_end(ls, j + 1, ind)
    }
}

pub proof fn lemma_model_end_bounds(ls: Seq<Seq<char>>, j: int, ind: int)
    requires
        0 <= j <= ls.len(),
    ensures
        j <= model_end(ls, j, ind) <= ls.len(),
    decreases ls.len() - j,
{
    if j < ls.len() && !(indent(ls[j]) == ind && is_close(trim(ls[j]))) {
        lemma_model_end_bounds(ls, j + 1, ind);
    }
}

/// One model object opened by line `i` and ending before `e`, as a single line:
/// the opener's leading bytes, then the trimmed lines joined with spaces and squeezed.
pub open spec fn collapsed_model(ls: Seq<Seq<char>>, i: int, e: int) -> Option<Seq<char>> {
    let parts = ls.subrange(i, e).map_values(|l: Seq<char>| trim(l));
    match byte_prefix(ls[i], indent(ls[i])) {
        Some(p) => Some(p + squeeze(join_with(parts, seq![' ']), false)),
        None => None,
    }
}

/// `a` in front of the lines in `o`, if there are any.
pub open spec fn prepend(a: Seq<Seq<char>>, o: Option<Seq<Seq<char>>>) -> Option<Seq<Seq<char>>> {
    match o {
        Some(r) => Some(a + r),
        None => None,
    }
}

/// The output lines for `ls[i..]` inside a models block whose key line has indent `mi`.
pub open spec fn collapse_in_models(ls: Seq<Seq<char>>, i: int, mi: int) -> Option<Seq<Seq<char>>>
    decreases ls.len() - i,
{
    if i < 0 || i >= ls.len() {
        Some(Seq::empty())
    } else {
        let line = ls[i];
        let t = trim(line);
        let ind = indent(line);
        if ind == mi && is_close(t) {
            prepend(seq![line], collapse_outside(ls, i + 1))
        } else if ind > mi && t.len() > 0 && t.last() == '{' {
            let e = model_end(ls, i + 1, ind);
            proof {
                lemma_model_end_bounds(ls, i + 1, ind);
            }
            match collapsed_model(ls, i, e) {
                Some(m) => prepend(seq![m], collapse_in_models(ls, e, mi)),
                None => None,
            }
        } else {
            prepend(seq![line], collapse_in_models(ls, i + 1, mi))
        }
    }
}

/// The output lines for `ls[i..]` outside any models block.
pub open spec fn collapse_outside(ls: Seq<Seq<char>>, i: int) -> Option<Seq<Seq<char>>>
    decreases ls.len() - i,
{
    if i < 0 || i >= ls.len() {
        Some(Seq::empty())
    } else if starts_with(trim(ls[i]), models_key()) {
        prepend(seq![ls[i]], collapse_in_models(ls, i + 1, indent(ls[i])))
    } else {
        prepend(seq![ls[i]], collapse_outside(ls, i + 1))
    }
}

/// The collapsed text of `s`; `None` when a model's leading bytes would end inside a character.
pub open spec fn collapsed(s: Seq<char>) -> Option<Seq<char>> {
    match collapse_outside(lines_of(s), 0) {
        Some(out) => Some(join_with(out, seq!['\n'])),
        None => None,
    }
}

/// The characters of `s` with runs of spaces shortened to one space.
fn squeeze_spaces(s: &Vec<char>) -> (r: Vec<char>)
    ensures
        r@ == squeeze(s@, false),
{
    let mut r: Vec<char> = Vec::new();
    let mut prev = false;
    let mut i: usize = 0;
    assert(s@.subrange(0, s@.len() as int) == s@);
    assert(r@ + squeeze(s@, false) == squeeze(s@, false));
    while i < s.len()
        invariant
            i <= s.len(),
            r@ + squeeze(s@.subrange(i as int, s@.len() as int), prev) == squeeze(s@, false),
        decreases s.len() - i,
    {
        let ghost rest = s@.subrange(i as int, s@.len() as int);
        assert(rest.drop_first() == s@.subrange(i + 1, s@.len() as int));
        assert(rest[0] == s@[i as int]);
        let c = s[i];
        if c == ' ' {
            if !prev {
                r.push(c);
                assert(r@ + squeeze(rest.drop_first(), true) == r@.drop_last() + (seq![' ']
                    + squeeze(rest.drop_first(), true)));
            }
            prev = true;
        } else {
            r.push(c);
            assert(r@ + squeeze(rest.drop_first(), false) == r@.drop_last() + (seq![c] + squeeze(
                rest.drop_first(),
                false,
            )));
            prev = false;
        }
        i = i + 1;
    }
    assert(s@.subrange(s@.len() as int, s@.len() as int) == Seq::<char>::empty());
    assert(r@ + Seq::<char>::empty() == r@);
    r
}

/// The bytes of a line's surrounding whitespace, and the trimmed line.
fn indent_of(l: &Vec<char>) -> (r: (u128, Vec<char>))
    ensures
        r.0 == indent(l@),
        r.1@ == trim(l@),
{
    let t = trim_chars(l);
    let a = utf8_len_of(l);
    let b = utf8_len_of(&t);
    proof {
        lemma_trim_len(l@);
    }
    (a - b, t)
}

proof fn lemma_trim_start_len(s: Seq<char>)
    ensures
        utf8_len(trim_start(s)) <= utf8_len(s),
    decreases s.len(),
{
    if s.len() > 0 && is_ws(s[0]) {
        lemma_trim_start_len(s.drop_first());
        lemma_utf8_len_first(s);
    }
}

proof fn lemma_trim_end_len(s: Seq<char>)
    ensures
        utf8_len(trim_end(s)) <= utf8_len(s),
    decreases s.len(),
{
    if s.len() > 0 && is_ws(s.last()) {
        lemma_trim_end_len(s.drop_last());
    }
}

proof fn lemma_trim_len(s: Seq<char>)
    ensures
        utf8_len(trim(s)) <= utf8_len(s),
{
    lemma_trim_start_len(s);
    lemma_trim_end_len(trim_start(s));
}

proof fn lemma_utf8_len_first(s: Seq<char>)
    requires
        s.len() > 0,
    ensures
        utf8_len(s) == char_utf8_len(s[0]) + utf8_len(s.drop_first()),
    decreases s.len(),
{
    if s.len() > 1 {
        lemma_utf8_len_first(s.drop_last());
        assert(s.drop_last().drop_first() == s.drop_first().drop_last());
        assert(s.drop_first().last() == s.last());
        assert(s.drop_last()[0] == s[0]);
        let a = s.drop_first();
        assert(utf8_len(a) == utf8_len(a.drop_last()) + char_utf8_len(a.last()));
        assert(utf8_len(s) == utf8_len(s.drop_last()) + char_utf8_len(s.last()));
    } else {
        assert(s.last() == s[0]);
        assert(utf8_len(s) == utf8_len(s.drop_last()) + char_utf8_len(s.last()));
        assert(utf8_len(s.drop_last()) == 0);
        assert(utf8_len(s.drop_first()) == 0);
        assert(s.drop_first().len() == 0);
        assert(s.drop_last().len() == 0);
    }
}

/// The `"models": {` key as characters.
fn models_key_chars() -> (v: Vec<char>)
    ensures
        v@ == models_key(),
{
    let v = vec!['"', 'm', 'o', 'd', 'e', 'l', 's', '"', ':', ' ', '{'];
    assert(v@ == models_key());
    v
}

fn is_close_chars(t: &Vec<char>) -> (b: bool)
    ensures
        b == is_close(t@),
{
    let r = (t.len() == 1 && t[0] == '}') || (t.len() == 2 && t[0] == '}' && t[1] == ',');
    assert(t.len() == 1 && t[0] == '}' ==> t@ == seq!['}']);
    assert(t.len() == 2 && t[0] == '}' && t[1] == ',' ==> t@ == seq!['}', ',']);
    r
}

/// Collapses each model object inside a `"models": {` block of pretty-printed JSON
/// onto one line (see `collapsed`); `None` when a model's indentation would end
/// inside a character.
pub fn try_collapse_json_models(pretty: &str) -> (r: Option<String>)
    ensures
        match r {
            Some(out) => collapsed(pretty@) == Some(out@),
            None => collapsed(pretty@) is None,
        },
{
    let chars = chars_of(pretty);
    let lines = lines_of_chars(&chars);
    let ghost ls = views(lines@);
    assert(ls == lines_of(pretty@));
    let key = models_key_chars();
    let n = lines.len();
    let mut out: Vec<Vec<char>> = Vec::new();
    let mut i: usize = 0;
    assert(prepend(Seq::empty(), collapse_outside(ls, 0)) == collapse_outside(ls, 0)) by {
        match collapse_outside(ls, 0) {
            Some(r) => assert(Seq::<Seq<char>>::empty() + r == r),
            None => {},
        }
    }
    while i < n
        invariant
            n == lines.len(),
            ls == views(lines@),
            ls == lines_of(pretty@),
            i <= n,
            key@ == models_key(),
            collapse_outside(ls, 0) == prepend(views(out@), collapse_outside(ls, i as int)),
        decreases n - i,
    {
        let (mi, t0) = indent_of(&lines[i]);
        if starts_with_chars(&t0, &key) {
            let ghost before = views(out@);
            out.push(lines[i].clone());
            proof {
                assert(views(out@) == before + seq![ls[i as int]]);
                assert(prepend(before, prepend(seq![ls[i as int]], collapse_in_models(ls, i + 1, mi as int)))
                    == prepend(views(out@), collapse_in_models(ls, i + 1, mi as int))) by {
                    match collapse_in_models(ls, i + 1, mi as int) {
                        Some(r) => assert(before + (seq![ls[i as int]] + r) == (before + seq![ls[i as int]]) + r),
                        None => {},
                    }
                }
            }
            i = i + 1;
            let ghost i_start = i;
            // Inside the models block.
            loop
                invariant_except_break
                    i >= i_start,
                    n == lines.len(),
                    ls == views(lines@),
            ls == lines_of(pretty@),
                    i <= n,
                    key@ == models_key(),
                    collapse_outside(ls, 0) == prepend(views(out@), collapse_in_models(ls, i as int, mi as int)),
                ensures
                    i >= i_start,
                    n == lines.len(),
                    ls == views(lines@),
            ls == lines_of(pretty@),
                    i <= n,
                    key@ == models_key(),
                    collapse_outside(ls, 0) == prepend(views(out@), collapse_outside(ls, i as int)),
                decreases n - i,
            {
                if i >= n {
                    assert(collapse_outside(ls, i as int) == Some(Seq::<Seq<char>>::empty()));
                    break;
                }
                let (ind, t) = indent_of(&lines[i]);
                if ind == mi && is_close_chars(&t) {
                    let ghost before = views(out@);
                    out.push(lines[i].clone());
                    proof {
                        assert(views(out@) == before + seq![ls[i as int]]);
                        match collapse_outside(ls, i + 1) {
                            Some(r) => assert(before + (seq![ls[i as int]] + r) == (before + seq![ls[i as int]]) + r),
                            None => {},
                        }
                    }
                    i = i + 1;
                    break;
                }
                if ind > mi && t.len() > 0 && t[t.len() - 1] == '{' {
                    // Gather the model's trimmed lines.
                    let mut parts: Vec<Vec<char>> = Vec::new();
                    parts.push(t);
                    let mut j: usize = i + 1;
                    proof {
                        assert(views(parts@) == ls.subrange(i as int, j as int).map_values(|l: Seq<char>| trim(l)));
                    }
                    loop
                        invariant_except_break
                            n == lines.len(),
                            ls == views(lines@),
            ls == lines_of(pretty@),
                            i < j <= n,
                            model_end(ls, i + 1, ind as int) == model_end(ls, j as int, ind as int),
                            views(parts@) == ls.subrange(i as int, j as int).map_values(|l: Seq<char>| trim(l)),
                        ensures
                            n == lines.len(),
                            ls == views(lines@),
            ls == lines_of(pretty@),
                            i < j <= n,
                            model_end(ls, i + 1, ind as int) == j,
                            views(parts@) == ls.subrange(i as int, j as int).map_values(|l: Seq<char>| trim(l)),
                        decreases n - j,
                    {
                        if j >= n {
                            break;
                        }
                        let (ind2, t2) = indent_of(&lines[j]);
                        let close = ind2 == ind && is_close_chars(&t2);
                        let ghost before = views(parts@);
                        parts.push(t2);
                        proof {
                            assert(views(parts@) == before.push(trim(ls[j as int])));
                            assert(ls.subrange(i as int, j + 1) == ls.subrange(i as int, j as int).push(ls[j as int]));
                        }
                        j = j + 1;
                        if close {
                            break;
                        }
                    }
                    let joined = join_chars(&parts, ' ');
                    let squeezed = squeeze_spaces(&joined);
                    match byte_prefix_of(&lines[i], ind) {
                        Some(p) => {
                            let mut m = p;
                            let mut k: usize = 0;
                            let ghost pv = m@;
                            while k < squeezed.len()
                                invariant
                                    k <= squeezed.len(),
                                    m@ == pv + squeezed@.take(k as int),
                                decreases squeezed.len() - k,
                            {
                                m.push(squeezed[k]);
                                k = k + 1;
                                assert(squeezed@.take(k as int) == squeezed@.take(k - 1).push(squeezed@[k - 1]));
                            }
                            assert(squeezed@.take(squeezed.len() as int) == squeezed@);
                            let ghost before = views(out@);
                            out.push(m);
                            proof {
                                assert(collapsed_model(ls, i as int, j as int) == Some(m@));
                                assert(views(out@) == before + seq![m@]);
                                match collapse_in_models(ls, j as int, mi as int) {
                                    Some(r) => assert(before + (seq![m@] + r) == (before + seq![m@]) + r),
                                    None => {},
                                }
                            }
                            i = j;
                        },
                        None => {
                            proof {
                                assert(collapsed_model(ls, i as int, j as int) is None);
                                assert(collapse_in_models(ls, i as int, mi as int) is None);
                            }
                            return None;
                        },
                    }
                } else {
                    let ghost before = views(out@);
                    out.push(lines[i].clone());
                    proof {
                        assert(views(out@) == before + seq![ls[i as int]]);
                        match collapse_in_models(ls, i + 1, mi as int) {
                            Some(r) => assert(before + (seq![ls[i as int]] + r) == (before + seq![ls[i as int]]) + r),
                            None => {},
                        }
                    }
                    i = i + 1;
                }
            }
        } else {
            let ghost before = views(out@);
            out.push(lines[i].clone());
            proof {
                assert(views(out@) == before + seq![ls[i as int]]);
                match collapse_outside(ls, i + 1) {
                    Some(r) => assert(before + (seq![ls[i as int]] + r) == (before + seq![ls[i as int]]) + r),
                    None => {},
                }
            }
            i = i + 1;
        }
    }
    assert(collapse_outside(ls, n as int) == Some(Seq::<Seq<char>>::empty()));
    assert(views(out@) + Seq::<Seq<char>>::empty() == views(out@));
    let joined = join_chars(&out, '\n');
    Some(string_of(&joined))
}

/// Collapses each model object inside a `"models": {` block of pretty-printed JSON
/// onto one line: `"id": { "name": "x", "family": "y" }`. Other lines are kept,
/// and the lines are joined with `\n`.
pub fn collapse_json_models(pretty: &str) -> (out: String)
    requires
        collapsed(pretty@) is Some,
    ensures
        out@ == collapsed(pretty@)->0,
{
    match try_collapse_json_models(pretty) {
        Some(out) => out,
        None => {
            assert(false);
            String::new()
        },
    }
}

/// Lines outside any models block are kept as they are.
proof fn lemma_collapse_outside_keeps(ls: Seq<Seq<char>>, i: int)
    requires
        0 <= i <= ls.len(),
        forall|j: int| i <= j < ls.len() ==> !starts_with(trim(#[trigger] ls[j]), models_key()),
    ensures
        collapse_outside(ls, i) == Some(ls.subrange(i, ls.len() as int)),
    decreases ls.len() - i,
{
    if i < ls.len() {
        lemma_collapse_outside_keeps(ls, i + 1);
        assert(seq![ls[i]] + ls.subrange(i + 1, ls.len() as int) == ls.subrange(i, ls.len() as int));
    } else {
        assert(ls.subrange(i, ls.len() as int) == Seq::<Seq<char>>::empty());
    }
}

/// Text with no line that opens a models block comes back as its lines joined by
/// newlines: collapsing changes nothing else.
pub proof fn collapse_keeps_text_without_models(s: Seq<char>)
    requires
        forall|j: int| 0 <= j < lines_of(s).len() ==> !starts_with(trim(#[trigger] lines_of(s)[j]), models_key()),
    ensures
        collapsed(s) == Some(join_with(lines_of(s), seq!['\n'])),
{
    lemma_collapse_outside_keeps(lines_of(s), 0);
    assert(lines_of(s).subrange(0, lines_of(s).len() as int) == lines_of(s));
}


/// The characters of `s` that are not whitespace, in order.
pub open spec fn visible(s: Seq<char>) -> Seq<char>
    decreases s.len(),
{
    if s.len() == 0 {
        Seq::empty()
    } else if is_ws(s.last()) {
        visible(s.drop_last())
    } else {
        visible(s.drop_last()).push(s.last())
    }
}

/// The characters of the lines `ls` that are not whitespace, in order.
pub open spec fn visible_lines(ls: Seq<Seq<char>>) -> Seq<char>
    decreases ls.len(),
{
    if ls.len() == 0 {
        Seq::empty()
    } else {
        visible_lines(ls.drop_last()) + visible(ls.last())
    }
}

proof fn lemma_visible_add(a: Seq<char>, b: Seq<char>)
    ensures
        visible(a + b) == visible(a) + visible(b),
    decreases b.len(),
{
    if b.len() == 0 {
        assert(a + b == a);
    } else {
        lemma_visible_add(a, b.drop_last());
        assert((a + b).drop_last() == a + b.drop_last());
        assert((a + b).last() == b.last());
    }
}

proof fn lemma_visible_one(c: char)
    ensures
        visible(seq![c]) == (if is_ws(c) {
            Seq::<char>::empty()
        } else {
            seq![c]
        }),
{
    assert(seq![c].drop_last() == Seq::<char>::empty());
    assert(seq![c].last() == c);
    assert(visible(Seq::<char>::empty()) == Seq::<char>::empty());
    assert(Seq::<char>::empty().push(c) == seq![c]);
}

proof fn lemma_visible_all_ws(s: Seq<char>)
    requires
        forall|j: int| 0 <= j < s.len() ==> is_ws(#[trigger] s[j]),
    ensures
        visible(s) == Seq::<char>::empty(),
    decreases s.len(),
{
    if s.len() > 0 {
        lemma_visible_all_ws(s.drop_last());
    }
}

proof fn lemma_visible_lines_add(a: Seq<Seq<char>>, b: Seq<Seq<char>>)
    ensures
        visible_lines(a + b) == visible_lines(a) + visible_lines(b),
    decreases b.len(),
{
    if b.len() == 0 {
        assert(a + b == a);
    } else {
        lemma_visible_lines_add(a, b.drop_last());
        assert((a + b).drop_last() == a + b.drop_last());
        assert((a + b).last() == b.last());
    }
}

proof fn lemma_visible_lines_one(l: Seq<char>)
    ensures
        visible_lines(seq![l]) == visible(l),
{
    assert(seq![l].drop_last() == Seq::<Seq<char>>::empty());
    assert(seq![l].last() == l);
    assert(visible_lines(Seq::<Seq<char>>::empty()) == Seq::<char>::empty());
    assert(Seq::<char>::empty() + visible(l) == visible(l));
}

/// Joining lines with a separator that is all whitespace keeps what is visible.
proof fn lemma_visible_join(ls: Seq<Seq<char>>, sep: Seq<char>)
    requires
        visible(sep) == Seq::<char>::empty(),
    ensures
        visible(join_with(ls, sep)) == visible_lines(ls),
    decreases ls.len(),
{
    if ls.len() == 1 {
        assert(ls.drop_last() == Seq::<Seq<char>>::empty());
        assert(ls.last() == ls[0]);
        assert(visible_lines(Seq::<Seq<char>>::empty()) == Seq::<char>::empty());
        assert(Seq::<char>::empty() + visible(ls[0]) == visible(ls[0]));
    } else if ls.len() > 1 {
        lemma_visible_join(ls.drop_last(), sep);
        lemma_visible_add(join_with(ls.drop_last(), sep), sep);
        lemma_visible_add(join_with(ls.drop_last(), sep) + sep, ls.last());
        assert(visible_lines(ls.drop_last()) + Seq::<char>::empty() == visible_lines(ls.drop_last()));
    } else {
        assert(visible(Seq::<char>::empty()) == Seq::<char>::empty());
    }
}

proof fn lemma_visible_trim(s: Seq<char>)
    ensures
        visible(trim_start(s)) == visible(s),
        visible(trim_end(s)) == visible(s),
        visible(trim(s)) == visible(s),
    decreases s.len(),
{
    if s.len() > 0 {
        lemma_visible_trim(s.drop_first());
        lemma_visible_trim(s.drop_last());
        assert(s == seq![s[0]] + s.drop_first());
        lemma_visible_add(seq![s[0]], s.drop_first());
        lemma_visible_one(s[0]);
    }
    lemma_visible_trim_start_end(s);
}

proof fn lemma_visible_trim_start_end(s: Seq<char>)
    ensures
        visible(trim_start(s)) == visible(s),
        visible(trim_end(s)) == visible(s),
    decreases s.len(),
{
    if s.len() > 0 {
        lemma_visible_trim_start_end(s.drop_first());
        lemma_visible_trim_start_end(s.drop_last());
        assert(s == seq![s[0]] + s.drop_first());
        lemma_visible_add(seq![s[0]], s.drop_first());
        lemma_visible_one(s[0]);
    }
}

proof fn lemma_visible_squeeze(s: Seq<char>, prev: bool)
    ensures
        visible(squeeze(s, prev)) == visible(s),
    decreases s.len(),
{
    if s.len() > 0 {
        lemma_visible_squeeze(s.drop_first(), true);
        lemma_visible_squeeze(s.drop_first(), false);
        assert(s == seq![s[0]] + s.drop_first());
        lemma_visible_add(seq![s[0]], s.drop_first());
        lemma_visible_one(s[0]);
        lemma_visible_add(seq![s[0]], squeeze(s.drop_first(), s[0] == ' '));
        assert(is_ws(' '));
        lemma_visible_one(' ');
        lemma_visible_add(seq![' '], squeeze(s.drop_first(), true));
    }
}

proof fn lemma_visible_lines_trimmed(ls: Seq<Seq<char>>)
    ensures
        visible_lines(ls.map_values(|l: Seq<char>| trim(l))) == visible_lines(ls),
    decreases ls.len(),
{
    if ls.len() > 0 {
        lemma_visible_lines_trimmed(ls.drop_last());
        assert(ls.map_values(|l: Seq<char>| trim(l)).drop_last() == ls.drop_last().map_values(
            |l: Seq<char>| trim(l),
        ));
        lemma_visible_trim(ls.last());
    }
}

proof fn lemma_utf8_len_add(a: Seq<char>, b: Seq<char>)
    ensures
        utf8_len(a + b) == utf8_len(a) + utf8_len(b),
    decreases b.len(),
{
    if b.len() == 0 {
        assert(a + b == a);
    } else {
        lemma_utf8_len_add(a, b.drop_last());
        assert((a + b).drop_last() == a + b.drop_last());
        assert((a + b).last() == b.last());
    }
}

/// The leading whitespace of `l` is its first `k` characters.
proof fn lemma_trim_start_split(l: Seq<char>) -> (k: int)
    ensures
        0 <= k <= l.len(),
        trim_start(l) == l.subrange(k, l.len() as int),
        forall|j: int| 0 <= j < k ==> is_ws(#[trigger] l[j]),
    decreases l.len(),
{
    if l.len() > 0 && is_ws(l[0]) {
        let k1 = lemma_trim_start_split(l.drop_first());
        assert(l.drop_first().subrange(k1, l.drop_first().len() as int) == l.subrange(k1 + 1, l.len() as int));
        assert forall|j: int| 0 <= j < k1 + 1 implies is_ws(#[trigger] l[j]) by {
            if j > 0 {
                assert(l[j] == l.drop_first()[j - 1]);
            }
        }
        k1 + 1
    } else {
        assert(l.subrange(0, l.len() as int) == l);
        0
    }
}

/// The first `k` characters of `l` take as many bytes as they do.
proof fn lemma_byte_prefix_take(l: Seq<char>, k: int)
    requires
        0 <= k <= l.len(),
    ensures
        byte_prefix(l, utf8_len(l.subrange(0, k)) as int) == Some(l.subrange(0, k)),
    decreases k,
{
    if k == 0 {
        assert(l.subrange(0, 0) == Seq::<char>::empty());
    } else {
        let t = l.subrange(0, k);
        lemma_utf8_len_first(t);
        assert(t.drop_first() == l.drop_first().subrange(0, k - 1));
        assert(t[0] == l[0]);
        lemma_byte_prefix_take(l.drop_first(), k - 1);
        assert(seq![l[0]] + l.drop_first().subrange(0, k - 1) == t);
    }
}

/// The leading bytes that collapsing keeps of a line that ends in `{` are its leading
/// whitespace.
proof fn lemma_opener_prefix(l: Seq<char>)
    requires
        l.len() > 0,
        l.last() == '{',
    ensures
        byte_prefix(l, indent(l)) matches Some(p) && visible(p) == Seq::<char>::empty(),
{
    let k = lemma_trim_start_split(l);
    let rest = l.subrange(k, l.len() as int);
    assert(!is_ws('{'));
    if k == l.len() {
        assert(is_ws(l[l.len() - 1]));
    }
    assert(rest.last() == l.last());
    assert(trim_end(rest) == rest);
    assert(trim(l) == rest);
    assert(l == l.subrange(0, k) + rest);
    lemma_utf8_len_add(l.subrange(0, k), rest);
    lemma_byte_prefix_take(l, k);
    lemma_visible_all_ws(l.subrange(0, k));
}

/// Whether every line of `ls` that ends, once trimmed, in `{` ends in `{` itself.
pub open spec fn openers_end_in_brace(ls: Seq<Seq<char>>) -> bool {
    forall|j: int|
        0 <= j < ls.len() && trim(#[trigger] ls[j]).len() > 0 && trim(ls[j]).last() == '{' ==> ls[j].len()
            > 0 && ls[j].last() == '{'
}

proof fn lemma_visible_tail(ls: Seq<Seq<char>>, i: int)
    requires
        0 <= i < ls.len(),
    ensures
        visible_lines(ls.subrange(i, ls.len() as int)) == visible(ls[i]) + visible_lines(
            ls.subrange(i + 1, ls.len() as int),
        ),
{
    assert(ls.subrange(i, ls.len() as int) == seq![ls[i]] + ls.subrange(i + 1, ls.len() as int));
    lemma_visible_lines_add(seq![ls[i]], ls.subrange(i + 1, ls.len() as int));
    lemma_visible_lines_one(ls[i]);
}

proof fn lemma_collapse_outside_visible(ls: Seq<Seq<char>>, i: int)
    requires
        0 <= i <= ls.len(),
        openers_end_in_brace(ls),
    ensures
        collapse_outside(ls, i) matches Some(out) ==> visible_lines(out) == visible_lines(
            ls.subrange(i, ls.len() as int),
        ),
    decreases ls.len() - i, 1int,
{
    if i < ls.len() {
        lemma_visible_tail(ls, i);
        if starts_with(trim(ls[i]), models_key()) {
            lemma_collapse_in_models_visible(ls, i + 1, indent(ls[i]));
            if let Some(r) = collapse_in_models(ls, i + 1, indent(ls[i])) {
                lemma_visible_lines_add(seq![ls[i]], r);
                lemma_visible_lines_one(ls[i]);
            }
        } else {
            lemma_collapse_outside_visible(ls, i + 1);
            if let Some(r) = collapse_outside(ls, i + 1) {
                lemma_visible_lines_add(seq![ls[i]], r);
                lemma_visible_lines_one(ls[i]);
            }
        }
    } else {
        assert(ls.subrange(i, ls.len() as int) == Seq::<Seq<char>>::empty());
    }
}

proof fn lemma_collapse_in_models_visible(ls: Seq<Seq<char>>, i: int, mi: int)
    requires
        0 <= i <= ls.len(),
        openers_end_in_brace(ls),
    ensures
        collapse_in_models(ls, i, mi) matches Some(out) ==> visible_lines(out) == visible_lines(
            ls.subrange(i, ls.len() as int),
        ),
    decreases ls.len() - i, 0int,
{
    if i < ls.len() {
        let line = ls[i];
        let t = trim(line);
        let ind = indent(line);
        lemma_visible_tail(ls, i);
        if ind == mi && is_close(t) {
            lemma_collapse_outside_visible(ls, i + 1);
            if let Some(r) = collapse_outside(ls, i + 1) {
                lemma_visible_lines_add(seq![line], r);
                lemma_visible_lines_one(line);
            }
        } else if ind > mi && t.len() > 0 && t.last() == '{' {
            let e = model_end(ls, i + 1, ind);
            lemma_model_end_bounds(ls, i + 1, ind);
            lemma_collapse_in_models_visible(ls, e, mi);
            if let Some(m) = collapsed_model(ls, i, e) {
                if let Some(r) = collapse_in_models(ls, e, mi) {
                    let sub = ls.subrange(i, e);
                    let parts = sub.map_values(|l: Seq<char>| trim(l));
                    lemma_opener_prefix(line);
                    let p = byte_prefix(line, indent(line))->0;
                    let j = join_with(parts, seq![' ']);
                    assert(is_ws(' '));
                    lemma_visible_one(' ');
                    lemma_visible_join(parts, seq![' ']);
                    lemma_visible_squeeze(j, false);
                    lemma_visible_add(p, squeeze(j, false));
                    lemma_visible_lines_trimmed(sub);
                    assert(visible(m) == visible_lines(sub));
                    lemma_visible_lines_add(seq![m], r);
                    lemma_visible_lines_one(m);
                    assert(ls.subrange(i, ls.len() as int) == sub + ls.subrange(e, ls.len() as int));
                    lemma_visible_lines_add(sub, ls.subrange(e, ls.len() as int));
                }
            }
        } else {
            lemma_collapse_in_models_visible(ls, i + 1, mi);
            if let Some(r) = collapse_in_models(ls, i + 1, mi) {
                lemma_visible_lines_add(seq![line], r);
                lemma_visible_lines_one(line);
            }
        }
    } else {
        assert(ls.subrange(i, ls.len() as int) == Seq::<Seq<char>>::empty());
    }
}

proof fn lemma_visible_push(x: Seq<char>, c: char)
    ensures
        visible(x.push(c)) == (if is_ws(c) {
            visible(x)
        } else {
            visible(x).push(c)
        }),
{
    assert(x.push(c).drop_last() == x);
    assert(x.push(c).last() == c);
}

proof fn lemma_visible_lines_push(ls: Seq<Seq<char>>, l: Seq<char>)
    ensures
        visible_lines(ls.push(l)) == visible_lines(ls) + visible(l),
{
    assert(ls.push(l).drop_last() == ls);
    assert(ls.push(l).last() == l);
}

/// The pieces of a text between its newlines hold what is visible in it.
proof fn lemma_visible_split(s: Seq<char>)
    ensures
        visible_lines(split_newlines(s)) == visible(s),
    decreases s.len(),
{
    if s.len() == 0 {
        lemma_visible_lines_one(Seq::<char>::empty());
        assert(visible(Seq::<char>::empty()) == Seq::<char>::empty());
    } else {
        let p = split_newlines(s.drop_last());
        let c = s.last();
        lemma_visible_split(s.drop_last());
        lemma_split_len(s.drop_last());
        assert(s.drop_last().push(c) == s);
        lemma_visible_push(s.drop_last(), c);
        if c == '\n' {
            assert(is_ws('\n'));
            lemma_visible_lines_push(p, Seq::<char>::empty());
            assert(visible(Seq::<char>::empty()) == Seq::<char>::empty());
            assert(visible_lines(p) + Seq::<char>::empty() == visible_lines(p));
        } else {
            let q = p.update(p.len() - 1, p.last().push(c));
            assert(q.drop_last() == p.drop_last());
            assert(q.last() == p.last().push(c));
            lemma_visible_push(p.last(), c);
            assert(visible_lines(q) == visible_lines(p.drop_last()) + visible(p.last().push(c)));
            assert(visible_lines(p) == visible_lines(p.drop_last()) + visible(p.last()));
            if !is_ws(c) {
                assert(visible_lines(p.drop_last()) + visible(p.last()).push(c) == (visible_lines(p.drop_last())
                    + visible(p.last())).push(c));
            }
        }
    }
}

proof fn lemma_visible_lines_strip_cr(ls: Seq<Seq<char>>)
    ensures
        visible_lines(ls.map_values(|l: Seq<char>| strip_cr(l))) == visible_lines(ls),
    decreases ls.len(),
{
    if ls.len() > 0 {
        lemma_visible_lines_strip_cr(ls.drop_last());
        assert(ls.map_values(|l: Seq<char>| strip_cr(l)).drop_last() == ls.drop_last().map_values(
            |l: Seq<char>| strip_cr(l),
        ));
        let l = ls.last();
        if l.len() > 0 && l.last() == '\r' {
            assert(is_ws('\r'));
            lemma_visible_push(l.drop_last(), '\r');
            assert(l.drop_last().push('\r') == l);
        }
    }
}

/// The lines of a text hold what is visible in it.
proof fn lemma_visible_lines_of(s: Seq<char>)
    ensures
        visible_lines(lines_of(s)) == visible(s),
{
    let pieces = split_newlines(s);
    lemma_split_len(s);
    lemma_visible_split(s);
    let ended = pieces.drop_last().map_values(|l: Seq<char>| strip_cr(l));
    lemma_visible_lines_strip_cr(pieces.drop_last());
    assert(visible_lines(pieces) == visible_lines(pieces.drop_last()) + visible(pieces.last()));
    if pieces.last().len() == 0 {
        assert(visible(pieces.last()) == Seq::<char>::empty());
        assert(visible_lines(ended) + Seq::<char>::empty() == visible_lines(ended));
    } else {
        lemma_visible_lines_push(ended, pieces.last());
    }
}

/// Collapsing changes only whitespace: the characters that are not whitespace come out
/// as they went in, in order, provided that no line ending in `{` has whitespace
/// after the brace (pretty-printed JSON never does).
pub proof fn collapse_changes_only_whitespace(s: Seq<char>)
    requires
        openers_end_in_brace(lines_of(s)),
    ensures
        collapsed(s) matches Some(out) ==> visible(out) == visible(s),
{
    let ls = lines_of(s);
    lemma_visible_lines_of(s);
    lemma_collapse_outside_visible(ls, 0);
    assert(ls.subrange(0, ls.len() as int) == ls);
    if let Some(out) = collapse_outside(ls, 0) {
        assert(is_ws('\n'));
        lemma_visible_one('\n');
        lemma_visible_join(out, seq!['\n']);
    }
}

} // verus!
