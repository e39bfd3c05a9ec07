//! Character-level string toolkit with exact specifications.
//!
//! Strings are specified through their character sequences (`s@`).  Every
//! operation here is stated as a spec function over `Seq<char>` and the
//! executable version is proved to compute it.

use vstd::prelude::*;

verus! {

// ---------------------------------------------------------------------------
// White space, and the std functions whose behaviour vstd does not specify
// (trusted wrappers, with names for their results).
// ---------------------------------------------------------------------------

/// Whether `c` has the Unicode `White_Space` property, which is what
/// `char::is_whitespace` reports: U+0009 to U+000D, U+0020, U+0085, U+00A0,
/// U+1680, U+2000 to U+200A, U+2028, U+2029, U+202F, U+205F and U+3000.
pub open spec fn unicode_white_space(c: char) -> bool {
    let n = c as u32;
    ||| 0x9 <= n <= 0xd
    ||| n == 0x20
    ||| n == 0x85
    ||| n == 0xa0
    ||| n == 0x1680
    ||| 0x2000 <= n <= 0x200a
    ||| n == 0x2028
    ||| n == 0x2029
    ||| n == 0x202f
    ||| n == 0x205f
    ||| n == 0x3000
}

/// The Unicode lowercase mapping of a whole string (what `str::to_lowercase` returns).
pub uninterp spec fn unicode_lowercase(s: Seq<char>) -> Seq<char>;

/// The Unicode uppercase mapping of a whole string (what `str::to_uppercase` returns).
pub uninterp spec fn unicode_uppercase(s: Seq<char>) -> Seq<char>;

/// The quoted, escaped text that `{:?}` prints for a string.
pub uninterp spec fn debug_quoted(s: Seq<char>) -> Seq<char>;

/// Whether `c` is white space (see `unicode_white_space`).
pub fn is_whitespace(c: char) -> (r: bool)
    ensures
        r == unicode_white_space(c),
{
    let n = c as u32;
    (0x9 <= n && n <= 0xd) || n == 0x20 || n == 0x85 || n == 0xa0 || n == 0x1680 || (0x2000 <= n && n <= 0x200a)
        || n == 0x2028 || n == 0x2029 || n == 0x202f || n == 0x205f || n == 0x3000
}

/// Calls `String::from_utf8`: the text the bytes encode when they are valid
/// UTF-8 (vstd's `valid_utf8` and `decode_utf8`), nothing otherwise.
#[verifier::external_body]
pub(crate) fn string_from_utf8(bytes: Vec<u8>) -> (r: Option<String>)
    ensures
        match r {
            Some(s) => vstd::utf8::valid_utf8(bytes@) && s@ == vstd::utf8::decode_utf8(bytes@),
            None => !vstd::utf8::valid_utf8(bytes@),
        },
{
    String::from_utf8(bytes).ok()
}

/// All characters of `s` are ASCII.
pub open spec fn is_ascii_text(s: Seq<char>) -> bool {
    forall|i: int| 0 <= i < s.len() ==> (#[trigger] s[i] as u32) < 0x80
}

/// The ASCII lowercase of `c`: `A`–`Z` become `a`–`z`, anything else stays.
pub open spec fn ascii_lower(c: char) -> char {
    if 'A' <= c && c <= 'Z' {
        ((c as u32) + 32) as char
    } else {
        c
    }
}

/// The ASCII uppercase of `c`: `a`–`z` become `A`–`Z`, anything else stays.
pub open spec fn ascii_upper(c: char) -> char {
    if 'a' <= c && c <= 'z' {
        ((c as u32) - 32) as char
    } else {
        c
    }
}

/// Calls `str::to_lowercase`; its result is named `unicode_lowercase`. On
/// ASCII text it lowercases each ASCII letter (the Unicode lowercase mapping
/// of `A`–`Z` is `a`–`z`, and other ASCII characters have none).
#[verifier::external_body]
pub(crate) fn to_lowercase(s: &str) -> (r: String)
    ensures
        r@ == unicode_lowercase(s@),
        is_ascii_text(s@) ==> r@ == s@.map_values(|c: char| ascii_lower(c)),
{
    s.to_lowercase()
}

/// Calls `str::to_uppercase`; its result is named `unicode_uppercase`. On
/// ASCII text it uppercases each ASCII letter (the Unicode uppercase mapping
/// of `a`–`z` is `A`–`Z`, and other ASCII characters have none).
#[verifier::external_body]
pub(crate) fn to_uppercase(s: &str) -> (r: String)
    ensures
        r@ == unicode_uppercase(s@),
        is_ascii_text(s@) ==> r@ == s@.map_values(|c: char| ascii_upper(c)),
{
    s.to_uppercase()
}

/// Formats `s` with `{:?}` (std's `Debug` for `str`); the text is named `debug_quoted`.
#[verifier::external_body]
pub(crate) fn debug_string(s: &str) -> (r: String)
    ensures
        r@ == debug_quoted(s@),
{
    format!("{:?}", s)
}

/// Calls `String::push`: the string afterwards is the old one with `c` appended.
#[verifier::external_body]
pub(crate) fn push_char(s: &mut String, c: char)
    ensures
        final(s)@ == old(s)@.push(c),
{
    s.push(c)
}

// ---------------------------------------------------------------------------
// Conversions between strings and character vectors.
// ---------------------------------------------------------------------------

/// The characters of `s`, in order.
pub fn chars_of(s: &str) -> (v: Vec<char>)
    ensures
        v@ == s@,
{
    let mut v: Vec<char> = Vec::new();
    for c in it: s.chars()
        invariant
            v@ == it.seq().take(it.index() as int),
            it.seq() == s@,
    {
        v.push(c);
    }
    v
}

/// A string holding the characters `v[from..to]`.
pub fn string_of_range(v: &Vec<char>, from: usize, to: usize) -> (s: String)
    requires
        from <= to <= v.len(),
    ensures
        s@ == v@.subrange(from as int, to as int),
{
    let mut s = String::new();
    let mut i = from;
    while i < to
        invariant
            from <= i <= to <= v.len(),
            s@ == v@.subrange(from as int, i as int),
        decreases to - i,
    {
        push_char(&mut s, v[i]);
        assert(v@.subrange(from as int, i + 1) =~= v@.subrange(from as int, i as int).push(v@[i as int]));
        i = i + 1;
    }
    s
}

/// A string holding the characters of `v`.
pub fn string_of(v: &Vec<char>) -> (s: String)
    ensures
        s@ == v@,
{
    let s = string_of_range(v, 0, v.len());
    assert(v@.subrange(0, v@.len() as int) =~= v@);
    s
}

/// A fresh string equal to `s`.
pub fn owned(s: &str) -> (r: String)
    ensures
        r@ == s@,
{
    s.to_owned()
}

/// Appends `b` to a copy of `a`.
pub fn concat(a: &str, b: &str) -> (r: String)
    ensures
        r@ == a@ + b@,
{
    let mut r = a.to_owned();
    r.append(b);
    r
}

/// Whether two strings hold the same characters.
pub fn str_eq(a: &str, b: &str) -> (r: bool)
    ensures
        r == (a@ == b@),
{
    let va = chars_of(a);
    let vb = chars_of(b);
    if va.len() != vb.len() {
        return false;
    }
    let mut i: usize = 0;
    while i < va.len()
        invariant
            va@ == a@,
            vb@ == b@,
            va.len() == vb.len(),
            0 <= i <= va.len(),
            forall|j: int| 0 <= j < i ==> va@[j] == vb@[j],
        decreases va.len() - i,
    {
        if va[i] != vb[i] {
            return false;
        }
        i = i + 1;
    }
    assert(a@ =~= b@);
    true
}

/// The views of a sequence of strings.
pub open spec fn views(v: Seq<String>) -> Seq<Seq<char>> {
    v.map_values(|s: String| s@)
}

// ---------------------------------------------------------------------------
// Trimming.
// ---------------------------------------------------------------------------

/// `s` without the leading characters that satisfy `p`.
pub open spec fn trim_start_by(s: Seq<char>, p: spec_fn(char) -> bool) -> Seq<char>
    decreases s.len(),
{
    if s.len() > 0 && p(s[0]) {
        trim_start_by(s.drop_first(), p)
    } else {
        s
    }
}

/// `s` without the trailing characters that satisfy `p`.
pub open spec fn trim_end_by(s: Seq<char>, p: spec_fn(char) -> bool) -> Seq<char>
    decreases s.len(),
{
    if s.len() > 0 && p(s.last()) {
        trim_end_by(s.drop_last(), p)
    } else {
        s
    }
}

/// `s` without leading and trailing characters that satisfy `p`.
pub open spec fn trim_by(s: Seq<char>, p: spec_fn(char) -> bool) -> Seq<char> {
    trim_end_by(trim_start_by(s, p), p)
}

/// The whitespace predicate used by `str::trim`.
pub open spec fn ws_pred() -> spec_fn(char) -> bool {
    |c: char| unicode_white_space(c)
}

/// The predicate "equals `c`".
pub open spec fn char_pred(c: char) -> spec_fn(char) -> bool {
    |x: char| x == c
}

/// What `str::trim` returns.
pub open spec fn trim_spec(s: Seq<char>) -> Seq<char> {
    trim_by(s, ws_pred())
}

proof fn lemma_trim_start_skip(s: Seq<char>, p: spec_fn(char) -> bool, i: int)
    requires
        0 <= i < s.len(),
        p(s[i]),
    ensures
        trim_start_by(s.skip(i), p) == trim_start_by(s.skip(i + 1), p),
{
    assert(s.skip(i).drop_first() =~= s.skip(i + 1));
}

proof fn lemma_trim_end_take(s: Seq<char>, p: spec_fn(char) -> bool, j: int)
    requires
        0 < j <= s.len(),
        p(s[j - 1]),
    ensures
        trim_end_by(s.take(j), p) == trim_end_by(s.take(j - 1), p),
{
    assert(s.take(j).drop_last() =~= s.take(j - 1));
}

/// Whether `c` is dropped by a trim: white space, or the character `target`.
fn trimmed_char(c: char, is_ws: bool, target: char) -> (r: bool)
    ensures
        r == (if is_ws { unicode_white_space(c) } else { c == target }),
{
    if is_ws {
        is_whitespace(c)
    } else {
        c == target
    }
}

/// Characters of `trim(v[from..to])` are `v[a..b]`.
fn trim_bounds(v: &Vec<char>, from: usize, to: usize, Ghost(p): Ghost<spec_fn(char) -> bool>, is_ws: bool, c: char) -> (r: (usize, usize))
    requires
        from <= to <= v.len(),
        is_ws ==> p == ws_pred(),
        !is_ws ==> p == char_pred(c),
    ensures
        from <= r.0 <= r.1 <= to,
        trim_by(v@.subrange(from as int, to as int), p) == v@.subrange(r.0 as int, r.1 as int),
{
    let ghost s = v@.subrange(from as int, to as int);
    let mut a = from;
    assert(s.skip(0) =~= s);
    while a < to && trimmed_char(v[a], is_ws, c)
        invariant
            from <= a <= to <= v.len(),
            s == v@.subrange(from as int, to as int),
            is_ws ==> p == ws_pred(),
            !is_ws ==> p == char_pred(c),
            trim_start_by(s, p) == trim_start_by(s.skip(a - from), p),
        decreases to - a,
    {
        proof {
            lemma_trim_start_skip(s, p, a - from);
        }
        a = a + 1;
    }
    proof {
        if a < to {
            assert(s.skip(a - from)[0] == v@[a as int]);
        }
        assert(s.skip(a - from) =~= v@.subrange(a as int, to as int));
    }
    let ghost t = v@.subrange(a as int, to as int);
    let mut b = to;
    assert(t.take(to - a) =~= t);
    while b > a && trimmed_char(v[b - 1], is_ws, c)
        invariant
            from <= a <= b <= to <= v.len(),
            t == v@.subrange(a as int, to as int),
            is_ws ==> p == ws_pred(),
            !is_ws ==> p == char_pred(c),
            trim_end_by(t, p) == trim_end_by(t.take(b - a), p),
        decreases b,
    {
        proof {
            lemma_trim_end_take(t, p, b - a);
        }
        b = b - 1;
    }
    proof {
        if b > a {
            assert(t.take(b - a).last() == v@[b - 1]);
        }
        assert(t.take(b - a) =~= v@.subrange(a as int, b as int));
    }
    (a, b)
}

/// `str::trim`: `s` without leading and trailing white space.
pub fn trim(s: &str) -> (r: String)
    ensures
        r@ == trim_spec(s@),
{
    let v = chars_of(s);
    let (a, b) = trim_bounds(&v, 0, v.len(), Ghost(ws_pred()), true, ' ');
    assert(v@.subrange(0, v@.len() as int) =~= s@);
    string_of_range(&v, a, b)
}

/// `str::trim_matches(c)` for a single character `c`.
pub fn trim_matches_char(s: &str, c: char) -> (r: String)
    ensures
        r@ == trim_by(s@, char_pred(c)),
{
    let v = chars_of(s);
    let (a, b) = trim_bounds(&v, 0, v.len(), Ghost(char_pred(c)), false, c);
    assert(v@.subrange(0, v@.len() as int) =~= s@);
    string_of_range(&v, a, b)
}

/// `str::trim_start_matches(c)` for a single character `c`.
pub fn trim_start_matches_char(s: &str, c: char) -> (r: String)
    ensures
        r@ == trim_start_by(s@, char_pred(c)),
{
    let v = chars_of(s);
    let mut a: usize = 0;
    assert(s@.skip(0) =~= s@);
    while a < v.len() && v[a] == c
        invariant
            0 <= a <= v.len(),
            v@ == s@,
            trim_start_by(s@, char_pred(c)) == trim_start_by(s@.skip(a as int), char_pred(c)),
        decreases v.len() - a,
    {
        proof {
            lemma_trim_start_skip(s@, char_pred(c), a as int);
        }
        a = a + 1;
    }
    proof {
        if a < v.len() {
            assert(s@.skip(a as int)[0] == v@[a as int]);
        }
        assert(s@.skip(a as int) =~= v@.subrange(a as int, v@.len() as int));
        assert(s@.skip(0) =~= s@);
    }
    string_of_range(&v, a, v.len())
}

// ---------------------------------------------------------------------------
// Splitting and joining.
// ---------------------------------------------------------------------------

/// The pieces of `s` between occurrences of `sep` (what `str::split(sep)`
/// yields for a character separator): never empty, and `""` gives one empty piece.
pub open spec fn split_spec(s: Seq<char>, sep: char) -> Seq<Seq<char>>
    decreases s.len(),
{
    if s.len() == 0 {
        seq![Seq::<char>::empty()]
    } else {
        let prev = split_spec(s.drop_last(), sep);
        if s.last() == sep {
            prev.push(Seq::<char>::empty())
        } else {
            prev.update(prev.len() - 1, prev.last().push(s.last()))
        }
    }
}

/// The pieces of `list` separated by `sep`.
pub open spec fn join_spec(list: Seq<Seq<char>>, sep: Seq<char>) -> Seq<char>
    decreases list.len(),
{
    if list.len() == 0 {
        Seq::<char>::empty()
    } else if list.len() == 1 {
        list[0]
    } else {
        join_spec(list.drop_last(), sep) + sep + list.last()
    }
}

/// `split_spec` always yields at least one piece.
pub proof fn lemma_split_nonempty(s: Seq<char>, sep: char)
    ensures
        split_spec(s, sep).len() >= 1,
    decreases s.len(),
{
    if s.len() > 0 {
        lemma_split_nonempty(s.drop_last(), sep);
    }
}

/// Joining the pieces of a split with the separator gives back the string.
pub proof fn lemma_join_split(s: Seq<char>, sep: char)
    ensures
        join_spec(split_spec(s, sep), seq![sep]) == s,
    decreases s.len(),
{
    if s.len() == 0 {
    } else {
        let t = s.drop_last();
        lemma_join_split(t, sep);
        lemma_split_nonempty(t, sep);
        let prev = split_spec(t, sep);
        if s.last() == sep {
            let cur = prev.push(Seq::<char>::empty());
            assert(cur.drop_last() =~= prev);
            assert(join_spec(cur, seq![sep]) =~= t + seq![sep]);
        } else {
            let cur = prev.update(prev.len() - 1, prev.last().push(s.last()));
            if prev.len() == 1 {
                assert(cur[0] =~= t.push(s.last()));
            } else {
                assert(cur.drop_last() =~= prev.drop_last());
                assert(join_spec(cur, seq![sep]) =~= join_spec(prev, seq![sep]).push(s.last()));
            }
        }
        assert(t.push(s.last()) =~= s);
    }
}

/// `str::split(sep)` for a character separator, collected.
pub fn split_char(s: &str, sep: char) -> (r: Vec<String>)
    ensures
        views(r@) == split_spec(s@, sep),
{
    let v = chars_of(s);
    let mut out: Vec<String> = Vec::new();
    let mut start: usize = 0;
    let mut i: usize = 0;
    proof {
        assert(v@.take(0) =~= Seq::<char>::empty());
        assert(views(out@) =~= Seq::<Seq<char>>::empty());
        assert(v@.subrange(0, 0) =~= Seq::<char>::empty());
        assert(views(out@).push(v@.subrange(0, 0)) =~= seq![Seq::<char>::empty()]);
    }
    while i < v.len()
        invariant
            v@ == s@,
            start <= i <= v.len(),
            views(out@).push(v@.subrange(start as int, i as int)) == split_spec(v@.take(i as int), sep),
        decreases v.len() - i,
    {
        let ghost before = views(out@);
        assert(v@.take(i + 1).drop_last() =~= v@.take(i as int));
        if v[i] == sep {
            let piece = string_of_range(&v, start, i);
            let ghost pv = piece@;
            out.push(piece);
            start = i + 1;
            assert(views(out@) =~= before.push(pv));
            assert(v@.subrange(start as int, (i + 1) as int) =~= Seq::<char>::empty());
        } else {
            assert(v@.subrange(start as int, (i + 1) as int) =~= v@.subrange(start as int, i as int).push(v@[i as int]));
            assert(before.push(v@.subrange(start as int, (i + 1) as int)) =~= before.push(v@.subrange(start as int, i as int)).update(
                before.len() as int, v@.subrange(start as int, i as int).push(v@[i as int])));
        }
        i = i + 1;
    }
    let last = string_of_range(&v, start, v.len());
    out.push(last);
    assert(v@.take(v@.len() as int) =~= v@);
    assert(views(out@) =~= views(out@).drop_last().push(last@));
    out
}

/// The strings of `list` separated by `sep` (`join` on a slice of strings).
pub fn join(list: &Vec<String>, sep: &str) -> (r: String)
    ensures
        r@ == join_spec(views(list@), sep@),
{
    let mut r = String::new();
    let mut i: usize = 0;
    while i < list.len()
        invariant
            0 <= i <= list.len(),
            r@ == join_spec(views(list@).take(i as int), sep@),
        decreases list.len() - i,
    {
        assert(views(list@).take(i + 1).drop_last() =~= views(list@).take(i as int));
        if i != 0 {
            r.append(sep);
        }
        r.append(list[i].as_str());
        i = i + 1;
    }
    assert(views(list@).take(list.len() as int) =~= views(list@));
    r
}

/// A piece without its final carriage return, if it has one.
pub open spec fn strip_cr(s: Seq<char>) -> Seq<char> {
    if s.len() > 0 && s.last() == '\r' {
        s.drop_last()
    } else {
        s
    }
}

/// What `str::lines` yields: the pieces between line feeds, each piece that
/// was ended by a line feed also losing a final carriage return, and no
/// piece after a final line feed.
pub open spec fn lines_spec(s: Seq<char>) -> Seq<Seq<char>> {
    let p = split_spec(s, '\n');
    let ended = p.drop_last().map_values(|l: Seq<char>| strip_cr(l));
    if p.last().len() == 0 {
        ended
    } else {
        ended.push(p.last())
    }
}

/// A copy of `s` without a final carriage return.
fn strip_cr_string(s: &String) -> (r: String)
    ensures
        r@ == strip_cr(s@),
{
    let v = chars_of(s.as_str());
    if v.len() > 0 && v[v.len() - 1] == '\r' {
        let r = string_of_range(&v, 0, v.len() - 1);
        assert(v@.subrange(0, v@.len() - 1) =~= s@.drop_last());
        r
    } else {
        s.clone()
    }
}

/// `str::lines`, collected.
pub fn lines(s: &str) -> (r: Vec<String>)
    ensures
        views(r@) == lines_spec(s@),
{
    let pieces = split_char(s, '\n');
    proof {
        lemma_split_nonempty(s@, '\n');
    }
    let ghost p = split_spec(s@, '\n');
    let n = pieces.len();
    let mut out: Vec<String> = Vec::new();
    let mut i: usize = 0;
    while i + 1 < n
        invariant
            views(pieces@) == p,
            p == split_spec(s@, '\n'),
            n == pieces.len(),
            n >= 1,
            0 <= i < n,
            views(out@) == p.take(i as int).map_values(|l: Seq<char>| strip_cr(l)),
        decreases n - i,
    {
        let ghost before = views(out@);
        assert(views(pieces@)[i as int] == pieces@[i as int]@);
        let l = strip_cr_string(&pieces[i]);
        let ghost lv = l@;
        out.push(l);
        assert(views(out@) =~= before.push(lv));
        assert(views(out@) =~= p.take(i + 1).map_values(|l: Seq<char>| strip_cr(l)));
        i = i + 1;
    }
    assert(p.take(i as int) =~= p.drop_last());
    if pieces[n - 1].as_str().is_empty() {
        out
    } else {
        let last = pieces[n - 1].clone();
        out.push(last);
        assert(views(out@) =~= p.drop_last().map_values(|l: Seq<char>| strip_cr(l)).push(p.last()));
        out
    }
}

/// `i` is the position of the first `c` in `s`.
pub open spec fn is_first_index(s: Seq<char>, c: char, i: int) -> bool {
    &&& 0 <= i < s.len()
    &&& s[i] == c
    &&& forall|j: int| 0 <= j < i ==> s[j] != c
}

/// What `str::split_once(c)` returns: the text before and after the first `c`.
pub open spec fn split_once_spec(s: Seq<char>, c: char) -> Option<(Seq<char>, Seq<char>)> {
    if exists|i: int| is_first_index(s, c, i) {
        let i = choose|i: int| is_first_index(s, c, i);
        Some((s.take(i), s.skip(i + 1)))
    } else {
        None
    }
}

/// `str::split_once(c)` for a character `c`.
pub fn split_once_char(s: &str, c: char) -> (r: Option<(String, String)>)
    ensures
        match r {
            Some((a, b)) => split_once_spec(s@, c) == Some((a@, b@)),
            None => split_once_spec(s@, c) is None,
        },
{
    let v = chars_of(s);
    let mut i: usize = 0;
    while i < v.len()
        invariant
            v@ == s@,
            0 <= i <= v.len(),
            forall|j: int| 0 <= j < i ==> v@[j] != c,
        decreases v.len() - i,
    {
        if v[i] == c {
            let a = string_of_range(&v, 0, i);
            let b = string_of_range(&v, i + 1, v.len());
            proof {
                assert(is_first_index(s@, c, i as int));
                let k = choose|k: int| is_first_index(s@, c, k);
                if k < i {
                    assert(v@[k] != c);
                }
                if k > i {
                    assert(s@[i as int] != c);
                }
                assert(k == i);
                assert(a@ =~= s@.take(i as int));
                assert(b@ =~= s@.skip(i + 1));
            }
            return Some((a, b));
        }
        i = i + 1;
    }
    proof {
        assert forall|k: int| !is_first_index(s@, c, k) by {
            if 0 <= k < s@.len() {
                assert(v@[k] != c);
            }
        }
    }
    None
}

/// What `str::split_whitespace` yields: the maximal runs of characters that
/// are not white space.
pub open spec fn words_spec(s: Seq<char>) -> Seq<Seq<char>>
    decreases s.len(),
{
    if s.len() == 0 {
        Seq::<Seq<char>>::empty()
    } else {
        let prev = words_spec(s.drop_last());
        if unicode_white_space(s.last()) {
            prev
        } else if s.len() >= 2 && !unicode_white_space(s[s.len() - 2]) {
            prev.update(prev.len() - 1, prev.last().push(s.last()))
        } else {
            prev.push(seq![s.last()])
        }
    }
}

/// `str::split_whitespace`, collected.
pub fn split_whitespace(s: &str) -> (r: Vec<String>)
    ensures
        views(r@) == words_spec(s@),
{
    let v = chars_of(s);
    let mut out: Vec<String> = Vec::new();
    let mut in_word = false;
    let mut start: usize = 0;
    let mut i: usize = 0;
    assert(v@.take(0) =~= Seq::<char>::empty());
    while i < v.len()
        invariant
            v@ == s@,
            0 <= start <= i <= v.len(),
            in_word ==> start < i && !unicode_white_space(v@[i - 1]),
            !in_word ==> (i == 0 || unicode_white_space(v@[i - 1])),
            in_word ==> views(out@).push(v@.subrange(start as int, i as int)) == words_spec(v@.take(i as int)),
            !in_word ==> views(out@) == words_spec(v@.take(i as int)),
        decreases v.len() - i,
    {
        let c = v[i];
        let ws = is_whitespace(c);
        let ghost before = views(out@);
        let ghost t = v@.take(i + 1);
        assert(t.drop_last() =~= v@.take(i as int));
        assert(t.last() == c);
        if i >= 1 {
            assert(t[t.len() - 2] == v@[i - 1]);
        }
        if ws {
            if in_word {
                let w = string_of_range(&v, start, i);
                let ghost wv = w@;
                out.push(w);
                assert(views(out@) =~= before.push(wv));
            }
            in_word = false;
        } else {
            if in_word {
                assert(v@.subrange(start as int, i + 1) =~= v@.subrange(start as int, i as int).push(c));
                assert(before.push(v@.subrange(start as int, i + 1)) =~= before.push(v@.subrange(start as int, i as int)).update(
                    before.len() as int, v@.subrange(start as int, i as int).push(c)));
            } else {
                start = i;
                assert(v@.subrange(start as int, i + 1) =~= seq![c]);
            }
            in_word = true;
        }
        i = i + 1;
    }
    assert(v@.take(v@.len() as int) =~= v@);
    if in_word {
        let w = string_of_range(&v, start, v.len());
        let ghost before = views(out@);
        let ghost wv = w@;
        out.push(w);
        assert(views(out@) =~= before.push(wv));
    }
    out
}

/// `t` occurs in `s` at position `i`.
pub open spec fn occurs_at(s: Seq<char>, t: Seq<char>, i: int) -> bool {
    0 <= i && i + t.len() <= s.len() && s.subrange(i, i + t.len()) == t
}

/// What `str::contains(t)` reports for a string pattern.
pub open spec fn contains_spec(s: Seq<char>, t: Seq<char>) -> bool {
    exists|i: int| occurs_at(s, t, i)
}

/// What `str::starts_with(t)` reports.
pub open spec fn starts_with_spec(s: Seq<char>, t: Seq<char>) -> bool {
    occurs_at(s, t, 0)
}

/// What `str::ends_with(t)` reports.
pub open spec fn ends_with_spec(s: Seq<char>, t: Seq<char>) -> bool {
    occurs_at(s, t, s.len() - t.len())
}

/// Whether `t` occurs in `v` at position `i`.
fn occurs_at_exec(v: &Vec<char>, t: &Vec<char>, i: usize) -> (r: bool)
    ensures
        r == occurs_at(v@, t@, i as int),
{
    if i > v.len() || t.len() > v.len() - i {
        return false;
    }
    let mut k: usize = 0;
    while k < t.len()
        invariant
            i + t.len() <= v.len(),
            0 <= k <= t.len(),
            forall|j: int| 0 <= j < k ==> v@[i + j] == t@[j],
        decreases t.len() - k,
    {
        if v[i + k] != t[k] {
            assert(v@.subrange(i as int, i + t.len())[k as int] != t@[k as int]);
            return false;
        }
        k = k + 1;
    }
    assert(v@.subrange(i as int, i + t.len()) =~= t@);
    true
}

/// Whether `t` occurs in `v` at position `i`.
pub fn occurs_at_exec_pub(v: &Vec<char>, t: &Vec<char>, i: usize) -> (r: bool)
    ensures
        r == occurs_at(v@, t@, i as int),
{
    occurs_at_exec(v, t, i)
}

/// `str::contains(t)` for a string pattern.
pub fn contains(s: &str, t: &str) -> (r: bool)
    ensures
        r == contains_spec(s@, t@),
{
    let v = chars_of(s);
    let w = chars_of(t);
    let mut i: usize = 0;
    while i < v.len()
        invariant
            v@ == s@,
            w@ == t@,
            0 <= i <= v.len(),
            forall|j: int| 0 <= j < i ==> !occurs_at(s@, t@, j),
        decreases v.len() - i,
    {
        if occurs_at_exec(&v, &w, i) {
            return true;
        }
        i = i + 1;
    }
    if occurs_at_exec(&v, &w, i) {
        return true;
    }
    proof {
        assert forall|j: int| !occurs_at(s@, t@, j) by {
            if 0 <= j && j < i {
            }
        }
    }
    false
}

/// `str::starts_with(t)` for a string pattern.
pub fn starts_with(s: &str, t: &str) -> (r: bool)
    ensures
        r == starts_with_spec(s@, t@),
{
    let v = chars_of(s);
    let w = chars_of(t);
    occurs_at_exec(&v, &w, 0)
}

/// `str::ends_with(t)` for a string pattern.
pub fn ends_with(s: &str, t: &str) -> (r: bool)
    ensures
        r == ends_with_spec(s@, t@),
{
    let v = chars_of(s);
    let w = chars_of(t);
    if w.len() > v.len() {
        return false;
    }
    occurs_at_exec(&v, &w, v.len() - w.len())
}

/// Whether the last character of `s` is `c`.
pub fn ends_with_char(s: &str, c: char) -> (r: bool)
    ensures
        r == (s@.len() > 0 && s@.last() == c),
{
    let v = chars_of(s);
    v.len() > 0 && v[v.len() - 1] == c
}

// ---------------------------------------------------------------------------
// UTF-8 length.
// ---------------------------------------------------------------------------

/// The number of bytes of the UTF-8 encoding of `c`.
pub open spec fn utf8_width(c: char) -> nat {
    let u = c as u32;
    if u <= 0x7f {
        1
    } else if u <= 0x7ff {
        2
    } else if u <= 0xffff {
        3
    } else {
        4
    }
}

/// The number of bytes of the UTF-8 encoding of `s` (what `str::len` counts).
pub open spec fn utf8_len(s: Seq<char>) -> nat
    decreases s.len(),
{
    if s.len() == 0 {
        0
    } else {
        utf8_width(s[0]) + utf8_len(s.drop_first())
    }
}

/// `utf8_len` is the length of vstd's UTF-8 encoding.
pub proof fn lemma_utf8_len(s: Seq<char>)
    ensures
        utf8_len(s) == vstd::utf8::encode_utf8(s).len(),
    decreases s.len(),
{
    if s.len() > 0 {
        lemma_utf8_len(s.drop_first());
        let c = s[0];
        vstd::utf8::char_is_scalar(c);
    }
}

/// Whether the UTF-8 encoding of `s` is longer than `limit` bytes.
pub fn utf8_len_exceeds(s: &str, limit: u64) -> (r: bool)
    ensures
        r == (utf8_len(s@) > limit),
{
    let v = chars_of(s);
    let mut acc: u64 = 0;
    let mut i: usize = 0;
    assert(s@.skip(0) =~= s@);
    while i < v.len()
        invariant
            v@ == s@,
            0 <= i <= v.len(),
            acc <= limit,
            utf8_len(s@) == acc + utf8_len(s@.skip(i as int)),
        decreases v.len() - i,
    {
        let u = v[i] as u32;
        let w: u64 = if u <= 0x7f { 1 } else if u <= 0x7ff { 2 } else if u <= 0xffff { 3 } else { 4 };
        assert(s@.skip(i as int).drop_first() =~= s@.skip(i + 1));
        assert(s@.skip(i as int)[0] == v@[i as int]);
        if w > limit - acc {
            proof {
                lemma_utf8_len_nonneg(s@.skip(i + 1));
            }
            return true;
        }
        acc = acc + w;
        i = i + 1;
    }
    assert(s@.skip(i as int) =~= Seq::<char>::empty());
    false
}

proof fn lemma_utf8_len_nonneg(s: Seq<char>)
    ensures
        utf8_len(s) >= 0,
{
}

// ---------------------------------------------------------------------------
// Association lists of strings.
// ---------------------------------------------------------------------------

/// The view of an optional string.
pub open spec fn opt_view(s: Option<String>) -> Option<Seq<char>> {
    match s {
        Some(v) => Some(v@),
        None => None,
    }
}

/// The views of a list of string pairs.
pub open spec fn pairs_view(e: Seq<(String, String)>) -> Seq<(Seq<char>, Seq<char>)> {
    e.map_values(|p: (String, String)| (p.0@, p.1@))
}

/// The value of the first pair with key `key`.
pub open spec fn lookup(e: Seq<(Seq<char>, Seq<char>)>, key: Seq<char>) -> Option<Seq<char>>
    decreases e.len(),
{
    if e.len() == 0 {
        None
    } else if e[0].0 == key {
        Some(e[0].1)
    } else {
        lookup(e.drop_first(), key)
    }
}

/// The value of the first pair of `entries` with key `key`.
pub fn lookup_exec(entries: &Vec<(String, String)>, key: &str) -> (r: Option<String>)
    ensures
        opt_view(r) == lookup(pairs_view(entries@), key@),
{
    let ghost e = pairs_view(entries@);
    let mut i: usize = 0;
    assert(e.skip(0) =~= e);
    while i < entries.len()
        invariant
            e == pairs_view(entries@),
            0 <= i <= entries.len(),
            lookup(e, key@) == lookup(e.skip(i as int), key@),
        decreases entries.len() - i,
    {
        let ghost rest = e.skip(i as int);
        assert(rest[0] == (entries@[i as int].0@, entries@[i as int].1@));
        if str_eq(entries[i].0.as_str(), key) {
            return Some(entries[i].1.clone());
        }
        assert(rest.drop_first() =~= e.skip(i + 1));
        i = i + 1;
    }
    assert(e.skip(i as int) =~= Seq::<(Seq<char>, Seq<char>)>::empty());
    None
}

} // verus!
