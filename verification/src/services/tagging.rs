//! Tags: reading a FLAC tag export, checking the tags of a file, and
//! planning how tags are copied from a FLAC file to its transcode.

use vstd::prelude::*;
use crate::numeric::{decimal_spec, decimal_string, is_decimal_digit, is_unicode_decimal_digit};
use crate::text::{
    char_pred, concat, debug_quoted, debug_string, join, join_spec, lines, lines_spec, owned,
    split_once_char, split_once_spec, str_eq, to_lowercase, to_uppercase, trim, trim_by,
    trim_matches_char, trim_spec, trim_start_by, trim_start_matches_char, unicode_lowercase,
    unicode_uppercase, views,
};

verus! {

// ---------------------------------------------------------------------------
// Scrubbing tag values.
// ---------------------------------------------------------------------------

/// The tags that hold track or disc numbers and totals.
pub open spec fn is_numeric_tag(name: Seq<char>) -> bool {
    ||| name == "tracknumber"@
    ||| name == "discnumber"@
    ||| name == "tracktotal"@
    ||| name == "totaltracks"@
    ||| name == "disctotal"@
    ||| name == "totaldiscs"@
}

/// Whether `name` is a numeric tag.
pub fn numeric_tag(name: &str) -> (r: bool)
    ensures
        r == is_numeric_tag(name@),
{
    str_eq(name, "tracknumber") || str_eq(name, "discnumber") || str_eq(name, "tracktotal")
        || str_eq(name, "totaltracks") || str_eq(name, "disctotal") || str_eq(name, "totaldiscs")
}

/// Position `p` holds a `/` followed only by zeros up to the end.
pub open spec fn zero_tail_at(s: Seq<char>, p: int) -> bool {
    &&& 0 <= p < s.len()
    &&& s[p] == '/'
    &&& forall|k: int| p < k < s.len() ==> s[k] == '0'
}

/// `s` without a final `/` that is followed only by zeros (the pattern
/// `/(0+)?$` replaced by nothing).
pub open spec fn strip_zero_tail(s: Seq<char>) -> Seq<char> {
    if exists|p: int| zero_tail_at(s, p) {
        s.take(choose|p: int| zero_tail_at(s, p))
    } else {
        s
    }
}

/// `s` is one or more zeros, optionally followed by `/` and text without a
/// line feed (the pattern `^0+(/.*)?$`).
pub open spec fn is_zero_count(s: Seq<char>) -> bool {
    exists|k: int| zero_count_split(s, k)
}

/// `s[..k]` is one or more zeros and `s[k..]` is empty or `/` followed by
/// text without a line feed.
pub open spec fn zero_count_split(s: Seq<char>, k: int) -> bool {
    &&& 1 <= k <= s.len()
    &&& forall|j: int| 0 <= j < k ==> s[j] == '0'
    &&& (k == s.len() || (s[k] == '/' && forall|j: int| k < j < s.len() ==> s[j] != '\n'))
}

/// A tag value as it is copied: trimmed of white space and NUL characters;
/// for numeric tags also without a `/0…` total and leading slashes, and
/// emptied when a total or disc number is zero.
pub open spec fn scrub_spec(name: Seq<char>, value: Seq<char>) -> Seq<char> {
    let base = trim_by(trim_spec(value), char_pred('\0'));
    if is_numeric_tag(name) {
        let s = trim_start_by(strip_zero_tail(base), char_pred('/'));
        if name != "tracknumber"@ && is_zero_count(s) {
            Seq::<char>::empty()
        } else {
            s
        }
    } else {
        base
    }
}

fn strip_zero_tail_exec(s: &str) -> (r: String)
    ensures
        r@ == strip_zero_tail(s@),
{
    let v = crate::text::chars_of(s);
    // Skip the final run of zeros.
    let mut i: usize = v.len();
    while i > 0 && v[i - 1] == '0'
        invariant
            v@ == s@,
            0 <= i <= v.len(),
            forall|k: int| i <= k < v.len() ==> v@[k] == '0',
        decreases i,
    {
        i = i - 1;
    }
    if i > 0 && v[i - 1] == '/' {
        let p = i - 1;
        proof {
            assert(zero_tail_at(s@, p as int));
            let q = choose|q: int| zero_tail_at(s@, q);
            if q < p {
                assert(s@[p as int] == '0');
            }
            if q > p {
                assert(s@[q] == '0');
            }
        }
        crate::text::string_of_range(&v, 0, p)
    } else {
        proof {
            assert forall|q: int| !zero_tail_at(s@, q) by {
                if zero_tail_at(s@, q) {
                    if q >= i {
                        assert(v@[q] == '0');
                    } else if q < i - 1 {
                        assert(s@[i - 1] == '0');
                    }
                }
            }
        }
        owned(s)
    }
}

fn is_zero_count_exec(s: &str) -> (r: bool)
    ensures
        r == is_zero_count(s@),
{
    let v = crate::text::chars_of(s);
    let mut k: usize = 0;
    while k < v.len() && v[k] == '0'
        invariant
            v@ == s@,
            0 <= k <= v.len(),
            forall|j: int| 0 <= j < k ==> v@[j] == '0',
        decreases v.len() - k,
    {
        k = k + 1;
    }
    if k == 0 {
        proof {
            if is_zero_count(s@) {
                let w = choose|w: int| zero_count_split(s@, w);
                assert(s@[0] == '0');
            }
        }
        return false;
    }
    if k == v.len() {
        assert(zero_count_split(s@, k as int));
        return true;
    }
    if v[k] != '/' {
        proof {
            if is_zero_count(s@) {
                let w = choose|w: int| zero_count_split(s@, w);
                if w < k {
                    assert(s@[w] == '0');
                } else if w > k {
                    assert(s@[k as int] == '0');
                }
            }
        }
        return false;
    }
    let mut j: usize = k + 1;
    while j < v.len()
        invariant
            v@ == s@,
            k < j <= v.len(),
            forall|x: int| k < x < j ==> v@[x] != '\n',
        decreases v.len() - j,
    {
        if v[j] == '\n' {
            proof {
                if is_zero_count(s@) {
                    let w = choose|w: int| zero_count_split(s@, w);
                    if w < k {
                        assert(s@[w] == '0');
                    } else if w > k {
                        assert(s@[k as int] == '0');
                    }
                }
            }
            return false;
        }
        j = j + 1;
    }
    assert(zero_count_split(s@, k as int));
    true
}

/// Cleans a tag value before it is copied (see `scrub_spec`).
pub fn scrub_tag(name: &str, value: &str) -> (r: String)
    ensures
        r@ == scrub_spec(name@, value@),
{
    let t = trim(value);
    let scrubbed = trim_matches_char(t.as_str(), '\0');
    if numeric_tag(name) {
        let stripped = strip_zero_tail_exec(scrubbed.as_str());
        let s = trim_start_matches_char(stripped.as_str(), '/');
        if !str_eq(name, "tracknumber") {
            if is_zero_count_exec(s.as_str()) {
                return String::new();
            }
        }
        s
    } else {
        scrubbed
    }
}

// ---------------------------------------------------------------------------
// Track number format.
// ---------------------------------------------------------------------------

/// All characters of `s` from `from` to `to` are decimal digits.
pub open spec fn all_digits(s: Seq<char>, from: int, to: int) -> bool {
    forall|j: int| from <= j < to ==> is_unicode_decimal_digit(#[trigger] s[j])
}

/// `s` is `N` or `N/M` for runs of decimal digits `N` and `M` (the pattern
/// `^\d+(/(\d+))?$`).
pub open spec fn is_tracknumber_format(s: Seq<char>) -> bool {
    exists|k: int| tracknumber_split(s, k)
}

/// `s[..k]` is one or more digits and `s[k..]` is empty or `/` followed by
/// one or more digits.
pub open spec fn tracknumber_split(s: Seq<char>, k: int) -> bool {
    &&& 1 <= k <= s.len()
    &&& all_digits(s, 0, k)
    &&& (k == s.len() || (s[k] == '/' && k + 1 < s.len() && all_digits(s, k + 1, s.len() as int)))
}

/// Whether `s` has the track number format.
pub fn tracknumber_format_ok(s: &str) -> (r: bool)
    ensures
        r == is_tracknumber_format(s@),
{
    let v = crate::text::chars_of(s);
    let mut k: usize = 0;
    while k < v.len() && is_decimal_digit(v[k])
        invariant
            v@ == s@,
            0 <= k <= v.len(),
            all_digits(s@, 0, k as int),
        decreases v.len() - k,
    {
        k = k + 1;
    }
    if k == 0 {
        proof {
            if is_tracknumber_format(s@) {
                let w = choose|w: int| tracknumber_split(s@, w);
                assert(is_unicode_decimal_digit(s@[0]));
            }
        }
        return false;
    }
    if k == v.len() {
        assert(tracknumber_split(s@, k as int));
        return true;
    }
    let ok_rest = if v[k] == '/' && k + 1 < v.len() {
        let mut j: usize = k + 1;
        while j < v.len() && is_decimal_digit(v[j])
            invariant
                v@ == s@,
                k + 1 <= j <= v.len(),
                all_digits(s@, k + 1, j as int),
            decreases v.len() - j,
        {
            j = j + 1;
        }
        if j < v.len() {
            assert(!is_tracknumber_format(s@)) by {
                if is_tracknumber_format(s@) {
                    let w = choose|w: int| tracknumber_split(s@, w);
                    if w < k {
                        assert(is_unicode_decimal_digit(s@[w]));
                    } else if w > k {
                        assert(is_unicode_decimal_digit(s@[k as int]));
                    }
                    assert(is_unicode_decimal_digit(s@[j as int]));
                }
            }
            false
        } else {
            assert(tracknumber_split(s@, k as int));
            true
        }
    } else {
        false
    };
    proof {
        if !ok_rest && is_tracknumber_format(s@) {
            let w = choose|w: int| tracknumber_split(s@, w);
            if w < k {
                assert(is_unicode_decimal_digit(s@[w]));
            } else if w > k {
                assert(is_unicode_decimal_digit(s@[k as int]));
            }
        }
    }
    ok_rest
}

// ---------------------------------------------------------------------------
// Tags exported from a FLAC file.
// ---------------------------------------------------------------------------

/// The tags of a FLAC file: each key (upper case) with its values, keys in
/// order of first appearance.
pub struct FlacTags {
    pub entries: Vec<(String, Vec<String>)>,
}

/// The view of FLAC tag entries.
pub open spec fn flac_view(e: Seq<(String, Vec<String>)>) -> Seq<(Seq<char>, Seq<Seq<char>>)> {
    e.map_values(|p: (String, Vec<String>)| (p.0@, views(p.1@)))
}

/// Every key has at least one value, and no key occurs twice.
pub open spec fn flac_entries_wf(e: Seq<(Seq<char>, Seq<Seq<char>>)>) -> bool {
    &&& forall|i: int| 0 <= i < e.len() ==> (#[trigger] e[i]).1.len() >= 1
    &&& forall|i: int, j: int| 0 <= i < j < e.len() ==> (#[trigger] e[i]).0 != (#[trigger] e[j]).0
}

impl FlacTags {
    pub open spec fn view_entries(&self) -> Seq<(Seq<char>, Seq<Seq<char>>)> {
        flac_view(self.entries@)
    }

    pub open spec fn wf(&self) -> bool {
        flac_entries_wf(self.view_entries())
    }
}

/// The `KEY=value` lines of a tag export as pairs, keys in upper case;
/// lines without `=` are skipped.
pub open spec fn export_pairs(ls: Seq<Seq<char>>) -> Seq<(Seq<char>, Seq<char>)>
    decreases ls.len(),
{
    if ls.len() == 0 {
        Seq::<(Seq<char>, Seq<char>)>::empty()
    } else {
        let prev = export_pairs(ls.drop_last());
        match split_once_spec(ls.last(), '=') {
            Some((k, v)) => prev.push((unicode_uppercase(k), v)),
            None => prev,
        }
    }
}

/// The position of the first entry with key `k`, or -1.
pub open spec fn find_key<V>(e: Seq<(Seq<char>, V)>, k: Seq<char>) -> int
    decreases e.len(),
{
    if e.len() == 0 {
        -1
    } else {
        let i = find_key(e.drop_last(), k);
        if i >= 0 {
            i
        } else if e.last().0 == k {
            e.len() - 1
        } else {
            -1
        }
    }
}

/// Adds value `v` under key `k`.
pub open spec fn add_tag(e: Seq<(Seq<char>, Seq<Seq<char>>)>, k: Seq<char>, v: Seq<char>) -> Seq<(Seq<char>, Seq<Seq<char>>)> {
    let i = find_key(e, k);
    if i >= 0 {
        e.update(i, (k, e[i].1.push(v)))
    } else {
        e.push((k, seq![v]))
    }
}

/// The pairs grouped by key, keys in order of first appearance.
pub open spec fn group_pairs(p: Seq<(Seq<char>, Seq<char>)>) -> Seq<(Seq<char>, Seq<Seq<char>>)>
    decreases p.len(),
{
    if p.len() == 0 {
        Seq::<(Seq<char>, Seq<Seq<char>>)>::empty()
    } else {
        add_tag(group_pairs(p.drop_last()), p.last().0, p.last().1)
    }
}

/// The tags of a `metaflac --export-tags-to=-` output.
pub open spec fn flac_export_spec(stdout: Seq<char>) -> Seq<(Seq<char>, Seq<Seq<char>>)> {
    group_pairs(export_pairs(lines_spec(stdout)))
}

proof fn lemma_find_key_range<V>(e: Seq<(Seq<char>, V)>, k: Seq<char>)
    ensures
        -1 <= find_key(e, k) < e.len(),
        find_key(e, k) >= 0 ==> e[find_key(e, k)].0 == k,
        find_key(e, k) < 0 ==> forall|j: int| 0 <= j < e.len() ==> (#[trigger] e[j]).0 != k,
        find_key(e, k) >= 0 ==> forall|j: int| 0 <= j < find_key(e, k) ==> (#[trigger] e[j]).0 != k,
    decreases e.len(),
{
    if e.len() > 0 {
        lemma_find_key_range(e.drop_last(), k);
        assert forall|j: int| 0 <= j < e.len() - 1 implies (#[trigger] e[j]).0 == e.drop_last()[j].0 by {}
    }
}

proof fn lemma_add_tag_wf(e: Seq<(Seq<char>, Seq<Seq<char>>)>, k: Seq<char>, v: Seq<char>)
    requires
        flac_entries_wf(e),
    ensures
        flac_entries_wf(add_tag(e, k, v)),
{
    lemma_find_key_range(e, k);
}

/// The position of the entry of `tags` with key `k`, or the number of
/// entries when there is none.
fn find_entry(tags: &FlacTags, k: &str) -> (r: usize)
    ensures
        r == tags.entries@.len() ==> find_key(tags.view_entries(), k@) == -1,
        r < tags.entries@.len() ==> find_key(tags.view_entries(), k@) == r,
        r <= tags.entries@.len(),
{
    let ghost e = tags.view_entries();
    proof {
        lemma_find_key_range(e, k@);
    }
    let mut i: usize = 0;
    while i < tags.entries.len()
        invariant
            e == tags.view_entries(),
            0 <= i <= tags.entries.len(),
            forall|j: int| 0 <= j < i ==> (#[trigger] e[j]).0 != k@,
            -1 <= find_key(e, k@) < e.len(),
            find_key(e, k@) >= 0 ==> e[find_key(e, k@)].0 == k@,
            find_key(e, k@) >= 0 ==> forall|j: int| 0 <= j < find_key(e, k@) ==> (#[trigger] e[j]).0 != k@,
            find_key(e, k@) < 0 ==> forall|j: int| 0 <= j < e.len() ==> (#[trigger] e[j]).0 != k@,
        decreases tags.entries.len() - i,
    {
        assert(e[i as int].0 == tags.entries@[i as int].0@);
        if str_eq(tags.entries[i].0.as_str(), k) {
            return i;
        }
        i = i + 1;
    }
    proof {
        if find_key(e, k@) >= 0 {
            assert(e[find_key(e, k@)].0 == k@);
        }
    }
    i
}

/// Adds `value` under `key`: to the values of the entry with that key, or
/// as a new last entry (see `add_tag`).
pub fn add_flac_tag(tags: &mut FlacTags, key: String, value: String)
    requires
        old(tags).wf(),
    ensures
        final(tags).view_entries() == add_tag(old(tags).view_entries(), key@, value@),
        final(tags).wf(),
{
    let ghost e = tags.view_entries();
    proof {
        lemma_find_key_range(e, key@);
        lemma_add_tag_wf(e, key@, value@);
    }
    let pos = find_entry(tags, key.as_str());
    if pos < tags.entries.len() {
        let ghost kv = key@;
        let ghost vv = value@;
        let mut entry = tags.entries.remove(pos);
        assert(entry.0@ == kv);
        let ghost old_vals = views(entry.1@);
        entry.1.push(value);
        assert(views(entry.1@) =~= old_vals.push(vv));
        tags.entries.insert(pos, entry);
        assert(tags.view_entries() =~= e.update(pos as int, (kv, e[pos as int].1.push(vv))));
    } else {
        let ghost kv = key@;
        let ghost vv = value@;
        let list = vec![value];
        assert(views(list@) =~= seq![vv]);
        tags.entries.push((key, list));
        assert(tags.view_entries() =~= e.push((kv, seq![vv])));
    }
}

/// Reads the tags of a `metaflac --export-tags-to=-` output: each
/// `KEY=value` line adds `value` under the upper-cased `KEY`.
pub fn parse_flac_tags(stdout: &str) -> (t: FlacTags)
    ensures
        t.view_entries() == flac_export_spec(stdout@),
        t.wf(),
{
    let ls = lines(stdout);
    let mut tags = FlacTags { entries: Vec::new() };
    let mut i: usize = 0;
    assert(views(ls@).take(0) =~= Seq::<Seq<char>>::empty());
    assert(tags.view_entries() =~= Seq::<(Seq<char>, Seq<Seq<char>>)>::empty());
    while i < ls.len()
        invariant
            0 <= i <= ls.len(),
            views(ls@) == lines_spec(stdout@),
            tags.view_entries() == group_pairs(export_pairs(views(ls@).take(i as int))),
            tags.wf(),
        decreases ls.len() - i,
    {
        let ghost ep = export_pairs(views(ls@).take(i as int));
        proof {
            lemma_export_pairs_prefix(views(ls@), i as int);
        }
        assert(views(ls@)[i as int] == ls@[i as int]@);
        match split_once_char(ls[i].as_str(), '=') {
            Some((k, v)) => {
                let key = to_uppercase(k.as_str());
                let ghost kv = key@;
                let ghost vv = v@;
                assert(export_pairs(views(ls@).take(i + 1)) == ep.push((kv, vv)));
                assert(ep.push((kv, vv)).drop_last() =~= ep);
                add_flac_tag(&mut tags, key, v);
            },
            None => {},
        }
        i = i + 1;
    }
    assert(views(ls@).take(ls@.len() as int) =~= views(ls@));
    tags
}

/// The tags in the raw output of `metaflac --export-tags-to=-`: `None` when
/// the output is not UTF-8 (see `parse_flac_tags`).
pub fn flac_tags_from_output(stdout: Vec<u8>) -> (r: Option<FlacTags>)
    ensures
        match r {
            Some(t) => vstd::utf8::valid_utf8(stdout@) && t.view_entries() == flac_export_spec(vstd::utf8::decode_utf8(stdout@))
                && t.wf(),
            None => !vstd::utf8::valid_utf8(stdout@),
        },
{
    match crate::text::string_from_utf8(stdout) {
        Some(s) => Some(parse_flac_tags(s.as_str())),
        None => None,
    }
}

proof fn lemma_export_pairs_prefix(ls: Seq<Seq<char>>, i: int)
    requires
        0 <= i < ls.len(),
    ensures
        export_pairs(ls.take(i + 1)) == (match split_once_spec(ls[i], '=') {
            Some((k, v)) => export_pairs(ls.take(i)).push((unicode_uppercase(k), v)),
            None => export_pairs(ls.take(i)),
        }),
{
    assert(ls.take(i + 1).drop_last() =~= ls.take(i));
}

// ---------------------------------------------------------------------------
// Checking the tags of a file.
// ---------------------------------------------------------------------------

/// The first value of each FLAC tag.
pub open spec fn first_values(e: Seq<(Seq<char>, Seq<Seq<char>>)>) -> Seq<(Seq<char>, Seq<char>)> {
    e.map_values(|p: (Seq<char>, Seq<Seq<char>>)| (p.0, if p.1.len() > 0 { p.1[0] } else { Seq::<char>::empty() }))
}

/// Each FLAC tag with its first value, as the tag check reads them.
pub fn flac_first_values(tags: &FlacTags) -> (r: Vec<(String, String)>)
    ensures
        crate::text::pairs_view(r@) == first_values(tags.view_entries()),
{
    let mut r: Vec<(String, String)> = Vec::new();
    let mut i: usize = 0;
    while i < tags.entries.len()
        invariant
            0 <= i <= tags.entries.len(),
            crate::text::pairs_view(r@) == first_values(tags.view_entries()).take(i as int),
        decreases tags.entries.len() - i,
    {
        let k = tags.entries[i].0.clone();
        let v = if tags.entries[i].1.len() > 0 {
            tags.entries[i].1[0].clone()
        } else {
            String::new()
        };
        let ghost before = crate::text::pairs_view(r@);
        let ghost kv = k@;
        let ghost vv = v@;
        r.push((k, v));
        assert(crate::text::pairs_view(r@) =~= before.push((kv, vv)));
        assert(first_values(tags.view_entries()).take(i + 1) =~= first_values(tags.view_entries()).take(i as int).push((kv, vv)));
        i = i + 1;
    }
    assert(first_values(tags.view_entries()).take(tags.entries@.len() as int) =~= first_values(tags.view_entries()));
    r
}

/// The tags of an MP3 file as the tag check reads them: title, artist,
/// album and track number, those that the file has.
pub open spec fn mp3_tags_spec(
    title: Option<Seq<char>>,
    artist: Option<Seq<char>>,
    album: Option<Seq<char>>,
    track: Option<u32>,
) -> Seq<(Seq<char>, Seq<char>)> {
    let a = match title {
        Some(t) => seq![("TITLE"@, t)],
        None => Seq::<(Seq<char>, Seq<char>)>::empty(),
    };
    let b = match artist {
        Some(t) => a.push(("ARTIST"@, t)),
        None => a,
    };
    let c = match album {
        Some(t) => b.push(("ALBUM"@, t)),
        None => b,
    };
    match track {
        Some(n) => c.push(("TRACKNUMBER"@, decimal_spec(n as nat))),
        None => c,
    }
}

/// The tags of an MP3 file, from the values its ID3 tag holds.
pub fn mp3_tags(title: Option<String>, artist: Option<String>, album: Option<String>, track: Option<u32>) -> (r: Vec<(String, String)>)
    ensures
        crate::text::pairs_view(r@) == mp3_tags_spec(
            crate::text::opt_view(title),
            crate::text::opt_view(artist),
            crate::text::opt_view(album),
            track,
        ),
{
    let mut r: Vec<(String, String)> = Vec::new();
    let ghost v0 = crate::text::pairs_view(r@);
    assert(v0 =~= Seq::<(Seq<char>, Seq<char>)>::empty());
    match title {
        Some(t) => {
            let ghost tv = t@;
            r.push((String::from_str("TITLE"), t));
            assert(crate::text::pairs_view(r@) =~= seq![("TITLE"@, tv)]);
        },
        None => {},
    }
    match artist {
        Some(t) => {
            let ghost before = crate::text::pairs_view(r@);
            let ghost tv = t@;
            r.push((String::from_str("ARTIST"), t));
            assert(crate::text::pairs_view(r@) =~= before.push(("ARTIST"@, tv)));
        },
        None => {},
    }
    match album {
        Some(t) => {
            let ghost before = crate::text::pairs_view(r@);
            let ghost tv = t@;
            r.push((String::from_str("ALBUM"), t));
            assert(crate::text::pairs_view(r@) =~= before.push(("ALBUM"@, tv)));
        },
        None => {},
    }
    match track {
        Some(n) => {
            let ghost before = crate::text::pairs_view(r@);
            let d = decimal_string(n as u64);
            let ghost dv = d@;
            r.push((String::from_str("TRACKNUMBER"), d));
            assert(crate::text::pairs_view(r@) =~= before.push(("TRACKNUMBER"@, dv)));
        },
        None => {},
    }
    r
}

/// What is wrong with the tag `key` (shown as `lower`), if anything: it is
/// missing or empty.
pub open spec fn tag_problem(e: Seq<(Seq<char>, Seq<char>)>, key: Seq<char>, lower: Seq<char>, path: Seq<char>) -> Option<Seq<char>> {
    match crate::text::lookup(e, key) {
        None => Some(path + " has no "@ + lower + " tag"@),
        Some(v) => if v.len() == 0 {
            Some(path + " has an empty "@ + lower + " tag"@)
        } else {
            None
        },
    }
}

/// The verdict of the tag check on the tags `e` of the file shown as
/// `path`: artist, album, title and track number must be present and not
/// empty, and with `check_format` the track number must be `N` or `N/M`.
pub open spec fn judge_spec(e: Seq<(Seq<char>, Seq<char>)>, path: Seq<char>, check_format: bool) -> (bool, Option<Seq<char>>) {
    let artist = tag_problem(e, "ARTIST"@, "artist"@, path);
    let album = tag_problem(e, "ALBUM"@, "album"@, path);
    let title = tag_problem(e, "TITLE"@, "title"@, path);
    let track = tag_problem(e, "TRACKNUMBER"@, "tracknumber"@, path);
    if artist is Some {
        (false, artist)
    } else if album is Some {
        (false, album)
    } else if title is Some {
        (false, title)
    } else if track is Some {
        (false, track)
    } else if check_format && !is_tracknumber_format(crate::text::lookup(e, "TRACKNUMBER"@)->0) {
        (false, Some(path + " has a malformed tracknumber tag ("@ + debug_quoted(crate::text::lookup(e, "TRACKNUMBER"@)->0) + ")"@))
    } else {
        (true, None)
    }
}

/// A tag with key `key` and a non-empty value stands in `e` (the first
/// entry with that key is the one read).
pub open spec fn has_filled_tag(e: Seq<(Seq<char>, Seq<char>)>, key: Seq<char>) -> bool {
    exists|i: int|
        0 <= i < e.len() && #[trigger] e[i].0 == key && e[i].1.len() > 0
            && forall|j: int| 0 <= j < i ==> (#[trigger] e[j]).0 != key
}

proof fn lemma_lookup_first(e: Seq<(Seq<char>, Seq<char>)>, key: Seq<char>)
    ensures
        crate::text::lookup(e, key) matches Some(v) ==> exists|i: int|
            0 <= i < e.len() && #[trigger] e[i] == (key, v) && forall|j: int| 0 <= j < i ==> (#[trigger] e[j]).0 != key,
        crate::text::lookup(e, key) is None ==> forall|i: int| 0 <= i < e.len() ==> (#[trigger] e[i]).0 != key,
    decreases e.len(),
{
    if e.len() > 0 && e[0].0 != key {
        let d = e.drop_first();
        lemma_lookup_first(d, key);
        if let Some(v) = crate::text::lookup(e, key) {
            let i = choose|i: int| 0 <= i < d.len() && #[trigger] d[i] == (key, v) && forall|j: int| 0 <= j < i ==> (#[trigger] d[j]).0 != key;
            assert(e[i + 1] == d[i]);
            assert forall|j: int| 0 <= j < i + 1 implies (#[trigger] e[j]).0 != key by {
                if j > 0 {
                    assert(e[j] == d[j - 1]);
                }
            }
        } else {
            assert forall|i: int| 0 <= i < e.len() implies (#[trigger] e[i]).0 != key by {
                if i > 0 {
                    assert(e[i] == d[i - 1]);
                }
            }
        }
    } else if e.len() > 0 {
        assert(e[0] == (key, e[0].1));
    }
}

proof fn lemma_filled_tag(e: Seq<(Seq<char>, Seq<char>)>, key: Seq<char>)
    ensures
        has_filled_tag(e, key) <==> (crate::text::lookup(e, key) matches Some(v) && v.len() > 0),
{
    lemma_lookup_first(e, key);
    if has_filled_tag(e, key) {
        let i = choose|i: int|
            0 <= i < e.len() && #[trigger] e[i].0 == key && e[i].1.len() > 0
                && forall|j: int| 0 <= j < i ==> (#[trigger] e[j]).0 != key;
        if let Some(v) = crate::text::lookup(e, key) {
            let k = choose|k: int|
                0 <= k < e.len() && #[trigger] e[k] == (key, v) && forall|j: int| 0 <= j < k ==> (#[trigger] e[j]).0 != key;
            if k < i {
                assert(e[k].0 == key);
            } else if i < k {
                assert(e[i].0 == key);
            }
            assert(k == i);
            assert(v == e[i].1);
        } else {
            assert(e[i].0 != key);
        }
    } else if let Some(v) = crate::text::lookup(e, key) {
        if v.len() > 0 {
            let k = choose|k: int|
                0 <= k < e.len() && #[trigger] e[k] == (key, v) && forall|j: int| 0 <= j < k ==> (#[trigger] e[j]).0 != key;
            assert(e[k].0 == key && e[k].1 == v);
            assert(has_filled_tag(e, key));
        }
    }
}

/// The tag check accepts exactly the tags where artist, album, title and
/// track number are all present with non-empty values, and, when the format
/// is checked, the track number reads `N` or `N/M`; whenever it rejects, it
/// says why.
pub proof fn lemma_judge_tags(e: Seq<(Seq<char>, Seq<char>)>, path: Seq<char>, check_format: bool)
    ensures
        judge_spec(e, path, check_format).0 <==> {
            &&& has_filled_tag(e, "ARTIST"@)
            &&& has_filled_tag(e, "ALBUM"@)
            &&& has_filled_tag(e, "TITLE"@)
            &&& has_filled_tag(e, "TRACKNUMBER"@)
            &&& (check_format ==> is_tracknumber_format(crate::text::lookup(e, "TRACKNUMBER"@)->0))
        },
        judge_spec(e, path, check_format).0 <==> judge_spec(e, path, check_format).1 is None,
        !has_filled_tag(e, "TITLE"@) && has_filled_tag(e, "ARTIST"@) && has_filled_tag(e, "ALBUM"@)
            && crate::text::lookup(e, "TITLE"@) is None
            ==> judge_spec(e, path, check_format) == (false, Some(path + " has no title tag"@)),
{
    lemma_filled_tag(e, "ARTIST"@);
    lemma_filled_tag(e, "ALBUM"@);
    lemma_filled_tag(e, "TITLE"@);
    lemma_filled_tag(e, "TRACKNUMBER"@);
    reveal_strlit(" has no ");
    reveal_strlit("title");
    reveal_strlit(" tag");
    reveal_strlit(" has no title tag");
    assert(path + " has no "@ + "title"@ + " tag"@ =~= path + " has no title tag"@);
}

fn tag_problem_exec(tags: &Vec<(String, String)>, key: &str, lower: &str, path: &str) -> (r: Option<String>)
    ensures
        crate::text::opt_view(r) == tag_problem(crate::text::pairs_view(tags@), key@, lower@, path@),
{
    match crate::text::lookup_exec(tags, key) {
        None => {
            let mut m = owned(path);
            m.append(" has no ");
            m.append(lower);
            m.append(" tag");
            Some(m)
        },
        Some(v) => {
            if v.as_str().is_empty() {
                let mut m = owned(path);
                m.append(" has an empty ");
                m.append(lower);
                m.append(" tag");
                Some(m)
            } else {
                None
            }
        },
    }
}

/// The tag check on the tags of a file (see `judge_spec`); `path_debug` is
/// how the file's path is shown in messages.
pub fn judge_tags(tags: &Vec<(String, String)>, path_debug: &str, check_tracknumber_format: bool) -> (r: (bool, Option<String>))
    ensures
        (r.0, crate::text::opt_view(r.1)) == judge_spec(crate::text::pairs_view(tags@), path_debug@, check_tracknumber_format),
{
    let p = tag_problem_exec(tags, "ARTIST", "artist", path_debug);
    if p.is_some() {
        return (false, p);
    }
    let p = tag_problem_exec(tags, "ALBUM", "album", path_debug);
    if p.is_some() {
        return (false, p);
    }
    let p = tag_problem_exec(tags, "TITLE", "title", path_debug);
    if p.is_some() {
        return (false, p);
    }
    let p = tag_problem_exec(tags, "TRACKNUMBER", "tracknumber", path_debug);
    if p.is_some() {
        return (false, p);
    }
    if check_tracknumber_format {
        match crate::text::lookup_exec(tags, "TRACKNUMBER") {
            Some(t) => {
                if !tracknumber_format_ok(t.as_str()) {
                    let mut m = owned(path_debug);
                    m.append(" has a malformed tracknumber tag (");
                    let d = debug_string(t.as_str());
                    m.append(d.as_str());
                    m.append(")");
                    return (false, Some(m));
                }
            },
            None => {},
        }
    }
    (true, None)
}

/// The kind of file whose tags are checked or written, by its lowercased
/// extension.
#[derive(Debug)]
pub enum TagFileKind {
    Flac,
    Mp3,
    Unsupported(String),
}

/// The kind of a file with the given extension (compared in lower case);
/// `Unsupported` holds the lowercased extension.
pub fn tag_file_kind(extension: Option<&str>) -> (k: TagFileKind)
    ensures
        ({
            let lower = unicode_lowercase(match extension { Some(e) => e@, None => Seq::<char>::empty() });
            match k {
                TagFileKind::Flac => lower == "flac"@,
                TagFileKind::Mp3 => lower == "mp3"@,
                TagFileKind::Unsupported(e) => e@ == lower && lower != "flac"@ && lower != "mp3"@,
            }
        }),
{
    let ext = match extension {
        Some(e) => to_lowercase(e),
        None => to_lowercase(""),
    };
    proof {
        reveal_strlit("");
        assert(""@ =~= Seq::<char>::empty());
    }
    kind_of_extension(ext)
}

/// The kind of a file whose extension, in lower case, is `lower`.
pub fn kind_of_extension(lower: String) -> (k: TagFileKind)
    ensures
        match k {
            TagFileKind::Flac => lower@ == "flac"@,
            TagFileKind::Mp3 => lower@ == "mp3"@,
            TagFileKind::Unsupported(e) => e@ == lower@ && lower@ != "flac"@ && lower@ != "mp3"@,
        },
{
    if str_eq(lower.as_str(), "flac") {
        TagFileKind::Flac
    } else if str_eq(lower.as_str(), "mp3") {
        TagFileKind::Mp3
    } else {
        TagFileKind::Unsupported(lower)
    }
}

/// The outcome of the tag check of a file: `kind` from its extension, and
/// the tags read from it (or why reading failed) unless the kind is
/// unsupported.
pub open spec fn check_tags_spec(
    kind: TagFileKind,
    tags: Result<Seq<(Seq<char>, Seq<char>)>, Seq<char>>,
    path: Seq<char>,
    check_format: bool,
) -> (bool, Option<Seq<char>>) {
    match kind {
        TagFileKind::Unsupported(ext) => (false, Some("Unsupported format: "@ + ext@)),
        _ => match tags {
            Err(e) => (false, Some("Failed to read tags: "@ + e)),
            Ok(t) => judge_spec(t, path, check_format),
        },
    }
}

/// What the id3 crate reads from a file's bytes: `None` when it finds no
/// readable tag, and otherwise the tag's title, artist, album and track
/// number.
pub uninterp spec fn id3_fields_of(bytes: Seq<u8>) -> Option<(Option<Seq<char>>, Option<Seq<char>>, Option<Seq<char>>, Option<u32>)>;

/// Reads an ID3 tag with `id3::Tag::read_from2` and takes its title, artist,
/// album and track (`TagLike`); an error gives `None`. The result is named
/// `id3_fields_of`.
#[verifier::external_body]
fn read_id3_fields(bytes: &[u8]) -> (r: Option<(Option<String>, Option<String>, Option<String>, Option<u32>)>)
    ensures
        match r {
            Some(x) => id3_fields_of(bytes@) == Some((crate::text::opt_view(x.0), crate::text::opt_view(x.1), crate::text::opt_view(x.2), x.3)),
            None => id3_fields_of(bytes@) is None,
        },
{
    match id3::Tag::read_from2(std::io::Cursor::new(bytes)) {
        Ok(t) => Some((
            id3::TagLike::title(&t).map(String::from),
            id3::TagLike::artist(&t).map(String::from),
            id3::TagLike::album(&t).map(String::from),
            id3::TagLike::track(&t),
        )),
        Err(_) => None,
    }
}

/// The tags checked on an MP3 file with contents `bytes` (see
/// `mp3_tags_spec`); none when it has no readable ID3 tag.
pub fn mp3_tags_from_bytes(bytes: &[u8]) -> (r: Vec<(String, String)>)
    ensures
        crate::text::pairs_view(r@) == match id3_fields_of(bytes@) {
            Some((t, a, al, tr)) => mp3_tags_spec(t, a, al, tr),
            None => mp3_tags_spec(None, None, None, None),
        },
{
    match read_id3_fields(bytes) {
        Some((t, a, al, tr)) => mp3_tags(t, a, al, tr),
        None => mp3_tags(None, None, None, None),
    }
}

/// The tag check of a file whose kind is `kind` and whose tags were read as
/// `tags`; `path_debug` is how its path is shown in messages.
pub fn check_tags(
    kind: &TagFileKind,
    tags: &Result<Vec<(String, String)>, String>,
    path_debug: &str,
    check_tracknumber_format: bool,
) -> (r: (bool, Option<String>))
    ensures
        (r.0, crate::text::opt_view(r.1)) == check_tags_spec(
            *kind,
            match tags {
                Ok(t) => Ok(crate::text::pairs_view(t@)),
                Err(e) => Err(e@),
            },
            path_debug@,
            check_tracknumber_format,
        ),
{
    match kind {
        TagFileKind::Unsupported(ext) => (false, Some(concat("Unsupported format: ", ext.as_str()))),
        _ => match tags {
            Err(e) => (false, Some(concat("Failed to read tags: ", e.as_str()))),
            Ok(t) => judge_tags(t, path_debug, check_tracknumber_format),
        },
    }
}

// ---------------------------------------------------------------------------
// Copying tags to a transcode.
// ---------------------------------------------------------------------------

/// The ID3 frame that a Vorbis comment key is written to.
pub open spec fn vorbis_frame_spec(key: Seq<char>) -> Option<Seq<char>> {
    if key == "ARTIST"@ {
        Some("TPE1"@)
    } else if key == "ALBUM"@ {
        Some("TALB"@)
    } else if key == "TITLE"@ {
        Some("TIT2"@)
    } else if key == "TRACKNUMBER"@ {
        Some("TRCK"@)
    } else if key == "DISCNUMBER"@ {
        Some("TPOS"@)
    } else if key == "DATE"@ {
        Some("TDRC"@)
    } else if key == "GENRE"@ {
        Some("TCON"@)
    } else if key == "ALBUMARTIST"@ || key == "ALBUM ARTIST"@ {
        Some("TPE2"@)
    } else if key == "GROUPING"@ || key == "CONTENT GROUP"@ {
        Some("TIT1"@)
    } else {
        None
    }
}

/// The Vorbis comment keys and their ID3 frames: ARTIST is the lead
/// performer (TPE1), ALBUM the album title (TALB), TITLE the title (TIT2),
/// TRACKNUMBER the track (TRCK), DISCNUMBER the part of a set (TPOS), DATE
/// the recording time (TDRC), GENRE the content type (TCON), ALBUMARTIST or
/// ALBUM ARTIST the band (TPE2), GROUPING or CONTENT GROUP the content group
/// (TIT1); every other key has no frame.
pub proof fn lemma_vorbis_frames(key: Seq<char>)
    ensures
        vorbis_frame_spec(key) == Some("TPE1"@) <==> (key == "ARTIST"@),
        vorbis_frame_spec(key) == Some("TALB"@) <==> (key == "ALBUM"@),
        vorbis_frame_spec(key) == Some("TIT2"@) <==> (key == "TITLE"@),
        vorbis_frame_spec(key) == Some("TRCK"@) <==> (key == "TRACKNUMBER"@),
        vorbis_frame_spec(key) == Some("TPOS"@) <==> (key == "DISCNUMBER"@),
        vorbis_frame_spec(key) == Some("TDRC"@) <==> (key == "DATE"@),
        vorbis_frame_spec(key) == Some("TCON"@) <==> (key == "GENRE"@),
        vorbis_frame_spec(key) == Some("TPE2"@) <==> (key == "ALBUMARTIST"@ || key == "ALBUM ARTIST"@),
        vorbis_frame_spec(key) == Some("TIT1"@) <==> (key == "GROUPING"@ || key == "CONTENT GROUP"@),
        vorbis_frame_spec(key) is None <==> !(key == "ARTIST"@ || key == "ALBUM"@ || key == "TITLE"@ || key == "TRACKNUMBER"@ || key == "DISCNUMBER"@ || key == "DATE"@ || key == "GENRE"@ || key == "ALBUMARTIST"@ || key == "ALBUM ARTIST"@ || key == "GROUPING"@ || key == "CONTENT GROUP"@),
{
    reveal_strlit("ALBUM");
    reveal_strlit("ALBUM ARTIST");
    reveal_strlit("ALBUMARTIST");
    reveal_strlit("ARTIST");
    reveal_strlit("CONTENT GROUP");
    reveal_strlit("DATE");
    reveal_strlit("DISCNUMBER");
    reveal_strlit("GENRE");
    reveal_strlit("GROUPING");
    reveal_strlit("TALB");
    reveal_strlit("TCON");
    reveal_strlit("TDRC");
    reveal_strlit("TIT1");
    reveal_strlit("TIT2");
    reveal_strlit("TITLE");
    reveal_strlit("TPE1");
    reveal_strlit("TPE2");
    reveal_strlit("TPOS");
    reveal_strlit("TRACKNUMBER");
    reveal_strlit("TRCK");
    assert("TPE1"@ != "TALB"@) by { assert("TPE1"@[1] != "TALB"@[1]); }
    assert("TPE1"@ != "TIT2"@) by { assert("TPE1"@[1] != "TIT2"@[1]); }
    assert("TPE1"@ != "TRCK"@) by { assert("TPE1"@[1] != "TRCK"@[1]); }
    assert("TPE1"@ != "TPOS"@) by { assert("TPE1"@[2] != "TPOS"@[2]); }
    assert("TPE1"@ != "TDRC"@) by { assert("TPE1"@[1] != "TDRC"@[1]); }
    assert("TPE1"@ != "TCON"@) by { assert("TPE1"@[1] != "TCON"@[1]); }
    assert("TPE1"@ != "TPE2"@) by { assert("TPE1"@[3] != "TPE2"@[3]); }
    assert("TPE1"@ != "TIT1"@) by { assert("TPE1"@[1] != "TIT1"@[1]); }
    assert("TALB"@ != "TIT2"@) by { assert("TALB"@[1] != "TIT2"@[1]); }
    assert("TALB"@ != "TRCK"@) by { assert("TALB"@[1] != "TRCK"@[1]); }
    assert("TALB"@ != "TPOS"@) by { assert("TALB"@[1] != "TPOS"@[1]); }
    assert("TALB"@ != "TDRC"@) by { assert("TALB"@[1] != "TDRC"@[1]); }
    assert("TALB"@ != "TCON"@) by { assert("TALB"@[1] != "TCON"@[1]); }
    assert("TALB"@ != "TPE2"@) by { assert("TALB"@[1] != "TPE2"@[1]); }
    assert("TALB"@ != "TIT1"@) by { assert("TALB"@[1] != "TIT1"@[1]); }
    assert("TIT2"@ != "TRCK"@) by { assert("TIT2"@[1] != "TRCK"@[1]); }
    assert("TIT2"@ != "TPOS"@) by { assert("TIT2"@[1] != "TPOS"@[1]); }
    assert("TIT2"@ != "TDRC"@) by { assert("TIT2"@[1] != "TDRC"@[1]); }
    assert("TIT2"@ != "TCON"@) by { assert("TIT2"@[1] != "TCON"@[1]); }
    assert("TIT2"@ != "TPE2"@) by { assert("TIT2"@[1] != "TPE2"@[1]); }
    assert("TIT2"@ != "TIT1"@) by { assert("TIT2"@[3] != "TIT1"@[3]); }
    assert("TRCK"@ != "TPOS"@) by { assert("TRCK"@[1] != "TPOS"@[1]); }
    assert("TRCK"@ != "TDRC"@) by { assert("TRCK"@[1] != "TDRC"@[1]); }
    assert("TRCK"@ != "TCON"@) by { assert("TRCK"@[1] != "TCON"@[1]); }
    assert("TRCK"@ != "TPE2"@) by { assert("TRCK"@[1] != "TPE2"@[1]); }
    assert("TRCK"@ != "TIT1"@) by { assert("TRCK"@[1] != "TIT1"@[1]); }
    assert("TPOS"@ != "TDRC"@) by { assert("TPOS"@[1] != "TDRC"@[1]); }
    assert("TPOS"@ != "TCON"@) by { assert("TPOS"@[1] != "TCON"@[1]); }
    assert("TPOS"@ != "TPE2"@) by { assert("TPOS"@[2] != "TPE2"@[2]); }
    assert("TPOS"@ != "TIT1"@) by { assert("TPOS"@[1] != "TIT1"@[1]); }
    assert("TDRC"@ != "TCON"@) by { assert("TDRC"@[1] != "TCON"@[1]); }
    assert("TDRC"@ != "TPE2"@) by { assert("TDRC"@[1] != "TPE2"@[1]); }
    assert("TDRC"@ != "TIT1"@) by { assert("TDRC"@[1] != "TIT1"@[1]); }
    assert("TCON"@ != "TPE2"@) by { assert("TCON"@[1] != "TPE2"@[1]); }
    assert("TCON"@ != "TIT1"@) by { assert("TCON"@[1] != "TIT1"@[1]); }
    assert("TPE2"@ != "TIT1"@) by { assert("TPE2"@[1] != "TIT1"@[1]); }
    assert("ARTIST"@ != "ALBUM"@) by { assert("ARTIST"@.len() != "ALBUM"@.len()); }
    assert("ARTIST"@ != "TITLE"@) by { assert("ARTIST"@.len() != "TITLE"@.len()); }
    assert("ARTIST"@ != "TRACKNUMBER"@) by { assert("ARTIST"@.len() != "TRACKNUMBER"@.len()); }
    assert("ARTIST"@ != "DISCNUMBER"@) by { assert("ARTIST"@.len() != "DISCNUMBER"@.len()); }
    assert("ARTIST"@ != "DATE"@) by { assert("ARTIST"@.len() != "DATE"@.len()); }
    assert("ARTIST"@ != "GENRE"@) by { assert("ARTIST"@.len() != "GENRE"@.len()); }
    assert("ARTIST"@ != "ALBUMARTIST"@) by { assert("ARTIST"@.len() != "ALBUMARTIST"@.len()); }
    assert("ARTIST"@ != "ALBUM ARTIST"@) by { assert("ARTIST"@.len() != "ALBUM ARTIST"@.len()); }
    assert("ARTIST"@ != "GROUPING"@) by { assert("ARTIST"@.len() != "GROUPING"@.len()); }
    assert("ARTIST"@ != "CONTENT GROUP"@) by { assert("ARTIST"@.len() != "CONTENT GROUP"@.len()); }
    assert("ALBUM"@ != "TITLE"@) by { assert("ALBUM"@[0] != "TITLE"@[0]); }
    assert("ALBUM"@ != "TRACKNUMBER"@) by { assert("ALBUM"@.len() != "TRACKNUMBER"@.len()); }
    assert("ALBUM"@ != "DISCNUMBER"@) by { assert("ALBUM"@.len() != "DISCNUMBER"@.len()); }
    assert("ALBUM"@ != "DATE"@) by { assert("ALBUM"@.len() != "DATE"@.len()); }
    assert("ALBUM"@ != "GENRE"@) by { assert("ALBUM"@[0] != "GENRE"@[0]); }
    assert("ALBUM"@ != "ALBUMARTIST"@) by { assert("ALBUM"@.len() != "ALBUMARTIST"@.len()); }
    assert("ALBUM"@ != "ALBUM ARTIST"@) by { assert("ALBUM"@.len() != "ALBUM ARTIST"@.len()); }
    assert("ALBUM"@ != "GROUPING"@) by { assert("ALBUM"@.len() != "GROUPING"@.len()); }
    assert("ALBUM"@ != "CONTENT GROUP"@) by { assert("ALBUM"@.len() != "CONTENT GROUP"@.len()); }
    assert("TITLE"@ != "TRACKNUMBER"@) by { assert("TITLE"@.len() != "TRACKNUMBER"@.len()); }
    assert("TITLE"@ != "DISCNUMBER"@) by { assert("TITLE"@.len() != "DISCNUMBER"@.len()); }
    assert("TITLE"@ != "DATE"@) by { assert("TITLE"@.len() != "DATE"@.len()); }
    assert("TITLE"@ != "GENRE"@) by { assert("TITLE"@[0] != "GENRE"@[0]); }
    assert("TITLE"@ != "ALBUMARTIST"@) by { assert("TITLE"@.len() != "ALBUMARTIST"@.len()); }
    assert("TITLE"@ != "ALBUM ARTIST"@) by { assert("TITLE"@.len() != "ALBUM ARTIST"@.len()); }
    assert("TITLE"@ != "GROUPING"@) by { assert("TITLE"@.len() != "GROUPING"@.len()); }
    assert("TITLE"@ != "CONTENT GROUP"@) by { assert("TITLE"@.len() != "CONTENT GROUP"@.len()); }
    assert("TRACKNUMBER"@ != "DISCNUMBER"@) by { assert("TRACKNUMBER"@.len() != "DISCNUMBER"@.len()); }
    assert("TRACKNUMBER"@ != "DATE"@) by { assert("TRACKNUMBER"@.len() != "DATE"@.len()); }
    assert("TRACKNUMBER"@ != "GENRE"@) by { assert("TRACKNUMBER"@.len() != "GENRE"@.len()); }
    assert("TRACKNUMBER"@ != "ALBUMARTIST"@) by { assert("TRACKNUMBER"@[0] != "ALBUMARTIST"@[0]); }
    assert("TRACKNUMBER"@ != "ALBUM ARTIST"@) by { assert("TRACKNUMBER"@.len() != "ALBUM ARTIST"@.len()); }
    assert("TRACKNUMBER"@ != "GROUPING"@) by { assert("TRACKNUMBER"@.len() != "GROUPING"@.len()); }
    assert("TRACKNUMBER"@ != "CONTENT GROUP"@) by { assert("TRACKNUMBER"@.len() != "CONTENT GROUP"@.len()); }
    assert("DISCNUMBER"@ != "DATE"@) by { assert("DISCNUMBER"@.len() != "DATE"@.len()); }
    assert("DISCNUMBER"@ != "GENRE"@) by { assert("DISCNUMBER"@.len() != "GENRE"@.len()); }
    assert("DISCNUMBER"@ != "ALBUMARTIST"@) by { assert("DISCNUMBER"@.len() != "ALBUMARTIST"@.len()); }
    assert("DISCNUMBER"@ != "ALBUM ARTIST"@) by { assert("DISCNUMBER"@.len() != "ALBUM ARTIST"@.len()); }
    assert("DISCNUMBER"@ != "GROUPING"@) by { assert("DISCNUMBER"@.len() != "GROUPING"@.len()); }
    assert("DISCNUMBER"@ != "CONTENT GROUP"@) by { assert("DISCNUMBER"@.len() != "CONTENT GROUP"@.len()); }
    assert("DATE"@ != "GENRE"@) by { assert("DATE"@.len() != "GENRE"@.len()); }
    assert("DATE"@ != "ALBUMARTIST"@) by { assert("DATE"@.len() != "ALBUMARTIST"@.len()); }
    assert("DATE"@ != "ALBUM ARTIST"@) by { assert("DATE"@.len() != "ALBUM ARTIST"@.len()); }
    assert("DATE"@ != "GROUPING"@) by { assert("DATE"@.len() != "GROUPING"@.len()); }
    assert("DATE"@ != "CONTENT GROUP"@) by { assert("DATE"@.len() != "CONTENT GROUP"@.len()); }
    assert("GENRE"@ != "ALBUMARTIST"@) by { assert("GENRE"@.len() != "ALBUMARTIST"@.len()); }
    assert("GENRE"@ != "ALBUM ARTIST"@) by { assert("GENRE"@.len() != "ALBUM ARTIST"@.len()); }
    assert("GENRE"@ != "GROUPING"@) by { assert("GENRE"@.len() != "GROUPING"@.len()); }
    assert("GENRE"@ != "CONTENT GROUP"@) by { assert("GENRE"@.len() != "CONTENT GROUP"@.len()); }
    assert("ALBUMARTIST"@ != "ALBUM ARTIST"@) by { assert("ALBUMARTIST"@.len() != "ALBUM ARTIST"@.len()); }
    assert("ALBUMARTIST"@ != "GROUPING"@) by { assert("ALBUMARTIST"@.len() != "GROUPING"@.len()); }
    assert("ALBUMARTIST"@ != "CONTENT GROUP"@) by { assert("ALBUMARTIST"@.len() != "CONTENT GROUP"@.len()); }
    assert("ALBUM ARTIST"@ != "GROUPING"@) by { assert("ALBUM ARTIST"@.len() != "GROUPING"@.len()); }
    assert("ALBUM ARTIST"@ != "CONTENT GROUP"@) by { assert("ALBUM ARTIST"@.len() != "CONTENT GROUP"@.len()); }
    assert("GROUPING"@ != "CONTENT GROUP"@) by { assert("GROUPING"@.len() != "CONTENT GROUP"@.len()); }
}

/// The ID3 frame that a Vorbis comment key is written to, if any.
pub fn vorbis_to_id3_frame(key: &str) -> (r: Option<&'static str>)
    ensures
        match r {
            Some(f) => vorbis_frame_spec(key@) == Some(f@),
            None => vorbis_frame_spec(key@) is None,
        },
{
    if str_eq(key, "ARTIST") {
        Some("TPE1")
    } else if str_eq(key, "ALBUM") {
        Some("TALB")
    } else if str_eq(key, "TITLE") {
        Some("TIT2")
    } else if str_eq(key, "TRACKNUMBER") {
        Some("TRCK")
    } else if str_eq(key, "DISCNUMBER") {
        Some("TPOS")
    } else if str_eq(key, "DATE") {
        Some("TDRC")
    } else if str_eq(key, "GENRE") {
        Some("TCON")
    } else if str_eq(key, "ALBUMARTIST") || str_eq(key, "ALBUM ARTIST") {
        Some("TPE2")
    } else if str_eq(key, "GROUPING") || str_eq(key, "CONTENT GROUP") {
        Some("TIT1")
    } else {
        None
    }
}

/// The content of an ID3 frame.
#[derive(Debug)]
pub enum Id3Content {
    Text(String),
    Comment { lang: String, description: String, text: String },
}

/// An ID3 frame to write: its identifier and content.
#[derive(Debug)]
pub struct Id3Frame {
    pub id: String,
    pub content: Id3Content,
}

/// What an ID3 frame holds, as plain values.
pub enum FrameView {
    Text(Seq<char>, Seq<char>),
    Comment(Seq<char>, Seq<char>, Seq<char>, Seq<char>),
}

pub open spec fn frame_view(f: Id3Frame) -> FrameView {
    match f.content {
        Id3Content::Text(t) => FrameView::Text(f.id@, t@),
        Id3Content::Comment { lang, description, text } => FrameView::Comment(f.id@, lang@, description@, text@),
    }
}

pub open spec fn frames_view(v: Seq<Id3Frame>) -> Seq<FrameView> {
    v.map_values(|f: Id3Frame| frame_view(f))
}

/// The `KEY=value` assignments for the values of one key whose scrubbed
/// value is not empty.
pub open spec fn value_assignments(k: Seq<char>, vs: Seq<Seq<char>>) -> Seq<Seq<char>>
    decreases vs.len(),
{
    if vs.len() == 0 {
        Seq::<Seq<char>>::empty()
    } else {
        let prev = value_assignments(k, vs.drop_last());
        let sc = scrub_spec(unicode_lowercase(k), vs.last());
        if sc.len() > 0 {
            prev.push(k + "="@ + sc)
        } else {
            prev
        }
    }
}

/// The `KEY=value` assignments that copy FLAC tags to a FLAC transcode.
pub open spec fn flac_assignments_spec(e: Seq<(Seq<char>, Seq<Seq<char>>)>) -> Seq<Seq<char>>
    decreases e.len(),
{
    if e.len() == 0 {
        Seq::<Seq<char>>::empty()
    } else {
        flac_assignments_spec(e.drop_last()) + value_assignments(e.last().0, e.last().1)
    }
}

/// The text frame for one tag, if its scrubbed (joined) value is not empty
/// and its key has a frame other than the track and disc numbers.
pub open spec fn entry_text_frame(k: Seq<char>, vs: Seq<Seq<char>>) -> Option<FrameView> {
    let sc = scrub_spec(unicode_lowercase(k), join_spec(vs, "/"@));
    if sc.len() == 0 {
        None
    } else {
        match vorbis_frame_spec(k) {
            Some(fid) => if fid == "TRCK"@ || fid == "TPOS"@ {
                None
            } else {
                Some(FrameView::Text(fid, sc))
            },
            None => None,
        }
    }
}

/// The text frames of all tags, in order.
pub open spec fn text_frames(e: Seq<(Seq<char>, Seq<Seq<char>>)>) -> Seq<FrameView>
    decreases e.len(),
{
    if e.len() == 0 {
        Seq::<FrameView>::empty()
    } else {
        let prev = text_frames(e.drop_last());
        match entry_text_frame(e.last().0, e.last().1) {
            Some(f) => prev.push(f),
            None => prev,
        }
    }
}

/// The values of the first tag with key `k`.
pub open spec fn tag_values(e: Seq<(Seq<char>, Seq<Seq<char>>)>, k: Seq<char>) -> Option<Seq<Seq<char>>> {
    let i = find_key(e, k);
    if i >= 0 {
        Some(e[i].1)
    } else {
        None
    }
}

/// The scrubbed first value of `key` under the name `name`, when it is not empty.
pub open spec fn scrubbed_first(e: Seq<(Seq<char>, Seq<Seq<char>>)>, key: Seq<char>, name: Seq<char>) -> Option<Seq<char>> {
    match tag_values(e, key) {
        Some(vs) => {
            let sc = scrub_spec(name, vs[0]);
            if sc.len() > 0 {
                Some(sc)
            } else {
                None
            }
        },
        None => None,
    }
}

/// The number frame `fid` (track or disc): the scrubbed number, with `/`
/// and the scrubbed total when there is one; the total comes from
/// `total1`, or from `total2` when there is no `total1` tag.
pub open spec fn number_frame(
    e: Seq<(Seq<char>, Seq<Seq<char>>)>,
    key: Seq<char>,
    name: Seq<char>,
    total1: Seq<char>,
    total2: Seq<char>,
    total_name: Seq<char>,
    fid: Seq<char>,
) -> Option<FrameView> {
    match scrubbed_first(e, key, name) {
        None => None,
        Some(n) => {
            let total_key = if tag_values(e, total1) is Some { total1 } else { total2 };
            match scrubbed_first(e, total_key, total_name) {
                Some(t) => Some(FrameView::Text(fid, n + "/"@ + t)),
                None => Some(FrameView::Text(fid, n)),
            }
        },
    }
}

pub open spec fn opt_seq<T>(o: Option<T>) -> Seq<T> {
    match o {
        Some(x) => seq![x],
        None => Seq::<T>::empty(),
    }
}

/// The ID3 frames that copy FLAC tags to an MP3 transcode, in the order
/// they are added: text frames, track number, disc number, comment,
/// original date.
pub open spec fn mp3_frames_spec(e: Seq<(Seq<char>, Seq<Seq<char>>)>) -> Seq<FrameView> {
    text_frames(e)
        + opt_seq(number_frame(e, "TRACKNUMBER"@, "tracknumber"@, "TOTALTRACKS"@, "TRACKTOTAL"@, "totaltracks"@, "TRCK"@))
        + opt_seq(number_frame(e, "DISCNUMBER"@, "discnumber"@, "TOTALDISCS"@, "DISCTOTAL"@, "totaldiscs"@, "TPOS"@))
        + opt_seq(match scrubbed_first(e, "COMMENT"@, "comment"@) {
            Some(c) => Some(FrameView::Comment("COMM"@, "eng"@, Seq::<char>::empty(), c)),
            None => None,
        })
        + opt_seq(match scrubbed_first(e, "ORIGINALDATE"@, "originaldate"@) {
            Some(d) => Some(FrameView::Text("TDOR"@, d)),
            None => None,
        })
}

proof fn lemma_text_frames_contain(e: Seq<(Seq<char>, Seq<Seq<char>>)>, i: int)
    requires
        0 <= i < e.len(),
        entry_text_frame(e[i].0, e[i].1) is Some,
    ensures
        text_frames(e).contains(entry_text_frame(e[i].0, e[i].1)->0),
    decreases e.len(),
{
    let prev = text_frames(e.drop_last());
    if i == e.len() - 1 {
        assert(text_frames(e) == prev.push(entry_text_frame(e[i].0, e[i].1)->0));
        assert(text_frames(e)[prev.len() as int] == entry_text_frame(e[i].0, e[i].1)->0);
    } else {
        assert(e.drop_last()[i] == e[i]);
        lemma_text_frames_contain(e.drop_last(), i);
        let f = entry_text_frame(e[i].0, e[i].1)->0;
        let k = choose|k: int| 0 <= k < prev.len() && prev[k] == f;
        match entry_text_frame(e.last().0, e.last().1) {
            Some(g) => assert(prev.push(g)[k] == f),
            None => {},
        }
    }
}

/// Copying tags to an MP3 file writes each of the tags TITLE, ARTIST,
/// ALBUM, DATE and GENRE whose (joined, scrubbed) value is not empty as its
/// ID3 text frame: TITLE as TIT2, ARTIST as TPE1, ALBUM as TALB, DATE as
/// TDRC and GENRE as TCON, with that value.
pub proof fn lemma_mp3_text_frames(e: Seq<(Seq<char>, Seq<Seq<char>>)>, i: int)
    requires
        0 <= i < e.len(),
    ensures
        ({
            let k = e[i].0;
            let sc = scrub_spec(unicode_lowercase(k), join_spec(e[i].1, "/"@));
            sc.len() > 0 ==> {
                &&& k == "TITLE"@ ==> mp3_frames_spec(e).contains(FrameView::Text("TIT2"@, sc))
                &&& k == "ARTIST"@ ==> mp3_frames_spec(e).contains(FrameView::Text("TPE1"@, sc))
                &&& k == "ALBUM"@ ==> mp3_frames_spec(e).contains(FrameView::Text("TALB"@, sc))
                &&& k == "DATE"@ ==> mp3_frames_spec(e).contains(FrameView::Text("TDRC"@, sc))
                &&& k == "GENRE"@ ==> mp3_frames_spec(e).contains(FrameView::Text("TCON"@, sc))
            }
        }),
{
    let k = e[i].0;
    let sc = scrub_spec(unicode_lowercase(k), join_spec(e[i].1, "/"@));
    lemma_vorbis_frames(k);
    reveal_strlit("TRCK");
    reveal_strlit("TPOS");
    reveal_strlit("TIT2");
    reveal_strlit("TPE1");
    reveal_strlit("TALB");
    reveal_strlit("TDRC");
    reveal_strlit("TCON");
    assert("TIT2"@ != "TRCK"@ && "TIT2"@ != "TPOS"@) by { assert("TIT2"@[1] != "TRCK"@[1] && "TIT2"@[1] != "TPOS"@[1]); }
    assert("TPE1"@ != "TRCK"@ && "TPE1"@ != "TPOS"@) by { assert("TPE1"@[1] != "TRCK"@[1] && "TPE1"@[2] != "TPOS"@[2]); }
    assert("TALB"@ != "TRCK"@ && "TALB"@ != "TPOS"@) by { assert("TALB"@[1] != "TRCK"@[1] && "TALB"@[1] != "TPOS"@[1]); }
    assert("TDRC"@ != "TRCK"@ && "TDRC"@ != "TPOS"@) by { assert("TDRC"@[1] != "TRCK"@[1] && "TDRC"@[1] != "TPOS"@[1]); }
    assert("TCON"@ != "TRCK"@ && "TCON"@ != "TPOS"@) by { assert("TCON"@[1] != "TRCK"@[1] && "TCON"@[1] != "TPOS"@[1]); }
    if sc.len() > 0 && vorbis_frame_spec(k) is Some {
        let fid = vorbis_frame_spec(k)->0;
        if fid != "TRCK"@ && fid != "TPOS"@ {
            lemma_text_frames_contain(e, i);
            let t = text_frames(e);
            let f = entry_text_frame(k, e[i].1)->0;
            let j = choose|j: int| 0 <= j < t.len() && t[j] == f;
            let m = mp3_frames_spec(e);
            assert(m[j] == t[j]);
            assert(m.contains(f));
        }
    }
}

/// How tags are written to a transcode.
#[derive(Debug)]
pub enum TagWritePlan {
    /// `KEY=value` assignments, each set with `metaflac --set-tag`.
    Flac(Vec<String>),
    /// Frames of a fresh ID3v2.4 tag, added in order.
    Mp3(Vec<Id3Frame>),
}

/// The assignments for one key.
fn value_assignments_exec(k: &String, vs: &Vec<String>) -> (r: Vec<String>)
    ensures
        views(r@) == value_assignments(k@, views(vs@)),
{
    let lower = to_lowercase(k.as_str());
    let mut r: Vec<String> = Vec::new();
    let mut j: usize = 0;
    assert(views(vs@).take(0) =~= Seq::<Seq<char>>::empty());
    while j < vs.len()
        invariant
            0 <= j <= vs.len(),
            lower@ == unicode_lowercase(k@),
            views(r@) == value_assignments(k@, views(vs@).take(j as int)),
        decreases vs.len() - j,
    {
        assert(views(vs@).take(j + 1).drop_last() =~= views(vs@).take(j as int));
        assert(views(vs@).take(j + 1).last() == vs@[j as int]@);
        let sc = scrub_tag(lower.as_str(), vs[j].as_str());
        if !sc.as_str().is_empty() {
            let mut a = k.clone();
            a.append("=");
            a.append(sc.as_str());
            let ghost before = views(r@);
            let ghost av = a@;
            r.push(a);
            assert(views(r@) =~= before.push(av));
        }
        j = j + 1;
    }
    assert(views(vs@).take(vs@.len() as int) =~= views(vs@));
    r
}

/// The `KEY=value` assignments that copy the tags to a FLAC transcode.
pub fn flac_assignments(tags: &FlacTags) -> (r: Vec<String>)
    ensures
        views(r@) == flac_assignments_spec(tags.view_entries()),
{
    let ghost e = tags.view_entries();
    let mut r: Vec<String> = Vec::new();
    let mut i: usize = 0;
    assert(e.take(0) =~= Seq::<(Seq<char>, Seq<Seq<char>>)>::empty());
    while i < tags.entries.len()
        invariant
            e == tags.view_entries(),
            0 <= i <= tags.entries.len(),
            views(r@) == flac_assignments_spec(e.take(i as int)),
        decreases tags.entries.len() - i,
    {
        assert(e.take(i + 1).drop_last() =~= e.take(i as int));
        assert(e.take(i + 1).last() == (tags.entries@[i as int].0@, views(tags.entries@[i as int].1@)));
        let more = value_assignments_exec(&tags.entries[i].0, &tags.entries[i].1);
        let ghost before = views(r@);
        let mut k: usize = 0;
        while k < more.len()
            invariant
                0 <= k <= more.len(),
                views(r@) == before + views(more@).take(k as int),
            decreases more.len() - k,
        {
            let ghost b2 = views(r@);
            r.push(more[k].clone());
            assert(views(r@) =~= b2.push(more@[k as int]@));
            assert(views(more@).take(k + 1) =~= views(more@).take(k as int).push(more@[k as int]@));
            k = k + 1;
        }
        assert(views(more@).take(more@.len() as int) =~= views(more@));
        i = i + 1;
    }
    assert(e.take(tags.entries@.len() as int) =~= e);
    r
}

/// The position of the first tag with key `key`.
fn find_tag(tags: &FlacTags, key: &str) -> (r: Option<usize>)
    ensures
        match r {
            Some(i) => i < tags.entries@.len() && find_key(tags.view_entries(), key@) == i,
            None => find_key(tags.view_entries(), key@) == -1,
        },
{
    let ghost e = tags.view_entries();
    proof {
        lemma_find_key_range(e, key@);
    }
    let mut i: usize = 0;
    while i < tags.entries.len()
        invariant
            e == tags.view_entries(),
            0 <= i <= tags.entries.len(),
            forall|j: int| 0 <= j < i ==> (#[trigger] e[j]).0 != key@,
            -1 <= find_key(e, key@) < e.len(),
            find_key(e, key@) >= 0 ==> e[find_key(e, key@)].0 == key@,
            find_key(e, key@) >= 0 ==> forall|j: int| 0 <= j < find_key(e, key@) ==> (#[trigger] e[j]).0 != key@,
            find_key(e, key@) < 0 ==> forall|j: int| 0 <= j < e.len() ==> (#[trigger] e[j]).0 != key@,
        decreases tags.entries.len() - i,
    {
        assert(e[i as int].0 == tags.entries@[i as int].0@);
        if str_eq(tags.entries[i].0.as_str(), key) {
            return Some(i);
        }
        i = i + 1;
    }
    proof {
        if find_key(e, key@) >= 0 {
            assert(e[find_key(e, key@)].0 == key@);
        }
    }
    None
}

/// The scrubbed first value of `key` under the name `name`, when not empty.
fn scrubbed_first_exec(tags: &FlacTags, key: &str, name: &str) -> (r: Option<String>)
    requires
        tags.wf(),
    ensures
        crate::text::opt_view(r) == scrubbed_first(tags.view_entries(), key@, name@),
{
    match find_tag(tags, key) {
        Some(i) => {
            assert(tags.view_entries()[i as int].1.len() >= 1);
            assert(views(tags.entries@[i as int].1@)[0] == tags.entries@[i as int].1@[0]@);
            let sc = scrub_tag(name, tags.entries[i].1[0].as_str());
            if sc.as_str().is_empty() {
                None
            } else {
                Some(sc)
            }
        },
        None => None,
    }
}

/// The track or disc number frame (see `number_frame`).
fn number_frame_exec(tags: &FlacTags, key: &str, name: &str, total1: &str, total2: &str, total_name: &str, fid: &str) -> (r: Option<Id3Frame>)
    requires
        tags.wf(),
    ensures
        match r {
            Some(f) => number_frame(tags.view_entries(), key@, name@, total1@, total2@, total_name@, fid@) == Some(frame_view(f)),
            None => number_frame(tags.view_entries(), key@, name@, total1@, total2@, total_name@, fid@) is None,
        },
{
    match scrubbed_first_exec(tags, key, name) {
        None => None,
        Some(n) => {
            let total_key = if find_tag(tags, total1).is_some() { total1 } else { total2 };
            let text = match scrubbed_first_exec(tags, total_key, total_name) {
                Some(t) => {
                    let mut x = n;
                    x.append("/");
                    x.append(t.as_str());
                    x
                },
                None => n,
            };
            Some(Id3Frame { id: owned(fid), content: Id3Content::Text(text) })
        },
    }
}

/// The ID3 frames that copy the tags to an MP3 transcode (see `mp3_frames_spec`).
pub fn mp3_frames(tags: &FlacTags) -> (r: Vec<Id3Frame>)
    requires
        tags.wf(),
    ensures
        frames_view(r@) == mp3_frames_spec(tags.view_entries()),
{
    let ghost e = tags.view_entries();
    let mut r: Vec<Id3Frame> = Vec::new();
    let mut i: usize = 0;
    assert(e.take(0) =~= Seq::<(Seq<char>, Seq<Seq<char>>)>::empty());
    while i < tags.entries.len()
        invariant
            e == tags.view_entries(),
            0 <= i <= tags.entries.len(),
            frames_view(r@) == text_frames(e.take(i as int)),
        decreases tags.entries.len() - i,
    {
        assert(e.take(i + 1).drop_last() =~= e.take(i as int));
        assert(e.take(i + 1).last() == (tags.entries@[i as int].0@, views(tags.entries@[i as int].1@)));
        let key = &tags.entries[i].0;
        let joined = join(&tags.entries[i].1, "/");
        let lower = to_lowercase(key.as_str());
        let sc = scrub_tag(lower.as_str(), joined.as_str());
        if !sc.as_str().is_empty() {
            match vorbis_to_id3_frame(key.as_str()) {
                Some(fid) => {
                    if !str_eq(fid, "TRCK") && !str_eq(fid, "TPOS") {
                        let ghost before = frames_view(r@);
                        let f = Id3Frame { id: owned(fid), content: Id3Content::Text(sc) };
                        let ghost fv = frame_view(f);
                        r.push(f);
                        assert(frames_view(r@) =~= before.push(fv));
                    }
                },
                None => {},
            }
        }
        i = i + 1;
    }
    assert(e.take(tags.entries@.len() as int) =~= e);
    let ghost t = frames_view(r@);
    let trck = number_frame_exec(tags, "TRACKNUMBER", "tracknumber", "TOTALTRACKS", "TRACKTOTAL", "totaltracks", "TRCK");
    push_opt(&mut r, trck);
    let tpos = number_frame_exec(tags, "DISCNUMBER", "discnumber", "TOTALDISCS", "DISCTOTAL", "totaldiscs", "TPOS");
    push_opt(&mut r, tpos);
    let comm = match scrubbed_first_exec(tags, "COMMENT", "comment") {
        Some(c) => Some(Id3Frame {
            id: String::from_str("COMM"),
            content: Id3Content::Comment { lang: String::from_str("eng"), description: String::new(), text: c },
        }),
        None => None,
    };
    push_opt(&mut r, comm);
    let tdor = match scrubbed_first_exec(tags, "ORIGINALDATE", "originaldate") {
        Some(d) => Some(Id3Frame { id: String::from_str("TDOR"), content: Id3Content::Text(d) }),
        None => None,
    };
    push_opt(&mut r, tdor);
    assert(frames_view(r@) =~= mp3_frames_spec(e));
    r
}

/// Appends the frame, if there is one.
fn push_opt(r: &mut Vec<Id3Frame>, f: Option<Id3Frame>)
    ensures
        frames_view(final(r)@) == frames_view(old(r)@) + opt_seq(match f {
            Some(x) => Some(frame_view(x)),
            None => None,
        }),
{
    match f {
        Some(x) => {
            r.push(x);
            assert(frames_view(r@) =~= frames_view(old(r)@) + seq![frame_view(x)]);
        },
        None => {
            assert(frames_view(r@) =~= frames_view(old(r)@) + Seq::<FrameView>::empty());
        },
    }
}

/// How tags go to a transcode with the given extension (compared in lower case).
pub open spec fn copy_tags_spec(e: Seq<(Seq<char>, Seq<Seq<char>>)>, ext_lower: Seq<char>) -> Result<Result<Seq<Seq<char>>, Seq<FrameView>>, Seq<char>> {
    if ext_lower == "flac"@ {
        Ok(Ok(flac_assignments_spec(e)))
    } else if ext_lower == "mp3"@ {
        Ok(Err(mp3_frames_spec(e)))
    } else {
        Err("Unsupported tag format: "@ + ext_lower)
    }
}

/// Plans how the tags of a FLAC file are copied to its transcode, whose file
/// extension is `transcode_extension`: `metaflac` assignments for a FLAC
/// transcode, ID3 frames for an MP3 transcode, an error otherwise.
pub fn copy_tags(flac_tags: &FlacTags, transcode_extension: Option<&str>) -> (r: Result<TagWritePlan, String>)
    requires
        flac_tags.wf(),
    ensures
        ({
            let lower = unicode_lowercase(match transcode_extension { Some(x) => x@, None => Seq::<char>::empty() });
            match r {
                Ok(TagWritePlan::Flac(a)) => copy_tags_spec(flac_tags.view_entries(), lower) == Ok::<Result<Seq<Seq<char>>, Seq<FrameView>>, Seq<char>>(Ok(views(a@))),
                Ok(TagWritePlan::Mp3(f)) => copy_tags_spec(flac_tags.view_entries(), lower) == Ok::<Result<Seq<Seq<char>>, Seq<FrameView>>, Seq<char>>(Err(frames_view(f@))),
                Err(m) => copy_tags_spec(flac_tags.view_entries(), lower) == Err::<Result<Seq<Seq<char>>, Seq<FrameView>>, Seq<char>>(m@),
            }
        }),
{
    let ghost lower = unicode_lowercase(match transcode_extension { Some(x) => x@, None => Seq::<char>::empty() });
    match tag_file_kind(transcode_extension) {
        TagFileKind::Flac => {
            let a = flac_assignments(flac_tags);
            assert(copy_tags_spec(flac_tags.view_entries(), lower) == Ok::<Result<Seq<Seq<char>>, Seq<FrameView>>, Seq<char>>(Ok(views(a@))));
            Ok(TagWritePlan::Flac(a))
        },
        TagFileKind::Mp3 => {
            let f = mp3_frames(flac_tags);
            proof {
                reveal_strlit("mp3");
                reveal_strlit("flac");
                assert("mp3"@.len() == 3);
                assert("flac"@.len() == 4);
                assert(lower != "flac"@);
            }
            Ok(TagWritePlan::Mp3(f))
        },
        TagFileKind::Unsupported(ext) => Err(concat("Unsupported tag format: ", ext.as_str())),
    }
}

} // verus!
