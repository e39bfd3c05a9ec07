//! A torrent of a release, as the tracker describes it.

use vstd::prelude::*;
use crate::models::format::{Format, all_formats, format_from_name_encoding, spec_all_formats,
    spec_format_from_name_encoding};
use crate::numeric::{decimal_spec, decimal_string};

verus! {

/// One torrent of a torrent group.
#[derive(Clone, Debug)]
pub struct Torrent {
    pub id: u64,
    pub group_id: Option<u64>,
    pub media: String,
    pub format: String,
    pub seeders: u32,
    pub snatched: u32,
    pub description: String,
    pub remaster_year: Option<u32>,
    pub remaster_title: String,
    pub remaster_record_label: String,
    pub remaster_catalogue_number: String,
    pub file_list: String,
    pub file_path: String,
    pub encoding: String,
}

/// The year as text, or nothing when there is no year.
pub open spec fn year_text(year: Option<u32>) -> Seq<char> {
    match year {
        Some(y) => decimal_spec(y as nat),
        None => Seq::<char>::empty(),
    }
}

/// `{media ~ title year}` for an edition with a title, `{media}` otherwise.
pub open spec fn media_info_spec(media: Seq<char>, title: Seq<char>, year: Option<u32>) -> Seq<char> {
    if title.len() > 0 {
        seq!['{'] + media + " ~ "@ + title + seq![' '] + year_text(year) + seq!['}']
    } else {
        seq!['{'] + media + seq!['}']
    }
}

// ---------------------------------------------------------------------------
// The pre-emphasis pattern: `pre`, an optional `-` or space, then `emphasis`,
// `emphasised` or `emphasized`, anywhere in the text and in any letter case.
// ---------------------------------------------------------------------------

/// `c` matches the lowercase ASCII letter `lo` regardless of case (Unicode
/// simple case folding: `s` also matches `ſ`, U+017F).
pub open spec fn folds_to(c: char, lo: char) -> bool {
    c == lo || (c as u32) + 32 == (lo as u32) || (lo == 's' && c == '\u{17f}')
}

/// The lowercase word `w` occurs at position `i` of `s`, ignoring case.
pub open spec fn word_at(s: Seq<char>, i: int, w: Seq<char>) -> bool {
    &&& 0 <= i
    &&& i + w.len() <= s.len()
    &&& forall|k: int| 0 <= k < w.len() ==> folds_to(#[trigger] s[i + k], w[k])
}

pub open spec fn word_pre() -> Seq<char> {
    seq!['p', 'r', 'e']
}

pub open spec fn word_emphasis() -> Seq<char> {
    seq!['e', 'm', 'p', 'h', 'a', 's', 'i', 's']
}

pub open spec fn word_emphasized() -> Seq<char> {
    seq!['e', 'm', 'p', 'h', 'a', 's', 'i', 'z', 'e', 'd']
}

/// `emphasis` (which also begins `emphasised`) or `emphasized` at position `j`.
pub open spec fn emphasis_at(s: Seq<char>, j: int) -> bool {
    word_at(s, j, word_emphasis()) || word_at(s, j, word_emphasized())
}

/// A pre-emphasis mention starts at position `i`.
pub open spec fn pre_emphasis_at(s: Seq<char>, i: int) -> bool {
    &&& word_at(s, i, word_pre())
    &&& {
        ||| emphasis_at(s, i + 3)
        ||| (i + 3 < s.len() && (s[i + 3] == '-' || s[i + 3] == ' ') && emphasis_at(s, i + 4))
    }
}

/// The text mentions pre-emphasis.
pub open spec fn mentions_pre_emphasis(s: Seq<char>) -> bool {
    exists|i: int| pre_emphasis_at(s, i)
}

fn folds_to_exec(c: char, lo: char) -> (r: bool)
    ensures
        r == folds_to(c, lo),
{
    c == lo || (c as u32) + 32 == (lo as u32) || (lo == 's' && c == '\u{17f}')
}

fn word_at_exec(v: &Vec<char>, i: usize, w: &Vec<char>) -> (r: bool)
    ensures
        r == word_at(v@, i as int, w@),
{
    if i > v.len() || w.len() > v.len() - i {
        return false;
    }
    let mut k: usize = 0;
    while k < w.len()
        invariant
            i + w.len() <= v.len(),
            0 <= k <= w.len(),
            forall|j: int| 0 <= j < k ==> folds_to(#[trigger] v@[i + j], w@[j]),
        decreases w.len() - k,
    {
        if !folds_to_exec(v[i + k], w[k]) {
            return false;
        }
        k = k + 1;
    }
    true
}

fn pre_emphasis_at_exec(v: &Vec<char>, i: usize, pre: &Vec<char>, emphasis: &Vec<char>, emphasized: &Vec<char>) -> (r: bool)
    requires
        i <= v.len(),
        pre@ == word_pre(),
        emphasis@ == word_emphasis(),
        emphasized@ == word_emphasized(),
    ensures
        r == pre_emphasis_at(v@, i as int),
{
    if !word_at_exec(v, i, pre) {
        return false;
    }
    let j = i + 3;
    if word_at_exec(v, j, emphasis) || word_at_exec(v, j, emphasized) {
        return true;
    }
    j < v.len() && (v[j] == '-' || v[j] == ' ') && (word_at_exec(v, j + 1, emphasis) || word_at_exec(v, j + 1, emphasized))
}

/// Whether `s` mentions pre-emphasis.
pub fn has_pre_emphasis(s: &str) -> (r: bool)
    ensures
        r == mentions_pre_emphasis(s@),
{
    let v = crate::text::chars_of(s);
    let pre = vec!['p', 'r', 'e'];
    let emphasis = vec!['e', 'm', 'p', 'h', 'a', 's', 'i', 's'];
    let emphasized = vec!['e', 'm', 'p', 'h', 'a', 's', 'i', 'z', 'e', 'd'];
    assert(pre@ =~= word_pre());
    assert(emphasis@ =~= word_emphasis());
    assert(emphasized@ =~= word_emphasized());
    let mut i: usize = 0;
    while i < v.len()
        invariant
            v@ == s@,
            pre@ == word_pre(),
            emphasis@ == word_emphasis(),
            emphasized@ == word_emphasized(),
            0 <= i <= v.len(),
            forall|j: int| 0 <= j < i ==> !pre_emphasis_at(s@, j),
        decreases v.len() - i,
    {
        if pre_emphasis_at_exec(&v, i, &pre, &emphasis, &emphasized) {
            return true;
        }
        i = i + 1;
    }
    proof {
        assert forall|j: int| !pre_emphasis_at(s@, j) by {
            if j >= i {
                assert(!word_at(s@, j, word_pre()));
            }
        }
    }
    false
}

impl Torrent {
    /// The media and edition of the torrent in braces: `{CD ~ Deluxe 2001}`
    /// for an edition with a title, `{CD}` otherwise.
    pub fn formatted_media_info(&self) -> (s: String)
        ensures
            s@ == media_info_spec(self.media@, self.remaster_title@, self.remaster_year),
    {
        if !self.remaster_title.as_str().is_empty() {
            let year = match self.remaster_year {
                Some(y) => decimal_string(y as u64),
                None => String::new(),
            };
            let mut s = String::from_str("{");
            s.append(self.media.as_str());
            s.append(" ~ ");
            s.append(self.remaster_title.as_str());
            s.append(" ");
            s.append(year.as_str());
            s.append("}");
            proof {
                reveal_strlit("{");
                reveal_strlit(" ");
                reveal_strlit("}");
                assert(s@ =~= media_info_spec(self.media@, self.remaster_title@, self.remaster_year));
            }
            s
        } else {
            let mut s = String::from_str("{");
            s.append(self.media.as_str());
            s.append("}");
            proof {
                reveal_strlit("{");
                reveal_strlit("}");
                assert(s@ =~= media_info_spec(self.media@, self.remaster_title@, self.remaster_year));
            }
            s
        }
    }

    /// The formats this torrent may be transcoded to: none when its edition
    /// title mentions pre-emphasis, all of them otherwise.
    pub fn allowed_transcodes(&self) -> (v: Vec<Format>)
        ensures
            v@ == (if mentions_pre_emphasis(self.remaster_title@) {
                Seq::<Format>::empty()
            } else {
                spec_all_formats()
            }),
    {
        if has_pre_emphasis(self.remaster_title.as_str()) {
            Vec::new()
        } else {
            all_formats()
        }
    }

    /// The format this torrent is in, if it is one of the known formats.
    pub fn format_key(&self) -> (r: Option<Format>)
        ensures
            r == spec_format_from_name_encoding(self.format@, self.encoding@),
    {
        format_from_name_encoding(self.format.as_str(), self.encoding.as_str())
    }
}

} // verus!
