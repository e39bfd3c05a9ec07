//! Output formats and their encoders.

use vstd::prelude::*;
use crate::text::str_eq;

verus! {

/// The command-line encoder that produces a format.
#[derive(Clone, Copy, Debug)]
pub struct Encoder {
    pub enc: &'static str,
    pub ext: &'static str,
    pub opts: &'static str,
}

/// A transcode target: a tracker format name, its encoding and the encoder.
#[derive(Clone, Copy, Debug)]
pub struct Format {
    pub name: &'static str,
    pub encoding: &'static str,
    pub long_name: &'static str,
    pub encoder: Encoder,
}

/// Two formats are the same format when their names and encodings agree.
pub open spec fn same_format(a: Format, b: Format) -> bool {
    a.name@ == b.name@ && a.encoding@ == b.encoding@
}

impl PartialEq for Format {
    fn eq(&self, other: &Self) -> (r: bool) {
        str_eq(self.name, other.name) && str_eq(self.encoding, other.encoding)
    }
}

/// `Hash::hash` for `str` (std): feeds the string to the hasher. Nothing is
/// claimed of the hasher's state afterwards.
pub assume_specification<H: core::hash::Hasher>[ <str as core::hash::Hash>::hash::<H> ](s: &str, state: &mut H);

/// Hashes what `==` compares: the name and the encoding.
impl core::hash::Hash for Format {
    fn hash<H: core::hash::Hasher>(&self, state: &mut H) {
        self.name.hash(state);
        self.encoding.hash(state);
    }
}

impl vstd::std_specs::cmp::PartialEqSpecImpl for Format {
    open spec fn obeys_eq_spec() -> bool {
        true
    }

    open spec fn eq_spec(&self, other: &Format) -> bool {
        same_format(*self, *other)
    }
}

impl Eq for Format {
}

impl Format {
    /// What the format displays as: its long name.
    pub fn display_string(&self) -> (s: String)
        ensures
            s@ == self.long_name@,
    {
        crate::text::owned(self.long_name)
    }
}

pub open spec fn spec_flac() -> Format {
    Format {
        name: "FLAC",
        encoding: "Lossless",
        long_name: "FLAC",
        encoder: Encoder { enc: "flac", ext: ".flac", opts: "--best" },
    }
}

pub open spec fn spec_mp3_v0() -> Format {
    Format {
        name: "MP3",
        encoding: "V0 (VBR)",
        long_name: "MP3 V0",
        encoder: Encoder { enc: "lame", ext: ".mp3", opts: "-V 0 --vbr-new --ignore-tag-errors" },
    }
}

pub open spec fn spec_mp3_320() -> Format {
    Format {
        name: "MP3",
        encoding: "320",
        long_name: "MP3 320",
        encoder: Encoder { enc: "lame", ext: ".mp3", opts: "-h -b 320 --ignore-tag-errors" },
    }
}

/// Every format that the tool can produce, in order of preference.
pub open spec fn spec_all_formats() -> Seq<Format> {
    seq![spec_flac(), spec_mp3_v0(), spec_mp3_320()]
}

/// Lossless FLAC.
pub fn flac() -> (f: Format)
    ensures
        f == spec_flac(),
{
    Format {
        name: "FLAC",
        encoding: "Lossless",
        long_name: "FLAC",
        encoder: Encoder { enc: "flac", ext: ".flac", opts: "--best" },
    }
}

/// MP3 at variable bit rate V0.
pub fn mp3_v0() -> (f: Format)
    ensures
        f == spec_mp3_v0(),
{
    Format {
        name: "MP3",
        encoding: "V0 (VBR)",
        long_name: "MP3 V0",
        encoder: Encoder { enc: "lame", ext: ".mp3", opts: "-V 0 --vbr-new --ignore-tag-errors" },
    }
}

/// MP3 at constant bit rate 320.
pub fn mp3_320() -> (f: Format)
    ensures
        f == spec_mp3_320(),
{
    Format {
        name: "MP3",
        encoding: "320",
        long_name: "MP3 320",
        encoder: Encoder { enc: "lame", ext: ".mp3", opts: "-h -b 320 --ignore-tag-errors" },
    }
}

/// Every format, in order: FLAC, MP3 V0, MP3 320.
pub fn all_formats() -> (v: Vec<Format>)
    ensures
        v@ == spec_all_formats(),
{
    let v = vec![flac(), mp3_v0(), mp3_320()];
    assert(v@ =~= spec_all_formats());
    v
}

/// Whether `f` has the given name and encoding.
pub open spec fn has_name_encoding(f: Format, name: Seq<char>, encoding: Seq<char>) -> bool {
    f.name@ == name && f.encoding@ == encoding
}

/// The first format of `spec_all_formats` with the given name and encoding.
pub open spec fn spec_format_from_name_encoding(name: Seq<char>, encoding: Seq<char>) -> Option<Format> {
    if has_name_encoding(spec_flac(), name, encoding) {
        Some(spec_flac())
    } else if has_name_encoding(spec_mp3_v0(), name, encoding) {
        Some(spec_mp3_v0())
    } else if has_name_encoding(spec_mp3_320(), name, encoding) {
        Some(spec_mp3_320())
    } else {
        None
    }
}

/// The format with the given tracker name and encoding, if there is one.
pub fn format_from_name_encoding(name: &str, encoding: &str) -> (r: Option<Format>)
    ensures
        r == spec_format_from_name_encoding(name@, encoding@),
{
    let all = all_formats();
    let mut i: usize = 0;
    while i < all.len()
        invariant
            all@ == spec_all_formats(),
            0 <= i <= all.len(),
            forall|j: int| 0 <= j < i ==> !has_name_encoding(#[trigger] all@[j], name@, encoding@),
        decreases all.len() - i,
    {
        let f = all[i];
        if str_eq(f.name, name) && str_eq(f.encoding, encoding) {
            return Some(f);
        }
        i = i + 1;
    }
    None
}

/// Every format is found again from its own name and encoding.
pub proof fn lemma_format_roundtrip(i: int)
    requires
        0 <= i < 3,
    ensures
        spec_format_from_name_encoding(spec_all_formats()[i].name@, spec_all_formats()[i].encoding@)
            == Some(spec_all_formats()[i]),
{
    reveal_strlit("FLAC");
    reveal_strlit("MP3");
    reveal_strlit("V0 (VBR)");
    reveal_strlit("320");
    assert("MP3"@.len() == 3);
    assert("FLAC"@.len() == 4);
    assert("MP3"@ != "FLAC"@);
    assert("320"@.len() == 3);
    assert("V0 (VBR)"@.len() == 8);
    assert("320"@ != "V0 (VBR)"@);
    if i == 0 {
        assert(spec_all_formats()[0] == spec_flac());
    } else if i == 1 {
        assert(spec_all_formats()[1] == spec_mp3_v0());
    } else {
        assert(spec_all_formats()[2] == spec_mp3_320());
    }
}

} // verus!
