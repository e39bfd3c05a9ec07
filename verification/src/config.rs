//! Configuration: the `[orpheus]` section of the configuration file and the
//! settings derived from it.

use vstd::prelude::*;
use crate::models::format::{Format, flac, mp3_320, mp3_v0, spec_flac, spec_mp3_320, spec_mp3_v0};
use crate::numeric::{parse_u8, parse_uint_spec};
use crate::text::{
    lookup, opt_view, pairs_view,
    concat, contains, contains_spec, ends_with_char, owned, split_char, split_spec, starts_with,
    starts_with_spec, str_eq, to_lowercase, to_uppercase, trim, trim_spec, unicode_lowercase,
    unicode_uppercase, unicode_white_space, views, is_ascii_text, ascii_upper, ascii_lower,
};

verus! {

/// Settings of the tool.
pub struct AppConfig {
    pub username: String,
    pub password: String,
    pub data_dirs: Vec<String>,
    pub output_dir: String,
    pub torrent_dir: String,
    pub formats: Vec<Format>,
    pub media: Vec<String>,
    pub tracker: String,
    pub api_endpoint: String,
    pub mode: String,
    pub source: Option<String>,
    pub do_24_bit: u8,
    /// Per-format output directories (`output_dir_v0`, `output_dir_320`,
    /// `output_dir_flac`), when set and not empty.
    pub output_dir_v0: Option<String>,
    pub output_dir_320: Option<String>,
    pub output_dir_flac: Option<String>,
    /// Per-format torrent directories (`torrent_dir_v0`, `torrent_dir_320`,
    /// `torrent_dir_flac`), when set and not empty.
    pub torrent_dir_v0: Option<String>,
    pub torrent_dir_320: Option<String>,
    pub torrent_dir_flac: Option<String>,
}

/// The lossless media, by their configuration names.
pub open spec fn spec_lossless_media() -> Seq<Seq<char>> {
    seq!["cd"@, "dvd"@, "vinyl"@, "soundboard"@, "sacd"@, "dat"@, "web"@, "blu-ray"@]
}

/// The lossless media, by their configuration names.
pub fn lossless_media() -> (v: Vec<&'static str>)
    ensures
        v@.map_values(|s: &'static str| s@) == spec_lossless_media(),
{
    let v = vec!["cd", "dvd", "vinyl", "soundboard", "sacd", "dat", "web", "blu-ray"];
    assert(v@.map_values(|s: &'static str| s@) =~= spec_lossless_media());
    v
}

/// The search name of each medium, by its configuration name.
pub open spec fn spec_media_search_map() -> Seq<(Seq<char>, Seq<char>)> {
    seq![
        ("cd"@, "CD"@),
        ("dvd"@, "DVD"@),
        ("vinyl"@, "Vinyl"@),
        ("soundboard"@, "Soundboard"@),
        ("sacd"@, "SACD"@),
        ("dat"@, "DAT"@),
        ("web"@, "WEB"@),
        ("blu-ray"@, "Blu-ray"@),
    ]
}

/// The search name of each medium, by its configuration name.
pub fn media_search_map() -> (v: Vec<(&'static str, &'static str)>)
    ensures
        v@.map_values(|p: (&'static str, &'static str)| (p.0@, p.1@)) == spec_media_search_map(),
{
    let v = vec![
        ("cd", "CD"),
        ("dvd", "DVD"),
        ("vinyl", "Vinyl"),
        ("soundboard", "Soundboard"),
        ("sacd", "SACD"),
        ("dat", "DAT"),
        ("web", "WEB"),
        ("blu-ray", "Blu-ray"),
    ];
    assert(v@.map_values(|p: (&'static str, &'static str)| (p.0@, p.1@)) =~= spec_media_search_map());
    v
}

/// `~/rest` becomes `home/rest` when the home directory is known; any other
/// path stays as it is.
pub open spec fn expand_tilde_spec(path: Seq<char>, home: Option<Seq<char>>) -> Seq<char> {
    if starts_with_spec(path, "~/"@) && home is Some {
        home->0 + "/"@ + path.skip(2)
    } else {
        path
    }
}

/// Expands a leading `~/` to the home directory `home`, if there is one.
pub fn expand_tilde(path: &str, home: Option<&str>) -> (r: String)
    ensures
        r@ == expand_tilde_spec(path@, match home { Some(h) => Some(h@), None => None }),
{
    if starts_with(path, "~/") {
        match home {
            Some(h) => {
                proof {
                    reveal_strlit("~/");
                }
                let v = crate::text::chars_of(path);
                let rest = crate::text::string_of_range(&v, 2, v.len());
                proof {
                    reveal_strlit("~/");
                    assert(rest@ =~= path@.skip(2));
                }
                let mut r = owned(h);
                r.append("/");
                r.append(rest.as_str());
                return r;
            },
            None => {},
        }
    }
    owned(path)
}

/// The format an upper-cased entry names: FLAC if it mentions `FLAC`, else
/// MP3 320 if it mentions `320`, else MP3 V0 if it mentions `V0`.
pub open spec fn format_named_spec(cleaned: Seq<char>) -> Option<Format> {
    if contains_spec(cleaned, "FLAC"@) {
        Some(spec_flac())
    } else if contains_spec(cleaned, "320"@) {
        Some(spec_mp3_320())
    } else if contains_spec(cleaned, "V0"@) {
        Some(spec_mp3_v0())
    } else {
        None
    }
}

/// The format one comma-separated entry of the `formats` setting names,
/// once trimmed and upper-cased (see `format_named_spec`).
pub open spec fn format_of_entry(part: Seq<char>) -> Option<Format> {
    format_named_spec(unicode_uppercase(trim_spec(part)))
}

/// The format an upper-cased entry of the `formats` setting names.
pub fn format_named(cleaned: &str) -> (r: Option<Format>)
    ensures
        r == format_named_spec(cleaned@),
{
    if contains(cleaned, "FLAC") {
        Some(flac())
    } else if contains(cleaned, "320") {
        Some(mp3_320())
    } else if contains(cleaned, "V0") {
        Some(mp3_v0())
    } else {
        None
    }
}

/// The formats named by a list of entries, in order, skipping entries that
/// name none.
pub open spec fn formats_of_entries(parts: Seq<Seq<char>>) -> Seq<Format>
    decreases parts.len(),
{
    if parts.len() == 0 {
        Seq::<Format>::empty()
    } else {
        let prev = formats_of_entries(parts.drop_last());
        match format_of_entry(parts.last()) {
            Some(f) => prev.push(f),
            None => prev,
        }
    }
}

/// The formats named by the `formats` setting.
pub open spec fn parse_formats_spec(s: Seq<char>) -> Seq<Format> {
    formats_of_entries(split_spec(s, ','))
}

/// What the calls of `str::to_uppercase` in `parse_formats` show of the
/// entries of `setting`: each trimmed entry made of ASCII characters is
/// upper-cased letter by letter.
pub open spec fn formats_case_known(setting: Seq<char>) -> bool {
    forall|j: int|
        0 <= j < split_spec(setting, ',').len() && is_ascii_text(trim_spec(split_spec(setting, ',')[j]))
            ==> #[trigger] unicode_uppercase(trim_spec(split_spec(setting, ',')[j]))
            == trim_spec(split_spec(setting, ',')[j]).map_values(|c: char| ascii_upper(c))
}

/// The formats named by a comma-separated `formats` setting.
pub fn parse_formats(s: &str) -> (v: Vec<Format>)
    ensures
        v@ == parse_formats_spec(s@),
        formats_case_known(s@),
{
    let parts = split_char(s, ',');
    let mut formats: Vec<Format> = Vec::new();
    let mut i: usize = 0;
    while i < parts.len()
        invariant
            0 <= i <= parts.len(),
            views(parts@) == split_spec(s@, ','),
            formats@ == formats_of_entries(views(parts@).take(i as int)),
            forall|j: int|
                0 <= j < i && is_ascii_text(trim_spec(views(parts@)[j]))
                    ==> #[trigger] unicode_uppercase(trim_spec(views(parts@)[j]))
                    == trim_spec(views(parts@)[j]).map_values(|c: char| ascii_upper(c)),
        decreases parts.len() - i,
    {
        assert(views(parts@).take(i + 1).drop_last() =~= views(parts@).take(i as int));
        assert(views(parts@).take(i + 1).last() == parts@[i as int]@);
        let t = trim(parts[i].as_str());
        let cleaned = to_uppercase(t.as_str());
        assert(t@ == trim_spec(views(parts@)[i as int]));
        match format_named(cleaned.as_str()) {
            Some(f) => formats.push(f),
            None => {},
        }
        i = i + 1;
    }
    assert(views(parts@).take(parts@.len() as int) =~= views(parts@));
    formats
}

/// `s` ending with `/`: unchanged if it already does, else with `/` added.
pub open spec fn with_trailing_slash(s: Seq<char>) -> Seq<char> {
    if s.len() > 0 && s.last() == '/' {
        s
    } else {
        s.push('/')
    }
}

/// `s` with a `/` added unless it already ends with one.
pub fn ensure_trailing_slash(s: &str) -> (r: String)
    ensures
        r@ == with_trailing_slash(s@),
{
    let mut r = owned(s);
    if !ends_with_char(s, '/') {
        crate::text::push_char(&mut r, '/');
    }
    r
}

/// A string ending in `/` keeps its ending; adding the slash twice adds it once.
pub proof fn lemma_trailing_slash(s: Seq<char>)
    ensures
        with_trailing_slash(s).len() > 0,
        with_trailing_slash(s).last() == '/',
        with_trailing_slash(with_trailing_slash(s)) == with_trailing_slash(s),
{
}

// ---------------------------------------------------------------------------
// The configuration section.
// ---------------------------------------------------------------------------

/// The key-value pairs of one section of an INI file, in file order.
pub struct IniSection {
    pub entries: Vec<(String, String)>,
}

impl IniSection {
    pub open spec fn view_entries(&self) -> Seq<(Seq<char>, Seq<char>)> {
        pairs_view(self.entries@)
    }

    /// The value of key `key`, if the section has it.
    pub fn get(&self, key: &str) -> (r: Option<String>)
        ensures
            opt_view(r) == lookup(self.view_entries(), key@),
    {
        crate::text::lookup_exec(&self.entries, key)
    }
}

/// Why a configuration cannot be built.
#[derive(Clone, Copy, Debug, PartialEq, Eq, Structural)]
pub enum ConfigError {
    MissingSection,
    MissingUsername,
    MissingPassword,
    MissingDataDir,
    MissingTorrentDir,
    LoadFailed,
}

impl ConfigError {
    pub open spec fn message_spec(&self) -> Seq<char> {
        match self {
            ConfigError::MissingSection => "Missing [orpheus] section in config"@,
            ConfigError::MissingUsername => "Missing username"@,
            ConfigError::MissingPassword => "Missing password"@,
            ConfigError::MissingDataDir => "Missing data_dir"@,
            ConfigError::MissingTorrentDir => "Missing torrent_dir"@,
            ConfigError::LoadFailed => "Failed to load config file"@,
        }
    }

    /// The message the error is reported with.
    pub fn message(&self) -> (s: String)
        ensures
            s@ == self.message_spec(),
    {
        match self {
            ConfigError::MissingSection => String::from_str("Missing [orpheus] section in config"),
            ConfigError::MissingUsername => String::from_str("Missing username"),
            ConfigError::MissingPassword => String::from_str("Missing password"),
            ConfigError::MissingDataDir => String::from_str("Missing data_dir"),
            ConfigError::MissingTorrentDir => String::from_str("Missing torrent_dir"),
            ConfigError::LoadFailed => String::from_str("Failed to load config file"),
        }
    }
}

/// The name of the configuration section.
pub fn config_section_name() -> (s: &'static str)
    ensures
        s@ == "orpheus"@,
{
    "orpheus"
}

/// The first required setting that the section lacks.
pub open spec fn missing_setting(e: Seq<(Seq<char>, Seq<char>)>) -> Option<ConfigError> {
    if lookup(e, "username"@) is None {
        Some(ConfigError::MissingUsername)
    } else if lookup(e, "password"@) is None {
        Some(ConfigError::MissingPassword)
    } else if lookup(e, "data_dir"@) is None {
        Some(ConfigError::MissingDataDir)
    } else if lookup(e, "torrent_dir"@) is None {
        Some(ConfigError::MissingTorrentDir)
    } else {
        None
    }
}

/// `s` without later repetitions of an element.
pub open spec fn dedupe(s: Seq<Seq<char>>) -> Seq<Seq<char>>
    decreases s.len(),
{
    if s.len() == 0 {
        s
    } else {
        let prev = dedupe(s.drop_last());
        if prev.contains(s.last()) {
            prev
        } else {
            prev.push(s.last())
        }
    }
}

/// A deduplicated list holds every element once, and exactly the elements of the list.
pub proof fn lemma_dedupe(s: Seq<Seq<char>>)
    ensures
        dedupe(s).no_duplicates(),
        forall|x: Seq<char>| dedupe(s).contains(x) <==> s.contains(x),
    decreases s.len(),
{
    if s.len() > 0 {
        lemma_dedupe(s.drop_last());
        let prev = dedupe(s.drop_last());
        assert forall|x: Seq<char>| dedupe(s).contains(x) <==> s.contains(x) by {
            if s.contains(x) {
                let k = choose|k: int| 0 <= k < s.len() && s[k] == x;
                if k < s.len() - 1 {
                    assert(s.drop_last()[k] == x);
                }
            }
            if s.drop_last().contains(x) {
                let k = choose|k: int| 0 <= k < s.drop_last().len() && s.drop_last()[k] == x;
                assert(s[k] == x);
            }
            if !prev.contains(s.last()) {
                if prev.push(s.last()).contains(x) && x != s.last() {
                    let k = choose|k: int| 0 <= k < prev.push(s.last()).len() && prev.push(s.last())[k] == x;
                    assert(prev[k] == x);
                }
                if prev.contains(x) {
                    let k = choose|k: int| 0 <= k < prev.len() && prev[k] == x;
                    assert(prev.push(s.last())[k] == x);
                }
                assert(prev.push(s.last())[prev.len() as int] == s.last());
            }
        }
    }
}

/// The media setting: the lowercased, trimmed comma-separated entries when
/// the setting is given and not empty, all lossless media otherwise.
pub open spec fn media_spec(setting: Option<Seq<char>>) -> Seq<Seq<char>> {
    match setting {
        Some(m) if m.len() > 0 => dedupe(
            split_spec(m, ',').map_values(|p: Seq<char>| unicode_lowercase(trim_spec(p))),
        ),
        _ => spec_lossless_media(),
    }
}

/// What the calls of `str::to_lowercase` in reading the media setting show
/// of its entries: each trimmed entry made of ASCII characters is
/// lower-cased letter by letter.
pub open spec fn media_case_known(setting: Seq<char>) -> bool {
    forall|j: int|
        0 <= j < split_spec(setting, ',').len() && is_ascii_text(trim_spec(split_spec(setting, ',')[j]))
            ==> #[trigger] unicode_lowercase(trim_spec(split_spec(setting, ',')[j]))
            == trim_spec(split_spec(setting, ',')[j]).map_values(|c: char| ascii_lower(c))
}

/// The media setting's entries (see `media_spec`).
fn parse_media(setting: Option<String>) -> (v: Vec<String>)
    ensures
        views(v@) == media_spec(match setting { Some(s) => Some(s@), None => None }),
        setting matches Some(m) ==> (m@.len() > 0 ==> media_case_known(m@)),
{
    match setting {
        Some(m) if !m.as_str().is_empty() => {
            let parts = split_char(m.as_str(), ',');
            let ghost lowered = split_spec(m@, ',').map_values(|p: Seq<char>| unicode_lowercase(trim_spec(p)));
            let mut out: Vec<String> = Vec::new();
            let mut i: usize = 0;
            while i < parts.len()
                invariant
                    0 <= i <= parts.len(),
                    views(parts@) == split_spec(m@, ','),
                    lowered == split_spec(m@, ',').map_values(|p: Seq<char>| unicode_lowercase(trim_spec(p))),
                    views(out@) == dedupe(lowered.take(i as int)),
                    forall|j: int|
                        0 <= j < i && is_ascii_text(trim_spec(views(parts@)[j]))
                            ==> #[trigger] unicode_lowercase(trim_spec(views(parts@)[j]))
                            == trim_spec(views(parts@)[j]).map_values(|c: char| ascii_lower(c)),
                decreases parts.len() - i,
            {
                assert(lowered.take(i + 1).drop_last() =~= lowered.take(i as int));
                assert(views(parts@)[i as int] == parts@[i as int]@);
                let t = trim(parts[i].as_str());
                let l = to_lowercase(t.as_str());
                assert(t@ == trim_spec(views(parts@)[i as int]));
                assert(lowered.take(i + 1).last() == l@);
                add_unique_string(&mut out, l.as_str());
                i = i + 1;
            }
            assert(lowered.take(parts@.len() as int) =~= lowered);
            out
        },
        _ => {
            let names = lossless_media();
            let mut out: Vec<String> = Vec::new();
            let mut i: usize = 0;
            while i < names.len()
                invariant
                    0 <= i <= names.len(),
                    names@.map_values(|s: &'static str| s@) == spec_lossless_media(),
                    views(out@) == spec_lossless_media().take(i as int),
                decreases names.len() - i,
            {
                let ghost before = views(out@);
                assert(names@.map_values(|s: &'static str| s@)[i as int] == names@[i as int]@);
                let s = owned(names[i]);
                let ghost sv = s@;
                out.push(s);
                assert(views(out@) =~= before.push(sv));
                assert(spec_lossless_media().take(i + 1) =~= spec_lossless_media().take(i as int).push(sv));
                i = i + 1;
            }
            assert(spec_lossless_media().take(names@.len() as int) =~= spec_lossless_media());
            out
        },
    }
}

/// Adds `s` to `v` unless `v` already holds it.
pub fn add_unique_string(v: &mut Vec<String>, s: &str)
    ensures
        views(final(v)@) == (if views(old(v)@).contains(s@) { views(old(v)@) } else { views(old(v)@).push(s@) }),
{
    if !contains_string(v, s) {
        let ghost before = views(v@);
        v.push(owned(s));
        assert(views(v@) =~= before.push(s@));
    }
}

/// Whether `v` holds a string equal to `s`.
pub fn contains_string(v: &Vec<String>, s: &str) -> (r: bool)
    ensures
        r == views(v@).contains(s@),
{
    let mut i: usize = 0;
    while i < v.len()
        invariant
            0 <= i <= v.len(),
            forall|j: int| 0 <= j < i ==> v@[j]@ != s@,
        decreases v.len() - i,
    {
        if str_eq(v[i].as_str(), s) {
            assert(views(v@)[i as int] == s@);
            return true;
        }
        i = i + 1;
    }
    proof {
        if views(v@).contains(s@) {
            let k = choose|k: int| 0 <= k < views(v@).len() && views(v@)[k] == s@;
            assert(v@[k]@ == s@);
        }
    }
    false
}

/// The value of a setting, or `default` when the section lacks it.
pub open spec fn setting_or(e: Seq<(Seq<char>, Seq<char>)>, key: Seq<char>, default: Seq<char>) -> Seq<char> {
    match lookup(e, key) {
        Some(v) => v,
        None => default,
    }
}

/// The value of a setting when it is given and not empty.
pub open spec fn nonempty_setting(e: Seq<(Seq<char>, Seq<char>)>, key: Seq<char>) -> Option<Seq<char>> {
    match lookup(e, key) {
        Some(v) if v.len() > 0 => Some(v),
        _ => None,
    }
}

/// A per-format directory setting: its value, with `~/` expanded, when it
/// is given and not empty.
pub open spec fn dir_override(e: Seq<(Seq<char>, Seq<char>)>, key: Seq<char>, home: Option<Seq<char>>) -> Option<Seq<char>> {
    match nonempty_setting(e, key) {
        Some(d) => Some(expand_tilde_spec(d, home)),
        None => None,
    }
}

/// The data directories of the `data_dir` setting: its `;`-separated
/// entries, trimmed, with `~/` expanded.
pub open spec fn data_dirs_spec(setting: Seq<char>, home: Option<Seq<char>>) -> Seq<Seq<char>> {
    split_spec(setting, ';').map_values(|d: Seq<char>| expand_tilde_spec(trim_spec(d), home))
}

/// The `24bit_behaviour` setting as a number, 0 when it is absent or not a number.
pub open spec fn do_24_bit_spec(e: Seq<(Seq<char>, Seq<char>)>) -> u8 {
    match parse_uint_spec(setting_or(e, "24bit_behaviour"@, "0"@), 255) {
        Ok(n) => n as u8,
        Err(_) => 0,
    }
}

/// The view of an optional home directory.
pub open spec fn home_view(home: Option<&str>) -> Option<Seq<char>> {
    match home {
        Some(h) => Some(h@),
        None => None,
    }
}

/// The data directories of a `data_dir` setting.
fn parse_data_dirs(setting: &str, home: Option<&str>) -> (v: Vec<String>)
    ensures
        views(v@) == data_dirs_spec(setting@, home_view(home)),
        v@.len() >= 1,
{
    let parts = split_char(setting, ';');
    proof {
        crate::text::lemma_split_nonempty(setting@, ';');
    }
    let ghost want = data_dirs_spec(setting@, home_view(home));
    let mut out: Vec<String> = Vec::new();
    let mut i: usize = 0;
    while i < parts.len()
        invariant
            0 <= i <= parts.len(),
            views(parts@) == split_spec(setting@, ';'),
            want == data_dirs_spec(setting@, home_view(home)),
            views(out@) == want.take(i as int),
        decreases parts.len() - i,
    {
        assert(views(parts@)[i as int] == parts@[i as int]@);
        let t = trim(parts[i].as_str());
        let d = expand_tilde(t.as_str(), home);
        let ghost before = views(out@);
        let ghost dv = d@;
        out.push(d);
        assert(views(out@) =~= before.push(dv));
        assert(want.take(i + 1) =~= want.take(i as int).push(dv));
        i = i + 1;
    }
    assert(want.take(parts@.len() as int) =~= want);
    out
}

/// The value of a setting, or `default`.
fn get_or(section: &IniSection, key: &str, default: &str) -> (r: String)
    ensures
        r@ == setting_or(section.view_entries(), key@, default@),
{
    match section.get(key) {
        Some(v) => v,
        None => owned(default),
    }
}

/// A per-format directory setting (see `dir_override`).
fn read_dir_override(section: &IniSection, key: &str, home: Option<&str>) -> (r: Option<String>)
    ensures
        opt_view(r) == dir_override(section.view_entries(), key@, home_view(home)),
{
    match section.get(key) {
        Some(d) if !d.as_str().is_empty() => Some(expand_tilde(d.as_str(), home)),
        _ => None,
    }
}

/// What `config_from_section` gives for a section with entries `e`, with
/// home directory `h`: the first missing required setting as an error, or
/// the settings it describes.
pub open spec fn section_config(e: Seq<(Seq<char>, Seq<char>)>, h: Option<Seq<char>>, r: Result<AppConfig, ConfigError>) -> bool {
    match r {
        Err(err) => missing_setting(e) == Some(err),
        Ok(c) => {
            &&& missing_setting(e) is None
            &&& Some(c.username@) == lookup(e, "username"@)
            &&& Some(c.password@) == lookup(e, "password"@)
            &&& views(c.data_dirs@) == data_dirs_spec(lookup(e, "data_dir"@)->0, h)
            &&& c.output_dir@ == (match nonempty_setting(e, "output_dir"@) {
                Some(o) => expand_tilde_spec(o, h),
                None => c.data_dirs@[0]@,
            })
            &&& c.torrent_dir@ == expand_tilde_spec(lookup(e, "torrent_dir"@)->0, h)
            &&& c.formats@ == parse_formats_spec(setting_or(e, "formats"@, "flac, v0, 320"@))
            &&& formats_case_known(setting_or(e, "formats"@, "flac, v0, 320"@))
            &&& views(c.media@) == media_spec(lookup(e, "media"@))
            &&& (lookup(e, "media"@) matches Some(m) ==> (m.len() > 0 ==> media_case_known(m)))
            &&& c.tracker@ == with_trailing_slash(setting_or(e, "tracker"@, "https://home.opsfet.ch/"@))
            &&& c.api_endpoint@ == with_trailing_slash(setting_or(e, "api"@, "https://orpheus.network/"@))
            &&& c.mode@ == setting_or(e, "mode"@, "both"@)
            &&& opt_view(c.source) == nonempty_setting(e, "source"@)
            &&& c.do_24_bit == do_24_bit_spec(e)
            &&& opt_view(c.output_dir_v0) == dir_override(e, "output_dir_v0"@, h)
            &&& opt_view(c.output_dir_320) == dir_override(e, "output_dir_320"@, h)
            &&& opt_view(c.output_dir_flac) == dir_override(e, "output_dir_flac"@, h)
            &&& opt_view(c.torrent_dir_v0) == dir_override(e, "torrent_dir_v0"@, h)
            &&& opt_view(c.torrent_dir_320) == dir_override(e, "torrent_dir_320"@, h)
            &&& opt_view(c.torrent_dir_flac) == dir_override(e, "torrent_dir_flac"@, h)
        },
    }
}

/// The settings of a configuration section.  `section` is the `[orpheus]`
/// section of the file, if it has one; `home` is the home directory, used to
/// expand `~/` in directory settings.
pub fn config_from_section(section: Option<&IniSection>, home: Option<&str>) -> (r: Result<AppConfig, ConfigError>)
    ensures
        section is None ==> r == Err::<AppConfig, ConfigError>(ConfigError::MissingSection),
        section matches Some(sec) ==> section_config(sec.view_entries(), home_view(home), r),
{
    let sec = match section {
        Some(s) => s,
        None => return Err(ConfigError::MissingSection),
    };
    let username = match sec.get("username") {
        Some(v) => v,
        None => return Err(ConfigError::MissingUsername),
    };
    let password = match sec.get("password") {
        Some(v) => v,
        None => return Err(ConfigError::MissingPassword),
    };
    let data_dir_str = match sec.get("data_dir") {
        Some(v) => v,
        None => return Err(ConfigError::MissingDataDir),
    };
    let data_dirs = parse_data_dirs(data_dir_str.as_str(), home);
    let output_dir = match sec.get("output_dir") {
        Some(o) if !o.as_str().is_empty() => expand_tilde(o.as_str(), home),
        _ => data_dirs[0].clone(),
    };
    let torrent_dir = match sec.get("torrent_dir") {
        Some(t) => expand_tilde(t.as_str(), home),
        None => return Err(ConfigError::MissingTorrentDir),
    };
    let formats_setting = get_or(sec, "formats", "flac, v0, 320");
    let formats = parse_formats(formats_setting.as_str());
    let media = parse_media(sec.get("media"));
    let tracker_setting = get_or(sec, "tracker", "https://home.opsfet.ch/");
    let tracker = ensure_trailing_slash(tracker_setting.as_str());
    let api_setting = get_or(sec, "api", "https://orpheus.network/");
    let api_endpoint = ensure_trailing_slash(api_setting.as_str());
    let mode = get_or(sec, "mode", "both");
    let source = match sec.get("source") {
        Some(s) if !s.as_str().is_empty() => Some(s),
        _ => None,
    };
    let bits_setting = get_or(sec, "24bit_behaviour", "0");
    let do_24_bit = match parse_u8(bits_setting.as_str()) {
        Ok(n) => n,
        Err(_) => 0,
    };
    let output_dir_v0 = read_dir_override(sec, "output_dir_v0", home);
    let output_dir_320 = read_dir_override(sec, "output_dir_320", home);
    let output_dir_flac = read_dir_override(sec, "output_dir_flac", home);
    let torrent_dir_v0 = read_dir_override(sec, "torrent_dir_v0", home);
    let torrent_dir_320 = read_dir_override(sec, "torrent_dir_320", home);
    let torrent_dir_flac = read_dir_override(sec, "torrent_dir_flac", home);
    Ok(AppConfig {
        username,
        password,
        data_dirs,
        output_dir,
        torrent_dir,
        formats,
        media,
        tracker,
        api_endpoint,
        mode,
        source,
        do_24_bit,
        output_dir_v0,
        output_dir_320,
        output_dir_flac,
        torrent_dir_v0,
        torrent_dir_320,
        torrent_dir_flac,
    })
}

/// The settings written to a fresh configuration file, in order.
pub open spec fn spec_default_entries() -> Seq<(Seq<char>, Seq<char>)> {
    seq![
        ("username"@, ""@),
        ("password"@, ""@),
        ("data_dir"@, ""@),
        ("output_dir"@, ""@),
        ("torrent_dir"@, ""@),
        ("formats"@, "flac, v0, 320"@),
        ("media"@, crate::text::join_spec(spec_lossless_media(), ", "@)),
        ("24bit_behaviour"@, "0"@),
        ("tracker"@, "https://home.opsfet.ch/"@),
        ("mode"@, "both"@),
        ("api"@, "https://orpheus.network/"@),
        ("source"@, "OPS"@),
    ]
}

/// The settings written to a fresh configuration file, in order.
pub fn default_config_entries() -> (v: Vec<(String, String)>)
    ensures
        pairs_view(v@) == spec_default_entries(),
{
    let names = lossless_media();
    let mut name_strings: Vec<String> = Vec::new();
    let mut i: usize = 0;
    while i < names.len()
        invariant
            0 <= i <= names.len(),
            names@.map_values(|s: &'static str| s@) == spec_lossless_media(),
            views(name_strings@) == spec_lossless_media().take(i as int),
        decreases names.len() - i,
    {
        let ghost before = views(name_strings@);
        assert(names@.map_values(|s: &'static str| s@)[i as int] == names@[i as int]@);
        let s = owned(names[i]);
        let ghost sv = s@;
        name_strings.push(s);
        assert(views(name_strings@) =~= before.push(sv));
        assert(spec_lossless_media().take(i + 1) =~= spec_lossless_media().take(i as int).push(sv));
        i = i + 1;
    }
    assert(spec_lossless_media().take(names@.len() as int) =~= spec_lossless_media());
    let media = crate::text::join(&name_strings, ", ");
    let v = vec![
        (String::from_str("username"), String::from_str("")),
        (String::from_str("password"), String::from_str("")),
        (String::from_str("data_dir"), String::from_str("")),
        (String::from_str("output_dir"), String::from_str("")),
        (String::from_str("torrent_dir"), String::from_str("")),
        (String::from_str("formats"), String::from_str("flac, v0, 320")),
        (String::from_str("media"), media),
        (String::from_str("24bit_behaviour"), String::from_str("0")),
        (String::from_str("tracker"), String::from_str("https://home.opsfet.ch/")),
        (String::from_str("mode"), String::from_str("both")),
        (String::from_str("api"), String::from_str("https://orpheus.network/")),
        (String::from_str("source"), String::from_str("OPS")),
    ];
    assert(pairs_view(v@) =~= spec_default_entries());
    v
}

/// The directory for a format with long name `long_name`: the per-format
/// setting for "MP3 V0", "MP3 320" or "FLAC" when it is set, and the general
/// one otherwise.
pub open spec fn dir_for_format(
    long_name: Seq<char>,
    general: Seq<char>,
    v0: Option<Seq<char>>,
    m320: Option<Seq<char>>,
    fl: Option<Seq<char>>,
) -> Seq<char> {
    let chosen = if long_name == "MP3 V0"@ {
        v0
    } else if long_name == "MP3 320"@ {
        m320
    } else if long_name == "FLAC"@ {
        fl
    } else {
        None
    };
    match chosen {
        Some(d) => d,
        None => general,
    }
}

/// Picks the per-format directory for `long_name`, or `general`.
fn pick_dir(
    long_name: &str,
    general: &String,
    v0: &Option<String>,
    m320: &Option<String>,
    fl: &Option<String>,
) -> (r: String)
    ensures
        r@ == dir_for_format(long_name@, general@, opt_view(*v0), opt_view(*m320), opt_view(*fl)),
{
    let chosen = if str_eq(long_name, "MP3 V0") {
        v0
    } else if str_eq(long_name, "MP3 320") {
        m320
    } else if str_eq(long_name, "FLAC") {
        fl
    } else {
        &None
    };
    match chosen {
        Some(d) => d.clone(),
        None => general.clone(),
    }
}

/// The output directory for a format (see `dir_for_format`).
pub fn output_dir_for_format(config: &AppConfig, format: &Format) -> (r: String)
    ensures
        r@ == dir_for_format(
            format.long_name@,
            config.output_dir@,
            opt_view(config.output_dir_v0),
            opt_view(config.output_dir_320),
            opt_view(config.output_dir_flac),
        ),
{
    pick_dir(format.long_name, &config.output_dir, &config.output_dir_v0, &config.output_dir_320, &config.output_dir_flac)
}

/// The torrent directory for a format (see `dir_for_format`).
pub fn torrent_dir_for_format(config: &AppConfig, format: &Format) -> (r: String)
    ensures
        r@ == dir_for_format(
            format.long_name@,
            config.torrent_dir@,
            opt_view(config.torrent_dir_v0),
            opt_view(config.torrent_dir_320),
            opt_view(config.torrent_dir_flac),
        ),
{
    pick_dir(format.long_name, &config.torrent_dir, &config.torrent_dir_v0, &config.torrent_dir_320, &config.torrent_dir_flac)
}


// ---------------------------------------------------------------------------
// The configuration file's text.
// ---------------------------------------------------------------------------

/// The error `ini::Ini::load_from_str` reports for text it cannot parse.
#[verifier::external_type_specification]
#[verifier::external_body]
pub struct ExIniParseError(ini::ParseError);

/// What rust-ini reads from INI text for section `name`: `None` when the
/// text does not parse, `Some(None)` when it has no such section, and
/// otherwise the section's key-value pairs in file order.
pub uninterp spec fn ini_section_of(text: Seq<char>, name: Seq<char>) -> Option<Option<Seq<(Seq<char>, Seq<char>)>>>;

/// The INI text rust-ini writes for one section `name` holding `entries`.
pub uninterp spec fn ini_text_of(name: Seq<char>, entries: Seq<(Seq<char>, Seq<char>)>) -> Seq<char>;

/// A character rust-ini writes and reads as itself: no control character
/// and no backslash.
pub open spec fn ini_plain_char(c: char) -> bool {
    c as u32 >= 0x20 && c != '\u{7f}' && c != '\\'
}

/// Text made of plain characters only.
pub open spec fn ini_plain_text(s: Seq<char>) -> bool {
    forall|i: int| 0 <= i < s.len() ==> ini_plain_char(#[trigger] s[i])
}

/// A key that reads back as itself: not empty, plain, without `=` or `:`,
/// not starting with `[`, `;` or `#`, and without white space at its ends.
pub open spec fn ini_plain_key(k: Seq<char>) -> bool {
    &&& k.len() > 0
    &&& ini_plain_text(k)
    &&& forall|i: int| 0 <= i < k.len() ==> #[trigger] k[i] != '=' && k[i] != ':'
    &&& k[0] != '[' && k[0] != ';' && k[0] != '#'
    &&& !unicode_white_space(k[0]) && !unicode_white_space(k.last())
}

/// A value that reads back as itself: plain, not starting with a quote,
/// and without white space at its ends.
pub open spec fn ini_plain_value(v: Seq<char>) -> bool {
    &&& ini_plain_text(v)
    &&& v.len() > 0 ==> v[0] != '"' && v[0] != '\'' && !unicode_white_space(v[0]) && !unicode_white_space(v.last())
}

/// A section that reads back as written: a plain name without `]`, and
/// at least one entry, all with plain keys and values and no key twice.
pub open spec fn ini_plain_section(name: Seq<char>, e: Seq<(Seq<char>, Seq<char>)>) -> bool {
    &&& name.len() > 0
    &&& ini_plain_text(name)
    &&& forall|i: int| 0 <= i < name.len() ==> #[trigger] name[i] != ']'
    &&& !unicode_white_space(name[0]) && !unicode_white_space(name.last())
    &&& e.len() > 0
    &&& forall|i: int| 0 <= i < e.len() ==> ini_plain_key(#[trigger] e[i].0) && ini_plain_value(e[i].1)
    &&& forall|i: int, j: int| 0 <= i < j < e.len() ==> (#[trigger] e[i]).0 != (#[trigger] e[j]).0
}

/// Parses `text` with `ini::Ini::load_from_str` and takes section `name`
/// (`Ini::section`), listing its pairs with `Properties::iter`. The result is
/// named `ini_section_of`.
#[verifier::external_body]
fn parse_ini_section(text: &str, name: &str) -> (r: Result<Option<IniSection>, ini::ParseError>)
    ensures
        match r {
            Err(_) => ini_section_of(text@, name@) is None,
            Ok(None) => ini_section_of(text@, name@) == Some(None::<Seq<(Seq<char>, Seq<char>)>>),
            Ok(Some(sec)) => ini_section_of(text@, name@) == Some(Some(sec.view_entries())),
        },
{
    let ini = ini::Ini::load_from_str(text)?;
    Ok(ini.section(Some(name)).map(
        |p| IniSection { entries: p.iter().map(|(k, v)| (k.to_string(), v.to_string())).collect() },
    ))
}

/// Builds an `ini::Ini` with section `name` set to `entries`
/// (`Ini::with_section`, `SectionSetter::set`) and writes it with
/// `Ini::write_to` into a `Vec<u8>`, which cannot fail: `write_to_opt` only
/// passes on the writer's errors. The text is named `ini_text_of`. For a
/// plain section (`ini_plain_section`) the text starts with the section
/// header, and `Ini::load_from_str` reads the same entries back: the
/// writer's default escaping leaves plain text unchanged, and the parser
/// trims, unescapes or unquotes nothing in it.
#[verifier::external_body]
fn write_ini_section(name: &str, entries: &Vec<(String, String)>) -> (t: String)
    ensures
        t@ == ini_text_of(name@, pairs_view(entries@)),
        ini_plain_section(name@, pairs_view(entries@)) ==> {
            &&& t@.len() > 0
            &&& t@[0] == '['
            &&& ini_section_of(t@, name@) == Some(Some(pairs_view(entries@)))
        },
{
    let mut ini = ini::Ini::new();
    for (key, value) in entries {
        ini.with_section(Some(name)).set(key.as_str(), value.as_str());
    }
    let mut buf: Vec<u8> = Vec::new();
    let _ = ini.write_to(&mut buf);
    String::from_utf8_lossy(&buf).into_owned()
}

/// `text` without a leading byte-order mark, which rust-ini skips when it
/// reads a file.
pub open spec fn strip_bom(text: Seq<char>) -> Seq<char> {
    if text.len() > 0 && text[0] == '\u{feff}' {
        text.drop_first()
    } else {
        text
    }
}

/// What `config_from_ini_text` gives for file text `text` with home
/// directory `h`.
pub open spec fn ini_text_config(text: Seq<char>, h: Option<Seq<char>>, r: Result<AppConfig, ConfigError>) -> bool {
    match ini_section_of(strip_bom(text), "orpheus"@) {
        None => r == Err::<AppConfig, ConfigError>(ConfigError::LoadFailed),
        Some(None) => r == Err::<AppConfig, ConfigError>(ConfigError::MissingSection),
        Some(Some(e)) => section_config(e, h, r),
    }
}

/// The default configuration, for home directory `h`: empty user name and
/// password, one empty data directory, empty output and torrent
/// directories, the formats FLAC, MP3 V0 and MP3 320, the lossless media,
/// tracker
/// `https://home.opsfet.ch/`, API `https://orpheus.network/`, mode "both",
/// source "OPS", `24bit_behaviour` 0 and no per-format directories.
pub open spec fn is_default_config(c: AppConfig, h: Option<Seq<char>>) -> bool {
    &&& c.username@ == Seq::<char>::empty()
    &&& c.password@ == Seq::<char>::empty()
    &&& views(c.data_dirs@) == seq![Seq::<char>::empty()]
    &&& c.output_dir@ == Seq::<char>::empty()
    &&& c.torrent_dir@ == Seq::<char>::empty()
    &&& c.formats@ == seq![spec_flac(), spec_mp3_v0(), spec_mp3_320()]
    &&& views(c.media@) == spec_lossless_media()
    &&& c.tracker@ == "https://home.opsfet.ch/"@
    &&& c.api_endpoint@ == "https://orpheus.network/"@
    &&& c.mode@ == "both"@
    &&& opt_view(c.source) == Some("OPS"@)
    &&& c.do_24_bit == 0
    &&& c.output_dir_v0 is None && c.output_dir_320 is None && c.output_dir_flac is None
    &&& c.torrent_dir_v0 is None && c.torrent_dir_320 is None && c.torrent_dir_flac is None
}

/// The settings of a configuration file's text: rust-ini parses it (after a
/// leading byte-order mark), its `[orpheus]` section is read as by
/// `config_from_section`, and text that does not parse is `LoadFailed`.
pub fn config_from_ini_text(text: &str, home: Option<&str>) -> (r: Result<AppConfig, ConfigError>)
    ensures
        ini_text_config(text@, home_view(home), r),
{
    let v = crate::text::chars_of(text);
    let body = if v.len() > 0 && v[0] == '\u{feff}' {
        crate::text::string_of_range(&v, 1, v.len())
    } else {
        owned(text)
    };
    proof {
        assert(v@.subrange(1, v@.len() as int) =~= v@.drop_first());
    }
    match parse_ini_section(body.as_str(), config_section_name()) {
        Err(_) => Err(ConfigError::LoadFailed),
        Ok(None) => config_from_section(None, home),
        Ok(Some(sec)) => config_from_section(Some(&sec), home),
    }
}

proof fn lemma_join_plain(list: Seq<Seq<char>>, sep: Seq<char>)
    requires
        forall|i: int| 0 <= i < list.len() ==> ini_plain_text(#[trigger] list[i]),
        ini_plain_text(sep),
    ensures
        ini_plain_text(crate::text::join_spec(list, sep)),
    decreases list.len(),
{
    if list.len() >= 2 {
        let d = list.drop_last();
        assert forall|i: int| 0 <= i < d.len() implies ini_plain_text(#[trigger] d[i]) by {
            assert(d[i] == list[i]);
        }
        lemma_join_plain(d, sep);
        let prev = crate::text::join_spec(d, sep);
        let last = list.last();
        assert(ini_plain_text(last)) by {
            assert(last == list[list.len() - 1]);
        }
        let j = prev + sep + last;
        assert forall|i: int| 0 <= i < j.len() implies ini_plain_char(#[trigger] j[i]) by {
            if i < prev.len() {
                assert(j[i] == prev[i]);
            } else if i < prev.len() + sep.len() {
                assert(j[i] == sep[i - prev.len()]);
            } else {
                assert(j[i] == last[i - prev.len() - sep.len()]);
            }
        }
    } else if list.len() == 1 {
        assert(ini_plain_text(list[0]));
    }
}

proof fn lemma_join_ends(list: Seq<Seq<char>>, sep: Seq<char>)
    requires
        list.len() >= 1,
        forall|i: int| 0 <= i < list.len() ==> (#[trigger] list[i]).len() > 0,
    ensures
        crate::text::join_spec(list, sep).len() > 0,
        crate::text::join_spec(list, sep)[0] == list[0][0],
        crate::text::join_spec(list, sep).last() == list.last().last(),
    decreases list.len(),
{
    assert(list[0].len() > 0);
    assert(list[list.len() - 1].len() > 0);
    if list.len() >= 2 {
        let d = list.drop_last();
        assert forall|i: int| 0 <= i < d.len() implies (#[trigger] d[i]).len() > 0 by {
            assert(d[i] == list[i]);
        }
        lemma_join_ends(d, sep);
        assert(d[0] == list[0]);
    }
}

/// The default settings form a section that rust-ini reads back as written.
proof fn lemma_default_entries_plain()
    ensures
        ini_plain_section("orpheus"@, spec_default_entries()),
{
    reveal_strlit("username");
    reveal_strlit("password");
    reveal_strlit("data_dir");
    reveal_strlit("output_dir");
    reveal_strlit("torrent_dir");
    reveal_strlit("formats");
    reveal_strlit("media");
    reveal_strlit("24bit_behaviour");
    reveal_strlit("tracker");
    reveal_strlit("mode");
    reveal_strlit("api");
    reveal_strlit("source");
    reveal_strlit("");
    reveal_strlit("flac, v0, 320");
    reveal_strlit("0");
    reveal_strlit("https://home.opsfet.ch/");
    reveal_strlit("both");
    reveal_strlit("https://orpheus.network/");
    reveal_strlit("OPS");
    reveal_strlit("orpheus");
    reveal_strlit(", ");
    reveal_strlit("cd");
    reveal_strlit("dvd");
    reveal_strlit("vinyl");
    reveal_strlit("soundboard");
    reveal_strlit("sacd");
    reveal_strlit("dat");
    reveal_strlit("web");
    reveal_strlit("blu-ray");
    let m = spec_lossless_media();
    assert forall|i: int| 0 <= i < m.len() implies ini_plain_text(#[trigger] m[i]) && m[i].len() > 0 by {}
    lemma_join_plain(m, ", "@);
    lemma_join_ends(m, ", "@);
    let e = spec_default_entries();
    assert(ini_plain_key(e[0].0) && ini_plain_value(e[0].1));
    assert(ini_plain_key(e[1].0) && ini_plain_value(e[1].1));
    assert(ini_plain_key(e[2].0) && ini_plain_value(e[2].1));
    assert(ini_plain_key(e[3].0) && ini_plain_value(e[3].1));
    assert(ini_plain_key(e[4].0) && ini_plain_value(e[4].1));
    assert(ini_plain_key(e[5].0) && ini_plain_value(e[5].1));
    assert(ini_plain_key(e[6].0) && ini_plain_value(e[6].1));
    assert(ini_plain_key(e[7].0) && ini_plain_value(e[7].1));
    assert(ini_plain_key(e[8].0) && ini_plain_value(e[8].1));
    assert(ini_plain_key(e[9].0) && ini_plain_value(e[9].1));
    assert(ini_plain_key(e[10].0) && ini_plain_value(e[10].1));
    assert(ini_plain_key(e[11].0) && ini_plain_value(e[11].1));
    assert forall|i: int| 0 <= i < e.len() implies ini_plain_key(#[trigger] e[i].0) && ini_plain_value(e[i].1) by {}
    assert forall|i: int, j: int| 0 <= i < j < e.len() implies (#[trigger] e[i]).0 != (#[trigger] e[j]).0 by {
        assert(e[i].0.len() != e[j].0.len() || e[i].0[0] != e[j].0[0]);
    }
}

/// Removing repetitions from a list without any changes nothing.
proof fn lemma_dedupe_distinct(s: Seq<Seq<char>>)
    requires
        s.no_duplicates(),
    ensures
        dedupe(s) == s,
    decreases s.len(),
{
    if s.len() > 0 {
        let d = s.drop_last();
        assert(d.no_duplicates()) by {
            assert forall|i: int, j: int| 0 <= i < d.len() && 0 <= j < d.len() && i != j implies d[i] != d[j] by {
                assert(d[i] == s[i] && d[j] == s[j]);
            }
        }
        lemma_dedupe_distinct(d);
        if d.contains(s.last()) {
            let k = choose|k: int| 0 <= k < d.len() && d[k] == s.last();
            assert(s[k] == s[s.len() - 1]);
        }
        assert(d.push(s.last()) =~= s);
    }
}

/// The default media setting, as text.
proof fn lemma_default_media_text()
    ensures
        crate::text::join_spec(spec_lossless_media(), ", "@) == seq!['c', 'd', ',', ' ', 'd', 'v', 'd', ',', ' ', 'v', 'i', 'n', 'y', 'l', ',', ' ', 's', 'o', 'u', 'n', 'd', 'b', 'o', 'a', 'r', 'd', ',', ' ', 's', 'a', 'c', 'd', ',', ' ', 'd', 'a', 't', ',', ' ', 'w', 'e', 'b', ',', ' ', 'b', 'l', 'u', '-', 'r', 'a', 'y'],
{
    reveal_strlit("cd");
    reveal_strlit("dvd");
    reveal_strlit("vinyl");
    reveal_strlit("soundboard");
    reveal_strlit("sacd");
    reveal_strlit("dat");
    reveal_strlit("web");
    reveal_strlit("blu-ray");
    reveal_strlit(", ");
    let m = spec_lossless_media();
    let sep = ", "@;
    assert(m.take(1).drop_last() =~= m.take(0));
    assert(m.take(1).last() == m[0]);
    assert(crate::text::join_spec(m.take(1), sep) =~= seq!['c', 'd']);
    assert(m.take(2).drop_last() =~= m.take(1));
    assert(m.take(2).last() == m[1]);
    assert(crate::text::join_spec(m.take(2), sep) =~= seq!['c', 'd', ',', ' ', 'd', 'v', 'd']);
    assert(m.take(3).drop_last() =~= m.take(2));
    assert(m.take(3).last() == m[2]);
    assert(crate::text::join_spec(m.take(3), sep) =~= seq!['c', 'd', ',', ' ', 'd', 'v', 'd', ',', ' ', 'v', 'i', 'n', 'y', 'l']);
    assert(m.take(4).drop_last() =~= m.take(3));
    assert(m.take(4).last() == m[3]);
    assert(crate::text::join_spec(m.take(4), sep) =~= seq!['c', 'd', ',', ' ', 'd', 'v', 'd', ',', ' ', 'v', 'i', 'n', 'y', 'l', ',', ' ', 's', 'o', 'u', 'n', 'd', 'b', 'o', 'a', 'r', 'd']);
    assert(m.take(5).drop_last() =~= m.take(4));
    assert(m.take(5).last() == m[4]);
    assert(crate::text::join_spec(m.take(5), sep) =~= seq!['c', 'd', ',', ' ', 'd', 'v', 'd', ',', ' ', 'v', 'i', 'n', 'y', 'l', ',', ' ', 's', 'o', 'u', 'n', 'd', 'b', 'o', 'a', 'r', 'd', ',', ' ', 's', 'a', 'c', 'd']);
    assert(m.take(6).drop_last() =~= m.take(5));
    assert(m.take(6).last() == m[5]);
    assert(crate::text::join_spec(m.take(6), sep) =~= seq!['c', 'd', ',', ' ', 'd', 'v', 'd', ',', ' ', 'v', 'i', 'n', 'y', 'l', ',', ' ', 's', 'o', 'u', 'n', 'd', 'b', 'o', 'a', 'r', 'd', ',', ' ', 's', 'a', 'c', 'd', ',', ' ', 'd', 'a', 't']);
    assert(m.take(7).drop_last() =~= m.take(6));
    assert(m.take(7).last() == m[6]);
    assert(crate::text::join_spec(m.take(7), sep) =~= seq!['c', 'd', ',', ' ', 'd', 'v', 'd', ',', ' ', 'v', 'i', 'n', 'y', 'l', ',', ' ', 's', 'o', 'u', 'n', 'd', 'b', 'o', 'a', 'r', 'd', ',', ' ', 's', 'a', 'c', 'd', ',', ' ', 'd', 'a', 't', ',', ' ', 'w', 'e', 'b']);
    assert(m.take(8).drop_last() =~= m.take(7));
    assert(m.take(8).last() == m[7]);
    assert(crate::text::join_spec(m.take(8), sep) =~= seq!['c', 'd', ',', ' ', 'd', 'v', 'd', ',', ' ', 'v', 'i', 'n', 'y', 'l', ',', ' ', 's', 'o', 'u', 'n', 'd', 'b', 'o', 'a', 'r', 'd', ',', ' ', 's', 'a', 'c', 'd', ',', ' ', 'd', 'a', 't', ',', ' ', 'w', 'e', 'b', ',', ' ', 'b', 'l', 'u', '-', 'r', 'a', 'y']);
    assert(m.take(8) =~= m);
}

proof fn lemma_default_media_split_first()
    ensures
        split_spec(seq!['c', 'd', ',', ' ', 'd', 'v', 'd', ',', ' ', 'v', 'i', 'n', 'y', 'l', ',', ' ', 's', 'o', 'u', 'n', 'd', 'b', 'o', 'a', 'r', 'd', ',', ' ', 's', 'a', 'c', 'd', ',', ' ', 'd', 'a', 't', ',', ' ', 'w', 'e', 'b', ',', ' ', 'b', 'l', 'u', '-', 'r', 'a', 'y'].take(25), ',') =~~= seq![seq!['c', 'd'], seq![' ', 'd', 'v', 'd'], seq![' ', 'v', 'i', 'n', 'y', 'l'], seq![' ', 's', 'o', 'u', 'n', 'd', 'b', 'o', 'a', 'r']],
{
    let s = seq!['c', 'd', ',', ' ', 'd', 'v', 'd', ',', ' ', 'v', 'i', 'n', 'y', 'l', ',', ' ', 's', 'o', 'u', 'n', 'd', 'b', 'o', 'a', 'r', 'd', ',', ' ', 's', 'a', 'c', 'd', ',', ' ', 'd', 'a', 't', ',', ' ', 'w', 'e', 'b', ',', ' ', 'b', 'l', 'u', '-', 'r', 'a', 'y'];
    assert(s.take(0) =~= Seq::<char>::empty());
    assert(split_spec(s.take(0), ',') =~~= seq![Seq::<char>::empty()]);
    assert(s.take(1).drop_last() =~= s.take(0));
    assert(split_spec(s.take(1), ',') =~~= seq![seq!['c']]);
    assert(s.take(2).drop_last() =~= s.take(1));
    assert(split_spec(s.take(2), ',') =~~= seq![seq!['c', 'd']]);
    assert(s.take(3).drop_last() =~= s.take(2));
    assert(split_spec(s.take(3), ',') =~~= seq![seq!['c', 'd'], Seq::<char>::empty()]);
    assert(s.take(4).drop_last() =~= s.take(3));
    assert(split_spec(s.take(4), ',') =~~= seq![seq!['c', 'd'], seq![' ']]);
    assert(s.take(5).drop_last() =~= s.take(4));
    assert(split_spec(s.take(5), ',') =~~= seq![seq!['c', 'd'], seq![' ', 'd']]);
    assert(s.take(6).drop_last() =~= s.take(5));
    assert(split_spec(s.take(6), ',') =~~= seq![seq!['c', 'd'], seq![' ', 'd', 'v']]);
    assert(s.take(7).drop_last() =~= s.take(6));
    assert(split_spec(s.take(7), ',') =~~= seq![seq!['c', 'd'], seq![' ', 'd', 'v', 'd']]);
    assert(s.take(8).drop_last() =~= s.take(7));
    assert(split_spec(s.take(8), ',') =~~= seq![seq!['c', 'd'], seq![' ', 'd', 'v', 'd'], Seq::<char>::empty()]);
    assert(s.take(9).drop_last() =~= s.take(8));
    assert(split_spec(s.take(9), ',') =~~= seq![seq!['c', 'd'], seq![' ', 'd', 'v', 'd'], seq![' ']]);
    assert(s.take(10).drop_last() =~= s.take(9));
    assert(split_spec(s.take(10), ',') =~~= seq![seq!['c', 'd'], seq![' ', 'd', 'v', 'd'], seq![' ', 'v']]);
    assert(s.take(11).drop_last() =~= s.take(10));
    assert(split_spec(s.take(11), ',') =~~= seq![seq!['c', 'd'], seq![' ', 'd', 'v', 'd'], seq![' ', 'v', 'i']]);
    assert(s.take(12).drop_last() =~= s.take(11));
    assert(split_spec(s.take(12), ',') =~~= seq![seq!['c', 'd'], seq![' ', 'd', 'v', 'd'], seq![' ', 'v', 'i', 'n']]);
    assert(s.take(13).drop_last() =~= s.take(12));
    assert(split_spec(s.take(13), ',') =~~= seq![seq!['c', 'd'], seq![' ', 'd', 'v', 'd'], seq![' ', 'v', 'i', 'n', 'y']]);
    assert(s.take(14).drop_last() =~= s.take(13));
    assert(split_spec(s.take(14), ',') =~~= seq![seq!['c', 'd'], seq![' ', 'd', 'v', 'd'], seq![' ', 'v', 'i', 'n', 'y', 'l']]);
    assert(s.take(15).drop_last() =~= s.take(14));
    assert(split_spec(s.take(15), ',') =~~= seq![seq!['c', 'd'], seq![' ', 'd', 'v', 'd'], seq![' ', 'v', 'i', 'n', 'y', 'l'], Seq::<char>::empty()]);
    assert(s.take(16).drop_last() =~= s.take(15));
    assert(split_spec(s.take(16), ',') =~~= seq![seq!['c', 'd'], seq![' ', 'd', 'v', 'd'], seq![' ', 'v', 'i', 'n', 'y', 'l'], seq![' ']]);
    assert(s.take(17).drop_last() =~= s.take(16));
    assert(split_spec(s.take(17), ',') =~~= seq![seq!['c', 'd'], seq![' ', 'd', 'v', 'd'], seq![' ', 'v', 'i', 'n', 'y', 'l'], seq![' ', 's']]);
    assert(s.take(18).drop_last() =~= s.take(17));
    assert(split_spec(s.take(18), ',') =~~= seq![seq!['c', 'd'], seq![' ', 'd', 'v', 'd'], seq![' ', 'v', 'i', 'n', 'y', 'l'], seq![' ', 's', 'o']]);
    assert(s.take(19).drop_last() =~= s.take(18));
    assert(split_spec(s.take(19), ',') =~~= seq![seq!['c', 'd'], seq![' ', 'd', 'v', 'd'], seq![' ', 'v', 'i', 'n', 'y', 'l'], seq![' ', 's', 'o', 'u']]);
    assert(s.take(20).drop_last() =~= s.take(19));
    assert(split_spec(s.take(20), ',') =~~= seq![seq!['c', 'd'], seq![' ', 'd', 'v', 'd'], seq![' ', 'v', 'i', 'n', 'y', 'l'], seq![' ', 's', 'o', 'u', 'n']]);
    assert(s.take(21).drop_last() =~= s.take(20));
    assert(split_spec(s.take(21), ',') =~~= seq![seq!['c', 'd'], seq![' ', 'd', 'v', 'd'], seq![' ', 'v', 'i', 'n', 'y', 'l'], seq![' ', 's', 'o', 'u', 'n', 'd']]);
    assert(s.take(22).drop_last() =~= s.take(21));
    assert(split_spec(s.take(22), ',') =~~= seq![seq!['c', 'd'], seq![' ', 'd', 'v', 'd'], seq![' ', 'v', 'i', 'n', 'y', 'l'], seq![' ', 's', 'o', 'u', 'n', 'd', 'b']]);
    assert(s.take(23).drop_last() =~= s.take(22));
    assert(split_spec(s.take(23), ',') =~~= seq![seq!['c', 'd'], seq![' ', 'd', 'v', 'd'], seq![' ', 'v', 'i', 'n', 'y', 'l'], seq![' ', 's', 'o', 'u', 'n', 'd', 'b', 'o']]);
    assert(s.take(24).drop_last() =~= s.take(23));
    assert(split_spec(s.take(24), ',') =~~= seq![seq!['c', 'd'], seq![' ', 'd', 'v', 'd'], seq![' ', 'v', 'i', 'n', 'y', 'l'], seq![' ', 's', 'o', 'u', 'n', 'd', 'b', 'o', 'a']]);
    assert(s.take(25).drop_last() =~= s.take(24));
    assert(split_spec(s.take(25), ',') =~~= seq![seq!['c', 'd'], seq![' ', 'd', 'v', 'd'], seq![' ', 'v', 'i', 'n', 'y', 'l'], seq![' ', 's', 'o', 'u', 'n', 'd', 'b', 'o', 'a', 'r']]);
}

proof fn lemma_default_media_split()
    ensures
        split_spec(seq!['c', 'd', ',', ' ', 'd', 'v', 'd', ',', ' ', 'v', 'i', 'n', 'y', 'l', ',', ' ', 's', 'o', 'u', 'n', 'd', 'b', 'o', 'a', 'r', 'd', ',', ' ', 's', 'a', 'c', 'd', ',', ' ', 'd', 'a', 't', ',', ' ', 'w', 'e', 'b', ',', ' ', 'b', 'l', 'u', '-', 'r', 'a', 'y'], ',') =~~= seq![seq!['c', 'd'], seq![' ', 'd', 'v', 'd'], seq![' ', 'v', 'i', 'n', 'y', 'l'], seq![' ', 's', 'o', 'u', 'n', 'd', 'b', 'o', 'a', 'r', 'd'], seq![' ', 's', 'a', 'c', 'd'], seq![' ', 'd', 'a', 't'], seq![' ', 'w', 'e', 'b'], seq![' ', 'b', 'l', 'u', '-', 'r', 'a', 'y']],
{
    lemma_default_media_split_first();
    let s = seq!['c', 'd', ',', ' ', 'd', 'v', 'd', ',', ' ', 'v', 'i', 'n', 'y', 'l', ',', ' ', 's', 'o', 'u', 'n', 'd', 'b', 'o', 'a', 'r', 'd', ',', ' ', 's', 'a', 'c', 'd', ',', ' ', 'd', 'a', 't', ',', ' ', 'w', 'e', 'b', ',', ' ', 'b', 'l', 'u', '-', 'r', 'a', 'y'];
    assert(s.take(26).drop_last() =~= s.take(25));
    assert(split_spec(s.take(26), ',') =~~= seq![seq!['c', 'd'], seq![' ', 'd', 'v', 'd'], seq![' ', 'v', 'i', 'n', 'y', 'l'], seq![' ', 's', 'o', 'u', 'n', 'd', 'b', 'o', 'a', 'r', 'd']]);
    assert(s.take(27).drop_last() =~= s.take(26));
    assert(split_spec(s.take(27), ',') =~~= seq![seq!['c', 'd'], seq![' ', 'd', 'v', 'd'], seq![' ', 'v', 'i', 'n', 'y', 'l'], seq![' ', 's', 'o', 'u', 'n', 'd', 'b', 'o', 'a', 'r', 'd'], Seq::<char>::empty()]);
    assert(s.take(28).drop_last() =~= s.take(27));
    assert(split_spec(s.take(28), ',') =~~= seq![seq!['c', 'd'], seq![' ', 'd', 'v', 'd'], seq![' ', 'v', 'i', 'n', 'y', 'l'], seq![' ', 's', 'o', 'u', 'n', 'd', 'b', 'o', 'a', 'r', 'd'], seq![' ']]);
    assert(s.take(29).drop_last() =~= s.take(28));
    assert(split_spec(s.take(29), ',') =~~= seq![seq!['c', 'd'], seq![' ', 'd', 'v', 'd'], seq![' ', 'v', 'i', 'n', 'y', 'l'], seq![' ', 's', 'o', 'u', 'n', 'd', 'b', 'o', 'a', 'r', 'd'], seq![' ', 's']]);
    assert(s.take(30).drop_last() =~= s.take(29));
    assert(split_spec(s.take(30), ',') =~~= seq![seq!['c', 'd'], seq![' ', 'd', 'v', 'd'], seq![' ', 'v', 'i', 'n', 'y', 'l'], seq![' ', 's', 'o', 'u', 'n', 'd', 'b', 'o', 'a', 'r', 'd'], seq![' ', 's', 'a']]);
    assert(s.take(31).drop_last() =~= s.take(30));
    assert(split_spec(s.take(31), ',') =~~= seq![seq!['c', 'd'], seq![' ', 'd', 'v', 'd'], seq![' ', 'v', 'i', 'n', 'y', 'l'], seq![' ', 's', 'o', 'u', 'n', 'd', 'b', 'o', 'a', 'r', 'd'], seq![' ', 's', 'a', 'c']]);
    assert(s.take(32).drop_last() =~= s.take(31));
    assert(split_spec(s.take(32), ',') =~~= seq![seq!['c', 'd'], seq![' ', 'd', 'v', 'd'], seq![' ', 'v', 'i', 'n', 'y', 'l'], seq![' ', 's', 'o', 'u', 'n', 'd', 'b', 'o', 'a', 'r', 'd'], seq![' ', 's', 'a', 'c', 'd']]);
    assert(s.take(33).drop_last() =~= s.take(32));
    assert(split_spec(s.take(33), ',') =~~= seq![seq!['c', 'd'], seq![' ', 'd', 'v', 'd'], seq![' ', 'v', 'i', 'n', 'y', 'l'], seq![' ', 's', 'o', 'u', 'n', 'd', 'b', 'o', 'a', 'r', 'd'], seq![' ', 's', 'a', 'c', 'd'], Seq::<char>::empty()]);
    assert(s.take(34).drop_last() =~= s.take(33));
    assert(split_spec(s.take(34), ',') =~~= seq![seq!['c', 'd'], seq![' ', 'd', 'v', 'd'], seq![' ', 'v', 'i', 'n', 'y', 'l'], seq![' ', 's', 'o', 'u', 'n', 'd', 'b', 'o', 'a', 'r', 'd'], seq![' ', 's', 'a', 'c', 'd'], seq![' ']]);
    assert(s.take(35).drop_last() =~= s.take(34));
    assert(split_spec(s.take(35), ',') =~~= seq![seq!['c', 'd'], seq![' ', 'd', 'v', 'd'], seq![' ', 'v', 'i', 'n', 'y', 'l'], seq![' ', 's', 'o', 'u', 'n', 'd', 'b', 'o', 'a', 'r', 'd'], seq![' ', 's', 'a', 'c', 'd'], seq![' ', 'd']]);
    assert(s.take(36).drop_last() =~= s.take(35));
    assert(split_spec(s.take(36), ',') =~~= seq![seq!['c', 'd'], seq![' ', 'd', 'v', 'd'], seq![' ', 'v', 'i', 'n', 'y', 'l'], seq![' ', 's', 'o', 'u', 'n', 'd', 'b', 'o', 'a', 'r', 'd'], seq![' ', 's', 'a', 'c', 'd'], seq![' ', 'd', 'a']]);
    assert(s.take(37).drop_last() =~= s.take(36));
    assert(split_spec(s.take(37), ',') =~~= seq![seq!['c', 'd'], seq![' ', 'd', 'v', 'd'], seq![' ', 'v', 'i', 'n', 'y', 'l'], seq![' ', 's', 'o', 'u', 'n', 'd', 'b', 'o', 'a', 'r', 'd'], seq![' ', 's', 'a', 'c', 'd'], seq![' ', 'd', 'a', 't']]);
    assert(s.take(38).drop_last() =~= s.take(37));
    assert(split_spec(s.take(38), ',') =~~= seq![seq!['c', 'd'], seq![' ', 'd', 'v', 'd'], seq![' ', 'v', 'i', 'n', 'y', 'l'], seq![' ', 's', 'o', 'u', 'n', 'd', 'b', 'o', 'a', 'r', 'd'], seq![' ', 's', 'a', 'c', 'd'], seq![' ', 'd', 'a', 't'], Seq::<char>::empty()]);
    assert(s.take(39).drop_last() =~= s.take(38));
    assert(split_spec(s.take(39), ',') =~~= seq![seq!['c', 'd'], seq![' ', 'd', 'v', 'd'], seq![' ', 'v', 'i', 'n', 'y', 'l'], seq![' ', 's', 'o', 'u', 'n', 'd', 'b', 'o', 'a', 'r', 'd'], seq![' ', 's', 'a', 'c', 'd'], seq![' ', 'd', 'a', 't'], seq![' ']]);
    assert(s.take(40).drop_last() =~= s.take(39));
    assert(split_spec(s.take(40), ',') =~~= seq![seq!['c', 'd'], seq![' ', 'd', 'v', 'd'], seq![' ', 'v', 'i', 'n', 'y', 'l'], seq![' ', 's', 'o', 'u', 'n', 'd', 'b', 'o', 'a', 'r', 'd'], seq![' ', 's', 'a', 'c', 'd'], seq![' ', 'd', 'a', 't'], seq![' ', 'w']]);
    assert(s.take(41).drop_last() =~= s.take(40));
    assert(split_spec(s.take(41), ',') =~~= seq![seq!['c', 'd'], seq![' ', 'd', 'v', 'd'], seq![' ', 'v', 'i', 'n', 'y', 'l'], seq![' ', 's', 'o', 'u', 'n', 'd', 'b', 'o', 'a', 'r', 'd'], seq![' ', 's', 'a', 'c', 'd'], seq![' ', 'd', 'a', 't'], seq![' ', 'w', 'e']]);
    assert(s.take(42).drop_last() =~= s.take(41));
    assert(split_spec(s.take(42), ',') =~~= seq![seq!['c', 'd'], seq![' ', 'd', 'v', 'd'], seq![' ', 'v', 'i', 'n', 'y', 'l'], seq![' ', 's', 'o', 'u', 'n', 'd', 'b', 'o', 'a', 'r', 'd'], seq![' ', 's', 'a', 'c', 'd'], seq![' ', 'd', 'a', 't'], seq![' ', 'w', 'e', 'b']]);
    assert(s.take(43).drop_last() =~= s.take(42));
    assert(split_spec(s.take(43), ',') =~~= seq![seq!['c', 'd'], seq![' ', 'd', 'v', 'd'], seq![' ', 'v', 'i', 'n', 'y', 'l'], seq![' ', 's', 'o', 'u', 'n', 'd', 'b', 'o', 'a', 'r', 'd'], seq![' ', 's', 'a', 'c', 'd'], seq![' ', 'd', 'a', 't'], seq![' ', 'w', 'e', 'b'], Seq::<char>::empty()]);
    assert(s.take(44).drop_last() =~= s.take(43));
    assert(split_spec(s.take(44), ',') =~~= seq![seq!['c', 'd'], seq![' ', 'd', 'v', 'd'], seq![' ', 'v', 'i', 'n', 'y', 'l'], seq![' ', 's', 'o', 'u', 'n', 'd', 'b', 'o', 'a', 'r', 'd'], seq![' ', 's', 'a', 'c', 'd'], seq![' ', 'd', 'a', 't'], seq![' ', 'w', 'e', 'b'], seq![' ']]);
    assert(s.take(45).drop_last() =~= s.take(44));
    assert(split_spec(s.take(45), ',') =~~= seq![seq!['c', 'd'], seq![' ', 'd', 'v', 'd'], seq![' ', 'v', 'i', 'n', 'y', 'l'], seq![' ', 's', 'o', 'u', 'n', 'd', 'b', 'o', 'a', 'r', 'd'], seq![' ', 's', 'a', 'c', 'd'], seq![' ', 'd', 'a', 't'], seq![' ', 'w', 'e', 'b'], seq![' ', 'b']]);
    assert(s.take(46).drop_last() =~= s.take(45));
    assert(split_spec(s.take(46), ',') =~~= seq![seq!['c', 'd'], seq![' ', 'd', 'v', 'd'], seq![' ', 'v', 'i', 'n', 'y', 'l'], seq![' ', 's', 'o', 'u', 'n', 'd', 'b', 'o', 'a', 'r', 'd'], seq![' ', 's', 'a', 'c', 'd'], seq![' ', 'd', 'a', 't'], seq![' ', 'w', 'e', 'b'], seq![' ', 'b', 'l']]);
    assert(s.take(47).drop_last() =~= s.take(46));
    assert(split_spec(s.take(47), ',') =~~= seq![seq!['c', 'd'], seq![' ', 'd', 'v', 'd'], seq![' ', 'v', 'i', 'n', 'y', 'l'], seq![' ', 's', 'o', 'u', 'n', 'd', 'b', 'o', 'a', 'r', 'd'], seq![' ', 's', 'a', 'c', 'd'], seq![' ', 'd', 'a', 't'], seq![' ', 'w', 'e', 'b'], seq![' ', 'b', 'l', 'u']]);
    assert(s.take(48).drop_last() =~= s.take(47));
    assert(split_spec(s.take(48), ',') =~~= seq![seq!['c', 'd'], seq![' ', 'd', 'v', 'd'], seq![' ', 'v', 'i', 'n', 'y', 'l'], seq![' ', 's', 'o', 'u', 'n', 'd', 'b', 'o', 'a', 'r', 'd'], seq![' ', 's', 'a', 'c', 'd'], seq![' ', 'd', 'a', 't'], seq![' ', 'w', 'e', 'b'], seq![' ', 'b', 'l', 'u', '-']]);
    assert(s.take(49).drop_last() =~= s.take(48));
    assert(split_spec(s.take(49), ',') =~~= seq![seq!['c', 'd'], seq![' ', 'd', 'v', 'd'], seq![' ', 'v', 'i', 'n', 'y', 'l'], seq![' ', 's', 'o', 'u', 'n', 'd', 'b', 'o', 'a', 'r', 'd'], seq![' ', 's', 'a', 'c', 'd'], seq![' ', 'd', 'a', 't'], seq![' ', 'w', 'e', 'b'], seq![' ', 'b', 'l', 'u', '-', 'r']]);
    assert(s.take(50).drop_last() =~= s.take(49));
    assert(split_spec(s.take(50), ',') =~~= seq![seq!['c', 'd'], seq![' ', 'd', 'v', 'd'], seq![' ', 'v', 'i', 'n', 'y', 'l'], seq![' ', 's', 'o', 'u', 'n', 'd', 'b', 'o', 'a', 'r', 'd'], seq![' ', 's', 'a', 'c', 'd'], seq![' ', 'd', 'a', 't'], seq![' ', 'w', 'e', 'b'], seq![' ', 'b', 'l', 'u', '-', 'r', 'a']]);
    assert(s.take(51).drop_last() =~= s.take(50));
    assert(split_spec(s.take(51), ',') =~~= seq![seq!['c', 'd'], seq![' ', 'd', 'v', 'd'], seq![' ', 'v', 'i', 'n', 'y', 'l'], seq![' ', 's', 'o', 'u', 'n', 'd', 'b', 'o', 'a', 'r', 'd'], seq![' ', 's', 'a', 'c', 'd'], seq![' ', 'd', 'a', 't'], seq![' ', 'w', 'e', 'b'], seq![' ', 'b', 'l', 'u', '-', 'r', 'a', 'y']]);
    assert(s.take(51) =~= s);
}

/// The default media setting lists the lossless media, given what the
/// lower-casing calls show of its entries.
proof fn lemma_default_media()
    requires
        media_case_known(crate::text::join_spec(spec_lossless_media(), ", "@)),
    ensures
        crate::text::join_spec(spec_lossless_media(), ", "@).len() > 0,
        media_spec(Some(crate::text::join_spec(spec_lossless_media(), ", "@))) == spec_lossless_media(),
{
    reveal_strlit("cd");
    reveal_strlit("dvd");
    reveal_strlit("vinyl");
    reveal_strlit("soundboard");
    reveal_strlit("sacd");
    reveal_strlit("dat");
    reveal_strlit("web");
    reveal_strlit("blu-ray");
    let m = spec_lossless_media();
    lemma_default_media_text();
    lemma_default_media_split();
    let s = crate::text::join_spec(m, ", "@);
    let parts = split_spec(s, ',');
    assert(parts.len() == 8);
    assert(parts[0] =~= seq!['c', 'd']);
    assert(trim_spec(parts[0]) =~= seq!['c', 'd']) by {
        reveal_with_fuel(crate::text::trim_start_by, 2);
        reveal_with_fuel(crate::text::trim_end_by, 2);
    }
    assert(is_ascii_text(trim_spec(parts[0])));
    assert(unicode_lowercase(trim_spec(parts[0])) == trim_spec(parts[0]).map_values(|c: char| ascii_lower(c)));
    assert(trim_spec(parts[0]).map_values(|c: char| ascii_lower(c)) =~= m[0]);
    assert(parts[1] =~= seq![' ', 'd', 'v', 'd']);
    assert(trim_spec(parts[1]) =~= seq!['d', 'v', 'd']) by {
        assert(parts[1].drop_first() =~= seq!['d', 'v', 'd']);
        reveal_with_fuel(crate::text::trim_start_by, 3);
        reveal_with_fuel(crate::text::trim_end_by, 2);
    }
    assert(is_ascii_text(trim_spec(parts[1])));
    assert(unicode_lowercase(trim_spec(parts[1])) == trim_spec(parts[1]).map_values(|c: char| ascii_lower(c)));
    assert(trim_spec(parts[1]).map_values(|c: char| ascii_lower(c)) =~= m[1]);
    assert(parts[2] =~= seq![' ', 'v', 'i', 'n', 'y', 'l']);
    assert(trim_spec(parts[2]) =~= seq!['v', 'i', 'n', 'y', 'l']) by {
        assert(parts[2].drop_first() =~= seq!['v', 'i', 'n', 'y', 'l']);
        reveal_with_fuel(crate::text::trim_start_by, 3);
        reveal_with_fuel(crate::text::trim_end_by, 2);
    }
    assert(is_ascii_text(trim_spec(parts[2])));
    assert(unicode_lowercase(trim_spec(parts[2])) == trim_spec(parts[2]).map_values(|c: char| ascii_lower(c)));
    assert(trim_spec(parts[2]).map_values(|c: char| ascii_lower(c)) =~= m[2]);
    assert(parts[3] =~= seq![' ', 's', 'o', 'u', 'n', 'd', 'b', 'o', 'a', 'r', 'd']);
    assert(trim_spec(parts[3]) =~= seq!['s', 'o', 'u', 'n', 'd', 'b', 'o', 'a', 'r', 'd']) by {
        assert(parts[3].drop_first() =~= seq!['s', 'o', 'u', 'n', 'd', 'b', 'o', 'a', 'r', 'd']);
        reveal_with_fuel(crate::text::trim_start_by, 3);
        reveal_with_fuel(crate::text::trim_end_by, 2);
    }
    assert(is_ascii_text(trim_spec(parts[3])));
    assert(unicode_lowercase(trim_spec(parts[3])) == trim_spec(parts[3]).map_values(|c: char| ascii_lower(c)));
    assert(trim_spec(parts[3]).map_values(|c: char| ascii_lower(c)) =~= m[3]);
    assert(parts[4] =~= seq![' ', 's', 'a', 'c', 'd']);
    assert(trim_spec(parts[4]) =~= seq!['s', 'a', 'c', 'd']) by {
        assert(parts[4].drop_first() =~= seq!['s', 'a', 'c', 'd']);
        reveal_with_fuel(crate::text::trim_start_by, 3);
        reveal_with_fuel(crate::text::trim_end_by, 2);
    }
    assert(is_ascii_text(trim_spec(parts[4])));
    assert(unicode_lowercase(trim_spec(parts[4])) == trim_spec(parts[4]).map_values(|c: char| ascii_lower(c)));
    assert(trim_spec(parts[4]).map_values(|c: char| ascii_lower(c)) =~= m[4]);
    assert(parts[5] =~= seq![' ', 'd', 'a', 't']);
    assert(trim_spec(parts[5]) =~= seq!['d', 'a', 't']) by {
        assert(parts[5].drop_first() =~= seq!['d', 'a', 't']);
        reveal_with_fuel(crate::text::trim_start_by, 3);
        reveal_with_fuel(crate::text::trim_end_by, 2);
    }
    assert(is_ascii_text(trim_spec(parts[5])));
    assert(unicode_lowercase(trim_spec(parts[5])) == trim_spec(parts[5]).map_values(|c: char| ascii_lower(c)));
    assert(trim_spec(parts[5]).map_values(|c: char| ascii_lower(c)) =~= m[5]);
    assert(parts[6] =~= seq![' ', 'w', 'e', 'b']);
    assert(trim_spec(parts[6]) =~= seq!['w', 'e', 'b']) by {
        assert(parts[6].drop_first() =~= seq!['w', 'e', 'b']);
        reveal_with_fuel(crate::text::trim_start_by, 3);
        reveal_with_fuel(crate::text::trim_end_by, 2);
    }
    assert(is_ascii_text(trim_spec(parts[6])));
    assert(unicode_lowercase(trim_spec(parts[6])) == trim_spec(parts[6]).map_values(|c: char| ascii_lower(c)));
    assert(trim_spec(parts[6]).map_values(|c: char| ascii_lower(c)) =~= m[6]);
    assert(parts[7] =~= seq![' ', 'b', 'l', 'u', '-', 'r', 'a', 'y']);
    assert(trim_spec(parts[7]) =~= seq!['b', 'l', 'u', '-', 'r', 'a', 'y']) by {
        assert(parts[7].drop_first() =~= seq!['b', 'l', 'u', '-', 'r', 'a', 'y']);
        reveal_with_fuel(crate::text::trim_start_by, 3);
        reveal_with_fuel(crate::text::trim_end_by, 2);
    }
    assert(is_ascii_text(trim_spec(parts[7])));
    assert(unicode_lowercase(trim_spec(parts[7])) == trim_spec(parts[7]).map_values(|c: char| ascii_lower(c)));
    assert(trim_spec(parts[7]).map_values(|c: char| ascii_lower(c)) =~= m[7]);
    let lowered = parts.map_values(|p: Seq<char>| unicode_lowercase(trim_spec(p)));
    assert(lowered =~= m);
    assert(m.no_duplicates()) by {
        assert forall|i: int, j: int| 0 <= i < m.len() && 0 <= j < m.len() && i != j implies m[i] != m[j] by {
            assert(m[i].len() != m[j].len() || m[i][0] != m[j][0] || m[i][1] != m[j][1]);
        }
    }
    lemma_dedupe_distinct(m);
}

/// The default `formats` setting names FLAC, MP3 V0 and MP3 320, in that
/// order, given what the upper-casing calls show of its entries.
proof fn lemma_default_formats()
    requires
        formats_case_known("flac, v0, 320"@),
    ensures
        parse_formats_spec("flac, v0, 320"@) == seq![spec_flac(), spec_mp3_v0(), spec_mp3_320()],
{
    reveal_strlit("flac, v0, 320");
    reveal_strlit("FLAC");
    reveal_strlit("320");
    reveal_strlit("V0");
    let s = "flac, v0, 320"@;
    assert(s.take(0) =~= Seq::<char>::empty());
    assert(split_spec(s.take(0), ',') =~~= seq![Seq::<char>::empty()]);
    assert(s.take(1).drop_last() =~= s.take(0));
    assert(split_spec(s.take(1), ',') =~~= seq![seq!['f']]);
    assert(s.take(2).drop_last() =~= s.take(1));
    assert(split_spec(s.take(2), ',') =~~= seq![seq!['f', 'l']]);
    assert(s.take(3).drop_last() =~= s.take(2));
    assert(split_spec(s.take(3), ',') =~~= seq![seq!['f', 'l', 'a']]);
    assert(s.take(4).drop_last() =~= s.take(3));
    assert(split_spec(s.take(4), ',') =~~= seq![seq!['f', 'l', 'a', 'c']]);
    assert(s.take(5).drop_last() =~= s.take(4));
    assert(split_spec(s.take(5), ',') =~~= seq![seq!['f', 'l', 'a', 'c'], Seq::<char>::empty()]);
    assert(s.take(6).drop_last() =~= s.take(5));
    assert(split_spec(s.take(6), ',') =~~= seq![seq!['f', 'l', 'a', 'c'], seq![' ']]);
    assert(s.take(7).drop_last() =~= s.take(6));
    assert(split_spec(s.take(7), ',') =~~= seq![seq!['f', 'l', 'a', 'c'], seq![' ', 'v']]);
    assert(s.take(8).drop_last() =~= s.take(7));
    assert(split_spec(s.take(8), ',') =~~= seq![seq!['f', 'l', 'a', 'c'], seq![' ', 'v', '0']]);
    assert(s.take(9).drop_last() =~= s.take(8));
    assert(split_spec(s.take(9), ',') =~~= seq![seq!['f', 'l', 'a', 'c'], seq![' ', 'v', '0'], Seq::<char>::empty()]);
    assert(s.take(10).drop_last() =~= s.take(9));
    assert(split_spec(s.take(10), ',') =~~= seq![seq!['f', 'l', 'a', 'c'], seq![' ', 'v', '0'], seq![' ']]);
    assert(s.take(11).drop_last() =~= s.take(10));
    assert(split_spec(s.take(11), ',') =~~= seq![seq!['f', 'l', 'a', 'c'], seq![' ', 'v', '0'], seq![' ', '3']]);
    assert(s.take(12).drop_last() =~= s.take(11));
    assert(split_spec(s.take(12), ',') =~~= seq![seq!['f', 'l', 'a', 'c'], seq![' ', 'v', '0'], seq![' ', '3', '2']]);
    assert(s.take(13).drop_last() =~= s.take(12));
    assert(split_spec(s.take(13), ',') =~~= seq![seq!['f', 'l', 'a', 'c'], seq![' ', 'v', '0'], seq![' ', '3', '2', '0']]);
    assert(s.take(13) =~= s);
    let p0 = seq!['f', 'l', 'a', 'c'];
    let p1 = seq![' ', 'v', '0'];
    let p2 = seq![' ', '3', '2', '0'];
    assert(split_spec(s, ',') =~= seq![p0, p1, p2]);
    let parts = split_spec(s, ',');
    let t0 = seq!['f', 'l', 'a', 'c'];
    let t1 = seq!['v', '0'];
    let t2 = seq!['3', '2', '0'];
    assert(trim_spec(p0) =~= t0) by {
        reveal_with_fuel(crate::text::trim_start_by, 2);
        reveal_with_fuel(crate::text::trim_end_by, 2);
    }
    assert(trim_spec(p1) =~= t1) by {
        assert(p1.drop_first() =~= t1);
        reveal_with_fuel(crate::text::trim_start_by, 3);
        reveal_with_fuel(crate::text::trim_end_by, 2);
    }
    assert(trim_spec(p2) =~= t2) by {
        assert(p2.drop_first() =~= t2);
        reveal_with_fuel(crate::text::trim_start_by, 3);
        reveal_with_fuel(crate::text::trim_end_by, 2);
    }
    assert(is_ascii_text(t0) && is_ascii_text(t1) && is_ascii_text(t2));
    assert(unicode_uppercase(trim_spec(parts[0])) == t0.map_values(|c: char| ascii_upper(c)));
    assert(unicode_uppercase(trim_spec(parts[1])) == t1.map_values(|c: char| ascii_upper(c)));
    assert(unicode_uppercase(trim_spec(parts[2])) == t2.map_values(|c: char| ascii_upper(c)));
    let u0 = t0.map_values(|c: char| ascii_upper(c));
    let u1 = t1.map_values(|c: char| ascii_upper(c));
    let u2 = t2.map_values(|c: char| ascii_upper(c));
    assert(u0 =~= "FLAC"@);
    assert(u1 =~= "V0"@);
    assert(u2 =~= "320"@);
    assert(u0.subrange(0, 4) =~= u0);
    assert(u1.subrange(0, 2) =~= u1);
    assert(u2.subrange(0, 3) =~= u2);
    assert(crate::text::occurs_at(u0, "FLAC"@, 0));
    assert(!contains_spec(u1, "FLAC"@));
    assert(!contains_spec(u1, "320"@));
    assert(crate::text::occurs_at(u1, "V0"@, 0));
    assert(!contains_spec(u2, "FLAC"@));
    assert(crate::text::occurs_at(u2, "320"@, 0));
    assert(format_of_entry(parts[0]) == Some(spec_flac()));
    assert(format_of_entry(parts[1]) == Some(spec_mp3_v0()));
    assert(format_of_entry(parts[2]) == Some(spec_mp3_320()));
    reveal_with_fuel(formats_of_entries, 4);
    assert(parts.drop_last() =~= seq![p0, p1]);
    assert(parts.drop_last().drop_last() =~= seq![p0]);
    assert(parts.drop_last().drop_last().drop_last() =~= Seq::<Seq<char>>::empty());
}

/// The text of a fresh configuration file: the default settings
/// (`default_config_entries`) as section `[orpheus]`, written by rust-ini.
/// Reading the text back gives the default section, and so the default
/// configuration (`is_default_config`).
pub fn default_config_text() -> (t: String)
    ensures
        t@ == ini_text_of("orpheus"@, spec_default_entries()),
        ini_section_of(strip_bom(t@), "orpheus"@) == Some(Some(spec_default_entries())),
        forall|h: Option<Seq<char>>, c: Result<AppConfig, ConfigError>|
            #[trigger] ini_text_config(t@, h, c) ==> (c matches Ok(cfg) && is_default_config(cfg, h)),
{
    let entries = default_config_entries();
    proof {
        lemma_default_entries_plain();
    }
    let t = write_ini_section(config_section_name(), &entries);
    proof {
        assert forall|h: Option<Seq<char>>, c: Result<AppConfig, ConfigError>|
            #[trigger] ini_text_config(t@, h, c) implies (c matches Ok(cfg) && is_default_config(cfg, h)) by {
            lemma_default_config(h);
            let e = spec_default_entries();
            assert(ini_section_of(strip_bom(t@), "orpheus"@) == Some(Some(e)));
            assert(section_config(e, h, c));
            assert(c is Ok);
            let cfg = c->Ok_0;
            assert(cfg.formats@ == seq![spec_flac(), spec_mp3_v0(), spec_mp3_320()]) by {
                assert(formats_case_known("flac, v0, 320"@));
                lemma_default_formats();
            }
            assert(views(cfg.media@) == spec_lossless_media()) by {
                lemma_default_media_text();
                assert(media_case_known(crate::text::join_spec(spec_lossless_media(), ", "@)));
                lemma_default_media();
            }
            assert(views(cfg.data_dirs@) == seq![Seq::<char>::empty()]);
            assert(views(cfg.data_dirs@).len() == cfg.data_dirs@.len());
            assert(cfg.data_dirs@.len() == 1);
            assert(cfg.data_dirs@[0]@ == views(cfg.data_dirs@)[0]);
            assert(cfg.output_dir@ == Seq::<char>::empty());
        }
    }
    t
}

// ---------------------------------------------------------------------------
// The default configuration.
// ---------------------------------------------------------------------------

proof fn lemma_lookup_skip(e: Seq<(Seq<char>, Seq<char>)>, key: Seq<char>, i: int)
    requires
        0 <= i <= e.len(),
        forall|j: int| 0 <= j < i ==> (#[trigger] e[j]).0 != key,
    ensures
        lookup(e, key) == lookup(e.skip(i), key),
    decreases i,
{
    if i > 0 {
        let d = e.drop_first();
        assert forall|j: int| 0 <= j < i - 1 implies (#[trigger] d[j]).0 != key by {
            assert(d[j] == e[j + 1]);
        }
        lemma_lookup_skip(d, key, i - 1);
        assert(d.skip(i - 1) =~= e.skip(i));
    } else {
        assert(e.skip(0) =~= e);
    }
}

/// Reading back the settings written to a fresh configuration file gives
/// the default configuration: empty user name and password, one empty data
/// directory (so an empty output directory), an empty torrent directory, no
/// per-format directories, the formats setting "flac, v0, 320", the media
/// setting listing the lossless media, tracker `https://home.opsfet.ch/`,
/// API `https://orpheus.network/`, mode "both", source "OPS" and
/// `24bit_behaviour` 0 (see the `ensures` of `config_from_section`).
pub proof fn lemma_default_config(home: Option<Seq<char>>)
    ensures
        missing_setting(spec_default_entries()) is None,
        lookup(spec_default_entries(), "username"@) == Some(Seq::<char>::empty()),
        lookup(spec_default_entries(), "password"@) == Some(Seq::<char>::empty()),
        data_dirs_spec(lookup(spec_default_entries(), "data_dir"@)->0, home) == seq![Seq::<char>::empty()],
        nonempty_setting(spec_default_entries(), "output_dir"@) is None,
        expand_tilde_spec(lookup(spec_default_entries(), "torrent_dir"@)->0, home) == Seq::<char>::empty(),
        setting_or(spec_default_entries(), "formats"@, "flac, v0, 320"@) == "flac, v0, 320"@,
        lookup(spec_default_entries(), "media"@) == Some(crate::text::join_spec(spec_lossless_media(), ", "@)),
        with_trailing_slash(setting_or(spec_default_entries(), "tracker"@, "https://home.opsfet.ch/"@))
            == "https://home.opsfet.ch/"@,
        with_trailing_slash(setting_or(spec_default_entries(), "api"@, "https://orpheus.network/"@))
            == "https://orpheus.network/"@,
        setting_or(spec_default_entries(), "mode"@, "both"@) == "both"@,
        nonempty_setting(spec_default_entries(), "source"@) == Some("OPS"@),
        do_24_bit_spec(spec_default_entries()) == 0,
        dir_override(spec_default_entries(), "output_dir_v0"@, home) is None,
        dir_override(spec_default_entries(), "output_dir_320"@, home) is None,
        dir_override(spec_default_entries(), "output_dir_flac"@, home) is None,
        dir_override(spec_default_entries(), "torrent_dir_v0"@, home) is None,
        dir_override(spec_default_entries(), "torrent_dir_320"@, home) is None,
        dir_override(spec_default_entries(), "torrent_dir_flac"@, home) is None,
{
    let e = spec_default_entries();
    reveal_strlit("username");
    reveal_strlit("password");
    reveal_strlit("data_dir");
    reveal_strlit("output_dir");
    reveal_strlit("torrent_dir");
    reveal_strlit("formats");
    reveal_strlit("media");
    reveal_strlit("24bit_behaviour");
    reveal_strlit("tracker");
    reveal_strlit("mode");
    reveal_strlit("api");
    reveal_strlit("source");
    reveal_strlit("output_dir_v0");
    reveal_strlit("output_dir_320");
    reveal_strlit("output_dir_flac");
    reveal_strlit("torrent_dir_v0");
    reveal_strlit("torrent_dir_320");
    reveal_strlit("torrent_dir_flac");
    reveal_strlit("");
    reveal_strlit("flac, v0, 320");
    reveal_strlit("0");
    reveal_strlit("https://home.opsfet.ch/");
    reveal_strlit("both");
    reveal_strlit("https://orpheus.network/");
    reveal_strlit("OPS");
    reveal_strlit("~/");
    assert forall|j: int| 0 <= j < 0 implies (#[trigger] e[j]).0 != "username"@ by {
        assert(e[j].0.len() != "username"@.len() || e[j].0[0] != "username"@[0]);
    }
    lemma_lookup_skip(e, "username"@, 0);
    assert(e.skip(0)[0] == e[0]);
    assert forall|j: int| 0 <= j < 1 implies (#[trigger] e[j]).0 != "password"@ by {
        assert(e[j].0.len() != "password"@.len() || e[j].0[0] != "password"@[0]);
    }
    lemma_lookup_skip(e, "password"@, 1);
    assert(e.skip(1)[0] == e[1]);
    assert forall|j: int| 0 <= j < 2 implies (#[trigger] e[j]).0 != "data_dir"@ by {
        assert(e[j].0.len() != "data_dir"@.len() || e[j].0[0] != "data_dir"@[0]);
    }
    lemma_lookup_skip(e, "data_dir"@, 2);
    assert(e.skip(2)[0] == e[2]);
    assert forall|j: int| 0 <= j < 3 implies (#[trigger] e[j]).0 != "output_dir"@ by {
        assert(e[j].0.len() != "output_dir"@.len() || e[j].0[0] != "output_dir"@[0]);
    }
    lemma_lookup_skip(e, "output_dir"@, 3);
    assert(e.skip(3)[0] == e[3]);
    assert forall|j: int| 0 <= j < 4 implies (#[trigger] e[j]).0 != "torrent_dir"@ by {
        assert(e[j].0.len() != "torrent_dir"@.len() || e[j].0[0] != "torrent_dir"@[0]);
    }
    lemma_lookup_skip(e, "torrent_dir"@, 4);
    assert(e.skip(4)[0] == e[4]);
    assert forall|j: int| 0 <= j < 5 implies (#[trigger] e[j]).0 != "formats"@ by {
        assert(e[j].0.len() != "formats"@.len() || e[j].0[0] != "formats"@[0]);
    }
    lemma_lookup_skip(e, "formats"@, 5);
    assert(e.skip(5)[0] == e[5]);
    assert forall|j: int| 0 <= j < 6 implies (#[trigger] e[j]).0 != "media"@ by {
        assert(e[j].0.len() != "media"@.len() || e[j].0[0] != "media"@[0]);
    }
    lemma_lookup_skip(e, "media"@, 6);
    assert(e.skip(6)[0] == e[6]);
    assert forall|j: int| 0 <= j < 7 implies (#[trigger] e[j]).0 != "24bit_behaviour"@ by {
        assert(e[j].0.len() != "24bit_behaviour"@.len() || e[j].0[0] != "24bit_behaviour"@[0]);
    }
    lemma_lookup_skip(e, "24bit_behaviour"@, 7);
    assert(e.skip(7)[0] == e[7]);
    assert forall|j: int| 0 <= j < 8 implies (#[trigger] e[j]).0 != "tracker"@ by {
        assert(e[j].0.len() != "tracker"@.len() || e[j].0[0] != "tracker"@[0]);
    }
    lemma_lookup_skip(e, "tracker"@, 8);
    assert(e.skip(8)[0] == e[8]);
    assert forall|j: int| 0 <= j < 9 implies (#[trigger] e[j]).0 != "mode"@ by {
        assert(e[j].0.len() != "mode"@.len() || e[j].0[0] != "mode"@[0]);
    }
    lemma_lookup_skip(e, "mode"@, 9);
    assert(e.skip(9)[0] == e[9]);
    assert forall|j: int| 0 <= j < 10 implies (#[trigger] e[j]).0 != "api"@ by {
        assert(e[j].0.len() != "api"@.len() || e[j].0[0] != "api"@[0]);
    }
    lemma_lookup_skip(e, "api"@, 10);
    assert(e.skip(10)[0] == e[10]);
    assert forall|j: int| 0 <= j < 11 implies (#[trigger] e[j]).0 != "source"@ by {
        assert(e[j].0.len() != "source"@.len() || e[j].0[0] != "source"@[0]);
    }
    lemma_lookup_skip(e, "source"@, 11);
    assert(e.skip(11)[0] == e[11]);
    assert forall|j: int| 0 <= j < 12 implies (#[trigger] e[j]).0 != "output_dir_v0"@ by {
        assert(e[j].0.len() != "output_dir_v0"@.len() || e[j].0[0] != "output_dir_v0"@[0]);
    }
    lemma_lookup_skip(e, "output_dir_v0"@, 12);
    assert(e.skip(12) =~= Seq::<(Seq<char>, Seq<char>)>::empty());
    assert forall|j: int| 0 <= j < 12 implies (#[trigger] e[j]).0 != "output_dir_320"@ by {
        assert(e[j].0.len() != "output_dir_320"@.len() || e[j].0[0] != "output_dir_320"@[0]);
    }
    lemma_lookup_skip(e, "output_dir_320"@, 12);
    assert(e.skip(12) =~= Seq::<(Seq<char>, Seq<char>)>::empty());
    assert forall|j: int| 0 <= j < 12 implies (#[trigger] e[j]).0 != "output_dir_flac"@ by {
        assert(e[j].0.len() != "output_dir_flac"@.len() || e[j].0[0] != "output_dir_flac"@[0]);
    }
    lemma_lookup_skip(e, "output_dir_flac"@, 12);
    assert(e.skip(12) =~= Seq::<(Seq<char>, Seq<char>)>::empty());
    assert forall|j: int| 0 <= j < 12 implies (#[trigger] e[j]).0 != "torrent_dir_v0"@ by {
        assert(e[j].0.len() != "torrent_dir_v0"@.len() || e[j].0[0] != "torrent_dir_v0"@[0]);
    }
    lemma_lookup_skip(e, "torrent_dir_v0"@, 12);
    assert(e.skip(12) =~= Seq::<(Seq<char>, Seq<char>)>::empty());
    assert forall|j: int| 0 <= j < 12 implies (#[trigger] e[j]).0 != "torrent_dir_320"@ by {
        assert(e[j].0.len() != "torrent_dir_320"@.len() || e[j].0[0] != "torrent_dir_320"@[0]);
    }
    lemma_lookup_skip(e, "torrent_dir_320"@, 12);
    assert(e.skip(12) =~= Seq::<(Seq<char>, Seq<char>)>::empty());
    assert forall|j: int| 0 <= j < 12 implies (#[trigger] e[j]).0 != "torrent_dir_flac"@ by {
        assert(e[j].0.len() != "torrent_dir_flac"@.len() || e[j].0[0] != "torrent_dir_flac"@[0]);
    }
    lemma_lookup_skip(e, "torrent_dir_flac"@, 12);
    assert(e.skip(12) =~= Seq::<(Seq<char>, Seq<char>)>::empty());
    assert(split_spec(Seq::<char>::empty(), ';') == seq![Seq::<char>::empty()]);
    assert(trim_spec(Seq::<char>::empty()) == Seq::<char>::empty());
    assert(!starts_with_spec(Seq::<char>::empty(), "~/"@));
    assert(seq![Seq::<char>::empty()].map_values(|d: Seq<char>| expand_tilde_spec(trim_spec(d), home))
        =~= seq![Seq::<char>::empty()]);
    crate::numeric::lemma_parse_decimal_roundtrip(0, 255);
    assert(crate::numeric::decimal_spec(0) =~= "0"@);
}

} // verus!
