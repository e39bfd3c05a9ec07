use std::collections::hash_map::DefaultHasher;
use std::hash::{Hash, Hasher};
use orpheusmorebetter::models::artist::Artist;
use orpheusmorebetter::models::error::{ApiError, TranscodeError};
use orpheusmorebetter::models::format::{all_formats, flac, format_from_name_encoding, mp3_320, mp3_v0};
use orpheusmorebetter::models::torrent::{has_pre_emphasis, Torrent};
use orpheusmorebetter::models::torrentgroup::{
    sanitize_name, GroupData, MusicInfo, TorrentGroup, TorrentGroupApiResponse,
};

fn torrent(id: u64, media: &str, title: &str, year: Option<u32>) -> Torrent {
    Torrent {
        id,
        group_id: None,
        media: media.to_string(),
        format: "FLAC".to_string(),
        seeders: 3,
        snatched: 10,
        description: String::new(),
        remaster_year: year,
        remaster_title: title.to_string(),
        remaster_record_label: "Label".to_string(),
        remaster_catalogue_number: "CAT-1".to_string(),
        file_list: String::new(),
        file_path: "Album".to_string(),
        encoding: "Lossless".to_string(),
    }
}

fn artists(names: &[&str]) -> Vec<Artist> {
    names.iter().enumerate().map(|(i, n)| Artist { id: i as u64, name: n.to_string() }).collect()
}

fn group(name: &str, composers: &[&str], dj: &[&str], main: &[&str]) -> TorrentGroup {
    TorrentGroup {
        id: 7,
        name: name.to_string(),
        year: 1999,
        torrents: vec![],
        composers: artists(composers),
        dj: artists(dj),
        artists: artists(main),
        with_artists: vec![],
        conductor: vec![],
        remixed_by: vec![],
        producer: vec![],
    }
}

#[test]
fn formats_roundtrip() {
    for f in all_formats() {
        assert_eq!(format_from_name_encoding(f.name, f.encoding), Some(f));
        assert_eq!(format_from_name_encoding(f.name, f.encoding).unwrap().long_name, f.long_name);
    }
    assert_eq!(format_from_name_encoding("MP3", "V2 (VBR)"), None);
    assert_eq!(format_from_name_encoding("flac", "Lossless"), None);
    assert_eq!(all_formats().len(), 3);
    assert_eq!(flac().display_string(), "FLAC");
    assert_eq!(mp3_v0().display_string(), "MP3 V0");
    assert_eq!(mp3_320().encoder.opts, "-h -b 320 --ignore-tag-errors");
}

#[test]
fn format_equality_by_name_and_encoding() {
    let mut other = mp3_320();
    other.long_name = "something else";
    assert!(other == mp3_320());
    assert!(mp3_320() != mp3_v0());
}

#[test]
fn media_info() {
    assert_eq!(torrent(1, "CD", "", Some(2001)).formatted_media_info(), "{CD}");
    assert_eq!(torrent(1, "CD", "Deluxe", Some(2001)).formatted_media_info(), "{CD ~ Deluxe 2001}");
    assert_eq!(torrent(1, "Vinyl", "Remaster", None).formatted_media_info(), "{Vinyl ~ Remaster }");
}

#[test]
fn pre_emphasis_blocks_transcodes() {
    assert_eq!(torrent(1, "CD", "Pre-Emphasis", None).allowed_transcodes().len(), 0);
    assert_eq!(torrent(1, "CD", "Deluxe", None).allowed_transcodes().len(), 3);
    for t in ["pre-emphasis", "PRE EMPHASISED", "Preemphasized", "xpre emphasis", "preſemphasis", "pre  emphasis", "pre-emphasize", "emphasis", "pre-emphaſis"] {
        let re = regex::Regex::new(r"(?i)pre[- ]?emphasi(s(ed)?|zed)").unwrap();
        assert_eq!(has_pre_emphasis(t), re.is_match(t), "{:?}", t);
    }
}

#[test]
fn format_key_of_torrent() {
    let t = torrent(1, "CD", "", None);
    assert_eq!(t.format_key(), Some(flac()));
    let mut m = torrent(2, "WEB", "", None);
    m.format = "MP3".to_string();
    m.encoding = "320".to_string();
    assert_eq!(m.format_key(), Some(mp3_320()));
}

#[test]
fn artist_credit() {
    assert_eq!(group("X", &[], &[], &[]).formatted_artist_string(), "Unknown");
    assert_eq!(group("X", &[], &[], &["Solo"]).formatted_artist_string(), "Solo");
    assert_eq!(group("X", &["Bach"], &["DJ"], &["A"]).formatted_artist_string(), "Bach");
    assert_eq!(group("X", &[], &["DJ Shadow"], &["A"]).formatted_artist_string(), "DJ Shadow");
    assert_eq!(group("X", &[], &[], &["A", "B"]).formatted_artist_string(), "A & B");
    assert_eq!(group("X", &[], &[], &["A", "B", "C"]).formatted_artist_string(), "A, B, & C");
    let long = ["Alpha Beta Gamma", "Delta Epsilon Zeta", "Eta Theta Iota"];
    assert_eq!(group("X", &[], &[], &long).formatted_artist_string(), "Various Artists");
}

#[test]
fn transcode_dirname() {
    let g = group("What? Yes: No/Maybe", &[], &[], &["A"]);
    let t = torrent(1, "CD", "Deluxe", Some(2001));
    let d = g.get_transcode_dirname(&t, &mp3_v0());
    assert_eq!(d, "A - 1999 - What_ Yes_ No_Maybe {CD ~ Deluxe 2001} [MP3 V0]");
    let long_name: String = std::iter::repeat('x').take(150).collect();
    let g2 = group(&long_name, &[], &[], &["A"]);
    let d2 = g2.get_transcode_dirname(&torrent(1, "WEB", "", None), &flac());
    assert_eq!(d2, format!("A - 1999 - {} {{WEB}} [FLAC]", "x".repeat(100)));
}

#[test]
fn sanitize_matches_regex() {
    let re = regex::Regex::new(r#"[\?<>\\*\|":/]"#).unwrap();
    let re_stem = regex::Regex::new(r#"[\?<>\\*\|":]"#).unwrap();
    for s in ["a/b", "?<>\\*|\":/", "plain", "ü:é"] {
        assert_eq!(sanitize_name(s, false), re.replace_all(s, "_"));
        assert_eq!(sanitize_name(s, true), re_stem.replace_all(s, "_"));
    }
}

#[test]
fn group_from_response() {
    let resp = TorrentGroupApiResponse {
        group: GroupData {
            group_id: 42,
            group_name: "Album".to_string(),
            group_year: 2010,
            music_info: MusicInfo {
                composers: vec![],
                dj: vec![],
                artists: artists(&["Band"]),
                with_artists: artists(&["Guest"]),
                conductor: vec![],
                remixed_by: vec![],
                producer: vec![],
            },
        },
        torrents: vec![torrent(1, "CD", "", None), torrent(2, "WEB", "", None)],
    };
    let g = TorrentGroup::from_response(resp);
    assert_eq!(g.id, 42);
    assert_eq!(g.name, "Album");
    assert_eq!(g.year, 2010);
    assert_eq!(g.torrents.len(), 2);
    assert_eq!(g.torrents[0].id, 1);
    assert_eq!(g.torrents[1].id, 2);
    assert!(g.torrents.iter().all(|t| t.group_id == Some(42)));
    assert_eq!(g.with_artists[0].name, "Guest");
}

#[test]
fn error_messages() {
    assert_eq!(TranscodeError::Transcode("x".into()).message(), "Transcode failed: x");
    assert_eq!(TranscodeError::UnknownSampleRate(22050, "a.flac".into()).message(), "Unsupported sample rate 22050Hz for file a.flac");
    assert_eq!(TranscodeError::Downmix.message(), "Multichannel releases are unsupported");
    assert_eq!(TranscodeError::TagCheck("t".into()).message(), "Tag check failed: t");
    assert_eq!(TranscodeError::Tagging("t".into()).message(), "Tagging failed: t");
    let io = std::io::Error::new(std::io::ErrorKind::Other, "disk");
    assert_eq!(TranscodeError::Io(io).message(), "disk");
    assert_eq!(ApiError::Request("r".into()).message(), "API request failed: r");
    assert_eq!(ApiError::Api("a".into()).message(), "API error: a");
    assert_eq!(ApiError::Login.message(), "Login failed");
}

#[test]
fn transcode_dirname_is_one_component() {
    let g = group("A/B\\C", &[], &[], &["AC/DC", "Me*You"]);
    let t = torrent(1, "Vinyl", "Re:Issue", None);
    let d = g.get_transcode_dirname(&t, &flac());
    assert!(!d.contains('/'));
    assert!(!d.chars().any(|c| "?<>\\*|\":".contains(c)));
    assert_eq!(d, "AC_DC & Me_You - 1999 - A_B_C {Vinyl ~ Re_Issue } [FLAC]");
}

#[test]
fn format_hash_follows_equality() {
    fn hash_of(f: &orpheusmorebetter::models::format::Format) -> u64 {
        let mut h = DefaultHasher::new();
        f.hash(&mut h);
        h.finish()
    }
    let mut renamed = mp3_v0();
    renamed.long_name = "another name";
    assert_eq!(renamed, mp3_v0());
    assert_eq!(hash_of(&renamed), hash_of(&mp3_v0()));
    let set: std::collections::HashSet<_> = vec![flac(), mp3_v0(), renamed, flac()].into_iter().collect();
    assert_eq!(set.len(), 2);
}
