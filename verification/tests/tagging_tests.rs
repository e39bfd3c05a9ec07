use id3::TagLike;
use orpheusmorebetter::services::tagging::{
    add_flac_tag, check_tags, copy_tags, flac_assignments, flac_first_values, flac_tags_from_output, judge_tags,
    kind_of_extension, mp3_frames, mp3_tags, mp3_tags_from_bytes, parse_flac_tags, scrub_tag, FlacTags, tag_file_kind, tracknumber_format_ok, vorbis_to_id3_frame, Id3Content, TagFileKind, TagWritePlan,
};

fn pairs(v: &[(&str, &str)]) -> Vec<(String, String)> {
    v.iter().map(|(k, x)| (k.to_string(), x.to_string())).collect()
}

#[test]
fn scrub_values() {
    assert_eq!(scrub_tag("title", "  Song \0"), "Song ");
    assert_eq!(scrub_tag("title", "\0 Song\0 "), " Song");
    assert_eq!(scrub_tag("tracknumber", "03/00"), "03");
    assert_eq!(scrub_tag("tracktotal", " 12/00\0"), "12");
    assert_eq!(scrub_tag("tracknumber", "3/12"), "3/12");
    assert_eq!(scrub_tag("tracknumber", "/5"), "5");
    assert_eq!(scrub_tag("discnumber", "0"), "");
    assert_eq!(scrub_tag("discnumber", "00/2"), "");
    assert_eq!(scrub_tag("tracknumber", "0"), "0");
    assert_eq!(scrub_tag("totaltracks", "12"), "12");
    assert_eq!(scrub_tag("comment", "0"), "0");
    assert_eq!(scrub_tag("discnumber", "0/a\nb"), "0/a\nb");
}

fn regex_scrub(name: &str, value: &str) -> String {
    let numeric = ["tracknumber", "discnumber", "tracktotal", "totaltracks", "disctotal", "totaldiscs"];
    let mut scrubbed = value.trim().trim_matches('\0').to_string();
    if numeric.contains(&name) {
        let re = regex::Regex::new(r"/(0+)?$").unwrap();
        scrubbed = re.replace(&scrubbed, "").to_string();
        scrubbed = scrubbed.trim_start_matches('/').to_string();
        if name != "tracknumber" {
            let re_zero = regex::Regex::new(r"^0+(/.*)?$").unwrap();
            if re_zero.is_match(&scrubbed) {
                return String::new();
            }
        }
    }
    scrubbed
}

#[test]
fn scrub_matches_patterns() {
    let values = ["", "/", "//", "0", "00", "1/0", "1//0", "1/00/0", "/0/0", "0/", "0/x", "0/x\ny", "a/0b", " 7/0 ", "٣/0"];
    for name in ["tracknumber", "discnumber", "totaldiscs", "artist"] {
        for v in values {
            assert_eq!(scrub_tag(name, v), regex_scrub(name, v), "{} {:?}", name, v);
        }
    }
}

#[test]
fn tracknumber_pattern() {
    let re = regex::Regex::new(r"^\d+(/(\d+))?$").unwrap();
    for s in ["1", "01/12", "1/", "/1", "a", "", "1/2/3", "١٢/٣", "12 "] {
        assert_eq!(tracknumber_format_ok(s), re.is_match(s), "{:?}", s);
    }
}

#[test]
fn flac_export_parsing() {
    let t = parse_flac_tags("title=A\nARTIST=B\nArtist=C\nnoequals\nCOMMENT=x=y\r\n");
    assert_eq!(t.entries.len(), 3);
    assert_eq!(t.entries[0], ("TITLE".to_string(), vec!["A".to_string()]));
    assert_eq!(t.entries[1], ("ARTIST".to_string(), vec!["B".to_string(), "C".to_string()]));
    assert_eq!(t.entries[2], ("COMMENT".to_string(), vec!["x=y".to_string()]));
    assert_eq!(flac_first_values(&t), pairs(&[("TITLE", "A"), ("ARTIST", "B"), ("COMMENT", "x=y")]));
}

#[test]
fn tag_check() {
    let good = pairs(&[("ARTIST", "a"), ("ALBUM", "b"), ("TITLE", "c"), ("TRACKNUMBER", "1/10")]);
    assert_eq!(judge_tags(&good, "\"f.mp3\"", true), (true, None));
    let missing = pairs(&[("ARTIST", "a"), ("TITLE", "c"), ("TRACKNUMBER", "1")]);
    assert_eq!(judge_tags(&missing, "\"f.mp3\"", true), (false, Some("\"f.mp3\" has no album tag".to_string())));
    let empty = pairs(&[("ARTIST", ""), ("ALBUM", "b"), ("TITLE", "c"), ("TRACKNUMBER", "1")]);
    assert_eq!(judge_tags(&empty, "p", false), (false, Some("p has an empty artist tag".to_string())));
    let bad = pairs(&[("ARTIST", "a"), ("ALBUM", "b"), ("TITLE", "c"), ("TRACKNUMBER", "A1")]);
    assert_eq!(judge_tags(&bad, "p", true), (false, Some("p has a malformed tracknumber tag (\"A1\")".to_string())));
    assert_eq!(judge_tags(&bad, "p", false), (true, None));
}

#[test]
fn tag_check_of_files() {
    let kind = tag_file_kind(Some("OGG"));
    assert!(matches!(kind, TagFileKind::Unsupported(ref e) if e == "ogg"));
    assert_eq!(check_tags(&kind, &Ok(vec![]), "p", true), (false, Some("Unsupported format: ogg".to_string())));
    let flac = tag_file_kind(Some("FLAC"));
    assert!(matches!(flac, TagFileKind::Flac));
    assert_eq!(check_tags(&flac, &Err("boom".to_string()), "p", true), (false, Some("Failed to read tags: boom".to_string())));
    assert!(matches!(tag_file_kind(None), TagFileKind::Unsupported(ref e) if e.is_empty()));
    let mp3 = mp3_tags(Some("t".into()), Some("a".into()), Some("b".into()), Some(4));
    assert_eq!(mp3, pairs(&[("TITLE", "t"), ("ARTIST", "a"), ("ALBUM", "b"), ("TRACKNUMBER", "4")]));
    assert_eq!(check_tags(&tag_file_kind(Some("mp3")), &Ok(mp3), "p", true), (true, None));
}

#[test]
fn frame_names() {
    assert_eq!(vorbis_to_id3_frame("ARTIST"), Some("TPE1"));
    assert_eq!(vorbis_to_id3_frame("ALBUM ARTIST"), Some("TPE2"));
    assert_eq!(vorbis_to_id3_frame("CONTENT GROUP"), Some("TIT1"));
    assert_eq!(vorbis_to_id3_frame("artist"), None);
}

#[test]
fn copy_to_flac() {
    let t = parse_flac_tags("TRACKNUMBER=03/00\nDISCNUMBER=0\nTITLE= Song \nTITLE=\n");
    assert_eq!(flac_assignments(&t), vec!["TRACKNUMBER=03".to_string(), "TITLE=Song".to_string()]);
    match copy_tags(&t, Some("Flac")) {
        Ok(TagWritePlan::Flac(a)) => assert_eq!(a.len(), 2),
        other => panic!("unexpected {:?}", other),
    }
    assert_eq!(copy_tags(&t, Some("wav")).err(), Some("Unsupported tag format: wav".to_string()));
}

#[test]
fn copy_to_mp3() {
    let t = parse_flac_tags(
        "ARTIST=A\nARTIST=B\nTRACKNUMBER=3\nTOTALTRACKS=12\nDISCNUMBER=1\nDISCTOTAL=2\nCOMMENT=nice\nORIGINALDATE=1990\nGENRE= \n",
    );
    let frames = mp3_frames(&t);
    let summary: Vec<(String, String)> = frames
        .iter()
        .map(|f| match &f.content {
            Id3Content::Text(x) => (f.id.clone(), x.clone()),
            Id3Content::Comment { lang, description, text } => (f.id.clone(), format!("{}|{}|{}", lang, description, text)),
        })
        .collect();
    assert_eq!(
        summary,
        pairs(&[("TPE1", "A/B"), ("TRCK", "3/12"), ("TPOS", "1/2"), ("COMM", "eng||nice"), ("TDOR", "1990")])
    );
    let only_track = parse_flac_tags("TRACKNUMBER=5\nTOTALTRACKS=0\nTRACKTOTAL=9\n");
    let f = mp3_frames(&only_track);
    assert_eq!(f.len(), 1);
    assert!(matches!(&f[0].content, Id3Content::Text(x) if x == "5"));
}

#[test]
fn mp3_tags_read_from_bytes() {
    assert_eq!(mp3_tags_from_bytes(&[]), Vec::<(String, String)>::new());
    assert_eq!(mp3_tags_from_bytes(b"not an mp3 at all"), Vec::<(String, String)>::new());
    let mut tag = id3::Tag::new();
    tag.set_title("Song");
    tag.set_artist("Band");
    tag.set_track(7);
    let mut bytes: Vec<u8> = Vec::new();
    tag.write_to(&mut bytes, id3::Version::Id3v24).unwrap();
    bytes.extend_from_slice(&[0u8; 16]);
    assert_eq!(
        mp3_tags_from_bytes(&bytes),
        pairs(&[("TITLE", "Song"), ("ARTIST", "Band"), ("TRACKNUMBER", "7")])
    );
}

#[test]
fn flac_tags_from_raw_output() {
    let t = flac_tags_from_output(b"ARTIST=A\nartist=B\ntitle=T\n".to_vec()).unwrap();
    assert_eq!(
        t.entries,
        vec![
            ("ARTIST".to_string(), vec!["A".to_string(), "B".to_string()]),
            ("TITLE".to_string(), vec!["T".to_string()]),
        ]
    );
    assert!(flac_tags_from_output(vec![0xff, 0xfe]).is_none());
}

#[test]
fn adding_flac_tags() {
    let mut t = FlacTags { entries: Vec::new() };
    add_flac_tag(&mut t, "ALBUM".to_string(), "X".to_string());
    add_flac_tag(&mut t, "DATE".to_string(), "1999".to_string());
    add_flac_tag(&mut t, "ALBUM".to_string(), "Y".to_string());
    assert_eq!(t.entries[0], ("ALBUM".to_string(), vec!["X".to_string(), "Y".to_string()]));
    assert_eq!(t.entries.len(), 2);
}

#[test]
fn kinds_of_lowercased_extensions() {
    assert!(matches!(kind_of_extension("flac".to_string()), TagFileKind::Flac));
    assert!(matches!(kind_of_extension("mp3".to_string()), TagFileKind::Mp3));
    assert!(matches!(kind_of_extension("ogg".to_string()), TagFileKind::Unsupported(e) if e == "ogg"));
    assert!(matches!(kind_of_extension("FLAC".to_string()), TagFileKind::Unsupported(_)));
}
