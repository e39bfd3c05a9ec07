use orpheusmorebetter::config::{
    add_unique_string, config_from_ini_text, config_from_section, config_section_name, default_config_text, format_named, default_config_entries, ensure_trailing_slash, expand_tilde,
    lossless_media, media_search_map, output_dir_for_format, parse_formats, torrent_dir_for_format,
    ConfigError, IniSection,
};
use orpheusmorebetter::models::format::{flac, mp3_320, mp3_v0};

fn section(pairs: &[(&str, &str)]) -> IniSection {
    IniSection { entries: pairs.iter().map(|(k, v)| (k.to_string(), v.to_string())).collect() }
}

fn minimal() -> Vec<(&'static str, &'static str)> {
    vec![("username", "me"), ("password", "pw"), ("data_dir", "~/a ; /b"), ("torrent_dir", "~/t")]
}

#[test]
fn tilde_expansion() {
    assert_eq!(expand_tilde("~/music", Some("/home/me")), "/home/me/music");
    assert_eq!(expand_tilde("~/music", None), "~/music");
    assert_eq!(expand_tilde("~music", Some("/home/me")), "~music");
    assert_eq!(expand_tilde("/abs", Some("/home/me")), "/abs");
}

#[test]
fn formats_setting() {
    assert_eq!(parse_formats("flac, v0, 320"), vec![flac(), mp3_v0(), mp3_320()]);
    assert_eq!(parse_formats("MP3 320,FLAC"), vec![mp3_320(), flac()]);
    assert_eq!(parse_formats("v2, nothing"), vec![]);
    assert_eq!(parse_formats("flac320"), vec![flac()]);
    assert_eq!(parse_formats("\u{fb02}ac"), vec![flac()]);
}

#[test]
fn trailing_slash() {
    assert_eq!(ensure_trailing_slash("https://x"), "https://x/");
    assert_eq!(ensure_trailing_slash("https://x/"), "https://x/");
    assert_eq!(ensure_trailing_slash(""), "/");
}

#[test]
fn config_defaults() {
    let s = section(&minimal());
    let c = config_from_section(Some(&s), Some("/home/me")).unwrap();
    assert_eq!(c.username, "me");
    assert_eq!(c.password, "pw");
    assert_eq!(c.data_dirs, vec!["/home/me/a".to_string(), "/b".to_string()]);
    assert_eq!(c.output_dir, "/home/me/a");
    assert_eq!(c.torrent_dir, "/home/me/t");
    assert_eq!(c.formats, vec![flac(), mp3_v0(), mp3_320()]);
    let lossless: Vec<String> = lossless_media().iter().map(|s| s.to_string()).collect();
    assert_eq!(c.media, lossless);
    assert_eq!(c.tracker, "https://home.opsfet.ch/");
    assert_eq!(c.api_endpoint, "https://orpheus.network/");
    assert_eq!(c.mode, "both");
    assert_eq!(c.source, None);
    assert_eq!(c.do_24_bit, 0);
    assert_eq!(output_dir_for_format(&c, &flac()), "/home/me/a");
    assert_eq!(torrent_dir_for_format(&c, &mp3_v0()), "/home/me/t");
}

#[test]
fn config_settings() {
    let mut pairs = minimal();
    pairs.extend_from_slice(&[
        ("output_dir", "/out"),
        ("formats", "320"),
        ("media", "CD, Vinyl ,cd"),
        ("tracker", "https://t.example"),
        ("api", "https://api.example/"),
        ("mode", "seeding"),
        ("source", "OPS"),
        ("24bit_behaviour", "2"),
    ]);
    let c = config_from_section(Some(&section(&pairs)), None).unwrap();
    assert_eq!(c.output_dir, "/out");
    assert_eq!(c.data_dirs, vec!["~/a".to_string(), "/b".to_string()]);
    assert_eq!(c.formats, vec![mp3_320()]);
    assert_eq!(c.media, vec!["cd".to_string(), "vinyl".to_string()]);
    assert_eq!(c.tracker, "https://t.example/");
    assert_eq!(c.api_endpoint, "https://api.example/");
    assert_eq!(c.mode, "seeding");
    assert_eq!(c.source, Some("OPS".to_string()));
    assert_eq!(c.do_24_bit, 2);
}

#[test]
fn config_odd_values() {
    let mut pairs = minimal();
    pairs.extend_from_slice(&[("output_dir", ""), ("source", ""), ("24bit_behaviour", "x"), ("media", "")]);
    let c = config_from_section(Some(&section(&pairs)), None).unwrap();
    assert_eq!(c.output_dir, "~/a");
    assert_eq!(c.source, None);
    assert_eq!(c.do_24_bit, 0);
    assert_eq!(c.media.len(), 8);
}

#[test]
fn config_errors() {
    assert_eq!(config_from_section(None, None).err(), Some(ConfigError::MissingSection));
    let order = ["username", "password", "data_dir", "torrent_dir"];
    let errors = [
        ConfigError::MissingUsername,
        ConfigError::MissingPassword,
        ConfigError::MissingDataDir,
        ConfigError::MissingTorrentDir,
    ];
    for (i, key) in order.iter().enumerate() {
        let pairs: Vec<(&str, &str)> = minimal().into_iter().filter(|(k, _)| k != key).collect();
        assert_eq!(config_from_section(Some(&section(&pairs)), None).err(), Some(errors[i]));
    }
    assert_eq!(ConfigError::MissingSection.message(), "Missing [orpheus] section in config");
    assert_eq!(ConfigError::MissingTorrentDir.message(), "Missing torrent_dir");
}

#[test]
fn first_value_wins() {
    let s = section(&[("mode", "all"), ("mode", "both")]);
    assert_eq!(s.get("mode"), Some("all".to_string()));
    assert_eq!(s.get("none"), None);
}

#[test]
fn defaults_written() {
    let d = default_config_entries();
    assert_eq!(d.len(), 12);
    assert_eq!(d[6], ("media".to_string(), "cd, dvd, vinyl, soundboard, sacd, dat, web, blu-ray".to_string()));
    assert_eq!(d[11], ("source".to_string(), "OPS".to_string()));
    assert_eq!(config_section_name(), "orpheus");
    assert_eq!(media_search_map()[7], ("blu-ray", "Blu-ray"));
}

#[test]
fn per_format_directories() {
    let mut pairs = minimal();
    pairs.extend_from_slice(&[
        ("output_dir", "/out"),
        ("output_dir_v0", "~/v0"),
        ("output_dir_320", ""),
        ("torrent_dir_flac", "/tf"),
    ]);
    let c = config_from_section(Some(&section(&pairs)), Some("/home/me")).unwrap();
    assert_eq!(c.output_dir_v0, Some("/home/me/v0".to_string()));
    assert_eq!(c.output_dir_320, None);
    assert_eq!(c.output_dir_flac, None);
    assert_eq!(c.torrent_dir_flac, Some("/tf".to_string()));
    assert_eq!(output_dir_for_format(&c, &mp3_v0()), "/home/me/v0");
    assert_eq!(output_dir_for_format(&c, &mp3_320()), "/out");
    assert_eq!(output_dir_for_format(&c, &flac()), "/out");
    assert_eq!(torrent_dir_for_format(&c, &flac()), "/tf");
    assert_eq!(torrent_dir_for_format(&c, &mp3_v0()), "/home/me/t");
    assert_eq!(torrent_dir_for_format(&c, &mp3_320()), "/home/me/t");
}

#[test]
fn default_config_reads_back() {
    let s = IniSection { entries: default_config_entries() };
    let c = config_from_section(Some(&s), Some("/home/me")).unwrap();
    assert_eq!(c.username, "");
    assert_eq!(c.password, "");
    assert_eq!(c.data_dirs, vec!["".to_string()]);
    assert_eq!(c.output_dir, "");
    assert_eq!(c.torrent_dir, "");
    assert_eq!(c.formats, vec![flac(), mp3_v0(), mp3_320()]);
    let lossless: Vec<String> = lossless_media().iter().map(|s| s.to_string()).collect();
    assert_eq!(c.media, lossless);
    assert_eq!(c.tracker, "https://home.opsfet.ch/");
    assert_eq!(c.api_endpoint, "https://orpheus.network/");
    assert_eq!(c.mode, "both");
    assert_eq!(c.source, Some("OPS".to_string()));
    assert_eq!(c.do_24_bit, 0);
    assert_eq!(c.output_dir_v0, None);
    assert_eq!(c.torrent_dir_flac, None);
}

#[test]
fn config_from_file_text() {
    let text = "\u{feff}[orpheus]\nusername = me\npassword=pw\ndata_dir=~/a\ntorrent_dir=/t\nformats=320\n";
    let c = config_from_ini_text(text, Some("/home/me")).unwrap();
    assert_eq!(c.username, "me");
    assert_eq!(c.data_dirs, vec!["/home/me/a".to_string()]);
    assert_eq!(c.formats, vec![mp3_320()]);
    assert_eq!(config_from_ini_text("[other]\nx=1\n", None).err(), Some(ConfigError::MissingSection));
    assert_eq!(config_from_ini_text("[orpheus]\nusername=me\n", None).err(), Some(ConfigError::MissingPassword));
    assert_eq!(config_from_ini_text("[orpheus\nusername=me\n", None).err(), Some(ConfigError::LoadFailed));
    assert_eq!(ConfigError::LoadFailed.message(), "Failed to load config file");
}

#[test]
fn default_config_file_reads_back() {
    let text = default_config_text();
    assert!(text.starts_with("[orpheus]"));
    let c = config_from_ini_text(&text, Some("/home/me")).unwrap();
    assert_eq!(c.username, "");
    assert_eq!(c.password, "");
    assert_eq!(c.data_dirs, vec!["".to_string()]);
    assert_eq!(c.output_dir, "");
    assert_eq!(c.torrent_dir, "");
    assert_eq!(c.formats, vec![flac(), mp3_v0(), mp3_320()]);
    let lossless: Vec<String> = lossless_media().iter().map(|s| s.to_string()).collect();
    assert_eq!(c.media, lossless);
    assert_eq!(c.tracker, "https://home.opsfet.ch/");
    assert_eq!(c.api_endpoint, "https://orpheus.network/");
    assert_eq!(c.mode, "both");
    assert_eq!(c.source, Some("OPS".to_string()));
    assert_eq!(c.do_24_bit, 0);
}

#[test]
fn mapped_text_helpers() {
    assert_eq!(format_named("FLAC 24"), Some(flac()));
    assert_eq!(format_named("V0 320"), Some(mp3_320()));
    assert_eq!(format_named("V0"), Some(mp3_v0()));
    assert_eq!(format_named("v0"), None);
    let mut v: Vec<String> = vec!["cd".to_string()];
    add_unique_string(&mut v, "web");
    add_unique_string(&mut v, "cd");
    assert_eq!(v, vec!["cd".to_string(), "web".to_string()]);
}
