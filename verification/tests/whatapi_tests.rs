use orpheusmorebetter::models::format::mp3_v0;
use orpheusmorebetter::models::torrent::Torrent;
use orpheusmorebetter::numeric::IntErrorKind;
use orpheusmorebetter::services::whatapi::{
    ajax_answer_check, ajax_get_params, ajax_post_form, crawl_base_url, crawl_page_step, crawl_page_url, crawls_seeding,
    crawls_snatched, crawls_uploaded, endpoint_with_fallback, extract_seeding_links, extract_torrent_links,
    has_next_page, index_answer_check, login_form, login_refused, media_params, release_url, seeding_url,
    set_24bit_form, set_24bit_path, status_is_success, upload_answer_check, upload_fields, RateLimiter,
};

const SECOND: u64 = 1_000_000_000;

fn pairs(v: &[(&str, &str)]) -> Vec<(String, String)> {
    v.iter().map(|(k, x)| (k.to_string(), x.to_string())).collect()
}

fn strs(v: &[&str]) -> Vec<String> {
    v.iter().map(|s| s.to_string()).collect()
}

fn torrent() -> Torrent {
    Torrent {
        id: 99,
        group_id: Some(5),
        media: "CD".to_string(),
        format: "FLAC".to_string(),
        seeders: 1,
        snatched: 2,
        description: "desc".to_string(),
        remaster_year: None,
        remaster_title: "T".to_string(),
        remaster_record_label: "L".to_string(),
        remaster_catalogue_number: "C".to_string(),
        file_list: String::new(),
        file_path: String::new(),
        encoding: "24bit Lossless".to_string(),
    }
}

#[test]
fn pacing() {
    let mut rl = RateLimiter::new();
    assert_eq!(rl.ready_at(), None);
    for i in 0..5 {
        assert_eq!(rl.begin_request(i * SECOND), 0);
        assert_eq!(rl.ready_at(), Some(i * SECOND));
        rl.record(i * SECOND);
        assert_eq!(rl.ready_at(), None);
    }
    assert_eq!(rl.begin_request(6 * SECOND), 4 * SECOND);
    assert_eq!(rl.last_begin(), 6 * SECOND);
    assert_eq!(rl.ready_at(), Some(10 * SECOND));
    rl.record(10 * SECOND);
    assert_eq!(rl.begin_request(10 * SECOND + 1), SECOND - 1);
    assert_eq!(rl.begin_request(10 * SECOND + SECOND / 2), SECOND / 2);
    assert_eq!(rl.begin_request(25 * SECOND), 0);
}

#[test]
fn statuses_and_answers() {
    assert!(status_is_success(200));
    assert!(!status_is_success(302));
    assert!(login_refused(403));
    assert!(login_refused(503));
    assert!(!login_refused(302));
    assert_eq!(ajax_answer_check("index", "success", None), Ok(()));
    assert_eq!(ajax_answer_check("index", "failure", Some("bad".into())), Err("AJAX error (index): bad".to_string()));
    assert_eq!(ajax_answer_check("x", "failure", None), Err("AJAX error (x): ".to_string()));
    assert_eq!(index_answer_check("failure", None), Err("Login failed: unknown error".to_string()));
    assert_eq!(upload_answer_check("failure", Some("dupe".into())), Err("Upload error: dupe".to_string()));
}

#[test]
fn request_contents() {
    assert_eq!(login_form("u", "p", None), pairs(&[("username", "u"), ("password", "p"), ("login", "Log in")]));
    assert_eq!(login_form("u", "p", Some("123")).last().unwrap(), &("mfa".to_string(), "123".to_string()));
    assert_eq!(
        ajax_get_params("torrentgroup", "KEY", &pairs(&[("id", "5")])),
        pairs(&[("action", "torrentgroup"), ("auth", "KEY"), ("id", "5")])
    );
    assert_eq!(ajax_post_form(&pairs(&[("a", "b")]), "K"), pairs(&[("a", "b"), ("auth", "K")]));
    let fields = upload_fields(5, &torrent(), &mp3_v0(), &strs(&["line1", "line2"]), "K");
    assert_eq!(fields[1], ("groupid".to_string(), "5".to_string()));
    assert_eq!(fields[3], ("remaster_year".to_string(), "0".to_string()));
    assert_eq!(fields[8], ("bitrate".to_string(), "V0 (VBR)".to_string()));
    assert_eq!(fields[11], ("release_desc".to_string(), "line1\nline2".to_string()));
    assert_eq!(upload_fields(5, &torrent(), &mp3_v0(), &vec![], "K").len(), 11);
    assert_eq!(set_24bit_path(99), "torrents.php?action=edit&id=99");
    let form = set_24bit_form(&torrent());
    assert_eq!(form.len(), 13);
    assert_eq!(form[3], ("torrentid".to_string(), "99".to_string()));
    assert_eq!(form[6], ("bitrate".to_string(), "24bit Lossless".to_string()));
}

#[test]
fn crawling() {
    let base = crawl_base_url("https://o/", "snatched", 12);
    assert_eq!(base, "https://o/torrents.php?type=snatched&userid=12&format=FLAC");
    assert_eq!(crawl_page_url(&base, "&media=CD", 2), format!("{}&media=CD&page=2", base));
    assert!(has_next_page("<a href=\"?page=3\">", 2));
    assert!(!has_next_page("<a href=\"?page=3\">", 3));
    assert_eq!(seeding_url("https://o/"), "https://o/better.php?method=transcode&filter=seeding");
    assert!(crawls_snatched("both") && crawls_uploaded("all") && crawls_seeding("seeding"));
    assert!(!crawls_snatched("uploaded") && !crawls_seeding("both"));
}

#[test]
fn links() {
    let html = "x torrents.php?id=1&torrentid=2 torrents.php?id=3&torrentid=4torrents.php?id=&torrentid=5 torrents.php?id=6&torrentid=7";
    assert_eq!(extract_torrent_links(html, &vec![]), Ok(vec![(1, 2), (3, 4), (6, 7)]));
    assert_eq!(extract_torrent_links(html, &strs(&["4"])), Ok(vec![(1, 2), (6, 7)]));
    assert_eq!(extract_torrent_links("torrents.php?id=١&torrentid=2", &vec![]), Err(IntErrorKind::InvalidDigit));
    assert_eq!(
        extract_torrent_links("torrents.php?id=99999999999999999999&torrentid=2", &vec![]),
        Err(IntErrorKind::PosOverflow)
    );
    let seeding = "torrents.php?groupId=8&torrentid=9#9 torrents.php?groupId=1&torrentid=2# torrents.php?groupId=3&torrentid=4#x";
    assert_eq!(extract_seeding_links(seeding, &vec![]), Ok(vec![(8, 9)]));
    let url = release_url("https://o/", 11, 22);
    assert_eq!(url, "https://o/torrents.php?id=11&torrentid=22#torrent22");
    assert_eq!(extract_torrent_links(&url, &vec![]), Ok(vec![(11, 22)]));
}

fn regex_links(html: &str, pattern: &str) -> Vec<(String, String)> {
    let re = regex::Regex::new(pattern).unwrap();
    re.captures_iter(html).map(|c| (c[1].to_string(), c[2].to_string())).collect()
}

#[test]
fn links_match_patterns() {
    let pages = [
        "torrents.php?id=1&torrentid=2torrents.php?id=3&torrentid=44",
        "torrents.php?id=torrents.php?id=5&torrentid=6",
        "torrents.php?groupId=1&torrentid=2#3torrents.php?groupId=4&torrentid=5#6",
        "torrents.php?groupId=1&torrentid=22#torrents.php?groupId=7&torrentid=8#9",
        "torrents.php?id=١٢&torrentid=٣",
    ];
    for p in pages {
        let got: Vec<(String, String)> = match extract_torrent_links(p, &vec![]) {
            Ok(v) => v.iter().map(|(a, b)| (a.to_string(), b.to_string())).collect(),
            Err(_) => vec![("err".to_string(), String::new())],
        };
        let want = regex_links(p, r"torrents\.php\?id=(\d+)&torrentid=(\d+)");
        let want_parsed: Vec<(String, String)> = if want.iter().all(|(a, b)| a.parse::<u64>().is_ok() && b.parse::<u64>().is_ok()) {
            want
        } else {
            vec![("err".to_string(), String::new())]
        };
        assert_eq!(got, want_parsed, "{}", p);
        let got_s: Vec<(String, String)> = match extract_seeding_links(p, &vec![]) {
            Ok(v) => v.iter().map(|(a, b)| (a.to_string(), b.to_string())).collect(),
            Err(_) => vec![("err".to_string(), String::new())],
        };
        assert_eq!(got_s, regex_links(p, r"torrents\.php\?groupId=(\d+)&torrentid=(\d+)#\d+"), "{}", p);
    }
}

#[test]
fn media_parameters() {
    let lossless = strs(&["web", "cd", "dvd", "vinyl", "soundboard", "sacd", "dat", "blu-ray"]);
    assert_eq!(media_params(&lossless), strs(&[""]));
    assert_eq!(media_params(&strs(&["cd", "blu-ray", "tape"])), strs(&["&media=CD", "&media=Blu-ray"]));
    assert_eq!(media_params(&vec![]), Vec::<String>::new());
}

#[test]
fn urls() {
    assert_eq!(endpoint_with_fallback(None, "https://orpheus.network/".into()), "https://orpheus.network/");
    assert_eq!(endpoint_with_fallback(Some("https://x".into()), "f".into()), "https://x/");
}

#[test]
fn rate_limiter_latest_tracks_last_record() {
    let mut rl = RateLimiter::new();
    assert_eq!(rl.latest(), None);
    rl.begin_request(3 * SECOND);
    rl.record(3 * SECOND);
    rl.begin_request(4 * SECOND);
    rl.record(4 * SECOND);
    assert_eq!(rl.latest(), Some(4 * SECOND));
}

#[test]
fn crawl_page_step_reads_links_and_next_page() {
    let html = "<a href=\"torrents.php?id=7&torrentid=70\">x</a> <a href=\"torrents.php?id=8&torrentid=80\">y</a> page=3";
    let (found, next) = crawl_page_step(html, 2, &strs(&["80"])).unwrap();
    assert_eq!(found, vec![(7, 70)]);
    assert_eq!(next, Some(3));

    let (found, next) = crawl_page_step(html, 3, &Vec::new()).unwrap();
    assert_eq!(found, vec![(7, 70), (8, 80)]);
    assert_eq!(next, None);
}

#[test]
fn crawl_page_step_reports_overflowing_ids() {
    let html = "torrents.php?id=99999999999999999999&torrentid=1";
    assert_eq!(crawl_page_step(html, 1, &Vec::new()), Err(IntErrorKind::PosOverflow));
}

#[test]
fn paced_requests_never_exceed_five_per_window() {
    let mut rl = RateLimiter::new();
    let mut starts: Vec<u64> = Vec::new();
    let mut now: u64 = 0;
    for i in 0..40u64 {
        let wait = rl.begin_request(now);
        let start = now + wait;
        rl.record(start);
        starts.push(start);
        now = start + 1 + (i % 3) * (SECOND / 4);
    }
    for &end in &starts {
        let in_window = starts.iter().filter(|&&t| t + 10 * SECOND > end && t <= end).count();
        assert!(in_window <= 5, "{} starts in the window ending at {}", in_window, end);
    }
    assert!(starts[39] - starts[0] >= 70 * SECOND);
}
