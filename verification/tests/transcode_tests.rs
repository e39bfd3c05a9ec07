use orpheusmorebetter::models::format::{flac, mp3_320, mp3_v0};
use orpheusmorebetter::services::transcode::{
    announce_url, build_pipeline_commands, flac_properties_from_output, wanted_file, extra_file_extensions, is_24bit, is_multichannel, is_wanted_file,
    mktorrent_leading_args, needs_resampling, parse_flac_properties, pipeline_verdict, plan_transcode,
    release_is_passthrough, resample_rate, tag_check_outcome, torrent_file_name, transcode_commands_desc,
    transcode_output_name, FlacProperties, PropertiesError,
};

fn props(rate: u32, bits: u8, ch: u8) -> FlacProperties {
    FlacProperties { sample_rate: rate, bit_depth: bits, channels: ch }
}

fn strs(v: &[&str]) -> Vec<String> {
    v.iter().map(|s| s.to_string()).collect()
}

#[test]
fn properties_output() {
    assert_eq!(parse_flac_properties("44100\n16\n2\n"), Ok(props(44100, 16, 2)));
    assert_eq!(parse_flac_properties(" 96000 \r\n24\n6"), Ok(props(96000, 24, 6)));
    assert_eq!(parse_flac_properties(""), Err(PropertiesError::MissingSampleRate));
    assert_eq!(parse_flac_properties("x\n16\n2"), Err(PropertiesError::InvalidSampleRate));
    assert_eq!(parse_flac_properties("44100\n"), Err(PropertiesError::MissingBitDepth));
    assert_eq!(parse_flac_properties("44100\n300\n2"), Err(PropertiesError::InvalidBitDepth));
    assert_eq!(parse_flac_properties("44100\n16"), Err(PropertiesError::MissingChannels));
    assert_eq!(parse_flac_properties("44100\n16\n-1"), Err(PropertiesError::InvalidChannels));
    assert_eq!(PropertiesError::InvalidChannels.message(), "invalid channels");
}

#[test]
fn release_scans() {
    let probes = vec![Ok(props(44100, 16, 2)), Ok(props(96000, 24, 2)), Err("broken".to_string())];
    assert_eq!(is_24bit(&probes), Ok(true));
    assert_eq!(needs_resampling(&probes), Ok(true));
    assert_eq!(is_multichannel(&probes), Err("broken".to_string()));
    assert_eq!(resample_rate(&probes), Err("broken".to_string()));
    let clean = vec![Ok(props(44100, 16, 2)), Ok(props(88200, 24, 2))];
    assert_eq!(resample_rate(&clean), Ok(Some(44100)));
    assert_eq!(resample_rate(&vec![Ok(props(96000, 24, 2)), Ok(props(48000, 16, 2))]), Ok(Some(48000)));
    assert_eq!(resample_rate(&vec![Ok(props(22050, 16, 2))]), Ok(None));
    assert_eq!(resample_rate(&vec![]), Ok(None));
    assert_eq!(is_24bit(&vec![]), Ok(false));
    assert_eq!(needs_resampling(&vec![Ok(props(96000, 16, 2))]), Ok(true));
    assert_eq!(is_24bit(&vec![Ok(props(96000, 16, 2))]), Ok(false));
    assert_eq!(needs_resampling(&vec![Ok(props(48000, 16, 2)), Ok(props(44100, 16, 2))]), Ok(false));
    assert_eq!(is_multichannel(&vec![Ok(props(44100, 16, 6))]), Ok(true));
}

#[test]
fn pipelines() {
    assert_eq!(
        transcode_commands_desc(&mp3_v0(), false, None),
        strs(&["flac -dcs -- input.flac", "lame -S -V 0 --vbr-new --ignore-tag-errors - output.mp3"])
    );
    assert_eq!(
        transcode_commands_desc(&mp3_320(), true, Some(44100)),
        strs(&[
            "sox input.flac -G -b 16 -t wav - rate -v -L 44100 dither",
            "lame -S -h -b 320 --ignore-tag-errors - output.mp3"
        ])
    );
    assert_eq!(
        transcode_commands_desc(&flac(), true, Some(48000)),
        strs(&["sox input.flac -G -b 16 output.flac rate -v -L 48000 dither"])
    );
    assert_eq!(
        transcode_commands_desc(&flac(), false, None),
        strs(&["flac -dcs -- input.flac", "flac --best -o output.flac -"])
    );
    let cmds = build_pipeline_commands(&mp3_v0(), false, None, "in put.flac", "out.mp3");
    assert_eq!(cmds[0], strs(&["flac", "-dcs", "--", "in put.flac"]));
    assert_eq!(cmds[1].last().unwrap(), "out.mp3");
}

#[test]
fn file_plans() {
    assert_eq!(plan_transcode(props(44100, 16, 2), "a.flac"), Ok((false, None)));
    assert_eq!(plan_transcode(props(96000, 24, 2), "a.flac"), Ok((true, Some(48000))));
    assert_eq!(plan_transcode(props(88200, 16, 2), "a.flac"), Ok((true, Some(44100))));
    assert_eq!(plan_transcode(props(44100, 24, 2), "a.flac"), Ok((true, Some(44100))));
    assert_eq!(plan_transcode(props(44100, 16, 6), "a.flac"), Err("Multichannel FLAC unsupported: a.flac".to_string()));
    assert_eq!(plan_transcode(props(50000, 24, 2), "a.flac"), Err("Unknown sample rate 50000Hz for a.flac".to_string()));
    assert_eq!(transcode_output_name("01 - Who? Me: \"Yes\"/No", &mp3_v0()), "01 - Who_ Me_ _Yes_/No.mp3");
}

#[test]
fn pipeline_outcomes() {
    let cmds = vec![strs(&["flac", "-dcs"]), strs(&["lame", "-S"])];
    assert_eq!(pipeline_verdict(&cmds, &vec![(0, String::new()), (0, String::new())], "\"a\""), Ok(()));
    assert_eq!(
        pipeline_verdict(&cmds, &vec![(141, String::new()), (0, String::new())], "\"a\""),
        Err("Transcode failed: flac -dcs: SIGPIPE".to_string())
    );
    assert_eq!(
        pipeline_verdict(&cmds, &vec![(-13, String::new()), (2, "bad".to_string())], "\"a\""),
        Err("Transcode of \"a\" failed: bad".to_string())
    );
    assert_eq!(pipeline_verdict(&cmds, &vec![(1, "e".to_string())], "x"), Err("Transcode of x failed: e".to_string()));
    assert_eq!(tag_check_outcome(true, None), Ok(()));
    assert_eq!(tag_check_outcome(false, Some("m".into())), Err("Tag check failed: m".to_string()));
    assert_eq!(tag_check_outcome(false, None), Err("Tag check failed: ".to_string()));
}

#[test]
fn release_and_torrent() {
    assert!(release_is_passthrough(&flac(), false));
    assert!(!release_is_passthrough(&flac(), true));
    assert!(!release_is_passthrough(&mp3_v0(), false));
    assert_eq!(extra_file_extensions().len(), 11);
    assert!(is_wanted_file(Some("FLAC"), "01.flac", "flac"));
    assert!(!is_wanted_file(Some("flac"), ".hidden.flac", "flac"));
    assert!(!is_wanted_file(None, "README", "flac"));
    assert_eq!(torrent_file_name("Album [FLAC]"), "Album [FLAC].torrent");
    assert_eq!(announce_url("https://t/", "KEY"), "https://t/KEY/announce");
    assert_eq!(mktorrent_leading_args(Some("OPS"), "u"), strs(&["-p", "-s", "OPS", "-a", "u", "-o"]));
    assert_eq!(mktorrent_leading_args(None, "u"), strs(&["-p", "-a", "u", "-o"]));
}

#[test]
fn raw_metaflac_output() {
    assert_eq!(
        flac_properties_from_output(b"44100\n16\n2\n".to_vec()),
        Some(Ok(FlacProperties { sample_rate: 44100, bit_depth: 16, channels: 2 }))
    );
    assert_eq!(flac_properties_from_output(vec![0xc3, 0x28]), None);
}

#[test]
fn wanted_after_lowercasing() {
    assert!(wanted_file("flac", "a.flac", "flac"));
    assert!(!wanted_file("flac", ".hidden.flac", "flac"));
    assert!(!wanted_file("FLAC", "a.FLAC", "flac"));
    assert!(!wanted_file("mp3", "a.mp3", "flac"));
}
