//! Transcoding decisions: FLAC stream properties, resampling, the encoder
//! pipeline and its outcome, and the names of produced files.

use vstd::prelude::*;
use crate::models::format::Format;
use crate::models::torrentgroup::{sanitize_name, sanitize_spec};
use crate::numeric::{decimal_spec, decimal_string, parse_u32, parse_u8, parse_uint_spec, IntErrorKind};
use crate::text::{
    concat, join, join_spec, lines, lines_spec, owned, split_whitespace, str_eq, to_lowercase, trim,
    trim_spec, unicode_lowercase, views, words_spec,
};

verus! {

/// The stream properties of a FLAC file.
#[derive(Clone, Copy, Debug, PartialEq, Eq, Structural)]
pub struct FlacProperties {
    pub sample_rate: u32,
    pub bit_depth: u8,
    pub channels: u8,
}

/// Why the output of `metaflac --show-sample-rate --show-bps --show-channels`
/// cannot be read.
#[derive(Clone, Copy, Debug, PartialEq, Eq, Structural)]
pub enum PropertiesError {
    MissingSampleRate,
    InvalidSampleRate,
    MissingBitDepth,
    InvalidBitDepth,
    MissingChannels,
    InvalidChannels,
}

impl PropertiesError {
    pub open spec fn message_spec(&self) -> Seq<char> {
        match self {
            PropertiesError::MissingSampleRate => "missing sample rate"@,
            PropertiesError::InvalidSampleRate => "invalid sample rate"@,
            PropertiesError::MissingBitDepth => "missing bit depth"@,
            PropertiesError::InvalidBitDepth => "invalid bit depth"@,
            PropertiesError::MissingChannels => "missing channels"@,
            PropertiesError::InvalidChannels => "invalid channels"@,
        }
    }

    /// The message the error is reported with.
    pub fn message(&self) -> (s: String)
        ensures
            s@ == self.message_spec(),
    {
        match self {
            PropertiesError::MissingSampleRate => String::from_str("missing sample rate"),
            PropertiesError::InvalidSampleRate => String::from_str("invalid sample rate"),
            PropertiesError::MissingBitDepth => String::from_str("missing bit depth"),
            PropertiesError::InvalidBitDepth => String::from_str("invalid bit depth"),
            PropertiesError::MissingChannels => String::from_str("missing channels"),
            PropertiesError::InvalidChannels => String::from_str("invalid channels"),
        }
    }
}

/// The properties in the first three lines of the `metaflac` output: sample
/// rate, bits per sample and channels, each trimmed and read as a number.
pub open spec fn flac_properties_spec(stdout: Seq<char>) -> Result<FlacProperties, PropertiesError> {
    let ls = lines_spec(stdout);
    if ls.len() < 1 {
        Err(PropertiesError::MissingSampleRate)
    } else if parse_uint_spec(trim_spec(ls[0]), u32::MAX as nat) is Err {
        Err(PropertiesError::InvalidSampleRate)
    } else if ls.len() < 2 {
        Err(PropertiesError::MissingBitDepth)
    } else if parse_uint_spec(trim_spec(ls[1]), u8::MAX as nat) is Err {
        Err(PropertiesError::InvalidBitDepth)
    } else if ls.len() < 3 {
        Err(PropertiesError::MissingChannels)
    } else if parse_uint_spec(trim_spec(ls[2]), u8::MAX as nat) is Err {
        Err(PropertiesError::InvalidChannels)
    } else {
        Ok(FlacProperties {
            sample_rate: parse_uint_spec(trim_spec(ls[0]), u32::MAX as nat)->Ok_0 as u32,
            bit_depth: parse_uint_spec(trim_spec(ls[1]), u8::MAX as nat)->Ok_0 as u8,
            channels: parse_uint_spec(trim_spec(ls[2]), u8::MAX as nat)->Ok_0 as u8,
        })
    }
}

/// The properties in the raw output of `metaflac --show-sample-rate
/// --show-bps --show-channels`: `None` when the output is not UTF-8 (see
/// `parse_flac_properties`).
pub fn flac_properties_from_output(stdout: Vec<u8>) -> (r: Option<Result<FlacProperties, PropertiesError>>)
    ensures
        match r {
            Some(p) => vstd::utf8::valid_utf8(stdout@) && p == flac_properties_spec(vstd::utf8::decode_utf8(stdout@)),
            None => !vstd::utf8::valid_utf8(stdout@),
        },
{
    match crate::text::string_from_utf8(stdout) {
        Some(s) => Some(parse_flac_properties(s.as_str())),
        None => None,
    }
}

/// Reads the output of `metaflac --show-sample-rate --show-bps --show-channels`.
pub fn parse_flac_properties(stdout: &str) -> (r: Result<FlacProperties, PropertiesError>)
    ensures
        r == flac_properties_spec(stdout@),
{
    let ls = lines(stdout);
    if ls.len() < 1 {
        return Err(PropertiesError::MissingSampleRate);
    }
    assert(views(ls@)[0] == ls@[0]@);
    let t0 = trim(ls[0].as_str());
    let sample_rate = match parse_u32(t0.as_str()) {
        Ok(n) => n,
        Err(_) => return Err(PropertiesError::InvalidSampleRate),
    };
    if ls.len() < 2 {
        return Err(PropertiesError::MissingBitDepth);
    }
    assert(views(ls@)[1] == ls@[1]@);
    let t1 = trim(ls[1].as_str());
    let bit_depth = match parse_u8(t1.as_str()) {
        Ok(n) => n,
        Err(_) => return Err(PropertiesError::InvalidBitDepth),
    };
    if ls.len() < 3 {
        return Err(PropertiesError::MissingChannels);
    }
    assert(views(ls@)[2] == ls@[2]@);
    let t2 = trim(ls[2].as_str());
    let channels = match parse_u8(t2.as_str()) {
        Ok(n) => n,
        Err(_) => return Err(PropertiesError::InvalidChannels),
    };
    Ok(FlacProperties { sample_rate, bit_depth, channels })
}

/// The outcome of probing each FLAC file of a release, in file order: its
/// properties, or why they could not be read.
pub open spec fn probes_view(p: Seq<Result<FlacProperties, String>>) -> Seq<Result<FlacProperties, Seq<char>>> {
    p.map_values(|r: Result<FlacProperties, String>| match r {
        Ok(x) => Ok(x),
        Err(e) => Err(e@),
    })
}

/// Going through the files in order: the first that satisfies `pred` gives
/// `true`, a failed probe before it gives its error, and `false` otherwise.
pub open spec fn any_file(p: Seq<Result<FlacProperties, Seq<char>>>, pred: spec_fn(FlacProperties) -> bool) -> Result<bool, Seq<char>>
    decreases p.len(),
{
    if p.len() == 0 {
        Ok(false)
    } else {
        match p[0] {
            Err(e) => Err(e),
            Ok(x) => if pred(x) {
                Ok(true)
            } else {
                any_file(p.drop_first(), pred)
            },
        }
    }
}

pub open spec fn deep_pred() -> spec_fn(FlacProperties) -> bool {
    |x: FlacProperties| x.bit_depth > 16
}

pub open spec fn multichannel_pred() -> spec_fn(FlacProperties) -> bool {
    |x: FlacProperties| x.channels > 2
}

/// A file that must be resampled: more than 16 bits per sample, or a sample
/// rate above 48 kHz.
pub open spec fn resample_pred() -> spec_fn(FlacProperties) -> bool {
    |x: FlacProperties| x.bit_depth > 16 || x.sample_rate > 48000
}

/// The test that `scan_probes` applies: 0 for depth, 1 for channels, and
/// anything else for resampling.
pub open spec fn probe_pred(kind: u8) -> spec_fn(FlacProperties) -> bool {
    if kind == 0 {
        deep_pred()
    } else if kind == 1 {
        multichannel_pred()
    } else {
        resample_pred()
    }
}

/// Scans the probes for a file that passes the test `kind`.
fn scan_probes(probes: &Vec<Result<FlacProperties, String>>, kind: u8) -> (r: Result<bool, String>)
    ensures
        match r {
            Ok(b) => any_file(probes_view(probes@), probe_pred(kind)) == Ok::<bool, Seq<char>>(b),
            Err(e) => any_file(probes_view(probes@), probe_pred(kind)) == Err::<bool, Seq<char>>(e@),
        },
{
    let ghost pred = probe_pred(kind);
    let ghost p = probes_view(probes@);
    let mut i: usize = 0;
    assert(p.skip(0) =~= p);
    while i < probes.len()
        invariant
            p == probes_view(probes@),
            pred == probe_pred(kind),
            0 <= i <= probes.len(),
            any_file(p, pred) == any_file(p.skip(i as int), pred),
        decreases probes.len() - i,
    {
        let ghost rest = p.skip(i as int);
        assert(rest.drop_first() =~= p.skip(i + 1));
        match &probes[i] {
            Err(e) => {
                return Err(e.clone());
            },
            Ok(x) => {
                let hit = if kind == 0 {
                    x.bit_depth > 16
                } else if kind == 1 {
                    x.channels > 2
                } else {
                    x.bit_depth > 16 || x.sample_rate > 48000
                };
                if hit {
                    return Ok(true);
                }
            },
        }
        i = i + 1;
    }
    assert(p.skip(i as int) =~= Seq::<Result<FlacProperties, Seq<char>>>::empty());
    Ok(false)
}

/// Whether a release has a file with more than 16 bits per sample, from the
/// probes of its FLAC files in order (see `any_file`).
pub fn is_24bit(probes: &Vec<Result<FlacProperties, String>>) -> (r: Result<bool, String>)
    ensures
        match r {
            Ok(b) => any_file(probes_view(probes@), deep_pred()) == Ok::<bool, Seq<char>>(b),
            Err(e) => any_file(probes_view(probes@), deep_pred()) == Err::<bool, Seq<char>>(e@),
        },
{
    scan_probes(probes, 0)
}

/// Whether a release has a file with more than two channels, from the probes
/// of its FLAC files in order (see `any_file`).
pub fn is_multichannel(probes: &Vec<Result<FlacProperties, String>>) -> (r: Result<bool, String>)
    ensures
        match r {
            Ok(b) => any_file(probes_view(probes@), multichannel_pred()) == Ok::<bool, Seq<char>>(b),
            Err(e) => any_file(probes_view(probes@), multichannel_pred()) == Err::<bool, Seq<char>>(e@),
        },
{
    scan_probes(probes, 1)
}

/// Whether a release must be resampled: whether it has a file with more
/// than 16 bits per sample or a sample rate above 48 kHz, from the probes of
/// its FLAC files in order (see `any_file`).
pub fn needs_resampling(probes: &Vec<Result<FlacProperties, String>>) -> (r: Result<bool, String>)
    ensures
        match r {
            Ok(b) => any_file(probes_view(probes@), resample_pred()) == Ok::<bool, Seq<char>>(b),
            Err(e) => any_file(probes_view(probes@), resample_pred()) == Err::<bool, Seq<char>>(e@),
        },
{
    scan_probes(probes, 2)
}

/// The first failed probe, if any.
pub open spec fn first_error(p: Seq<Result<FlacProperties, Seq<char>>>) -> Option<Seq<char>>
    decreases p.len(),
{
    if p.len() == 0 {
        None
    } else {
        match p[0] {
            Err(e) => Some(e),
            Ok(_) => first_error(p.drop_first()),
        }
    }
}

/// The highest sample rate of the successful probes (0 when there is none).
pub open spec fn max_rate(p: Seq<Result<FlacProperties, Seq<char>>>) -> u32
    decreases p.len(),
{
    if p.len() == 0 {
        0
    } else {
        let rest = max_rate(p.drop_first());
        match p[0] {
            Ok(x) => if x.sample_rate > rest { x.sample_rate } else { rest },
            Err(_) => rest,
        }
    }
}

/// The rate a release is resampled to: none without files; the first failed
/// probe's error; else 44100 when the highest rate is a multiple of 44100,
/// 48000 when it is a multiple of 48000, and none otherwise.
pub open spec fn resample_rate_spec(p: Seq<Result<FlacProperties, Seq<char>>>) -> Result<Option<u32>, Seq<char>> {
    if p.len() == 0 {
        Ok(None)
    } else if first_error(p) is Some {
        Err(first_error(p)->0)
    } else if max_rate(p) % 44100 == 0 {
        Ok(Some(44100))
    } else if max_rate(p) % 48000 == 0 {
        Ok(Some(48000))
    } else {
        Ok(None)
    }
}

/// The highest rate is the largest sample rate of a successful probe, and
/// 0 only when no successful probe has a positive rate.
pub proof fn lemma_max_rate(p: Seq<Result<FlacProperties, Seq<char>>>)
    ensures
        forall|i: int| 0 <= i < p.len() && (#[trigger] p[i]) is Ok ==> p[i]->Ok_0.sample_rate <= max_rate(p),
        max_rate(p) > 0 ==> exists|i: int| 0 <= i < p.len() && (#[trigger] p[i]) is Ok && p[i]->Ok_0.sample_rate == max_rate(p),
    decreases p.len(),
{
    if p.len() > 0 {
        let d = p.drop_first();
        lemma_max_rate(d);
        assert forall|i: int| 0 <= i < p.len() && (#[trigger] p[i]) is Ok implies p[i]->Ok_0.sample_rate <= max_rate(p) by {
            if i > 0 {
                assert(p[i] == d[i - 1]);
            }
        }
        if max_rate(p) > 0 {
            if p[0] is Ok && p[0]->Ok_0.sample_rate == max_rate(p) {
            } else {
                let k = choose|k: int| 0 <= k < d.len() && (#[trigger] d[k]) is Ok && d[k]->Ok_0.sample_rate == max_rate(d);
                assert(p[k + 1] == d[k]);
            }
        }
    }
}

/// A release is resampled to 44.1 kHz or 48 kHz only, to a rate that
/// divides the highest sample rate of its files, preferring 44.1 kHz; with
/// no files there is no rate, and a failed probe gives its error.
pub proof fn lemma_resample_rate(p: Seq<Result<FlacProperties, Seq<char>>>)
    ensures
        resample_rate_spec(p) matches Ok(Some(r)) ==> (r == 44100 || r == 48000) && max_rate(p) % r == 0,
        resample_rate_spec(p) == Ok::<Option<u32>, Seq<char>>(Some(48000)) ==> max_rate(p) % 44100 != 0,
        p.len() > 0 && first_error(p) is None && max_rate(p) % 44100 == 0
            ==> resample_rate_spec(p) == Ok::<Option<u32>, Seq<char>>(Some(44100)),
        p.len() == 0 ==> resample_rate_spec(p) == Ok::<Option<u32>, Seq<char>>(None),
        resample_rate_spec(p) is Err ==> first_error(p) is Some,
{
}

/// A file is resampled to 44.1 kHz or 48 kHz, a rate that divides its own
/// sample rate; it is resampled exactly when it has more than 16 bits or a
/// rate above 48 kHz, and a file with more than two channels is refused.
pub proof fn lemma_transcode_plan(props: FlacProperties, file: Seq<char>)
    ensures
        transcode_plan_spec(props, file) matches Ok((true, Some(r))) ==> (r == 44100 || r == 48000) && props.sample_rate % r == 0,
        transcode_plan_spec(props, file) matches Ok((b, r)) ==> (b <==> r is Some),
        transcode_plan_spec(props, file) matches Ok((b, _)) ==> (b <==> props.bit_depth > 16 || props.sample_rate > 48000),
        props.channels > 2 ==> transcode_plan_spec(props, file) is Err,
        props.channels <= 2 && props.bit_depth <= 16 && props.sample_rate <= 48000
            ==> transcode_plan_spec(props, file) == Ok::<(bool, Option<u32>), Seq<char>>((false, None)),
{
}

/// The rate a release is resampled to (see `resample_rate_spec`).
pub fn resample_rate(probes: &Vec<Result<FlacProperties, String>>) -> (r: Result<Option<u32>, String>)
    ensures
        match r {
            Ok(x) => resample_rate_spec(probes_view(probes@)) == Ok::<Option<u32>, Seq<char>>(x),
            Err(e) => resample_rate_spec(probes_view(probes@)) == Err::<Option<u32>, Seq<char>>(e@),
        },
{
    let ghost p = probes_view(probes@);
    if probes.len() == 0 {
        return Ok(None);
    }
    let mut max: u32 = 0;
    let mut i: usize = probes.len();
    // From the back, so that the maximum follows `max_rate`.
    assert(p.skip(p.len() as int) =~= Seq::<Result<FlacProperties, Seq<char>>>::empty());
    while i > 0
        invariant
            p == probes_view(probes@),
            0 <= i <= probes.len(),
            max == max_rate(p.skip(i as int)),
        decreases i,
    {
        assert(p.skip(i - 1).drop_first() =~= p.skip(i as int));
        match &probes[i - 1] {
            Ok(x) => {
                if x.sample_rate > max {
                    max = x.sample_rate;
                }
            },
            Err(_) => {},
        }
        i = i - 1;
    }
    assert(p.skip(0) =~= p);
    // The first failure, in file order.
    let mut j: usize = 0;
    while j < probes.len()
        invariant
            p == probes_view(probes@),
            0 <= j <= probes.len(),
            first_error(p) == first_error(p.skip(j as int)),
        decreases probes.len() - j,
    {
        assert(p.skip(j as int).drop_first() =~= p.skip(j + 1));
        match &probes[j] {
            Err(e) => {
                return Err(e.clone());
            },
            Ok(_) => {},
        }
        j = j + 1;
    }
    assert(p.skip(j as int) =~= Seq::<Result<FlacProperties, Seq<char>>>::empty());
    if max % 44100 == 0 {
        Ok(Some(44100))
    } else if max % 48000 == 0 {
        Ok(Some(48000))
    } else {
        Ok(None)
    }
}

// ---------------------------------------------------------------------------
// The encoder pipeline.
// ---------------------------------------------------------------------------

/// The views of a list of commands.
pub open spec fn cmds_view(v: Seq<Vec<String>>) -> Seq<Seq<Seq<char>>> {
    v.map_values(|c: Vec<String>| views(c@))
}

/// The commands that transcode `input` to `output` in `format`, each reading
/// the previous one's output: a single `sox` call for a resampled FLAC;
/// otherwise a decoder (`sox` when resampling, `flac -dcs` when not) and
/// then the format's encoder with its options.
pub open spec fn pipeline_spec(format: Format, resample: bool, sample_rate: Option<u32>, input: Seq<char>, output: Seq<char>) -> Seq<Seq<Seq<char>>> {
    let rate = decimal_spec(sample_rate->0 as nat);
    if format.name@ == "FLAC"@ && resample {
        seq![seq!["sox"@, input, "-G"@, "-b"@, "16"@, output, "rate"@, "-v"@, "-L"@, rate, "dither"@]]
    } else {
        let first = if resample {
            seq!["sox"@, input, "-G"@, "-b"@, "16"@, "-t"@, "wav"@, "-"@, "rate"@, "-v"@, "-L"@, rate, "dither"@]
        } else {
            seq!["flac"@, "-dcs"@, "--"@, input]
        };
        let opts = words_spec(format.encoder.opts@);
        if format.encoder.enc@ == "lame"@ {
            seq![first, seq!["lame"@, "-S"@] + opts + seq!["-"@, output]]
        } else if format.encoder.enc@ == "flac"@ {
            seq![first, seq!["flac"@] + opts + seq!["-o"@, output, "-"@]]
        } else {
            seq![first]
        }
    }
}

/// A resampling pipeline starts with a `sox` command that reads the input,
/// dithers to 16 bits and ends with `rate -v -L <rate> dither`, where
/// `<rate>` is the decimal of the requested sample rate; for a FLAC target
/// that one command writes the output itself. Without resampling, the
/// pipeline starts by decoding the input with `flac -dcs -- <input>`. An MP3
/// (lame) pipeline ends with `lame -S <options> - <output>`, and a FLAC
/// re-encode with `flac <options> -o <output> -`, the options being the
/// words of the encoder's option string.
pub proof fn lemma_pipeline_rate(format: Format, rate: u32, input: Seq<char>, output: Seq<char>)
    ensures
        ({
            let cmds = pipeline_spec(format, true, Some(rate), input, output);
            let c = cmds[0];
            &&& cmds.len() >= 1
            &&& c.len() >= 6
            &&& c[0] == "sox"@
            &&& c[1] == input
            &&& c[2] == "-G"@ && c[3] == "-b"@ && c[4] == "16"@
            &&& c[c.len() - 5] == "rate"@
            &&& c[c.len() - 4] == "-v"@
            &&& c[c.len() - 3] == "-L"@
            &&& c[c.len() - 2] == decimal_spec(rate as nat)
            &&& c[c.len() - 1] == "dither"@
            &&& (format.name@ == "FLAC"@ ==> cmds.len() == 1 && c[5] == output)
            &&& (format.name@ != "FLAC"@ ==> c[5] == "-t"@ && c[6] == "wav"@ && c[7] == "-"@)
        }),
        ({
            let cmds = pipeline_spec(format, false, None, input, output);
            &&& cmds.len() >= 1
            &&& cmds[0] == seq!["flac"@, "-dcs"@, "--"@, input]
        }),
        forall|resample: bool, r: Option<u32>|
            format.encoder.enc@ == "lame"@ && format.name@ != "FLAC"@ ==> ({
                let cmds = #[trigger] pipeline_spec(format, resample, r, input, output);
                &&& cmds.len() == 2
                &&& cmds[1][0] == "lame"@
                &&& cmds[1][1] == "-S"@
                &&& cmds[1].subrange(2, cmds[1].len() - 2) == words_spec(format.encoder.opts@)
                &&& cmds[1][cmds[1].len() - 2] == "-"@
                &&& cmds[1].last() == output
            }),
        format.encoder.enc@ == "flac"@ ==> ({
            let cmds = pipeline_spec(format, false, None, input, output);
            &&& cmds.len() == 2
            &&& cmds[1][0] == "flac"@
            &&& cmds[1].subrange(1, cmds[1].len() - 3) == words_spec(format.encoder.opts@)
            &&& cmds[1][cmds[1].len() - 3] == "-o"@
            &&& cmds[1][cmds[1].len() - 2] == output
            &&& cmds[1].last() == "-"@
        }),
{
    reveal_strlit("FLAC");
    reveal_strlit("lame");
    reveal_strlit("flac");
    let opts = words_spec(format.encoder.opts@);
    let lame_cmd = seq!["lame"@, "-S"@] + opts + seq!["-"@, output];
    assert(lame_cmd.subrange(2, lame_cmd.len() - 2) =~= opts);
    let flac_cmd = seq!["flac"@] + opts + seq!["-o"@, output, "-"@];
    assert(flac_cmd.subrange(1, flac_cmd.len() - 3) =~= opts);
    assert("lame"@ != "flac"@) by { assert("lame"@[0] != "flac"@[0]); }
}

/// Appends the strings of `more` to `v`.
fn append_strings(v: &mut Vec<String>, more: Vec<String>)
    ensures
        views(final(v)@) == views(old(v)@) + views(more@),
{
    let mut k: usize = 0;
    while k < more.len()
        invariant
            0 <= k <= more.len(),
            views(v@) == views(old(v)@) + views(more@).take(k as int),
        decreases more.len() - k,
    {
        let ghost before = views(v@);
        v.push(more[k].clone());
        assert(views(v@) =~= before.push(more@[k as int]@));
        assert(views(more@).take(k + 1) =~= views(more@).take(k as int).push(more@[k as int]@));
        k = k + 1;
    }
    assert(views(more@).take(more@.len() as int) =~= views(more@));
}

/// Appends a copy of `s`.
fn push_str(v: &mut Vec<String>, s: &str)
    ensures
        views(final(v)@) == views(old(v)@).push(s@),
{
    v.push(owned(s));
    assert(views(v@) =~= views(old(v)@).push(s@));
}

/// The commands of the transcode pipeline (see `pipeline_spec`).
pub fn build_pipeline_commands(format: &Format, resample: bool, sample_rate: Option<u32>, input: &str, output: &str) -> (r: Vec<Vec<String>>)
    requires
        resample ==> sample_rate is Some,
    ensures
        cmds_view(r@) == pipeline_spec(*format, resample, sample_rate, input@, output@),
{
    let ghost spec = pipeline_spec(*format, resample, sample_rate, input@, output@);
    if str_eq(format.name, "FLAC") && resample {
        let rate = decimal_string(sample_rate.unwrap() as u64);
        let mut cmd: Vec<String> = Vec::new();
        push_str(&mut cmd, "sox");
        push_str(&mut cmd, input);
        push_str(&mut cmd, "-G");
        push_str(&mut cmd, "-b");
        push_str(&mut cmd, "16");
        push_str(&mut cmd, output);
        push_str(&mut cmd, "rate");
        push_str(&mut cmd, "-v");
        push_str(&mut cmd, "-L");
        push_str(&mut cmd, rate.as_str());
        push_str(&mut cmd, "dither");
        let ghost cv = views(cmd@);
        assert(cv =~= spec[0]);
        let r = vec![cmd];
        assert(cmds_view(r@) =~= spec);
        return r;
    }
    let mut first: Vec<String> = Vec::new();
    if resample {
        let rate = decimal_string(sample_rate.unwrap() as u64);
        push_str(&mut first, "sox");
        push_str(&mut first, input);
        push_str(&mut first, "-G");
        push_str(&mut first, "-b");
        push_str(&mut first, "16");
        push_str(&mut first, "-t");
        push_str(&mut first, "wav");
        push_str(&mut first, "-");
        push_str(&mut first, "rate");
        push_str(&mut first, "-v");
        push_str(&mut first, "-L");
        push_str(&mut first, rate.as_str());
        push_str(&mut first, "dither");
    } else {
        push_str(&mut first, "flac");
        push_str(&mut first, "-dcs");
        push_str(&mut first, "--");
        push_str(&mut first, input);
    }
    let ghost first_view = views(first@);
    assert(first_view =~= spec[0]);
    let mut cmds: Vec<Vec<String>> = Vec::new();
    cmds.push(first);
    let ghost opts = words_spec(format.encoder.opts@);
    if str_eq(format.encoder.enc, "lame") {
        let mut cmd: Vec<String> = Vec::new();
        push_str(&mut cmd, "lame");
        push_str(&mut cmd, "-S");
        append_strings(&mut cmd, split_whitespace(format.encoder.opts));
        push_str(&mut cmd, "-");
        push_str(&mut cmd, output);
        let ghost cv = views(cmd@);
        assert(cv =~= seq!["lame"@, "-S"@] + opts + seq!["-"@, output@]);
        cmds.push(cmd);
        assert(cmds_view(cmds@) =~= seq![first_view, cv]);
    } else if str_eq(format.encoder.enc, "flac") {
        let mut cmd: Vec<String> = Vec::new();
        push_str(&mut cmd, "flac");
        append_strings(&mut cmd, split_whitespace(format.encoder.opts));
        push_str(&mut cmd, "-o");
        push_str(&mut cmd, output);
        push_str(&mut cmd, "-");
        let ghost cv = views(cmd@);
        assert(cv =~= seq!["flac"@] + opts + seq!["-o"@, output@, "-"@]);
        cmds.push(cmd);
        assert(cmds_view(cmds@) =~= seq![first_view, cv]);
    } else {
        assert(cmds_view(cmds@) =~= seq![first_view]);
    }
    assert(cmds_view(cmds@) =~= spec);
    cmds
}

/// Each pipeline command as one line of text.
pub open spec fn commands_desc_spec(format: Format, resample: bool, sample_rate: Option<u32>) -> Seq<Seq<char>> {
    pipeline_spec(format, resample, sample_rate, "input.flac"@, "output"@ + format.encoder.ext@).map_values(
        |c: Seq<Seq<char>>| join_spec(c, " "@),
    )
}

/// The commands that transcode `input.flac` to `output` with the format's
/// extension, each joined with spaces.
pub fn transcode_commands_desc(format: &Format, resample: bool, sample_rate: Option<u32>) -> (r: Vec<String>)
    requires
        resample ==> sample_rate is Some,
    ensures
        views(r@) == commands_desc_spec(*format, resample, sample_rate),
{
    let output = concat("output", format.encoder.ext);
    let cmds = build_pipeline_commands(format, resample, sample_rate, "input.flac", output.as_str());
    let ghost want = commands_desc_spec(*format, resample, sample_rate);
    let mut r: Vec<String> = Vec::new();
    let mut i: usize = 0;
    while i < cmds.len()
        invariant
            0 <= i <= cmds.len(),
            cmds_view(cmds@) == pipeline_spec(*format, resample, sample_rate, "input.flac"@, output@),
            output@ == "output"@ + format.encoder.ext@,
            want == commands_desc_spec(*format, resample, sample_rate),
            views(r@) == want.take(i as int),
        decreases cmds.len() - i,
    {
        let line = join(&cmds[i], " ");
        let ghost before = views(r@);
        let ghost lv = line@;
        assert(cmds_view(cmds@)[i as int] == views(cmds@[i as int]@));
        r.push(line);
        assert(views(r@) =~= before.push(lv));
        assert(want.take(i + 1) =~= want.take(i as int).push(lv));
        i = i + 1;
    }
    assert(want.take(cmds@.len() as int) =~= want);
    r
}

// ---------------------------------------------------------------------------
// Transcoding one file.
// ---------------------------------------------------------------------------

/// How one FLAC file with properties `props` is transcoded: whether it is
/// resampled (above 48 kHz or above 16 bits) and to which rate; files with
/// more than two channels, and resampled files at a rate that is no multiple
/// of 44100 or 48000, are refused.  `file` is how the file is shown.
pub open spec fn transcode_plan_spec(props: FlacProperties, file: Seq<char>) -> Result<(bool, Option<u32>), Seq<char>> {
    let resample = props.sample_rate > 48000 || props.bit_depth > 16;
    if props.channels > 2 {
        Err("Multichannel FLAC unsupported: "@ + file)
    } else if !resample {
        Ok((false, None))
    } else if props.sample_rate % 44100 == 0 {
        Ok((true, Some(44100)))
    } else if props.sample_rate % 48000 == 0 {
        Ok((true, Some(48000)))
    } else {
        Err("Unknown sample rate "@ + decimal_spec(props.sample_rate as nat) + "Hz for "@ + file)
    }
}

/// A file's plan resamples exactly when the release test for resampling
/// holds of the file.
pub proof fn lemma_resample_agrees(props: FlacProperties, file: Seq<char>)
    ensures
        transcode_plan_spec(props, file) matches Ok((r, _)) ==> r == (resample_pred())(props),
{
}

/// How one FLAC file is transcoded (see `transcode_plan_spec`).
pub fn plan_transcode(props: FlacProperties, file_display: &str) -> (r: Result<(bool, Option<u32>), String>)
    ensures
        match r {
            Ok(x) => transcode_plan_spec(props, file_display@) == Ok::<(bool, Option<u32>), Seq<char>>(x),
            Err(e) => transcode_plan_spec(props, file_display@) == Err::<(bool, Option<u32>), Seq<char>>(e@),
        },
{
    let resample = props.sample_rate > 48000 || props.bit_depth > 16;
    if props.channels > 2 {
        return Err(concat("Multichannel FLAC unsupported: ", file_display));
    }
    if !resample {
        return Ok((false, None));
    }
    if props.sample_rate % 44100 == 0 {
        Ok((true, Some(44100)))
    } else if props.sample_rate % 48000 == 0 {
        Ok((true, Some(48000)))
    } else {
        let mut m = String::from_str("Unknown sample rate ");
        let d = decimal_string(props.sample_rate as u64);
        m.append(d.as_str());
        m.append("Hz for ");
        m.append(file_display);
        Err(m)
    }
}

/// The file name of a transcode: the source file's stem with characters
/// that may not stand in a file name replaced by `_`, and the format's extension.
pub open spec fn output_name_spec(stem: Seq<char>, format: Format) -> Seq<char> {
    sanitize_spec(stem, true) + format.encoder.ext@
}

/// The file name of the transcode of a file with stem `stem`.
pub fn transcode_output_name(stem: &str, format: &Format) -> (r: String)
    ensures
        r@ == output_name_spec(stem@, *format),
{
    let mut r = sanitize_name(stem, true);
    r.append(format.encoder.ext);
    r
}

/// Going through the commands and their exit codes in order: a failing
/// command gives its error at once, except a broken pipe (exit code 141 or
/// -13), of which the last is remembered.
pub open spec fn pipeline_scan(
    cmds: Seq<Seq<Seq<char>>>,
    results: Seq<(i32, Seq<char>)>,
    n: int,
    file: Seq<char>,
) -> Result<Option<Seq<char>>, Seq<char>>
    decreases n,
{
    if n <= 0 {
        Ok(None)
    } else {
        match pipeline_scan(cmds, results, n - 1, file) {
            Err(e) => Err(e),
            Ok(sig) => {
                let code = results[n - 1].0;
                if code == 0 {
                    Ok(sig)
                } else if code == 141 || code == -13 {
                    Ok(Some(join_spec(cmds[n - 1], " "@) + ": SIGPIPE"@))
                } else {
                    Err("Transcode of "@ + file + " failed: "@ + results[n - 1].1)
                }
            },
        }
    }
}

/// The outcome of a pipeline run: the first failure other than a broken
/// pipe, else a remembered broken pipe, else success.  Commands and results
/// are taken in pairs, as far as both go.
pub open spec fn pipeline_verdict_spec(cmds: Seq<Seq<Seq<char>>>, results: Seq<(i32, Seq<char>)>, file: Seq<char>) -> Result<(), Seq<char>> {
    let n = if cmds.len() < results.len() { cmds.len() } else { results.len() };
    match pipeline_scan(cmds, results, n as int, file) {
        Err(e) => Err(e),
        Ok(Some(sig)) => Err("Transcode failed: "@ + sig),
        Ok(None) => Ok(()),
    }
}

pub open spec fn results_view(r: Seq<(i32, String)>) -> Seq<(i32, Seq<char>)> {
    r.map_values(|x: (i32, String)| (x.0, x.1@))
}

/// The outcome of a pipeline run (see `pipeline_verdict_spec`); `results`
/// are the exit codes and error output of the commands, `file_debug` is how
/// the source file is shown.
pub fn pipeline_verdict(cmds: &Vec<Vec<String>>, results: &Vec<(i32, String)>, file_debug: &str) -> (r: Result<(), String>)
    ensures
        match r {
            Ok(()) => pipeline_verdict_spec(cmds_view(cmds@), results_view(results@), file_debug@) == Ok::<(), Seq<char>>(()),
            Err(e) => pipeline_verdict_spec(cmds_view(cmds@), results_view(results@), file_debug@) == Err::<(), Seq<char>>(e@),
        },
{
    let n = if cmds.len() < results.len() { cmds.len() } else { results.len() };
    let ghost cv = cmds_view(cmds@);
    let ghost rv = results_view(results@);
    let mut sig: Option<String> = None;
    let mut i: usize = 0;
    while i < n
        invariant
            cv == cmds_view(cmds@),
            rv == results_view(results@),
            n == (if cmds@.len() < results@.len() { cmds@.len() } else { results@.len() }),
            0 <= i <= n,
            pipeline_scan(cv, rv, i as int, file_debug@) == Ok::<Option<Seq<char>>, Seq<char>>(crate::text::opt_view(sig)),
        decreases n - i,
    {
        let code = results[i].0;
        assert(rv[i as int] == (results@[i as int].0, results@[i as int].1@));
        assert(cv[i as int] == views(cmds@[i as int]@));
        if code != 0 {
            if code == 141 || code == -13 {
                let mut m = join(&cmds[i], " ");
                m.append(": SIGPIPE");
                sig = Some(m);
            } else {
                let mut m = String::from_str("Transcode of ");
                m.append(file_debug);
                m.append(" failed: ");
                m.append(results[i].1.as_str());
                proof {
                    assert(pipeline_scan(cv, rv, i as int + 1, file_debug@) == Err::<Option<Seq<char>>, Seq<char>>(m@));
                    lemma_pipeline_scan_err(cv, rv, i as int + 1, n as int, file_debug@);
                    assert(pipeline_scan(cv, rv, n as int, file_debug@) == Err::<Option<Seq<char>>, Seq<char>>(m@));
                    assert(cv.len() == cmds@.len());
                    assert(rv.len() == results@.len());
                    assert(pipeline_verdict_spec(cv, rv, file_debug@) == Err::<(), Seq<char>>(m@));
                }
                return Err(m);
            }
        }
        i = i + 1;
    }
    match sig {
        Some(s) => Err(concat("Transcode failed: ", s.as_str())),
        None => Ok(()),
    }
}

proof fn lemma_pipeline_scan_err(cmds: Seq<Seq<Seq<char>>>, results: Seq<(i32, Seq<char>)>, k: int, n: int, file: Seq<char>)
    requires
        0 <= k <= n,
        pipeline_scan(cmds, results, k, file) is Err,
    ensures
        pipeline_scan(cmds, results, n, file) == pipeline_scan(cmds, results, k, file),
    decreases n - k,
{
    if k < n {
        lemma_pipeline_scan_err(cmds, results, k + 1, n, file);
    }
}

/// The outcome of the tag check of a transcode.
pub fn tag_check_outcome(ok: bool, msg: Option<String>) -> (r: Result<(), String>)
    ensures
        ok ==> r is Ok,
        !ok ==> (r matches Err(e) && e@ == "Tag check failed: "@ + match msg {
            Some(m) => m@,
            None => Seq::<char>::empty(),
        }),
{
    if ok {
        Ok(())
    } else {
        let mut m = String::from_str("Tag check failed: ");
        match msg {
            Some(x) => {
                m.append(x.as_str());
            },
            None => {},
        }
        proof {
            if msg is None {
                assert(m@ =~= "Tag check failed: "@ + Seq::<char>::empty());
            }
        }
        Err(m)
    }
}

// ---------------------------------------------------------------------------
// Transcoding a release and making its torrent.
// ---------------------------------------------------------------------------

/// A release in the source format is used as it is: a FLAC target that
/// needs no resampling.
pub fn release_is_passthrough(format: &Format, resample: bool) -> (r: bool)
    ensures
        r == (format.name@ == "FLAC"@ && !resample),
{
    str_eq(format.name, "FLAC") && !resample
}

/// The extensions of the other files copied along with a transcode.
pub open spec fn spec_extra_extensions() -> Seq<Seq<char>> {
    seq!["cue"@, "gif"@, "jpeg"@, "jpg"@, "log"@, "md5"@, "nfo"@, "pdf"@, "png"@, "sfv"@, "txt"@]
}

/// The extensions of the other files copied along with a transcode.
pub fn extra_file_extensions() -> (v: Vec<&'static str>)
    ensures
        v@.map_values(|s: &'static str| s@) == spec_extra_extensions(),
{
    let v = vec!["cue", "gif", "jpeg", "jpg", "log", "md5", "nfo", "pdf", "png", "sfv", "txt"];
    assert(v@.map_values(|s: &'static str| s@) =~= spec_extra_extensions());
    v
}

/// Whether a file belongs to a search for files with `extension`: its
/// extension, in lower case, is `extension`, and its name does not start
/// with a dot.
pub fn is_wanted_file(file_extension: Option<&str>, file_name: &str, extension: &str) -> (r: bool)
    ensures
        r == (match file_extension {
            Some(e) => unicode_lowercase(e@) == extension@ && !(file_name@.len() > 0 && file_name@[0] == '.'),
            None => false,
        }),
{
    match file_extension {
        Some(e) => {
            let lower = to_lowercase(e);
            wanted_file(lower.as_str(), file_name, extension)
        },
        None => false,
    }
}

/// Whether a file whose extension, in lower case, is `lower_extension`
/// belongs to a search for files with `extension`: the two are equal and
/// the file's name does not start with a dot.
pub fn wanted_file(lower_extension: &str, file_name: &str, extension: &str) -> (r: bool)
    ensures
        r == (lower_extension@ == extension@ && !(file_name@.len() > 0 && file_name@[0] == '.')),
{
    if !str_eq(lower_extension, extension) {
        return false;
    }
    let v = crate::text::chars_of(file_name);
    !(v.len() > 0 && v[0] == '.')
}

/// The name of the torrent file of a directory.
pub fn torrent_file_name(dir_name: &str) -> (r: String)
    ensures
        r@ == dir_name@ + ".torrent"@,
{
    concat(dir_name, ".torrent")
}

/// The announce URL of a tracker for a passkey.
pub fn announce_url(tracker: &str, passkey: &str) -> (r: String)
    ensures
        r@ == tracker@ + passkey@ + "/announce"@,
{
    let mut r = concat(tracker, passkey);
    r.append("/announce");
    r
}

/// The arguments of `mktorrent` before the output file and the input
/// directory: private, the source tag when there is one, the announce URL.
pub fn mktorrent_leading_args(source: Option<&str>, announce: &str) -> (r: Vec<String>)
    ensures
        views(r@) == seq!["-p"@] + (match source {
            Some(s) => seq!["-s"@, s@],
            None => Seq::<Seq<char>>::empty(),
        }) + seq!["-a"@, announce@, "-o"@],
{
    let mut r: Vec<String> = Vec::new();
    push_str(&mut r, "-p");
    match source {
        Some(s) => {
            push_str(&mut r, "-s");
            push_str(&mut r, s);
        },
        None => {},
    }
    push_str(&mut r, "-a");
    push_str(&mut r, announce);
    push_str(&mut r, "-o");
    assert(views(r@) =~= seq!["-p"@] + (match source {
        Some(s) => seq!["-s"@, s@],
        None => Seq::<Seq<char>>::empty(),
    }) + seq!["-a"@, announce@, "-o"@]);
    r
}

} // verus!
