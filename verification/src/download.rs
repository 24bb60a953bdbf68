//! Downloading a track: the byte ranges requested, how decrypted samples are
//! put back into a fragment, the names of the files written, how the result
//! is remuxed, and what is read of the tools' reports.
use vstd::prelude::*;

use crate::bytes::append_range;
use crate::playlist::{find_char, DownloadError, error_view};
use crate::text::{
    first_of, first_of_exec,
    chars_eq_str, chars_range, chars_to_string, decimal, push_decimal, push_str, str_chars,
    trim_char, trim_char_chars, lossy_string, parse_unsigned, parse_unsigned_chars, int_error_message,
    utf8_lossy, owned,
};
use crate::http::AppError;

verus! {

/// What a finished download reports.
#[derive(Debug)]
pub struct PlaybackOutput {
    pub relative_path: String,
    pub size: u64,
    pub artist: String,
    pub artist_id: String,
    pub album_id: String,
    pub album: String,
    pub title: String,
    pub codec: String,
}

/// Which tool turns the downloaded stream into the final file.
#[derive(Clone, Copy, Debug, PartialEq, Eq, Structural)]
pub enum RemuxStrategy {
    Ffmpeg,
    Mp4Box,
}

/// AAC streams, and any stream when MP4Box is not installed, go through
/// ffmpeg; the others through MP4Box.
pub fn choose_remux_strategy(is_aac_variant: bool, mp4box_available: bool) -> (s: RemuxStrategy)
    ensures
        s == (if is_aac_variant || !mp4box_available {
            RemuxStrategy::Ffmpeg
        } else {
            RemuxStrategy::Mp4Box
        }),
{
    if is_aac_variant || !mp4box_available {
        RemuxStrategy::Ffmpeg
    } else {
        RemuxStrategy::Mp4Box
    }
}

/// The view of a list of strings.
pub open spec fn strings_view(v: Seq<String>) -> Seq<Seq<char>> {
    v.map_values(|s: String| s@)
}

/// The ffmpeg arguments that copy `input` into `output` without re-encoding.
pub fn ffmpeg_remux_args(input: &str, output: &str) -> (args: Vec<String>)
    ensures
        strings_view(args@) == seq![
            "-y"@,
            "-loglevel"@,
            "error"@,
            "-i"@,
            input@,
            "-c"@,
            "copy"@,
            output@,
        ],
{
    let args = vec![
        "-y".to_string(),
        "-loglevel".to_string(),
        "error".to_string(),
        "-i".to_string(),
        input.to_string(),
        "-c".to_string(),
        "copy".to_string(),
        output.to_string(),
    ];
    assert(strings_view(args@) =~= seq![
        "-y"@,
        "-loglevel"@,
        "error"@,
        "-i"@,
        input@,
        "-c"@,
        "copy"@,
        output@,
    ]);
    args
}

/// The MP4Box arguments that write `input` into a new `output`.
pub fn mp4box_remux_args(input: &str, output: &str) -> (args: Vec<String>)
    ensures
        strings_view(args@) == seq!["-quiet"@, "-add"@, input@, "-new"@, output@],
{
    let args = vec![
        "-quiet".to_string(),
        "-add".to_string(),
        input.to_string(),
        "-new".to_string(),
        output.to_string(),
    ];
    assert(strings_view(args@) =~= seq!["-quiet"@, "-add"@, input@, "-new"@, output@]);
    args
}

/// The label of the codec that ffprobe names.
pub fn probe_codec_label(codec: &str) -> (s: String)
    ensures
        s@ == (if codec@ == "alac"@ {
            "ALAC"@
        } else if codec@ == "aac"@ {
            "AAC"@
        } else {
            codec@
        }),
{
    let c = str_chars(codec);
    if chars_eq_str(&c, "alac") {
        "ALAC".to_string()
    } else if chars_eq_str(&c, "aac") {
        "AAC".to_string()
    } else {
        codec.to_string()
    }
}

/// How much of a sample is decrypted: its length rounded down to whole
/// 16-byte blocks.
pub open spec fn decrypted_prefix(len: usize) -> usize {
    (len - len % 16) as usize
}

/// The length of the block-aligned prefix of a sample (`len & !0x0F`).
pub fn decrypt_prefix_len(len: usize) -> (n: usize)
    ensures
        n == decrypted_prefix(len),
        n % 16 == 0,
        n <= len,
        len - n < 16,
{
    let n = len & !0x0Fusize;
    assert(len & !0x0Fusize == len - len % 16) by (bit_vector);
    n
}

/// A decrypted sample: the decrypted prefix, then the clear tail of the
/// original sample.
pub fn assemble_sample(decrypted_prefix_bytes: Vec<u8>, sample: &[u8]) -> (out: Vec<u8>)
    requires
        decrypted_prefix_bytes@.len() <= sample@.len(),
    ensures
        out@ == decrypted_prefix_bytes@ + sample@.subrange(
            decrypted_prefix_bytes@.len() as int,
            sample@.len() as int,
        ),
{
    let mut out = decrypted_prefix_bytes;
    let from = out.len();
    append_range(&mut out, sample, from, sample.len());
    out
}

/// Puts a decrypted sample back at `start..end` of the fragment; a sample
/// of another length is refused.
pub fn splice_sample(fragment: &mut Vec<u8>, start: usize, end: usize, decrypted: &[u8]) -> (r: Result<(), DownloadError>)
    requires
        start <= end <= old(fragment)@.len(),
    ensures
        decrypted@.len() == end - start ==> r is Ok && final(fragment)@ == old(fragment)@.subrange(
            0,
            start as int,
        ) + decrypted@ + old(fragment)@.subrange(end as int, old(fragment)@.len() as int),
        decrypted@.len() != end - start ==> (r matches Err(e) && error_view(e) == (
            false,
            "decrypt sample length mismatch"@,
        ) && final(fragment)@ == old(fragment)@),
{
    if decrypted.len() != end - start {
        return Err(DownloadError::Message("decrypt sample length mismatch".to_string()));
    }
    let mut i: usize = 0;
    while i < decrypted.len()
        invariant
            i <= decrypted@.len(),
            decrypted@.len() == end - start,
            start <= end <= old(fragment)@.len(),
            fragment@.len() == old(fragment)@.len(),
            forall|k: int| 0 <= k < start ==> fragment@[k] == old(fragment)@[k],
            forall|k: int| end <= k < fragment@.len() ==> fragment@[k] == old(fragment)@[k],
            forall|k: int| start + i <= k < end ==> fragment@[k] == old(fragment)@[k],
            forall|k: int| 0 <= k < i ==> fragment@[start + k] == decrypted@[k],
        decreases decrypted.len() - i,
    {
        fragment.set(start + i, decrypted[i]);
        i += 1;
    }
    assert(fragment@ =~= old(fragment)@.subrange(0, start as int) + decrypted@ + old(
        fragment,
    )@.subrange(end as int, old(fragment)@.len() as int));
    Ok(())
}

/// The HTTP range header value for `length` bytes from `offset`.
pub fn range_header(offset: usize, length: usize) -> (s: String)
    requires
        length >= 1,
        offset + length - 1 <= usize::MAX,
    ensures
        s@ == "bytes="@ + decimal(offset as nat) + "-"@ + decimal((offset + length - 1) as nat),
{
    let end = offset + (length - 1);
    let mut out: Vec<char> = Vec::new();
    push_str(&mut out, "bytes=");
    push_decimal(&mut out, offset as u64);
    push_str(&mut out, "-");
    push_decimal(&mut out, end as u64);
    assert(out@ =~= "bytes="@ + decimal(offset as nat) + "-"@ + decimal((offset + length - 1) as nat));
    chars_to_string(&out)
}

/// A downloaded range must be as long as the playlist said.
pub fn check_segment_length(got: usize, index: usize, expected: usize) -> (r: Result<(), DownloadError>)
    ensures
        got == expected ==> r is Ok,
        got != expected ==> (r matches Err(e) && error_view(e) == (
            false,
            "downloaded "@ + decimal(got as nat) + " bytes for segment "@ + decimal(index as nat)
                + ", expected "@ + decimal(expected as nat),
        )),
{
    if got == expected {
        return Ok(());
    }
    let mut out: Vec<char> = Vec::new();
    push_str(&mut out, "downloaded ");
    push_decimal(&mut out, got as u64);
    push_str(&mut out, " bytes for segment ");
    push_decimal(&mut out, index as u64);
    push_str(&mut out, ", expected ");
    push_decimal(&mut out, expected as u64);
    assert(out@ =~= "downloaded "@ + decimal(got as nat) + " bytes for segment "@ + decimal(
        index as nat,
    ) + ", expected "@ + decimal(expected as nat));
    Err(DownloadError::Message(chars_to_string(&out)))
}

/// The downloaded init segment must be as long as the playlist said.
pub fn check_init_length(got: usize, expected: usize) -> (r: Result<(), DownloadError>)
    ensures
        got == expected ==> r is Ok,
        got != expected ==> (r matches Err(e) && error_view(e) == (
            false,
            "downloaded init segment length does not match playlist byterange"@,
        )),
{
    if got == expected {
        Ok(())
    } else {
        Err(
            DownloadError::Message(
                owned("downloaded init segment length does not match playlist byterange"),
            ),
        )
    }
}

/// Where a track is cached, relative to the daemon's root.
pub fn playback_relative_path(album_id: &str, song_id: &str) -> (s: String)
    ensures
        s@ == "cache/albums/"@ + album_id@ + "/"@ + song_id@ + ".m4a"@,
{
    let mut out: Vec<char> = Vec::new();
    push_str(&mut out, "cache/albums/");
    push_str(&mut out, album_id);
    push_str(&mut out, "/");
    push_str(&mut out, song_id);
    push_str(&mut out, ".m4a");
    assert(out@ =~= "cache/albums/"@ + album_id@ + "/"@ + song_id@ + ".m4a"@);
    chars_to_string(&out)
}

/// Where the lyrics of a song are cached, relative to the cache directory.
pub fn lyrics_cache_relative_path(song_id: &str) -> (s: String)
    ensures
        s@ == "lyrics/"@ + song_id@ + ".lrc"@,
{
    let mut out: Vec<char> = Vec::new();
    push_str(&mut out, "lyrics/");
    push_str(&mut out, song_id);
    push_str(&mut out, ".lrc");
    assert(out@ =~= "lyrics/"@ + song_id@ + ".lrc"@);
    chars_to_string(&out)
}

/// The name of a working file: the song, the variant stem and a suffix.
pub fn working_file_name(song_id: &str, variant_stem: &str, suffix: &str) -> (s: String)
    ensures
        s@ == song_id@ + "_"@ + variant_stem@ + suffix@,
{
    let mut out: Vec<char> = Vec::new();
    push_str(&mut out, song_id);
    push_str(&mut out, "_");
    push_str(&mut out, variant_stem);
    push_str(&mut out, suffix);
    assert(out@ =~= song_id@ + "_"@ + variant_stem@ + suffix@);
    chars_to_string(&out)
}

/// The components of a path that name something: split at `/`, without
/// empty and `.` components.
pub open spec fn path_components(p: Seq<char>) -> Seq<Seq<char>>
    decreases p.len(),
{
    if p.len() == 0 {
        Seq::empty()
    } else {
        let i = first_of(p, '/') as int;
        if i >= p.len() {
            if p == "."@ {
                Seq::empty()
            } else {
                seq![p]
            }
        } else {
            let head = p.subrange(0, i);
            let tail = path_components(p.subrange(i + 1, p.len() as int));
            if head.len() == 0 || head == "."@ {
                tail
            } else {
                seq![head] + tail
            }
        }
    }
}

/// The index of the last `.` of `s`, if any.
pub open spec fn last_dot(s: Seq<char>) -> Option<int> {
    if exists|i: int| 0 <= i < s.len() && s[i] == '.' {
        Some(choose|i: int| 0 <= i < s.len() && s[i] == '.' && forall|j: int| i < j < s.len() ==> s[j] != '.')
    } else {
        None
    }
}

/// The stem of a file name (`Path::file_stem`): before its last dot, unless
/// the only dot leads the name.
pub open spec fn stem_of(name: Seq<char>) -> Option<Seq<char>> {
    if name == ".."@ {
        None
    } else {
        match last_dot(name) {
            None => Some(name),
            Some(i) => if i == 0 {
                Some(name)
            } else {
                Some(name.subrange(0, i))
            },
        }
    }
}

/// The stem of the last component of a path, if it names a file.
pub open spec fn path_file_stem(p: Seq<char>) -> Option<Seq<char>> {
    let cs = path_components(p);
    if cs.len() == 0 {
        None
    } else {
        stem_of(cs.last())
    }
}

/// The path of `url` when `reqwest::Url::parse` accepts it.
pub uninterp spec fn url_path_of(url: Seq<char>) -> Option<Seq<char>>;

/// Parses `url` with `reqwest::Url::parse` and gives its path.
#[verifier::external_body]
fn url_path(url: &str) -> (r: Option<String>)
    ensures
        crate::playlist::opt_chars(r) == url_path_of(url@),
{
    reqwest::Url::parse(url).ok().map(|parsed| parsed.path().to_string())
}

/// `text` with each run of matches of `pattern` replaced by `replacement`,
/// as `regex::Regex::replace_all` does; `text` itself for an invalid pattern.
pub uninterp spec fn regex_replaced(pattern: Seq<char>, text: Seq<char>, replacement: Seq<char>) -> Seq<char>;

/// Runs `regex::Regex::replace_all`.
#[verifier::external_body]
fn regex_replace_all(pattern: &str, text: &str, replacement: &str) -> (r: String)
    ensures
        r@ == regex_replaced(pattern@, text@, replacement@),
{
    match regex::Regex::new(pattern) {
        Ok(re) => re.replace_all(text, replacement).into_owned(),
        Err(_) => text.to_string(),
    }
}

/// The characters a file name may keep; each run of others becomes `_`.
pub const FILE_NAME_PATTERN: &'static str = "[^A-Za-z0-9._-]+";

/// The file-name stem of a variant: the stem of its URL's path (`track` when
/// there is none), other characters replaced, without leading or trailing
/// dots and then underscores.
pub open spec fn variant_stem(uri: Seq<char>) -> Seq<char> {
    let stem = match url_path_of(uri) {
        Some(p) => match path_file_stem(p) {
            Some(s) => s,
            None => "track"@,
        },
        None => "track"@,
    };
    trim_char(trim_char(regex_replaced(FILE_NAME_PATTERN@, stem, "_"@), '.'), '_')
}

fn path_components_exec(p: &Vec<char>) -> (cs: Vec<Vec<char>>)
    ensures
        cs@.map_values(|c: Vec<char>| c@) == path_components(p@),
    decreases p@.len(),
{
    if p.len() == 0 {
        return Vec::new();
    }
    let i = first_of_exec(p, '/');
    if i >= p.len() {
        if chars_eq_str(p, ".") {
            Vec::new()
        } else {
            let mut cs = Vec::new();
            let whole = chars_range(p, 0, p.len());
            assert(whole@ =~= p@);
            cs.push(whole);
            assert(cs@.map_values(|c: Vec<char>| c@) =~= seq![p@]);
            cs
        }
    } else {
        {
            let head = chars_range(p, 0, i);
            let rest = chars_range(p, i + 1, p.len());
            let tail = path_components_exec(&rest);
            if head.len() == 0 || chars_eq_str(&head, ".") {
                tail
            } else {
                let mut cs = Vec::new();
                cs.push(head);
                let mut j: usize = 0;
                let ghost h = cs@.map_values(|c: Vec<char>| c@);
                while j < tail.len()
                    invariant
                        j <= tail@.len(),
                        cs@.map_values(|c: Vec<char>| c@) == h + tail@.subrange(0, j as int).map_values(
                            |c: Vec<char>| c@,
                        ),
                    decreases tail.len() - j,
                {
                    let item = chars_range(&tail[j], 0, tail[j].len());
                    assert(item@ =~= tail@[j as int]@);
                    let ghost before = cs@;
                    cs.push(item);
                    proof {
                        assert(cs@.map_values(|c: Vec<char>| c@) =~= before.map_values(|c: Vec<char>| c@).push(
                            item@,
                        ));
                        assert(tail@.subrange(0, j + 1).map_values(|c: Vec<char>| c@) =~= tail@.subrange(
                            0,
                            j as int,
                        ).map_values(|c: Vec<char>| c@).push(tail@[j as int]@));
                        assert(cs@.map_values(|c: Vec<char>| c@) =~= h + tail@.subrange(0, j + 1).map_values(
                            |c: Vec<char>| c@,
                        ));
                    }
                    j += 1;
                }
                assert(tail@.subrange(0, tail@.len() as int) =~= tail@);
                cs
            }
        }
    }
}

fn last_dot_exec(v: &Vec<char>) -> (r: Option<usize>)
    ensures
        match r {
            Some(i) => i < v@.len() && last_dot(v@) == Some(i as int),
            None => last_dot(v@) is None,
        },
{
    let mut i: usize = v.len();
    while i > 0
        invariant
            i <= v@.len(),
            forall|j: int| i <= j < v@.len() ==> v@[j] != '.',
        decreases i,
    {
        if v[i - 1] == '.' {
            proof {
                let k = (i - 1) as int;
                let w = choose|w: int| 0 <= w < v@.len() && v@[w] == '.' && forall|j: int| w < j < v@.len() ==> v@[j] != '.';
                assert(0 <= k < v@.len() && v@[k] == '.' && forall|j: int| k < j < v@.len() ==> v@[j] != '.');
                if w < k {
                    assert(v@[k] != '.');
                }
                if w > k {
                    assert(v@[w] != '.');
                }
            }
            return Some(i - 1);
        }
        i -= 1;
    }
    None
}

fn stem_exec(name: &Vec<char>) -> (r: Option<Vec<char>>)
    ensures
        match r {
            Some(s) => stem_of(name@) == Some(s@),
            None => stem_of(name@) is None,
        },
{
    if chars_eq_str(name, "..") {
        return None;
    }
    match last_dot_exec(name) {
        None => Some(chars_range(name, 0, name.len())),
        Some(i) => if i == 0 {
            let r = chars_range(name, 0, name.len());
            assert(r@ =~= name@);
            Some(r)
        } else {
            Some(chars_range(name, 0, i))
        },
    }
}

/// The file-name stem used for a variant's working files.
pub fn sanitized_variant_stem(variant_uri: &str) -> (s: String)
    ensures
        s@ == variant_stem(variant_uri@),
{
    let stem: Vec<char> = match url_path(variant_uri) {
        Some(p) => {
            let pv = str_chars(p.as_str());
            let cs = path_components_exec(&pv);
            if cs.len() == 0 {
                str_chars("track")
            } else {
                proof {
                    assert(cs@.map_values(|c: Vec<char>| c@).last() == cs@[cs@.len() - 1]@);
                }
                match stem_exec(&cs[cs.len() - 1]) {
                    Some(st) => st,
                    None => str_chars("track"),
                }
            }
        },
        None => str_chars("track"),
    };
    let stem_text = chars_to_string(&stem);
    let replaced = regex_replace_all(FILE_NAME_PATTERN, stem_text.as_str(), "_");
    let rv = str_chars(replaced.as_str());
    let once = trim_char_chars(&rv, '.');
    let twice = trim_char_chars(&once, '_');
    chars_to_string(&twice)
}


// ---------------------------------------------------------------------------
// What the tools report
// ---------------------------------------------------------------------------

/// The label of the codec that ffprobe names.
pub open spec fn codec_label_text(codec: Seq<char>) -> Seq<char> {
    if codec == "alac"@ {
        "ALAC"@
    } else if codec == "aac"@ {
        "AAC"@
    } else {
        codec
    }
}

/// One stream of an ffprobe report: its `codec_type`, `codec_name` and
/// `sample_rate` when they are strings, and `channels` when it is a number.
#[derive(Clone, Debug)]
pub struct ProbeStream {
    pub codec_type: Option<String>,
    pub codec_name: Option<String>,
    pub sample_rate: Option<String>,
    pub channels: Option<u64>,
}

/// Whether a stream is an audio stream.
pub open spec fn is_audio(s: ProbeStream) -> bool {
    s.codec_type matches Some(t) && t@ == "audio"@
}

/// The codec name of the first audio stream that names one.
pub open spec fn audio_codec_of(ss: Seq<ProbeStream>) -> Option<Seq<char>>
    decreases ss.len(),
{
    if ss.len() == 0 {
        None
    } else if is_audio(ss[0]) && ss[0].codec_name is Some {
        Some(ss[0].codec_name.unwrap()@)
    } else {
        audio_codec_of(ss.drop_first())
    }
}

fn stream_is_audio(s: &ProbeStream) -> (b: bool)
    ensures
        b == is_audio(*s),
{
    match &s.codec_type {
        Some(t) => chars_eq_str(&str_chars(t.as_str()), "audio"),
        None => false,
    }
}

/// The label of the codec of a file from its ffprobe streams: the first
/// audio stream's codec, `unknown` when none names one.
pub fn detected_codec_label(streams: &Vec<ProbeStream>) -> (s: String)
    ensures
        s@ == codec_label_text(
            match audio_codec_of(streams@) {
                Some(c) => c,
                None => "unknown"@,
            },
        ),
{
    let mut i: usize = 0;
    assert(streams@.subrange(0, streams@.len() as int) =~= streams@);
    while i < streams.len()
        invariant
            i <= streams@.len(),
            audio_codec_of(streams@) == audio_codec_of(streams@.subrange(i as int, streams@.len() as int)),
        decreases streams.len() - i,
    {
        let ghost rest = streams@.subrange(i as int, streams@.len() as int);
        proof {
            assert(rest.drop_first() =~= streams@.subrange(i + 1, streams@.len() as int));
            assert(rest[0] == streams@[i as int]);
        }
        if stream_is_audio(&streams[i]) {
            match &streams[i].codec_name {
                Some(name) => {
                    return probe_codec_label(name.as_str());
                },
                None => {},
            }
        }
        i += 1;
    }
    probe_codec_label("unknown")
}

/// The index of the first audio stream.
pub open spec fn first_audio(ss: Seq<ProbeStream>) -> Option<int> {
    if exists|i: int| 0 <= i < ss.len() && is_audio(#[trigger] ss[i]) {
        Some(choose|i: int| 0 <= i < ss.len() && is_audio(#[trigger] ss[i]) && forall|j: int| 0 <= j < i ==> !is_audio(#[trigger] ss[j]))
    } else {
        None
    }
}

/// What an AAC stream's report gives: its sample rate and channel count (the
/// count cut to a byte), or why it cannot be used.
pub open spec fn aac_params_of(ss: Seq<ProbeStream>) -> Result<(u32, u8), (bool, Seq<char>)> {
    match first_audio(ss) {
        None => Err((false, "ffprobe did not return an audio stream"@)),
        Some(i) => match ss[i].sample_rate {
            None => Err((false, "ffprobe audio stream omitted sample_rate"@)),
            Some(r) => match parse_unsigned(r@, u32::MAX as nat) {
                Err(k) => Err((true, "invalid AAC sample rate: "@ + int_error_message(k))),
                Ok(rate) => match ss[i].channels {
                    None => Err((false, "ffprobe audio stream omitted channels"@)),
                    Some(c) => Ok((rate as u32, (c % 256) as u8)),
                },
            },
        },
    }
}

/// The view of a daemon error as a protocol flag and message, for the two
/// kinds the tools' reports give.
pub open spec fn report_error_view(e: AppError) -> Option<(bool, Seq<char>)> {
    match e {
        AppError::Protocol(m) => Some((true, m@)),
        AppError::Message(m) => Some((false, m@)),
        _ => None,
    }
}

/// The sample rate and channel count of the first audio stream.
pub fn aac_stream_params(streams: &Vec<ProbeStream>) -> (r: Result<(u32, u8), AppError>)
    ensures
        match aac_params_of(streams@) {
            Ok(p) => r == Ok::<(u32, u8), AppError>(p),
            Err(ev) => r matches Err(e) && report_error_view(e) == Some(ev),
        },
{
    let mut i: usize = 0;
    while i < streams.len()
        invariant
            i <= streams@.len(),
            forall|j: int| 0 <= j < i ==> !is_audio(#[trigger] streams@[j]),
        decreases streams.len() - i,
    {
        if stream_is_audio(&streams[i]) {
            proof {
                let w = choose|k: int| 0 <= k < streams@.len() && is_audio(#[trigger] streams@[k]) && forall|j: int| 0 <= j < k ==> !is_audio(#[trigger] streams@[j]);
                assert(is_audio(streams@[i as int]));
                if w < i {
                    assert(!is_audio(streams@[w]));
                }
                if w > i {
                    assert(!is_audio(streams@[i as int]));
                }
                assert(first_audio(streams@) == Some(i as int));
            }
            let s = &streams[i];
            let rate_text = match &s.sample_rate {
                Some(t) => t,
                None => return Err(AppError::Message("ffprobe audio stream omitted sample_rate".to_string())),
            };
            let rate = match parse_unsigned_chars(&str_chars(rate_text.as_str()), u32::MAX as u64) {
                Ok(n) => n as u32,
                Err(k) => return Err(AppError::Protocol(crate::text::concat2("invalid AAC sample rate: ", k.message()))),
            };
            let channels = match s.channels {
                Some(c) => (c % 256) as u8,
                None => return Err(AppError::Message("ffprobe audio stream omitted channels".to_string())),
            };
            return Ok((rate, channels));
        }
        i += 1;
    }
    Err(AppError::Message("ffprobe did not return an audio stream".to_string()))
}

/// The first of `ls` that is not empty.
pub open spec fn first_nonblank(ls: Seq<Seq<char>>) -> Option<Seq<char>>
    decreases ls.len(),
{
    if ls.len() == 0 {
        None
    } else if ls[0].len() > 0 {
        Some(ls[0])
    } else {
        first_nonblank(ls.drop_first())
    }
}

fn first_nonblank_line(lines: &Vec<Vec<char>>) -> (r: Option<String>)
    ensures
        crate::playlist::opt_chars(r) == first_nonblank(crate::playlist::lines_view(lines@)),
{
    let ghost lv = crate::playlist::lines_view(lines@);
    let mut i: usize = 0;
    assert(lv.subrange(0, lv.len() as int) =~= lv);
    while i < lines.len()
        invariant
            i <= lines@.len(),
            lv == crate::playlist::lines_view(lines@),
            lv.len() == lines@.len(),
            first_nonblank(lv) == first_nonblank(lv.subrange(i as int, lv.len() as int)),
        decreases lines.len() - i,
    {
        let ghost rest = lv.subrange(i as int, lv.len() as int);
        proof {
            assert(rest.drop_first() =~= lv.subrange(i + 1, lv.len() as int));
            assert(rest[0] == lines@[i as int]@);
        }
        if lines[i].len() > 0 {
            return Some(chars_to_string(&lines[i]));
        }
        i += 1;
    }
    None
}

/// Why a tool failed, from what it wrote: the first line that is not blank,
/// trimmed, of its error output and then of its output; `None` when it
/// wrote none.
pub fn command_failure_line(stderr: &[u8], stdout: &[u8]) -> (r: Option<String>)
    ensures
        crate::playlist::opt_chars(r) == first_nonblank(
            crate::playlist::text_lines(utf8_lossy(stderr@)) + crate::playlist::text_lines(utf8_lossy(stdout@)),
        ),
{
    let err_text = lossy_string(stderr);
    let out_text = lossy_string(stdout);
    let mut lines = crate::playlist::trimmed_lines(err_text.as_str());
    let more = crate::playlist::trimmed_lines(out_text.as_str());
    let ghost first = crate::playlist::lines_view(lines@);
    let mut i: usize = 0;
    while i < more.len()
        invariant
            i <= more@.len(),
            crate::playlist::lines_view(lines@) == first + crate::playlist::lines_view(more@.subrange(0, i as int)),
        decreases more.len() - i,
    {
        let line = chars_range(&more[i], 0, more[i].len());
        assert(line@ =~= more@[i as int]@);
        let ghost before = crate::playlist::lines_view(lines@);
        lines.push(line);
        proof {
            assert(crate::playlist::lines_view(lines@) =~= before.push(line@));
            assert(crate::playlist::lines_view(more@.subrange(0, i + 1)) =~= crate::playlist::lines_view(
                more@.subrange(0, i as int),
            ).push(more@[i as int]@));
        }
        i += 1;
    }
    assert(more@.subrange(0, more@.len() as int) =~= more@);
    first_nonblank_line(&lines)
}

/// The version a tool reports: the first line of its output, trimmed, when
/// that is not blank.
pub fn tool_version_line(stdout: &[u8]) -> (r: Option<String>)
    ensures
        crate::playlist::opt_chars(r) == ({
            let ls = crate::playlist::split_lines(utf8_lossy(stdout@));
            if ls.len() > 0 && crate::text::trim(ls[0]).len() > 0 {
                Some(crate::text::trim(ls[0]))
            } else {
                None::<Seq<char>>
            }
        }),
{
    let text = lossy_string(stdout);
    let lines = crate::playlist::trimmed_lines(text.as_str());
    proof {
        assert(crate::playlist::lines_view(lines@).len() == lines@.len());
    }
    if lines.len() > 0 && lines[0].len() > 0 {
        proof {
            assert(crate::playlist::lines_view(lines@)[0] == lines@[0]@);
        }
        Some(chars_to_string(&lines[0]))
    } else {
        proof {
            if lines@.len() > 0 {
                assert(crate::playlist::lines_view(lines@)[0] == lines@[0]@);
            }
        }
        None
    }
}

} // verus!
