//! The Subsonic-compatible API: response formats, error codes, stream codec
//! selection, credential checks, and the XML form of artists, albums and songs.
use vstd::prelude::*;

use crate::api::opt_str_view;
use crate::text::{
    ascii_lower, chars_eq, chars_eq_str, chars_to_string, decimal, lower_chars, matches_at,
    occurs_at, push_all, push_decimal, push_signed_decimal, push_str, signed_decimal, str_chars,
    trim, trim_chars, starts_with,
};

verus! {

/// The encoding a Subsonic client asked for.
#[derive(Debug, Clone, Copy, PartialEq, Eq, Structural)]
pub enum ResponseFormat {
    Json,
    Xml,
}

/// The format named by the `f` parameter: XML when absent or empty.
pub open spec fn format_named(raw: Option<Seq<char>>) -> Option<ResponseFormat> {
    let name = match raw {
        Some(r) => ascii_lower(trim(r)),
        None => "xml"@,
    };
    if name == ""@ || name == "xml"@ {
        Some(ResponseFormat::Xml)
    } else if name == "json"@ {
        Some(ResponseFormat::Json)
    } else {
        None
    }
}

impl ResponseFormat {
    /// Reads the `f` parameter.
    pub fn from_query(raw: Option<&str>) -> (r: Result<Self, &'static str>)
        ensures
            match format_named(opt_str_view(raw)) {
                Some(f) => r == Ok::<ResponseFormat, &'static str>(f),
                None => r is Err && r->Err_0@ == "unsupported response format"@,
            },
    {
        let name: Vec<char> = match raw {
            Some(r) => {
                let v = str_chars(r);
                let t = trim_chars(&v);
                lower_chars(&t)
            },
            None => str_chars("xml"),
        };
        if chars_eq_str(&name, "") || chars_eq_str(&name, "xml") {
            Ok(ResponseFormat::Xml)
        } else if chars_eq_str(&name, "json") {
            Ok(ResponseFormat::Json)
        } else {
            Err("unsupported response format")
        }
    }
}

/// A Subsonic error: the format to answer in, the Subsonic error code and
/// its message.
#[derive(Debug)]
pub struct SubsonicError {
    pub format: ResponseFormat,
    pub code: i32,
    pub message: String,
}

impl SubsonicError {
    /// A generic error (code 0).
    pub fn generic(format: ResponseFormat, message: &str) -> (e: Self)
        ensures
            e.format == format,
            e.code == 0,
            e.message@ == message@,
    {
        SubsonicError { format, code: 0, message: message.to_string() }
    }

    /// A missing or malformed parameter (code 10).
    pub fn required_parameter(format: ResponseFormat, message: &str) -> (e: Self)
        ensures
            e.format == format,
            e.code == 10,
            e.message@ == message@,
    {
        SubsonicError { format, code: 10, message: message.to_string() }
    }

    /// Wrong credentials (code 40).
    pub fn authentication(format: ResponseFormat, message: &str) -> (e: Self)
        ensures
            e.format == format,
            e.code == 40,
            e.message@ == message@,
    {
        SubsonicError { format, code: 40, message: message.to_string() }
    }

    /// A missing resource (code 70).
    pub fn not_found(format: ResponseFormat, message: &str) -> (e: Self)
        ensures
            e.format == format,
            e.code == 70,
            e.message@ == message@,
    {
        SubsonicError { format, code: 70, message: message.to_string() }
    }
}

/// The codec that a stream request asks for: a limited bit rate on the
/// original container asks for AAC, `aac` for AAC, `alac` or `lossless` for
/// ALAC; `None` keeps the original stream; `Err` carries the unknown name.
pub open spec fn codec_choice(max_bit_rate: Option<u32>, format: Option<&str>) -> Result<
    Option<Seq<char>>,
    Seq<char>,
> {
    let name = match format {
        Some(f) => ascii_lower(trim(f@)),
        None => ""@,
    };
    if name == ""@ || name == "raw"@ || name == "m4a"@ || name == "mp4"@ {
        match max_bit_rate {
            Some(b) => if b > 0 {
                Ok(Some("aac"@))
            } else {
                Ok(None)
            },
            None => Ok(None),
        }
    } else if name == "aac"@ {
        Ok(Some("aac"@))
    } else if name == "alac"@ || name == "lossless"@ {
        Ok(Some("alac"@))
    } else {
        Err(name)
    }
}

/// The codec to stream, from the `maxBitRate` and `format` parameters.
pub fn requested_codec(
    max_bit_rate: Option<u32>,
    format: Option<&str>,
    response_format: ResponseFormat,
) -> (r: Result<Option<String>, SubsonicError>)
    ensures
        match codec_choice(max_bit_rate, format) {
            Ok(Some(c)) => r matches Ok(Some(s)) && s@ == c,
            Ok(None) => r matches Ok(None),
            Err(name) => r matches Err(e) && e.format == response_format && e.code == 10
                && e.message@ == "unsupported stream format: "@ + name,
        },
{
    let name: Vec<char> = match format {
        Some(f) => {
            let v = str_chars(f);
            let t = trim_chars(&v);
            lower_chars(&t)
        },
        None => Vec::new(),
    };
    proof {
        reveal_strlit("");
        if format is None {
            assert(name@ =~= ""@);
        }
    }
    if chars_eq_str(&name, "") || chars_eq_str(&name, "raw") || chars_eq_str(&name, "m4a")
        || chars_eq_str(&name, "mp4") {
        match max_bit_rate {
            Some(b) => if b > 0 {
                Ok(Some("aac".to_string()))
            } else {
                Ok(None)
            },
            None => Ok(None),
        }
    } else if chars_eq_str(&name, "aac") {
        Ok(Some("aac".to_string()))
    } else if chars_eq_str(&name, "alac") || chars_eq_str(&name, "lossless") {
        Ok(Some("alac".to_string()))
    } else {
        let mut m: Vec<char> = Vec::new();
        push_str(&mut m, "unsupported stream format: ");
        push_all(&mut m, &name);
        assert(m@ =~= "unsupported stream format: "@ + name@);
        let message = chars_to_string(&m);
        Err(SubsonicError::required_parameter(response_format, message.as_str()))
    }
}

/// The escaped form of one character in an XML attribute.
pub open spec fn escape_attr_char(c: char) -> Seq<char> {
    if c == '&' {
        "&amp;"@
    } else if c == '"' {
        "&quot;"@
    } else if c == '\'' {
        "&apos;"@
    } else if c == '<' {
        "&lt;"@
    } else if c == '>' {
        "&gt;"@
    } else {
        seq![c]
    }
}

/// The escaped form of one character in XML text.
pub open spec fn escape_text_char(c: char) -> Seq<char> {
    if c == '&' {
        "&amp;"@
    } else if c == '<' {
        "&lt;"@
    } else if c == '>' {
        "&gt;"@
    } else {
        seq![c]
    }
}

/// `s` escaped for an XML attribute value.
pub open spec fn escape_attr(s: Seq<char>) -> Seq<char>
    decreases s.len(),
{
    if s.len() == 0 {
        Seq::empty()
    } else {
        escape_attr(s.drop_last()) + escape_attr_char(s.last())
    }
}

/// `s` escaped for XML text.
pub open spec fn escape_text(s: Seq<char>) -> Seq<char>
    decreases s.len(),
{
    if s.len() == 0 {
        Seq::empty()
    } else {
        escape_text(s.drop_last()) + escape_text_char(s.last())
    }
}

/// Appends `value` escaped for an XML attribute.
pub(crate) fn push_escaped_attr(out: &mut Vec<char>, value: &str)
    ensures
        final(out)@ == old(out)@ + escape_attr(value@),
{
    let v = str_chars(value);
    let ghost start = out@;
    let mut i: usize = 0;
    while i < v.len()
        invariant
            i <= v@.len(),
            v@ == value@,
            out@ == start + escape_attr(v@.subrange(0, i as int)),
        decreases v.len() - i,
    {
        let c = v[i];
        if c == '&' {
            push_str(out, "&amp;");
        } else if c == '"' {
            push_str(out, "&quot;");
        } else if c == '\'' {
            push_str(out, "&apos;");
        } else if c == '<' {
            push_str(out, "&lt;");
        } else if c == '>' {
            push_str(out, "&gt;");
        } else {
            out.push(c);
        }
        proof {
            let next = v@.subrange(0, i + 1);
            assert(next.drop_last() =~= v@.subrange(0, i as int));
            assert(next.last() == c);
            assert(out@ =~= start + escape_attr(next));
        }
        i += 1;
    }
    assert(v@.subrange(0, v@.len() as int) =~= v@);
}

/// Appends `value` escaped for XML text.
pub(crate) fn push_escaped_text(out: &mut Vec<char>, value: &str)
    ensures
        final(out)@ == old(out)@ + escape_text(value@),
{
    let v = str_chars(value);
    let ghost start = out@;
    let mut i: usize = 0;
    while i < v.len()
        invariant
            i <= v@.len(),
            v@ == value@,
            out@ == start + escape_text(v@.subrange(0, i as int)),
        decreases v.len() - i,
    {
        let c = v[i];
        if c == '&' {
            push_str(out, "&amp;");
        } else if c == '<' {
            push_str(out, "&lt;");
        } else if c == '>' {
            push_str(out, "&gt;");
        } else {
            out.push(c);
        }
        proof {
            let next = v@.subrange(0, i + 1);
            assert(next.drop_last() =~= v@.subrange(0, i as int));
            assert(next.last() == c);
            assert(out@ =~= start + escape_text(next));
        }
        i += 1;
    }
    assert(v@.subrange(0, v@.len() as int) =~= v@);
}

/// `value` escaped for an XML attribute: `&`, `"`, `'`, `<` and `>` become
/// entities.
pub fn escape_xml_attr(value: &str) -> (s: String)
    ensures
        s@ == escape_attr(value@),
{
    let mut out: Vec<char> = Vec::new();
    push_escaped_attr(&mut out, value);
    assert(out@ =~= escape_attr(value@));
    chars_to_string(&out)
}

/// `value` escaped for XML text: `&`, `<` and `>` become entities.
pub fn escape_xml_text(value: &str) -> (s: String)
    ensures
        s@ == escape_text(value@),
{
    let mut out: Vec<char> = Vec::new();
    push_escaped_text(&mut out, value);
    assert(out@ =~= escape_text(value@));
    chars_to_string(&out)
}

/// `s` with every occurrence of `p` replaced by `r`, scanning left to right
/// (`str::replace`).
pub open spec fn replace_all(s: Seq<char>, p: Seq<char>, r: Seq<char>) -> Seq<char>
    decreases s.len(),
{
    if s.len() == 0 {
        Seq::empty()
    } else if p.len() > 0 && starts_with(s, p) {
        r + replace_all(s.subrange(p.len() as int, s.len() as int), p, r)
    } else {
        seq![s[0]] + replace_all(s.drop_first(), p, r)
    }
}

/// Replaces every occurrence of `p` in `s` by `r`.
pub fn replace_chars(s: &Vec<char>, p: &Vec<char>, r: &Vec<char>) -> (out: Vec<char>)
    ensures
        out@ == replace_all(s@, p@, r@),
{
    let mut out: Vec<char> = Vec::new();
    let mut i: usize = 0;
    assert(s@.subrange(0, s@.len() as int) =~= s@);
    assert(out@ + replace_all(s@, p@, r@) =~= replace_all(s@, p@, r@));
    while i < s.len()
        invariant
            i <= s@.len(),
            out@ + replace_all(s@.subrange(i as int, s@.len() as int), p@, r@) == replace_all(
                s@,
                p@,
                r@,
            ),
        decreases s.len() - i,
    {
        let ghost rest = s@.subrange(i as int, s@.len() as int);
        let ghost o = out@;
        if p.len() > 0 && matches_at(s, p, i) {
            let ghost tail = s@.subrange(i + p@.len(), s@.len() as int);
            proof {
                assert(rest.subrange(0, p@.len() as int) =~= s@.subrange(i as int, i + p@.len()));
                assert(starts_with(rest, p@));
                assert(rest.subrange(p@.len() as int, rest.len() as int) =~= tail);
                assert(replace_all(rest, p@, r@) == r@ + replace_all(tail, p@, r@));
            }
            push_all(&mut out, r);
            i += p.len();
            proof {
                assert(s@.subrange(i as int, s@.len() as int) == tail);
                assert((o + r@) + replace_all(tail, p@, r@) =~= o + (r@ + replace_all(tail, p@, r@)));
            }
        } else {
            let ghost tail = s@.subrange(i + 1, s@.len() as int);
            proof {
                if p@.len() > 0 && starts_with(rest, p@) {
                    assert(rest.subrange(0, p@.len() as int) =~= s@.subrange(i as int, i + p@.len()));
                    assert(occurs_at(s@, p@, i as int));
                }
                assert(rest.drop_first() =~= tail);
                assert(rest[0] == s@[i as int]);
                assert(replace_all(rest, p@, r@) == seq![s@[i as int]] + replace_all(tail, p@, r@));
            }
            out.push(s[i]);
            i += 1;
            proof {
                assert(s@.subrange(i as int, s@.len() as int) == tail);
                assert(o.push(s@[i - 1]) + replace_all(tail, p@, r@) =~= o + (seq![s@[i - 1]]
                    + replace_all(tail, p@, r@)));
            }
        }
    }
    proof {
        assert(s@.subrange(s@.len() as int, s@.len() as int) =~= Seq::<char>::empty());
        assert(out@ + Seq::<char>::empty() =~= out@);
    }
    out
}

/// The artwork URL for `template`: `{w}` and `{h}` become the requested size,
/// 1200 wide by default, never below 1.
pub open spec fn artwork_url(template: Seq<char>, size: Option<u32>) -> Seq<char> {
    let width: u32 = match size {
        Some(s) => if s < 1 { 1 } else { s },
        None => 1200,
    };
    let height: u32 = match size {
        Some(s) => if s < 1 { 1 } else { s },
        None => width,
    };
    replace_all(replace_all(template, "{w}"@, decimal(width as nat)), "{h}"@, decimal(height as nat))
}

/// The artwork URL for `template` at `size`.
pub fn render_artwork_url(template: &str, size: Option<u32>) -> (url: String)
    ensures
        url@ == artwork_url(template@, size),
{
    let width: u32 = match size {
        Some(s) => if s < 1 { 1 } else { s },
        None => 1200,
    };
    let height: u32 = match size {
        Some(s) => if s < 1 { 1 } else { s },
        None => width,
    };
    let t = str_chars(template);
    let mut w: Vec<char> = Vec::new();
    push_decimal(&mut w, width as u64);
    let mut h: Vec<char> = Vec::new();
    push_decimal(&mut h, height as u64);
    assert(w@ =~= decimal(width as nat));
    assert(h@ =~= decimal(height as nat));
    let pw = str_chars("{w}");
    let ph = str_chars("{h}");
    let once = replace_chars(&t, &pw, &w);
    let twice = replace_chars(&once, &ph, &h);
    chars_to_string(&twice)
}

/// Text compared for matching: trimmed and in ASCII lowercase.
pub fn normalize_match_text(value: &str) -> (s: String)
    ensures
        s@ == ascii_lower(trim(value@)),
{
    let v = str_chars(value);
    let t = trim_chars(&v);
    let l = lower_chars(&t);
    chars_to_string(&l)
}

/// The largest page the catalog search serves.
pub const APPLE_SEARCH_LIMIT_MAX: usize = 50;

/// A requested search page size kept between 1 and the catalog's largest.
pub open spec fn clamped_limit(requested: usize) -> usize {
    if requested < 1 {
        1
    } else if requested > APPLE_SEARCH_LIMIT_MAX {
        APPLE_SEARCH_LIMIT_MAX
    } else {
        requested
    }
}

/// A requested search page size, kept between 1 and the catalog's largest.
pub fn clamp_search_limit(requested: usize) -> (n: usize)
    ensures
        n == if requested < 1 {
            1
        } else if requested > APPLE_SEARCH_LIMIT_MAX {
            APPLE_SEARCH_LIMIT_MAX
        } else {
            requested
        },
{
    if requested < 1 {
        1
    } else if requested > APPLE_SEARCH_LIMIT_MAX {
        APPLE_SEARCH_LIMIT_MAX
    } else {
        requested
    }
}

/// Refuses a `search3` request whose query is blank (code 10).
pub fn search3_query_error(format: ResponseFormat, query: &str) -> (r: Option<SubsonicError>)
    ensures
        (r is Some) == (trim(query@).len() == 0),
        r matches Some(e) ==> e.format == format && e.code == 10 && e.message@
            == "query is required"@,
{
    let q = str_chars(query);
    let t = trim_chars(&q);
    if t.len() == 0 {
        proof {
            reveal_strlit("query is required");
        }
        Some(SubsonicError::required_parameter(format, "query is required"))
    } else {
        None
    }
}

/// The one music folder this server exposes.
pub const SUBSONIC_MUSIC_FOLDER_ID: i32 = 1;

/// The id of the one music folder.
pub fn music_folder_id() -> (id: i32)
    ensures
        id == SUBSONIC_MUSIC_FOLDER_ID,
{
    SUBSONIC_MUSIC_FOLDER_ID
}

/// An artist as Subsonic describes it.
#[derive(Clone, Debug)]
pub struct SubsonicArtist {
    pub id: String,
    pub name: String,
    pub cover_art: Option<String>,
    pub artist_image_url: Option<String>,
    pub album_count: Option<usize>,
}

/// An album as Subsonic describes it.
#[derive(Clone, Debug)]
pub struct SubsonicAlbum {
    pub id: String,
    pub name: String,
    pub artist: String,
    pub artist_id: Option<String>,
    pub cover_art: Option<String>,
    pub song_count: Option<usize>,
    pub duration: Option<u64>,
    pub year: Option<i32>,
    pub created: Option<String>,
    pub genre: Option<String>,
}

/// A song as Subsonic describes it.
#[derive(Clone, Debug)]
pub struct SubsonicSong {
    pub id: String,
    pub parent: Option<String>,
    pub title: String,
    pub album: Option<String>,
    pub artist: String,
    pub artist_id: Option<String>,
    pub cover_art: Option<String>,
    pub duration: Option<u64>,
    pub track: Option<u32>,
    pub disc_number: Option<u32>,
    pub year: Option<i32>,
    pub created: Option<String>,
    pub genre: Option<String>,
    pub suffix: &'static str,
    pub content_type: &'static str,
    pub album_id: Option<String>,
}

/// One XML attribute ` name="value"`.
pub open spec fn attr(name: Seq<char>, value: Seq<char>) -> Seq<char> {
    " "@ + name + "=\""@ + value + "\""@
}

/// An attribute with an escaped string value, when there is one.
pub open spec fn text_attr(name: Seq<char>, value: Option<String>) -> Seq<char> {
    match value {
        Some(v) => attr(name, escape_attr(v@)),
        None => Seq::empty(),
    }
}

/// An attribute with a number, when there is one.
pub open spec fn num_attr(name: Seq<char>, value: Option<nat>) -> Seq<char> {
    match value {
        Some(v) => attr(name, decimal(v)),
        None => Seq::empty(),
    }
}

/// An attribute with a signed number, when there is one.
pub open spec fn signed_attr(name: Seq<char>, value: Option<i32>) -> Seq<char> {
    match value {
        Some(v) => attr(name, signed_decimal(v as int)),
        None => Seq::empty(),
    }
}

/// An optional count as a number.
pub open spec fn opt_usize(o: Option<usize>) -> Option<nat> {
    match o {
        Some(v) => Some(v as nat),
        None => None,
    }
}

/// An optional `u64` as a number.
pub open spec fn opt_u64(o: Option<u64>) -> Option<nat> {
    match o {
        Some(v) => Some(v as nat),
        None => None,
    }
}

/// An optional `u32` as a number.
pub open spec fn opt_u32(o: Option<u32>) -> Option<nat> {
    match o {
        Some(v) => Some(v as nat),
        None => None,
    }
}

/// The attributes of an artist element.
pub open spec fn artist_attr_text(a: SubsonicArtist) -> Seq<char> {
    attr("id"@, escape_attr(a.id@)) + attr("name"@, escape_attr(a.name@)) + num_attr(
        "albumCount"@,
        opt_usize(a.album_count),
    ) + text_attr("coverArt"@, a.cover_art) + text_attr("artistImageUrl"@, a.artist_image_url)
}

/// The attributes of an album element.
pub open spec fn album_attr_text(a: SubsonicAlbum) -> Seq<char> {
    attr("id"@, escape_attr(a.id@)) + attr("name"@, escape_attr(a.name@)) + attr(
        "artist"@,
        escape_attr(a.artist@),
    ) + attr("musicFolderId"@, signed_decimal(SUBSONIC_MUSIC_FOLDER_ID as int)) + text_attr(
        "artistId"@,
        a.artist_id,
    ) + text_attr("coverArt"@, a.cover_art) + num_attr("songCount"@, opt_usize(a.song_count))
        + num_attr("duration"@, opt_u64(a.duration)) + signed_attr("year"@, a.year) + text_attr(
        "created"@,
        a.created,
    ) + text_attr("genre"@, a.genre)
}

/// The attributes of a song element.
pub open spec fn song_attr_text(s: SubsonicSong) -> Seq<char> {
    attr("id"@, escape_attr(s.id@)) + attr("isDir"@, "false"@) + attr("title"@, escape_attr(s.title@))
        + attr("artist"@, escape_attr(s.artist@)) + attr("suffix"@, s.suffix@) + attr(
        "contentType"@,
        s.content_type@,
    ) + attr("musicFolderId"@, signed_decimal(SUBSONIC_MUSIC_FOLDER_ID as int)) + text_attr(
        "parent"@,
        s.parent,
    ) + text_attr("album"@, s.album) + text_attr("artistId"@, s.artist_id) + text_attr(
        "coverArt"@,
        s.cover_art,
    ) + num_attr("duration"@, opt_u64(s.duration)) + num_attr("track"@, opt_u32(s.track))
        + num_attr("discNumber"@, opt_u32(s.disc_number)) + signed_attr("year"@, s.year)
        + text_attr("created"@, s.created) + text_attr("genre"@, s.genre) + text_attr(
        "albumId"@,
        s.album_id,
    )
}

fn push_attr_open(out: &mut Vec<char>, name: &str)
    ensures
        final(out)@ == old(out)@ + " "@ + name@ + "=\""@,
{
    push_str(out, " ");
    push_str(out, name);
    push_str(out, "=\"");
}

fn push_attr_close(out: &mut Vec<char>)
    ensures
        final(out)@ == old(out)@ + "\""@,
{
    push_str(out, "\"");
}

pub(crate) fn push_attr_escaped(out: &mut Vec<char>, name: &str, value: &str)
    ensures
        final(out)@ == old(out)@ + attr(name@, escape_attr(value@)),
{
    push_attr_open(out, name);
    push_escaped_attr(out, value);
    push_attr_close(out);
    assert(out@ =~= old(out)@ + attr(name@, escape_attr(value@)));
}

fn push_attr_raw(out: &mut Vec<char>, name: &str, value: &str)
    ensures
        final(out)@ == old(out)@ + attr(name@, value@),
{
    push_attr_open(out, name);
    push_str(out, value);
    push_attr_close(out);
    assert(out@ =~= old(out)@ + attr(name@, value@));
}

pub(crate) fn push_opt_text_attr(out: &mut Vec<char>, name: &str, value: &Option<String>)
    ensures
        final(out)@ == old(out)@ + text_attr(name@, *value),
{
    match value {
        Some(v) => push_attr_escaped(out, name, v.as_str()),
        None => {
            assert(out@ =~= out@ + Seq::<char>::empty());
        },
    }
}

pub(crate) fn push_opt_num_attr(out: &mut Vec<char>, name: &str, value: Option<u64>)
    ensures
        final(out)@ == old(out)@ + num_attr(name@, opt_u64(value)),
{
    match value {
        Some(v) => {
            push_attr_open(out, name);
            push_decimal(out, v);
            push_attr_close(out);
            assert(out@ =~= old(out)@ + attr(name@, decimal(v as nat)));
        },
        None => {
            assert(out@ =~= out@ + Seq::<char>::empty());
        },
    }
}

fn push_opt_signed_attr(out: &mut Vec<char>, name: &str, value: Option<i32>)
    ensures
        final(out)@ == old(out)@ + signed_attr(name@, value),
{
    match value {
        Some(v) => {
            push_attr_open(out, name);
            push_signed_decimal(out, v as i64);
            push_attr_close(out);
            assert(out@ =~= old(out)@ + attr(name@, signed_decimal(v as int)));
        },
        None => {
            assert(out@ =~= out@ + Seq::<char>::empty());
        },
    }
}

pub(crate) fn widen_usize(o: Option<usize>) -> (r: Option<u64>)
    ensures
        opt_u64(r) == opt_usize(o),
{
    match o {
        Some(v) => Some(v as u64),
        None => None,
    }
}

fn widen_u32(o: Option<u32>) -> (r: Option<u64>)
    ensures
        opt_u64(r) == opt_u32(o),
{
    match o {
        Some(v) => Some(v as u64),
        None => None,
    }
}

fn push_folder_attr(out: &mut Vec<char>)
    ensures
        final(out)@ == old(out)@ + attr("musicFolderId"@, signed_decimal(SUBSONIC_MUSIC_FOLDER_ID as int)),
{
    push_attr_open(out, "musicFolderId");
    push_signed_decimal(out, SUBSONIC_MUSIC_FOLDER_ID as i64);
    push_attr_close(out);
    assert(out@ =~= old(out)@ + attr("musicFolderId"@, signed_decimal(SUBSONIC_MUSIC_FOLDER_ID as int)));
}

/// The attributes of an artist element.
pub fn artist_attrs(artist: &SubsonicArtist) -> (s: String)
    ensures
        s@ == artist_attr_text(*artist),
{
    let mut out: Vec<char> = Vec::new();
    push_attr_escaped(&mut out, "id", artist.id.as_str());
    push_attr_escaped(&mut out, "name", artist.name.as_str());
    push_opt_num_attr(&mut out, "albumCount", widen_usize(artist.album_count));
    push_opt_text_attr(&mut out, "coverArt", &artist.cover_art);
    push_opt_text_attr(&mut out, "artistImageUrl", &artist.artist_image_url);
    assert(out@ =~= artist_attr_text(*artist));
    chars_to_string(&out)
}

/// The attributes of an album element.
pub fn album_attrs(album: &SubsonicAlbum) -> (s: String)
    ensures
        s@ == album_attr_text(*album),
{
    let mut out: Vec<char> = Vec::new();
    push_attr_escaped(&mut out, "id", album.id.as_str());
    push_attr_escaped(&mut out, "name", album.name.as_str());
    push_attr_escaped(&mut out, "artist", album.artist.as_str());
    push_folder_attr(&mut out);
    push_opt_text_attr(&mut out, "artistId", &album.artist_id);
    push_opt_text_attr(&mut out, "coverArt", &album.cover_art);
    push_opt_num_attr(&mut out, "songCount", widen_usize(album.song_count));
    push_opt_num_attr(&mut out, "duration", album.duration);
    push_opt_signed_attr(&mut out, "year", album.year);
    push_opt_text_attr(&mut out, "created", &album.created);
    push_opt_text_attr(&mut out, "genre", &album.genre);
    assert(out@ =~= album_attr_text(*album));
    chars_to_string(&out)
}

/// The attributes of a song element.
pub fn song_attrs(song: &SubsonicSong) -> (s: String)
    ensures
        s@ == song_attr_text(*song),
{
    let mut out: Vec<char> = Vec::new();
    push_attr_escaped(&mut out, "id", song.id.as_str());
    push_attr_raw(&mut out, "isDir", "false");
    push_attr_escaped(&mut out, "title", song.title.as_str());
    push_attr_escaped(&mut out, "artist", song.artist.as_str());
    push_attr_raw(&mut out, "suffix", song.suffix);
    push_attr_raw(&mut out, "contentType", song.content_type);
    push_folder_attr(&mut out);
    push_opt_text_attr(&mut out, "parent", &song.parent);
    push_opt_text_attr(&mut out, "album", &song.album);
    push_opt_text_attr(&mut out, "artistId", &song.artist_id);
    push_opt_text_attr(&mut out, "coverArt", &song.cover_art);
    push_opt_num_attr(&mut out, "duration", song.duration);
    push_opt_num_attr(&mut out, "track", widen_u32(song.track));
    push_opt_num_attr(&mut out, "discNumber", widen_u32(song.disc_number));
    push_opt_signed_attr(&mut out, "year", song.year);
    push_opt_text_attr(&mut out, "created", &song.created);
    push_opt_text_attr(&mut out, "genre", &song.genre);
    push_opt_text_attr(&mut out, "albumId", &song.album_id);
    assert(out@ =~= song_attr_text(*song));
    chars_to_string(&out)
}

/// `<tag` + `attrs` + `/>`.
pub open spec fn empty_element(tag: Seq<char>, attrs: Seq<char>) -> Seq<char> {
    "<"@ + tag + attrs + "/>"@
}

fn wrap_empty_element(tag: &str, attrs: &str) -> (s: String)
    ensures
        s@ == empty_element(tag@, attrs@),
{
    let mut out: Vec<char> = Vec::new();
    push_str(&mut out, "<");
    push_str(&mut out, tag);
    push_str(&mut out, attrs);
    push_str(&mut out, "/>");
    assert(out@ =~= empty_element(tag@, attrs@));
    chars_to_string(&out)
}

/// An artist as an empty `artist` element.
pub fn artist_xml(artist: &SubsonicArtist) -> (s: String)
    ensures
        s@ == empty_element("artist"@, artist_attr_text(*artist)),
{
    let attrs = artist_attrs(artist);
    wrap_empty_element("artist", attrs.as_str())
}

/// An album as an empty `album` element.
pub fn album_xml(album: &SubsonicAlbum) -> (s: String)
    ensures
        s@ == empty_element("album"@, album_attr_text(*album)),
{
    let attrs = album_attrs(album);
    wrap_empty_element("album", attrs.as_str())
}

/// A song as an empty `song` element.
pub fn song_xml(song: &SubsonicSong) -> (s: String)
    ensures
        s@ == empty_element("song"@, song_attr_text(*song)),
{
    let attrs = song_attrs(song);
    wrap_empty_element("song", attrs.as_str())
}

/// The authentication parameters of a Subsonic request.
#[derive(Debug, Clone)]
pub struct AuthQuery {
    pub u: Option<String>,
    pub p: Option<String>,
    pub t: Option<String>,
    pub s: Option<String>,
    pub v: Option<String>,
    pub c: Option<String>,
    pub f: Option<String>,
}

/// The view of an optional string parameter.
pub open spec fn param(o: Option<String>) -> Option<Seq<char>> {
    match o {
        Some(v) => Some(v@),
        None => None,
    }
}

/// Whether a parameter is present and not empty.
pub open spec fn present(o: Option<String>) -> bool {
    o matches Some(v) && v@.len() > 0
}

/// The format that the query asks for.
pub open spec fn query_format(q: AuthQuery) -> Option<ResponseFormat> {
    format_named(param(q.f))
}

/// The format of a Subsonic request; an unknown one is a parameter error
/// answered in XML.
pub fn response_format(query: &AuthQuery) -> (r: Result<ResponseFormat, SubsonicError>)
    ensures
        match query_format(*query) {
            Some(f) => r == Ok::<ResponseFormat, SubsonicError>(f),
            None => r matches Err(e) && e.format == ResponseFormat::Xml && e.code == 10
                && e.message@ == "unsupported response format"@,
        },
{
    let raw: Option<&str> = match &query.f {
        Some(f) => Some(f.as_str()),
        None => None,
    };
    match ResponseFormat::from_query(raw) {
        Ok(f) => Ok(f),
        Err(message) => Err(SubsonicError::required_parameter(ResponseFormat::Xml, message)),
    }
}

/// The value of a hexadecimal digit, either case.
pub open spec fn hex_value(c: char) -> Option<nat> {
    if '0' <= c && c <= '9' {
        Some(((c as u32) - ('0' as u32)) as nat)
    } else if 'a' <= c && c <= 'f' {
        Some(((c as u32) - ('a' as u32) + 10) as nat)
    } else if 'A' <= c && c <= 'F' {
        Some(((c as u32) - ('A' as u32) + 10) as nat)
    } else {
        None
    }
}

/// The bytes that a hexadecimal text stands for: two digits per byte, high
/// digit first; `None` for an odd length or a character that is not a digit.
pub open spec fn hex_bytes(s: Seq<char>) -> Option<Seq<u8>> {
    if s.len() % 2 != 0 {
        None
    } else if exists|i: int| 0 <= i < s.len() && #[trigger] hex_value(s[i]) is None {
        None
    } else {
        Some(
            Seq::new(
                s.len() / 2,
                |i: int| (hex_value(s[2 * i]).unwrap() * 16 + hex_value(s[2 * i + 1]).unwrap()) as u8,
            ),
        )
    }
}

/// The view of optional bytes.
pub open spec fn opt_bytes(o: Option<Vec<u8>>) -> Option<Seq<u8>> {
    match o {
        Some(v) => Some(v@),
        None => None,
    }
}

/// Decodes hexadecimal text with `hex::decode`, which accepts an even number
/// of digits of either case and nothing else.
#[verifier::external_body]
fn hex_decode(text: &str) -> (r: Option<Vec<u8>>)
    ensures
        opt_bytes(r) == hex_bytes(text@),
{
    hex::decode(text).ok()
}

/// The text that UTF-8 bytes encode, or `None` when they are not UTF-8
/// (what `String::from_utf8` accepts).
pub uninterp spec fn utf8_text(bytes: Seq<u8>) -> Option<Seq<char>>;

/// Decodes UTF-8 bytes with `String::from_utf8`.
#[verifier::external_body]
fn utf8_decode(bytes: Vec<u8>) -> (r: Option<String>)
    ensures
        param(r) == utf8_text(bytes@),
{
    String::from_utf8(bytes).ok()
}

/// The MD5 digest of the UTF-8 bytes of `text`, as 32 lowercase hex digits.
pub uninterp spec fn md5_lower_hex(text: Seq<char>) -> Seq<char>;

/// Whether `c` is a lowercase hexadecimal digit.
pub open spec fn is_lower_hex_digit(c: char) -> bool {
    ('0' <= c && c <= '9') || ('a' <= c && c <= 'f')
}

/// Computes `md5::compute(text)` and formats it in lowercase hexadecimal:
/// the `LowerHex` form of the digest writes each of its 16 bytes as two
/// lowercase hexadecimal digits.
#[verifier::external_body]
fn md5_hex(text: &str) -> (r: String)
    ensures
        r@ == md5_lower_hex(text@),
        r@.len() == 32,
        forall|i: int| 0 <= i < r@.len() ==> is_lower_hex_digit(#[trigger] r@[i]),
{
    format!("{:x}", md5::compute(text))
}

/// The password that a `p` parameter carries: after `enc:`, hexadecimal
/// UTF-8; otherwise as written.
pub open spec fn decoded_password(p: Seq<char>) -> Option<Seq<char>> {
    if starts_with(p, "enc:"@) {
        match hex_bytes(p.subrange(4, p.len() as int)) {
            Some(b) => utf8_text(b),
            None => None,
        }
    } else {
        Some(p)
    }
}

/// Decodes a `p` parameter.
pub fn decode_password(password: &str) -> (r: Result<String, SubsonicError>)
    ensures
        match decoded_password(password@) {
            Some(d) => r matches Ok(s) && s@ == d,
            None => r matches Err(e) && e.format == ResponseFormat::Xml && e.code == 40
                && e.message@ == "invalid encoded password"@,
        },
{
    let v = str_chars(password);
    let prefix = str_chars("enc:");
    proof {
        reveal_strlit("enc:");
    }
    if crate::text::starts_with_chars(&v, &prefix) {
        let rest = crate::text::chars_range(&v, 4, v.len());
        let encoded = chars_to_string(&rest);
        match hex_decode(encoded.as_str()) {
            Some(bytes) => match utf8_decode(bytes) {
                Some(text) => Ok(text),
                None => Err(
                    SubsonicError::authentication(ResponseFormat::Xml, "invalid encoded password"),
                ),
            },
            None => Err(
                SubsonicError::authentication(ResponseFormat::Xml, "invalid encoded password"),
            ),
        }
    } else {
        Ok(password.to_string())
    }
}

/// How a credential check fails: the answer's format, code and message; or
/// `None` when the credentials are accepted.
pub open spec fn auth_failure(user: Seq<char>, pass: Seq<char>, q: AuthQuery) -> Option<
    (ResponseFormat, i32, Seq<char>),
> {
    match query_format(q) {
        None => Some((ResponseFormat::Xml, 10, "unsupported response format"@)),
        Some(fmt) => if !present(q.u) {
            Some((fmt, 10, "u is required"@))
        } else if !present(q.v) {
            Some((fmt, 10, "v is required"@))
        } else if !present(q.c) {
            Some((fmt, 10, "c is required"@))
        } else if q.u.unwrap()@ != user {
            Some((fmt, 40, "wrong username or password"@))
        } else {
            match q.p {
                Some(p) => match decoded_password(p@) {
                    None => Some((ResponseFormat::Xml, 40, "invalid encoded password"@)),
                    Some(d) => if d == pass {
                        None
                    } else {
                        Some((fmt, 40, "wrong username or password"@))
                    },
                },
                None => match (q.t, q.s) {
                    (Some(t), Some(salt)) => if md5_lower_hex(pass + salt@) == ascii_lower(t@) {
                        None
                    } else {
                        Some((fmt, 40, "wrong username or password"@))
                    },
                    _ => Some((fmt, 10, "either p or t+s is required"@)),
                },
            }
        },
    }
}

fn is_present(o: &Option<String>) -> (b: bool)
    ensures
        b == present(*o),
{
    match o {
        Some(v) => str_chars(v.as_str()).len() > 0,
        None => false,
    }
}

/// Checks the credentials of a Subsonic request against the configured user:
/// the required parameters, then the user name, then the password, plain or
/// `enc:`-encoded, or the salted MD5 token.
pub fn validate_auth_credentials(
    expected_username: &str,
    expected_password: &str,
    query: &AuthQuery,
) -> (r: Result<(), SubsonicError>)
    ensures
        match auth_failure(expected_username@, expected_password@, *query) {
            None => r is Ok,
            Some((f, code, message)) => r matches Err(e) && e.format == f && e.code == code
                && e.message@ == message,
        },
{
    let format = match response_format(query) {
        Ok(f) => f,
        Err(e) => return Err(e),
    };
    if !is_present(&query.u) {
        return Err(SubsonicError::required_parameter(format, "u is required"));
    }
    if !is_present(&query.v) {
        return Err(SubsonicError::required_parameter(format, "v is required"));
    }
    if !is_present(&query.c) {
        return Err(SubsonicError::required_parameter(format, "c is required"));
    }
    let username = match &query.u {
        Some(u) => u,
        None => return Err(SubsonicError::required_parameter(format, "u is required")),
    };
    let uv = str_chars(username.as_str());
    if !chars_eq_str(&uv, expected_username) {
        return Err(SubsonicError::authentication(format, "wrong username or password"));
    }
    let authenticated = match &query.p {
        Some(password) => match decode_password(password.as_str()) {
            Ok(decoded) => {
                let dv = str_chars(decoded.as_str());
                chars_eq_str(&dv, expected_password)
            },
            Err(e) => return Err(e),
        },
        None => match (&query.t, &query.s) {
            (Some(token), Some(salt)) => {
                let material = crate::text::concat2(expected_password, salt.as_str());
                let digest = md5_hex(material.as_str());
                let dv = str_chars(digest.as_str());
                let tv = str_chars(token.as_str());
                let tl = lower_chars(&tv);
                chars_eq(&dv, &tl)
            },
            _ => return Err(SubsonicError::required_parameter(format, "either p or t+s is required")),
        },
    };
    if authenticated {
        Ok(())
    } else {
        Err(SubsonicError::authentication(format, "wrong username or password"))
    }
}

/// The message a daemon error is answered with on the Subsonic API: its
/// own message, or its display text for the kinds that wrap another error.
pub open spec fn subsonic_message(error: crate::http::AppError) -> Seq<char> {
    match error {
        crate::http::AppError::NoActiveSession => "no active session"@,
        crate::http::AppError::UpstreamHttp { message, .. } => message@,
        crate::http::AppError::Command(m) => m@,
        crate::http::AppError::Message(m) => m@,
        crate::http::AppError::Protocol(m) => m@,
        crate::http::AppError::Native(m) => m@,
        crate::http::AppError::InvalidDeviceInfo(m) => m@,
        other => crate::http::error_text(other),
    }
}

/// How a daemon error is answered on the Subsonic API: a generic error
/// with the error's message (its display text for the other kinds).
pub fn map_app_error(format: ResponseFormat, error: crate::http::AppError) -> (e: SubsonicError)
    ensures
        e.format == format,
        e.code == 0,
        e.message@ == subsonic_message(error),
{
    match error {
        crate::http::AppError::NoActiveSession => SubsonicError::generic(format, "no active session"),
        crate::http::AppError::UpstreamHttp { message, .. } | crate::http::AppError::Command(message)
        | crate::http::AppError::Message(message) | crate::http::AppError::Protocol(message)
        | crate::http::AppError::Native(message) | crate::http::AppError::InvalidDeviceInfo(message) => {
            SubsonicError::generic(format, message.as_str())
        },
        other => {
            let text = other.describe();
            SubsonicError::generic(format, text.as_str())
        },
    }
}

/// Lyrics that the catalog does not have (an upstream 404) are answered as
/// empty; any other error as `map_app_error` answers it.
pub fn lyrics_not_found_as_empty(error: crate::http::AppError, format: ResponseFormat) -> (r: Result<String, SubsonicError>)
    ensures
        match error {
            crate::http::AppError::UpstreamHttp { status, .. } => if status == 404 {
                r matches Ok(s) && s@.len() == 0
            } else {
                r is Err
            },
            _ => r is Err,
        },
        r matches Err(e) ==> e.format == format && e.code == 0 && e.message@ == subsonic_message(error),
{
    match error {
        crate::http::AppError::UpstreamHttp { status, message, retry_after } => {
            if status == 404 {
                Ok(String::new())
            } else {
                Err(map_app_error(format, crate::http::AppError::UpstreamHttp { status, message, retry_after }))
            }
        },
        other => Err(map_app_error(format, other)),
    }
}

/// The title of a lyrics request: present and not blank, trimmed.
pub fn lyrics_title(title: Option<&str>, format: ResponseFormat) -> (r: Result<String, SubsonicError>)
    ensures
        match title {
            Some(t) => if trim(t@).len() > 0 {
                r matches Ok(s) && s@ == trim(t@)
            } else {
                r matches Err(e) && e.format == format && e.code == 10 && e.message@ == "title is required"@
            },
            None => r matches Err(e) && e.format == format && e.code == 10 && e.message@ == "title is required"@,
        },
{
    match title {
        Some(t) => {
            let v = str_chars(t);
            let tt = trim_chars(&v);
            if tt.len() > 0 {
                Ok(chars_to_string(&tt))
            } else {
                Err(SubsonicError::required_parameter(format, "title is required"))
            }
        },
        None => Err(SubsonicError::required_parameter(format, "title is required")),
    }
}

/// Whether `c` would break out of an XML attribute value.
pub open spec fn is_markup_char(c: char) -> bool {
    c == '<' || c == '>' || c == '"' || c == '\''
}

/// Law: an escaped attribute value holds no `<`, `>`, `"` or `'`.
pub proof fn law_escaped_attr_has_no_markup(s: Seq<char>)
    ensures
        forall|i: int| 0 <= i < escape_attr(s).len() ==> !is_markup_char(#[trigger] escape_attr(s)[i]),
    decreases s.len(),
{
    reveal_strlit("&amp;");
    reveal_strlit("&quot;");
    reveal_strlit("&apos;");
    reveal_strlit("&lt;");
    reveal_strlit("&gt;");
    if s.len() > 0 {
        law_escaped_attr_has_no_markup(s.drop_last());
        let a = escape_attr(s.drop_last());
        let b = escape_attr_char(s.last());
        assert forall|i: int| 0 <= i < (a + b).len() implies !is_markup_char(#[trigger] (a + b)[i]) by {
            if i < a.len() {
                assert((a + b)[i] == a[i]);
            } else {
                assert((a + b)[i] == b[i - a.len()]);
            }
        }
    }
}

/// Law: a request that names the user and carries a plain password is
/// accepted exactly when the password is the configured one.
pub proof fn law_plain_password_check(user: Seq<char>, pass: Seq<char>, q: AuthQuery)
    requires
        query_format(q) is Some,
        present(q.u),
        present(q.v),
        present(q.c),
        q.u.unwrap()@ == user,
        q.p matches Some(p) && !starts_with(p@, "enc:"@),
    ensures
        (auth_failure(user, pass, q) is None) <==> q.p.unwrap()@ == pass,
{
}

/// Law: a request that names the user and carries a token and salt, but no
/// password, is accepted exactly when the token is the MD5 of the configured
/// password followed by the salt, in either case.
pub proof fn law_token_check(user: Seq<char>, pass: Seq<char>, q: AuthQuery)
    requires
        query_format(q) is Some,
        present(q.u),
        present(q.v),
        present(q.c),
        q.u.unwrap()@ == user,
        q.p is None,
        q.t is Some,
        q.s is Some,
    ensures
        (auth_failure(user, pass, q) is None) <==> md5_lower_hex(pass + q.s.unwrap()@) == ascii_lower(
            q.t.unwrap()@,
        ),
{
}

/// Law: a request that names the user and carries, with its salt, a token
/// written as the MD5 digest of the configured password followed by that
/// salt, in the lowercase hexadecimal form that the digest is computed in,
/// is accepted.
pub proof fn law_lowercase_token_accepted(user: Seq<char>, pass: Seq<char>, q: AuthQuery)
    requires
        query_format(q) is Some,
        present(q.u),
        present(q.v),
        present(q.c),
        q.u.unwrap()@ == user,
        q.p is None,
        q.t is Some,
        q.s is Some,
        q.t.unwrap()@ == md5_lower_hex(pass + q.s.unwrap()@),
        forall|i: int|
            0 <= i < q.t.unwrap()@.len() ==> is_lower_hex_digit(#[trigger] q.t.unwrap()@[i]),
    ensures
        auth_failure(user, pass, q) is None,
{
    let t = q.t.unwrap()@;
    assert(ascii_lower(t) =~= t);
    law_token_check(user, pass, q);
}

/// Law: the `f` parameter selects the response format by its trimmed,
/// lowercased text: absent, empty or `xml` (in any case, with any
/// surrounding whitespace) gives XML, `json` gives JSON, and nothing else
/// is accepted.
pub proof fn law_response_format_names(raw: Option<Seq<char>>)
    ensures
        raw is None ==> format_named(raw) == Some(ResponseFormat::Xml),
        raw matches Some(s) && ascii_lower(trim(s)) == "xml"@ ==> format_named(raw) == Some(ResponseFormat::Xml),
        raw matches Some(s) && trim(s).len() == 0 ==> format_named(raw) == Some(ResponseFormat::Xml),
        raw matches Some(s) && ascii_lower(trim(s)) == "json"@ ==> format_named(raw) == Some(ResponseFormat::Json),
        raw matches Some(s) && trim(s).len() > 0 && ascii_lower(trim(s)) != "xml"@ && ascii_lower(trim(s)) != "json"@
            ==> format_named(raw) is None,
{
    reveal_strlit("");
    reveal_strlit("xml");
    reveal_strlit("json");
    assert("json"@.len() == 4 && "xml"@.len() == 3 && ""@.len() == 0);
    if let Some(s) = raw {
        if ascii_lower(trim(s)) == "json"@ {
            assert(ascii_lower(trim(s)) != "xml"@);
            assert(ascii_lower(trim(s)) != ""@);
        }
        if trim(s).len() == 0 {
            assert(ascii_lower(trim(s)) =~= ""@);
        }
    }
}

} // verus!
