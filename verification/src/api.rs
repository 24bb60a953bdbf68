//! Request shaping for the Apple Music catalog: search cache keys, the wait
//! after a rate-limited search, lyrics URLs and endpoint order, and the
//! public records that the catalog client hands out.
use vstd::prelude::*;

use crate::text::{
    ascii_lower, chars_to_string, contains, contains_chars, lower_chars, parse_unsigned,
    parse_unsigned_chars, push_all, push_str, str_chars, trim, trim_chars, trim_start_char,
    trim_start_char_chars,
};

verus! {

/// An artwork template and its size.
#[derive(Clone, Debug)]
pub struct Artwork {
    pub url: String,
    pub width: Option<u32>,
    pub height: Option<u32>,
}

/// What playback needs to know of a song.
#[derive(Clone, Debug)]
pub struct SongPlaybackMetadata {
    pub song_id: String,
    pub artist: String,
    pub artist_id: String,
    pub album_id: String,
    pub album: String,
    pub title: String,
    pub track_number: u32,
    pub disc_number: u32,
    pub artwork: Option<Artwork>,
    pub album_artwork: Option<Artwork>,
}

/// A catalog search.
pub struct SearchRequest<'a> {
    pub storefront: &'a str,
    pub language: Option<&'a str>,
    pub query: &'a str,
    pub search_type: &'a str,
    pub limit: usize,
    pub offset: usize,
}

/// A request for one view of an artist page.
pub struct ArtistViewRequest<'a> {
    pub storefront: &'a str,
    pub language: Option<&'a str>,
    pub dev_token: &'a str,
    pub artist_id: &'a str,
    pub view_name: &'a str,
    pub limit: Option<usize>,
    pub offset: Option<usize>,
}

/// What identifies a search in the search cache.
#[derive(Clone, Debug, Eq, Hash, PartialEq)]
pub struct SearchCacheKey {
    pub storefront: String,
    pub language: Option<String>,
    pub query: String,
    pub search_type: String,
    pub limit: usize,
    pub offset: usize,
}

/// The view of an optional borrowed string.
pub open spec fn opt_str_view(o: Option<&str>) -> Option<Seq<char>> {
    match o {
        Some(s) => Some(s@),
        None => None,
    }
}

/// The view of an optional owned string.
pub open spec fn opt_string_view(o: Option<String>) -> Option<Seq<char>> {
    match o {
        Some(s) => Some(s@),
        None => None,
    }
}

/// A language that is present and not empty.
pub open spec fn nonempty_language(o: Option<&str>) -> Option<Seq<char>> {
    match o {
        Some(s) => if s@.len() == 0 {
            None
        } else {
            Some(s@)
        },
        None => None,
    }
}

impl<'a> SearchRequest<'a> {
    /// The cache key of this search: the language only when it is not empty,
    /// the query without surrounding whitespace.
    pub fn cache_key(&self) -> (k: SearchCacheKey)
        ensures
            k.storefront@ == self.storefront@,
            opt_string_view(k.language) == nonempty_language(self.language),
            k.query@ == trim(self.query@),
            k.search_type@ == self.search_type@,
            k.limit == self.limit,
            k.offset == self.offset,
    {
        let language = match self.language {
            Some(value) => if str_chars(value).len() == 0 {
                None
            } else {
                Some(value.to_string())
            },
            None => None,
        };
        let q = str_chars(self.query);
        let trimmed = trim_chars(&q);
        SearchCacheKey {
            storefront: self.storefront.to_string(),
            language,
            query: chars_to_string(&trimmed),
            search_type: self.search_type.to_string(),
            limit: self.limit,
            offset: self.offset,
        }
    }
}

/// How many seconds a rate-limited search stays cached: the `Retry-After`
/// header when it is a whole positive number of seconds, else two.
pub open spec fn retry_after_secs(retry_after: Option<&str>) -> u64 {
    retry_after_text_secs(
        match retry_after {
            Some(v) => Some(v@),
            None => None,
        },
    )
}

/// The number of seconds a `Retry-After` text asks for: its whole number of
/// seconds when positive, else 2.
pub open spec fn retry_after_text_secs(retry_after: Option<Seq<char>>) -> u64 {
    match retry_after {
        Some(v) => match parse_unsigned(trim(v), u64::MAX as nat) {
            Ok(n) => if n == 0 {
                2
            } else {
                n as u64
            },
            Err(_) => 2,
        },
        None => 2,
    }
}

/// The number of seconds to keep a rate-limited search answer, from the
/// `Retry-After` header.
pub fn retry_after_ttl(retry_after: Option<&str>) -> (secs: u64)
    ensures
        secs == retry_after_secs(retry_after),
{
    match retry_after {
        Some(value) => {
            let v = str_chars(value);
            let t = trim_chars(&v);
            match parse_unsigned_chars(&t, u64::MAX) {
                Ok(n) => if n == 0 {
                    2
                } else {
                    n
                },
                Err(_) => 2,
            }
        },
        None => 2,
    }
}

/// The language text that lyrics requests use: present, trimmed and not
/// empty, then without leading `?`.
pub open spec fn lyrics_language(language: Option<&str>) -> Option<Seq<char>> {
    match language {
        Some(l) => if trim(l@).len() == 0 {
            None
        } else {
            Some(trim_start_char(trim(l@), '?'))
        },
        None => None,
    }
}

/// Whether the language asks for syllable lyrics by naming the lyrics
/// locale, literally or percent-encoded.
pub open spec fn prefers_syllable(language: Option<&str>) -> bool {
    match lyrics_language(language) {
        Some(l) => contains(ascii_lower(l), "l[lyrics]"@) || contains(ascii_lower(l), "l%5blyrics%5d"@),
        None => false,
    }
}

/// The parameter that carries the language of a lyrics request, if any.
pub open spec fn lyrics_language_params(language: Option<&str>) -> Seq<Seq<char>> {
    match lyrics_language(language) {
        Some(l) => if contains(l, "="@) || contains(l, "&"@) {
            seq![l]
        } else {
            seq!["l="@ + l]
        },
        None => Seq::empty(),
    }
}

/// Whether one of `ps` already extends the response.
pub open spec fn has_extend_param(ps: Seq<Seq<char>>) -> bool {
    exists|i: int| 0 <= i < ps.len() && contains(#[trigger] ps[i], "extend="@)
}

/// The query parameters of a lyrics request.
pub open spec fn lyrics_params(language: Option<&str>) -> Seq<Seq<char>> {
    let lang = lyrics_language_params(language);
    if has_extend_param(lang) {
        lang
    } else {
        lang.push("extend=ttmlLocalizations"@)
    }
}

/// The parts of `ps` joined by `sep`.
pub open spec fn join(ps: Seq<Seq<char>>, sep: Seq<char>) -> Seq<char>
    decreases ps.len(),
{
    if ps.len() == 0 {
        Seq::empty()
    } else if ps.len() == 1 {
        ps[0]
    } else {
        join(ps.drop_last(), sep) + sep + ps.last()
    }
}

/// The lyrics URL for a catalog `path`.
pub open spec fn lyrics_url(path: Seq<char>, language: Option<&str>) -> Seq<char> {
    "https://amp-api.music.apple.com"@ + path + "?"@ + join(lyrics_params(language), "&"@)
}

/// The trimmed language without leading `?`, when one is given.
fn lyrics_language_chars(language: Option<&str>) -> (r: Option<Vec<char>>)
    ensures
        match r {
            Some(v) => lyrics_language(language) == Some(v@),
            None => lyrics_language(language) is None,
        },
{
    match language {
        Some(l) => {
            let v = str_chars(l);
            let t = trim_chars(&v);
            if t.len() == 0 {
                None
            } else {
                Some(trim_start_char_chars(&t, '?'))
            }
        },
        None => None,
    }
}

/// Whether the language asks for syllable lyrics.
pub fn prefers_syllable_lyrics(language: Option<&str>) -> (b: bool)
    ensures
        b == prefers_syllable(language),
{
    match lyrics_language_chars(language) {
        Some(l) => {
            let lower = lower_chars(&l);
            let p1 = str_chars("l[lyrics]");
            let p2 = str_chars("l%5blyrics%5d");
            contains_chars(&lower, &p1) || contains_chars(&lower, &p2)
        },
        None => false,
    }
}

/// The two lyrics endpoints, in the order to try them.
pub fn lyrics_endpoints(language: Option<&str>) -> (r: [&'static str; 2])
    ensures
        prefers_syllable(language) ==> r[0]@ == "syllable-lyrics"@ && r[1]@ == "lyrics"@,
        !prefers_syllable(language) ==> r[0]@ == "lyrics"@ && r[1]@ == "syllable-lyrics"@,
{
    if prefers_syllable_lyrics(language) {
        ["syllable-lyrics", "lyrics"]
    } else {
        ["lyrics", "syllable-lyrics"]
    }
}

/// The URL of a lyrics request: the language as given when it is already a
/// query (it holds `=` or `&`), else as `l=`; `extend=ttmlLocalizations`
/// unless a parameter already extends.
pub fn lyrics_request_url(path: &str, language: Option<&str>) -> (url: String)
    ensures
        url@ == lyrics_url(path@, language),
{
    let mut params: Vec<Vec<char>> = Vec::new();
    match lyrics_language_chars(language) {
        Some(l) => {
            let eq = str_chars("=");
            let amp = str_chars("&");
            if contains_chars(&l, &eq) || contains_chars(&l, &amp) {
                params.push(l);
            } else {
                let mut p: Vec<char> = Vec::new();
                push_str(&mut p, "l=");
                push_all(&mut p, &l);
                params.push(p);
            }
        },
        None => {},
    }
    let ghost lang: Seq<Seq<char>> = params@.map_values(|p: Vec<char>| p@);
    assert(lang == lyrics_language_params(language));
    let ext = str_chars("extend=");
    let mut has_extend = false;
    let mut i: usize = 0;
    while i < params.len()
        invariant
            i <= params@.len(),
            lang == params@.map_values(|p: Vec<char>| p@),
            has_extend <==> exists|k: int| 0 <= k < i && contains(#[trigger] lang[k], "extend="@),
            ext@ == "extend="@,
        decreases params.len() - i,
    {
        assert(lang[i as int] == params@[i as int]@);
        if contains_chars(&params[i], &ext) {
            has_extend = true;
        }
        i += 1;
    }
    assert(lang.len() == params@.len());
    assert(has_extend == has_extend_param(lang));
    if !has_extend {
        let tail = str_chars("extend=ttmlLocalizations");
        params.push(tail);
        assert(params@.map_values(|p: Vec<char>| p@) =~= lang.push("extend=ttmlLocalizations"@));
    } else {
        assert(params@.map_values(|p: Vec<char>| p@) =~= lang);
    }
    let ghost ps: Seq<Seq<char>> = params@.map_values(|p: Vec<char>| p@);
    assert(ps == lyrics_params(language));
    let mut out: Vec<char> = Vec::new();
    push_str(&mut out, "https://amp-api.music.apple.com");
    push_str(&mut out, path);
    out.push('?');
    let ghost head = out@;
    assert(head =~= Seq::<char>::empty() + "https://amp-api.music.apple.com"@ + path@ + seq!['?']);
    let mut j: usize = 0;
    while j < params.len()
        invariant
            j <= params@.len(),
            ps == params@.map_values(|p: Vec<char>| p@),
            out@ == head + join(ps.subrange(0, j as int), "&"@),
        decreases params.len() - j,
    {
        if j > 0 {
            out.push('&');
        }
        push_all(&mut out, &params[j]);
        proof {
            reveal_strlit("&");
            let pre = ps.subrange(0, j as int);
            let next = ps.subrange(0, j + 1);
            assert(next.drop_last() =~= pre);
            assert(next.last() == params@[j as int]@);
            if j == 0 {
                assert(join(next, "&"@) == next[0]);
                assert(pre.len() == 0);
                assert(join(pre, "&"@) =~= Seq::<char>::empty());
                assert(out@ =~= head + join(next, "&"@));
            } else {
                assert(join(next, "&"@) == join(pre, "&"@) + "&"@ + next.last());
                assert(out@ =~= head + join(next, "&"@));
            }
        }
        j += 1;
    }
    assert(ps.subrange(0, ps.len() as int) =~= ps);
    proof {
        reveal_strlit("?");
        assert(head =~= "https://amp-api.music.apple.com"@ + path@ + "?"@);
        assert(out@ =~= lyrics_url(path@, language));
    }
    chars_to_string(&out)
}

/// What can go wrong in the catalog client. Outside errors are kept as
/// their messages.
#[derive(Clone, Debug)]
pub enum AppleMusicApiError {
    Message(String),
    Http(String),
    Json(String),
    Xml(String),
    Protocol(String),
    UpstreamHttp { status: u16, message: String, retry_after: Option<String> },
}

/// The text of a catalog client error, as its display form writes it.
pub open spec fn api_error_text(e: AppleMusicApiError) -> Seq<char> {
    match e {
        AppleMusicApiError::Message(m) => m@,
        AppleMusicApiError::Http(m) => "http client error: "@ + m@,
        AppleMusicApiError::Json(m) => "json error: "@ + m@,
        AppleMusicApiError::Xml(m) => "xml error: "@ + m@,
        AppleMusicApiError::Protocol(m) => "protocol error: "@ + m@,
        AppleMusicApiError::UpstreamHttp { message, .. } => message@,
    }
}

impl AppleMusicApiError {
    /// The text of this error.
    pub fn describe(&self) -> (s: String)
        ensures
            s@ == api_error_text(*self),
    {
        let mut out: Vec<char> = Vec::new();
        match self {
            AppleMusicApiError::Message(m) => push_str(&mut out, m.as_str()),
            AppleMusicApiError::Http(m) => {
                push_str(&mut out, "http client error: ");
                push_str(&mut out, m.as_str());
            },
            AppleMusicApiError::Json(m) => {
                push_str(&mut out, "json error: ");
                push_str(&mut out, m.as_str());
            },
            AppleMusicApiError::Xml(m) => {
                push_str(&mut out, "xml error: ");
                push_str(&mut out, m.as_str());
            },
            AppleMusicApiError::Protocol(m) => {
                push_str(&mut out, "protocol error: ");
                push_str(&mut out, m.as_str());
            },
            AppleMusicApiError::UpstreamHttp { message, .. } => push_str(&mut out, message.as_str()),
        }
        assert(out@ =~= api_error_text(*self));
        chars_to_string(&out)
    }
}

/// A search request of `search3`: the requested count (20 by default) kept
/// within the catalog's bounds, and the offset (0 by default).
pub fn search3_request<'a>(
    storefront: &'a str,
    language: Option<&'a str>,
    query: &'a str,
    search_type: &'a str,
    count: Option<usize>,
    offset: Option<usize>,
) -> (r: SearchRequest<'a>)
    ensures
        r.storefront == storefront,
        r.language == language,
        r.query == query,
        r.search_type == search_type,
        r.limit == crate::subsonic::clamped_limit(
            match count {
                Some(c) => c,
                None => 20,
            },
        ),
        r.offset == match offset {
            Some(o) => o,
            None => 0,
        },
{
    let requested = match count {
        Some(c) => c,
        None => 20,
    };
    SearchRequest {
        storefront,
        language,
        query,
        search_type,
        limit: crate::subsonic::clamp_search_limit(requested),
        offset: match offset {
            Some(o) => o,
            None => 0,
        },
    }
}

/// Whether a cached search answer of age `age_millis` is still served, when
/// it was kept for `ttl_secs` seconds.
pub fn search_entry_fresh(age_millis: u64, ttl_secs: u64) -> (b: bool)
    ensures
        b == (age_millis < ttl_secs * 1000),
{
    if ttl_secs > u64::MAX / 1000 {
        true
    } else {
        age_millis < ttl_secs * 1000
    }
}

/// How long a search answer is kept, in seconds.
pub const SEARCH_CACHE_TTL_SECS: u64 = 15;

/// How long the outcome of a catalog search is kept for the same request: an
/// answer for `SEARCH_CACHE_TTL_SECS`, a refusal for too many requests (429)
/// for as long as its `Retry-After` asks, and nothing else at all.
pub fn search_cache_ttl(outcome: &Result<(), AppleMusicApiError>) -> (secs: Option<u64>)
    ensures
        secs == match outcome {
            Ok(()) => Some(SEARCH_CACHE_TTL_SECS),
            Err(AppleMusicApiError::UpstreamHttp { status, retry_after, .. }) => if *status == 429 {
                Some(
                    retry_after_text_secs(
                        match retry_after {
                            Some(r) => Some(r@),
                            None => None,
                        },
                    ),
                )
            } else {
                None
            },
            Err(_) => None,
        },
{
    match outcome {
        Ok(()) => Some(SEARCH_CACHE_TTL_SECS),
        Err(AppleMusicApiError::UpstreamHttp { status, retry_after, .. }) => if *status == 429 {
            match retry_after {
                Some(r) => Some(retry_after_ttl(Some(r.as_str()))),
                None => Some(retry_after_ttl(None)),
            }
        } else {
            None
        },
        Err(_) => None,
    }
}

/// The text of the leftmost match of `pattern` in `text`, as
/// `regex::Regex::find` reports it; `None` when nothing matches or the
/// pattern is invalid.
pub uninterp spec fn regex_first_match(pattern: Seq<char>, text: Seq<char>) -> Option<Seq<char>>;

/// Runs `regex::Regex::find` and keeps the matched text.
#[verifier::external_body]
fn regex_find(pattern: &str, text: &str) -> (r: Option<String>)
    ensures
        opt_string_view(r) == regex_first_match(pattern@, text@),
{
    match regex::Regex::new(pattern) {
        Ok(re) => re.find(text).map(|m| m.as_str().to_owned()),
        Err(_) => None,
    }
}

/// The path of the web bundle script on the music homepage.
pub const INDEX_JS_PATTERN: &'static str = "/assets/index~[^/\"']+\\.js";

/// A web token in that script.
pub const WEB_TOKEN_PATTERN: &'static str = "eyJh[^\"']*";

/// The web bundle path that the homepage references.
pub fn extract_index_js_path(homepage: &str) -> (r: Result<String, AppleMusicApiError>)
    ensures
        match regex_first_match(INDEX_JS_PATTERN@, homepage@) {
            Some(m) => r matches Ok(s) && s@ == m,
            None => r matches Err(AppleMusicApiError::Protocol(msg)) && msg@
                == "music.apple.com homepage did not contain index js"@,
        },
{
    match regex_find(INDEX_JS_PATTERN, homepage) {
        Some(m) => Ok(m),
        None => Err(AppleMusicApiError::Protocol("music.apple.com homepage did not contain index js".to_string())),
    }
}

/// The web token that the bundle script carries.
pub fn extract_web_token(script: &str) -> (r: Result<String, AppleMusicApiError>)
    ensures
        match regex_first_match(WEB_TOKEN_PATTERN@, script@) {
            Some(m) => r matches Ok(s) && s@ == m,
            None => r matches Err(AppleMusicApiError::Protocol(msg)) && msg@
                == "music.apple.com script did not contain web token"@,
        },
{
    match regex_find(WEB_TOKEN_PATTERN, script) {
        Some(m) => Ok(m),
        None => Err(AppleMusicApiError::Protocol("music.apple.com script did not contain web token".to_string())),
    }
}

/// What the playback metadata is built from: the first song record of a
/// catalog answer, with its first album (id and artwork) and first artist id.
#[derive(Clone, Debug)]
pub struct SongRecord {
    pub artist_name: String,
    pub album_name: String,
    pub name: String,
    pub track_number: u32,
    pub disc_number: u32,
    pub artwork: Option<Artwork>,
    pub album: Option<(String, Option<Artwork>)>,
    pub artist_id: Option<String>,
}

/// `prefix`, the song id and `suffix`.
pub open spec fn song_message(prefix: Seq<char>, song_id: Seq<char>, suffix: Seq<char>) -> Seq<char> {
    prefix + song_id + suffix
}

fn song_error(song_id: &str, suffix: &str) -> (e: AppleMusicApiError)
    ensures
        e matches AppleMusicApiError::Message(m) && m@ == song_message("song "@, song_id@, suffix@),
{
    let mut out: Vec<char> = Vec::new();
    push_str(&mut out, "song ");
    push_str(&mut out, song_id);
    push_str(&mut out, suffix);
    assert(out@ =~= song_message("song "@, song_id@, suffix@));
    AppleMusicApiError::Message(chars_to_string(&out))
}

/// The playback metadata of a song: it needs a record, an album and an
/// artist; the artwork of the album, if any, is the album artwork.
pub fn song_playback_metadata_from(song_id: &str, song: Option<SongRecord>) -> (r: Result<SongPlaybackMetadata, AppleMusicApiError>)
    ensures
        match song {
            None => r matches Err(AppleMusicApiError::Message(m)) && m@ == song_message(
                "song "@,
                song_id@,
                " did not return any data"@,
            ),
            Some(rec) => match (rec.album, rec.artist_id) {
                (None, _) => r matches Err(AppleMusicApiError::Message(m)) && m@ == song_message(
                    "song "@,
                    song_id@,
                    " is missing album metadata"@,
                ),
                (Some(_), None) => r matches Err(AppleMusicApiError::Message(m)) && m@ == song_message(
                    "song "@,
                    song_id@,
                    " is missing artist metadata"@,
                ),
                (Some((album_id, album_art)), Some(artist_id)) => r matches Ok(md) && md.song_id@ == song_id@
                    && md.artist@ == rec.artist_name@ && md.artist_id@ == artist_id@ && md.album_id@
                    == album_id@ && md.album@ == rec.album_name@ && md.title@ == rec.name@
                    && md.track_number == rec.track_number && md.disc_number == rec.disc_number
                    && md.artwork == rec.artwork && md.album_artwork == album_art,
            },
        },
{
    let rec = match song {
        Some(r) => r,
        None => return Err(song_error(song_id, " did not return any data")),
    };
    let (album_id, album_artwork) = match rec.album {
        Some(a) => a,
        None => return Err(song_error(song_id, " is missing album metadata")),
    };
    let artist_id = match rec.artist_id {
        Some(a) => a,
        None => return Err(song_error(song_id, " is missing artist metadata")),
    };
    Ok(SongPlaybackMetadata {
        song_id: song_id.to_string(),
        artist: rec.artist_name,
        artist_id,
        album_id,
        album: rec.album_name,
        title: rec.name,
        track_number: rec.track_number,
        disc_number: rec.disc_number,
        artwork: rec.artwork,
        album_artwork,
    })
}

/// What one lyrics endpoint gave.
#[derive(Debug)]
pub enum LyricsEvent {
    /// A timed text document.
    Ttml(String),
    /// An answer without lyrics.
    Empty,
    /// The endpoint does not have this song (404); the error to report if no
    /// other endpoint has it either.
    NotFound(AppleMusicApiError),
    /// Any other failure.
    Failed(AppleMusicApiError),
}

/// What to do after one lyrics endpoint.
#[derive(Debug)]
pub enum LyricsAction {
    /// Convert this document and answer with it.
    Convert(String),
    /// Try the next endpoint.
    TryNext,
    /// Answer with this error.
    Fail(AppleMusicApiError),
}

/// Decides what to do with the answer of one lyrics endpoint, remembering
/// the last "not found" in `last_not_found`.
pub fn lyrics_event(last_not_found: &mut Option<AppleMusicApiError>, event: LyricsEvent) -> (action: LyricsAction)
    ensures
        match event {
            LyricsEvent::Ttml(t) => action matches LyricsAction::Convert(x) && x@ == t@ && *final(last_not_found) == *old(last_not_found),
            LyricsEvent::Empty => action is TryNext && *final(last_not_found) == *old(last_not_found),
            LyricsEvent::NotFound(e) => action is TryNext && *final(last_not_found) == Some(e),
            LyricsEvent::Failed(e) => action == LyricsAction::Fail(e) && *final(last_not_found) == *old(last_not_found),
        },
{
    match event {
        LyricsEvent::Ttml(t) => LyricsAction::Convert(t),
        LyricsEvent::Empty => LyricsAction::TryNext,
        LyricsEvent::NotFound(e) => {
            *last_not_found = Some(e);
            LyricsAction::TryNext
        },
        LyricsEvent::Failed(e) => LyricsAction::Fail(e),
    }
}

/// The error once every endpoint was tried: the last "not found", else a
/// plain failure.
pub fn lyrics_exhausted(last_not_found: Option<AppleMusicApiError>) -> (e: AppleMusicApiError)
    ensures
        match last_not_found {
            Some(x) => e == x,
            None => e matches AppleMusicApiError::Message(m) && m@ == "failed to get lyrics"@,
        },
{
    match last_not_found {
        Some(x) => x,
        None => AppleMusicApiError::Message("failed to get lyrics".to_string()),
    }
}

/// Law: a rate-limited search is never cached for zero seconds.
pub proof fn law_retry_after_positive(retry_after: Option<&str>)
    ensures
        retry_after_secs(retry_after) >= 1,
{
    if let Some(v) = retry_after {
        crate::text::lemma_parse_unsigned_bound(trim(v@), u64::MAX as nat);
    }
}

/// Law: a plain language (no `=` or `&`) becomes `l=<language>` followed by
/// the `extend=ttmlLocalizations` parameter.
pub proof fn law_plain_language_url(path: Seq<char>, language: &str)
    requires
        trim(language@).len() > 0,
        !contains(trim_start_char(trim(language@), '?'), "="@),
        !contains(trim_start_char(trim(language@), '?'), "&"@),
    ensures
        lyrics_url(path, Some(language)) == "https://amp-api.music.apple.com"@ + path + "?"@ + ("l="@
            + trim_start_char(trim(language@), '?')) + "&"@ + "extend=ttmlLocalizations"@,
{
    reveal_strlit("l=");
    let l = trim_start_char(trim(language@), '?');
    let p = "l="@ + l;
    assert(lyrics_language_params(Some(language)) == seq![p]);
    assert(p.subrange(2, p.len() as int) =~= l);
    if has_extend_param(seq![p]) {
        let i = choose|i: int| 0 <= i < seq![p].len() && contains(#[trigger] seq![p][i], "extend="@);
        assert(i == 0);
        lemma_extend_needs_equals(p);
        assert(false);
    }
    let ps = seq![p].push("extend=ttmlLocalizations"@);
    assert(ps.drop_last() =~= seq![p]);
    assert(join(ps, "&"@) == join(seq![p], "&"@) + "&"@ + "extend=ttmlLocalizations"@);
}

/// `l=` before a language without `=` holds `extend=` nowhere.
proof fn lemma_extend_needs_equals(p: Seq<char>)
    requires
        p.len() >= 2,
        p[1] == '=',
        p[0] == 'l',
        !contains(p.subrange(2, p.len() as int), "="@),
    ensures
        !contains(p, "extend="@),
{
    reveal_strlit("extend=");
    reveal_strlit("=");
    if contains(p, "extend="@) {
        let i = choose|i: int| crate::text::occurs_at(p, "extend="@, i);
        assert(p.subrange(i, i + 7) == "extend="@);
        assert(p.subrange(i, i + 7)[0] == 'e');
        assert(i != 0);
        assert(p.subrange(i, i + 7)[1] == 'x');
        assert(i != 1);
        let r = p.subrange(2, p.len() as int);
        assert(p.subrange(i, i + 7)[6] == '=');
        assert(p[i + 6] == '=');
        assert(r[i + 4] == p[i + 6]);
        assert(r.subrange(i + 4, i + 5) =~= "="@);
        assert(crate::text::occurs_at(r, "="@, i + 4));
    }
}

/// Law: a structured language (holding `=` or `&`) is passed through
/// unchanged, followed by `extend=ttmlLocalizations` unless it already
/// extends.
pub proof fn law_structured_language_url(path: Seq<char>, language: &str)
    requires
        trim(language@).len() > 0,
        contains(trim_start_char(trim(language@), '?'), "="@) || contains(
            trim_start_char(trim(language@), '?'),
            "&"@,
        ),
    ensures
        ({
            let l = trim_start_char(trim(language@), '?');
            lyrics_url(path, Some(language)) == if contains(l, "extend="@) {
                "https://amp-api.music.apple.com"@ + path + "?"@ + l
            } else {
                "https://amp-api.music.apple.com"@ + path + "?"@ + l + "&"@ + "extend=ttmlLocalizations"@
            }
        }),
{
    let l = trim_start_char(trim(language@), '?');
    assert(lyrics_language_params(Some(language)) == seq![l]);
    if contains(l, "extend="@) {
        assert(contains(seq![l][0], "extend="@));
        assert(has_extend_param(seq![l]));
    } else {
        if has_extend_param(seq![l]) {
            let i = choose|i: int| 0 <= i < seq![l].len() && contains(#[trigger] seq![l][i], "extend="@);
            assert(i == 0);
        }
        let ps = seq![l].push("extend=ttmlLocalizations"@);
        assert(ps.drop_last() =~= seq![l]);
        assert(join(ps, "&"@) == join(seq![l], "&"@) + "&"@ + "extend=ttmlLocalizations"@);
    }
}

} // verus!
