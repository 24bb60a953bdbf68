//! The daemon's HTTP surface: its error type and how each error is
//! answered, bearer-token checks, health and login answers, and defaults of
//! the catalog endpoints.
use vstd::prelude::*;

use crate::text::{chars_eq_str, chars_range, chars_to_string, push_str, starts_with, str_chars};

verus! {

/// What can go wrong in the daemon. Outside errors are kept as their
/// messages.
#[derive(Debug)]
pub enum AppError {
    Message(String),
    Command(String),
    Io(String),
    Address(String),
    Protocol(String),
    Native(String),
    InvalidDeviceInfo(String),
    UpstreamHttp { status: u16, message: String, retry_after: Option<String> },
    NoActiveSession,
    UnexpectedTwoFactor,
}

/// The text of an error, as its display form writes it.
pub open spec fn error_text(e: AppError) -> Seq<char> {
    match e {
        AppError::Message(m) => m@,
        AppError::Command(m) => m@,
        AppError::Io(m) => "io error: "@ + m@,
        AppError::Address(m) => "address parse error: "@ + m@,
        AppError::Protocol(m) => "protocol error: "@ + m@,
        AppError::Native(m) => "native error: "@ + m@,
        AppError::InvalidDeviceInfo(m) => "invalid device info: "@ + m@,
        AppError::UpstreamHttp { message, .. } => message@,
        AppError::NoActiveSession => "no active session"@,
        AppError::UnexpectedTwoFactor => "2FA was not requested for the current login flow"@,
    }
}

impl AppError {
    /// The text of this error.
    pub fn describe(&self) -> (s: String)
        ensures
            s@ == error_text(*self),
    {
        match self {
            AppError::Message(m) => m.clone(),
            AppError::Command(m) => m.clone(),
            AppError::Io(m) => crate::text::concat2("io error: ", m.as_str()),
            AppError::Address(m) => crate::text::concat2("address parse error: ", m.as_str()),
            AppError::Protocol(m) => crate::text::concat2("protocol error: ", m.as_str()),
            AppError::Native(m) => crate::text::concat2("native error: ", m.as_str()),
            AppError::InvalidDeviceInfo(m) => crate::text::concat2("invalid device info: ", m.as_str()),
            AppError::UpstreamHttp { message, .. } => message.clone(),
            AppError::NoActiveSession => "no active session".to_string(),
            AppError::UnexpectedTwoFactor => "2FA was not requested for the current login flow".to_string(),
        }
    }
}

/// An error answer: HTTP status, the login state when it matters, the
/// message, and the `Retry-After` and `WWW-Authenticate` headers.
#[derive(Debug)]
pub struct ApiError {
    pub status: u16,
    pub state: Option<&'static str>,
    pub message: String,
    pub retry_after: Option<String>,
    pub www_authenticate: Option<&'static str>,
}

/// The view of an error answer: status, state, message, retry-after,
/// authenticate header.
pub open spec fn api_error_view(e: ApiError) -> (u16, Option<Seq<char>>, Seq<char>, Option<Seq<char>>, Option<Seq<char>>) {
    (
        e.status,
        match e.state { Some(s) => Some(s@), None => None },
        e.message@,
        match e.retry_after { Some(s) => Some(s@), None => None },
        match e.www_authenticate { Some(s) => Some(s@), None => None },
    )
}

impl ApiError {
    /// 400 with `message`.
    pub fn bad_request(message: &str) -> (e: Self)
        ensures
            api_error_view(e) == (400u16, None::<Seq<char>>, message@, None::<Seq<char>>, None::<Seq<char>>),
    {
        ApiError { status: 400, state: None, message: message.to_string(), retry_after: None, www_authenticate: None }
    }

    /// 409 in `state` with `message`.
    pub fn conflict(state: &'static str, message: &str) -> (e: Self)
        ensures
            api_error_view(e) == (409u16, Some(state@), message@, None::<Seq<char>>, None::<Seq<char>>),
    {
        ApiError { status: 409, state: Some(state), message: message.to_string(), retry_after: None, www_authenticate: None }
    }

    /// 500 with `message`.
    pub fn internal(message: &str) -> (e: Self)
        ensures
            api_error_view(e) == (500u16, None::<Seq<char>>, message@, None::<Seq<char>>, None::<Seq<char>>),
    {
        ApiError { status: 500, state: None, message: message.to_string(), retry_after: None, www_authenticate: None }
    }

    /// 401 for `path`, asking for a bearer token.
    pub fn unauthorized(path: &str, message: &str) -> (e: Self)
        ensures
            api_error_view(e) == (
                401u16,
                None::<Seq<char>>,
                "unauthorized for "@ + path@ + ": "@ + message@,
                None::<Seq<char>>,
                Some("Bearer"@),
            ),
    {
        let mut out: Vec<char> = Vec::new();
        push_str(&mut out, "unauthorized for ");
        push_str(&mut out, path);
        push_str(&mut out, ": ");
        push_str(&mut out, message);
        assert(out@ =~= "unauthorized for "@ + path@ + ": "@ + message@);
        ApiError {
            status: 401,
            state: None,
            message: chars_to_string(&out),
            retry_after: None,
            www_authenticate: Some("Bearer"),
        }
    }

    /// The message of this answer.
    pub fn message(&self) -> (m: &str)
        ensures
            m@ == self.message@,
    {
        self.message.as_str()
    }

    /// How an error of the daemon is answered: no session is a conflict in
    /// `logged_out`; request and native problems are bad requests; upstream
    /// failures keep their status (502 when it is not one) and retry-after;
    /// the rest are internal errors.
    pub fn from_app_error(error: AppError) -> (e: Self)
        ensures
            api_error_view(e) == match error {
                AppError::NoActiveSession => (409u16, Some("logged_out"@), "no active session"@, None::<Seq<char>>, None::<Seq<char>>),
                AppError::Protocol(m) => (400u16, None, m@, None, None),
                AppError::InvalidDeviceInfo(m) => (400u16, None, m@, None, None),
                AppError::Native(m) => (400u16, None, m@, None, None),
                AppError::Message(m) => (400u16, None, m@, None, None),
                AppError::UpstreamHttp { status, message, retry_after } => (
                    if 100 <= status && status < 1000 { status } else { 502u16 },
                    None,
                    message@,
                    match retry_after { Some(r) => Some(r@), None => None },
                    None,
                ),
                AppError::Command(m) => (500u16, None, m@, None, None),
                other => (500u16, None, error_text(other), None, None),
            },
    {
        match error {
            AppError::NoActiveSession => ApiError {
                status: 409,
                state: Some("logged_out"),
                message: "no active session".to_string(),
                retry_after: None,
                www_authenticate: None,
            },
            AppError::Protocol(message) | AppError::InvalidDeviceInfo(message) | AppError::Native(message)
            | AppError::Message(message) => ApiError {
                status: 400,
                state: None,
                message,
                retry_after: None,
                www_authenticate: None,
            },
            AppError::UpstreamHttp { status, message, retry_after } => ApiError {
                status: if 100 <= status && status < 1000 { status } else { 502 },
                state: None,
                message,
                retry_after,
                www_authenticate: None,
            },
            AppError::Command(message) => ApiError::internal(message.as_str()),
            other => {
                let text = other.describe();
                ApiError::internal(text.as_str())
            },
        }
    }
}

/// Why a bearer check refuses a request.
pub open spec fn bearer_failure(header: Option<Option<Seq<char>>>, expected: Seq<char>) -> Option<Seq<char>> {
    match header {
        None => Some("missing bearer token"@),
        Some(None) => Some("invalid authorization header encoding"@),
        Some(Some(h)) => if !starts_with(h, "Bearer "@) {
            Some("authorization header must use Bearer"@)
        } else if h.subrange(7, h.len() as int) != expected {
            Some("invalid bearer token"@)
        } else {
            None
        },
    }
}

/// Checks the `Authorization` header of a request: `header` is absent, not
/// visible ASCII text (`None` inside), or its text.
pub fn check_bearer(path: &str, header: Option<Option<&str>>, expected_token: &str) -> (r: Result<(), ApiError>)
    ensures
        match bearer_failure(
            match header { Some(Some(h)) => Some(Some(h@)), Some(None) => Some(None), None => None },
            expected_token@,
        ) {
            None => r is Ok,
            Some(m) => r matches Err(e) && api_error_view(e) == (
                401u16,
                None::<Seq<char>>,
                "unauthorized for "@ + path@ + ": "@ + m,
                None::<Seq<char>>,
                Some("Bearer"@),
            ),
        },
{
    let text = match header {
        None => return Err(ApiError::unauthorized(path, "missing bearer token")),
        Some(None) => return Err(ApiError::unauthorized(path, "invalid authorization header encoding")),
        Some(Some(h)) => h,
    };
    let v = str_chars(text);
    let scheme = str_chars("Bearer ");
    proof {
        reveal_strlit("Bearer ");
    }
    if !crate::text::starts_with_chars(&v, &scheme) {
        return Err(ApiError::unauthorized(path, "authorization header must use Bearer"));
    }
    let token = chars_range(&v, 7, v.len());
    if !chars_eq_str(&token, expected_token) {
        return Err(ApiError::unauthorized(path, "invalid bearer token"));
    }
    Ok(())
}

/// Law: a request passes the bearer check exactly when its header is
/// `Bearer ` followed by the configured token.
pub proof fn law_bearer_accepts_exactly_the_token(header: Option<Option<Seq<char>>>, expected: Seq<char>)
    ensures
        bearer_failure(header, expected) is None <==> header == Some(Some("Bearer "@ + expected)),
{
    reveal_strlit("Bearer ");
    match header {
        Some(Some(h)) => {
            if bearer_failure(header, expected) is None {
                assert(h =~= h.subrange(0, 7) + h.subrange(7, h.len() as int));
                assert(h.subrange(0, 7) =~= "Bearer "@);
            }
            if h == "Bearer "@ + expected {
                assert(h.subrange(0, 7) =~= "Bearer "@);
                assert(h.subrange(7, h.len() as int) =~= expected);
            }
        },
        _ => {},
    }
}

/// Whether a tool was found, with its version or the error.
#[derive(Debug)]
pub struct BinaryHealth {
    pub path: &'static str,
    pub available: bool,
    pub version: Option<String>,
    pub error: Option<String>,
}

/// The tools the daemon needs.
#[derive(Debug)]
pub struct ToolHealthReport {
    pub ffmpeg: BinaryHealth,
    pub ffprobe: BinaryHealth,
    pub mp4box: BinaryHealth,
}

impl ToolHealthReport {
    /// The daemon is healthy when ffmpeg and ffprobe are available; MP4Box is
    /// optional.
    pub fn is_healthy(&self) -> (b: bool)
        ensures
            b == (self.ffmpeg.available && self.ffprobe.available),
    {
        self.ffmpeg.available && self.ffprobe.available
    }
}

/// The status and label of a health answer.
pub fn health_status(healthy: bool) -> (r: (u16, &'static str))
    ensures
        healthy ==> r.0 == 200 && r.1@ == "ok"@,
        !healthy ==> r.0 == 503 && r.1@ == "degraded"@,
{
    if healthy {
        (200, "ok")
    } else {
        (503, "degraded")
    }
}

/// The answer to a login step.
#[derive(Debug)]
pub struct AuthResponse {
    pub status: &'static str,
    pub state: &'static str,
    pub message: Option<String>,
}

impl AuthResponse {
    /// Success in `state`.
    pub fn ok(state: &'static str) -> (r: Self)
        ensures
            r.status@ == "ok"@,
            r.state@ == state@,
            r.message is None,
    {
        AuthResponse { status: "ok", state, message: None }
    }

    /// A login waiting for its second factor.
    pub fn need_two_factor(message: &str) -> (r: Self)
        ensures
            r.status@ == "need_2fa"@,
            r.state@ == "awaiting_2fa"@,
            r.message matches Some(m) && m@ == message@,
    {
        AuthResponse { status: "need_2fa", state: "awaiting_2fa", message: Some(message.to_string()) }
    }
}

/// The page size of a search that names none.
pub fn default_search_limit() -> (n: usize)
    ensures
        n == 10,
{
    10
}

/// The resource type of a search that names none.
pub fn default_search_type() -> (s: String)
    ensures
        s@ == "song"@,
{
    "song".to_string()
}

/// An artwork as the decryptor takes it, URL template unchanged.
pub fn playback_artwork(artwork: crate::api::Artwork) -> (d: crate::catalog::ArtworkDescriptor)
    ensures
        d.url@ == artwork.url@,
        d.width == artwork.width,
        d.height == artwork.height,
{
    crate::catalog::ArtworkDescriptor { url: artwork.url, width: artwork.width, height: artwork.height }
}

/// The tags of a track from its catalog metadata and lyrics, artwork URL
/// templates unchanged.
pub fn playback_track_metadata(metadata: crate::api::SongPlaybackMetadata, lyrics: Option<String>) -> (m: crate::catalog::PlaybackTrackMetadata)
    ensures
        m.song_id@ == metadata.song_id@,
        m.artist@ == metadata.artist@,
        m.artist_id@ == metadata.artist_id@,
        m.album_id@ == metadata.album_id@,
        m.album@ == metadata.album@,
        m.title@ == metadata.title@,
        m.track_number == metadata.track_number,
        m.disc_number == metadata.disc_number,
        crate::catalog::descriptor_view(m.artwork) == match metadata.artwork {
            Some(a) => Some((a.url@, a.width, a.height)),
            None => None,
        },
        crate::catalog::descriptor_view(m.album_artwork) == match metadata.album_artwork {
            Some(a) => Some((a.url@, a.width, a.height)),
            None => None,
        },
        crate::catalog::ov(m.lyrics) == crate::catalog::ov(lyrics),
{
    let artwork = match metadata.artwork {
        Some(a) => Some(playback_artwork(a)),
        None => None,
    };
    let album_artwork = match metadata.album_artwork {
        Some(a) => Some(playback_artwork(a)),
        None => None,
    };
    crate::catalog::PlaybackTrackMetadata {
        song_id: metadata.song_id,
        artist: metadata.artist,
        artist_id: metadata.artist_id,
        album_id: metadata.album_id,
        album: metadata.album,
        title: metadata.title,
        track_number: metadata.track_number,
        disc_number: metadata.disc_number,
        artwork,
        album_artwork,
        lyrics,
    }
}

/// A refused control step as an HTTP answer: a conflict in the response's
/// state with its message.
pub fn conflict_from(response: &crate::control::ControlResponse) -> (e: ApiError)
    ensures
        api_error_view(e) == (
            409u16,
            Some(response.state@),
            match response.message { Some(m) => m@, None => Seq::<char>::empty() },
            None::<Seq<char>>,
            None::<Seq<char>>,
        ),
{
    let message = match &response.message {
        Some(m) => m.clone(),
        None => String::new(),
    };
    ApiError { status: 409, state: Some(response.state), message, retry_after: None, www_authenticate: None }
}

/// A control answer as the HTTP login answer: its status, state and
/// message.
pub fn auth_from(response: crate::control::ControlResponse) -> (r: AuthResponse)
    ensures
        r.status@ == response.status@,
        r.state@ == response.state@,
        crate::catalog::ov(r.message) == crate::catalog::ov(response.message),
{
    AuthResponse { status: response.status, state: response.state, message: response.message }
}

/// Why a catalog search is refused: a blank query, or a type other than
/// `song`, `album` and `artist`.
pub open spec fn search_refusal(query: Seq<char>, search_type: Seq<char>) -> Option<Seq<char>> {
    if crate::text::trim(query).len() == 0 {
        Some("query parameter is required"@)
    } else if !(search_type == "song"@ || search_type == "album"@ || search_type == "artist"@) {
        Some("invalid search type: "@ + search_type + ". Use 'album', 'song', or 'artist'"@)
    } else {
        None
    }
}

/// Checks the parameters of a catalog search; the message of a refusal.
pub fn search_params_error(query: &str, search_type: &str) -> (r: Option<String>)
    ensures
        crate::catalog::ov(r) == search_refusal(query@, search_type@),
{
    let q = str_chars(query);
    let t = crate::text::trim_chars(&q);
    if t.len() == 0 {
        return Some("query parameter is required".to_string());
    }
    let st = str_chars(search_type);
    if !(chars_eq_str(&st, "song") || chars_eq_str(&st, "album") || chars_eq_str(&st, "artist")) {
        let mut out: Vec<char> = Vec::new();
        push_str(&mut out, "invalid search type: ");
        push_str(&mut out, search_type);
        push_str(&mut out, ". Use 'album', 'song', or 'artist'");
        assert(out@ =~= "invalid search type: "@ + search_type@ + ". Use 'album', 'song', or 'artist'"@);
        return Some(chars_to_string(&out));
    }
    None
}

/// Where a playback redirect sends the client.
pub fn playback_redirect_target(relative_path: &str) -> (s: String)
    ensures
        s@ == "/"@ + relative_path@,
{
    crate::text::concat2("/", relative_path)
}

} // verus!
