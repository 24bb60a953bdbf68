//! Serving the bundled web client: which asset a path names, and how long
//! browsers may keep it.
use vstd::prelude::*;

use crate::text::{chars_to_string, starts_with, str_chars, trim_start_char, trim_start_char_chars};

verus! {

/// What a request under `/app/` is answered with.
#[derive(Debug)]
pub enum AssetRoute {
    /// The client's index page.
    Index,
    /// The bundled file at this path.
    File(String),
    /// Nothing: a missing file.
    NotFound,
}

/// The answer for `path`: empty paths and unknown paths without a dot get
/// the index (client-side routes), known files themselves, other unknown
/// paths nothing. `file_exists` says whether the bundle has the path
/// without its leading slashes.
pub open spec fn route_of(path: Seq<char>, file_exists: bool) -> (u8, Seq<char>) {
    let n = trim_start_char(path, '/');
    if n.len() == 0 {
        (0, n)
    } else if file_exists {
        (1, n)
    } else if n.contains('.') {
        (2, n)
    } else {
        (0, n)
    }
}

/// The path of an asset request without its leading slashes.
pub fn normalized_asset_path(path: &str) -> (s: String)
    ensures
        s@ == trim_start_char(path@, '/'),
{
    let v = str_chars(path);
    let t = trim_start_char_chars(&v, '/');
    chars_to_string(&t)
}

/// Routes an asset request; `file_exists` is whether the bundle has the
/// normalized path.
pub fn asset_route(path: &str, file_exists: bool) -> (r: AssetRoute)
    ensures
        match route_of(path@, file_exists) {
            (0, _) => r is Index,
            (1, n) => r matches AssetRoute::File(f) && f@ == n,
            (_, _) => r is NotFound,
        },
{
    let v = str_chars(path);
    let n = trim_start_char_chars(&v, '/');
    if n.len() == 0 {
        AssetRoute::Index
    } else if file_exists {
        AssetRoute::File(chars_to_string(&n))
    } else if crate::text::has_char(&n, '.') {
        AssetRoute::NotFound
    } else {
        AssetRoute::Index
    }
}

/// The cache policy of a bundled file: fingerprinted assets forever, the
/// rest revalidated.
pub fn cache_control_for(path: &str) -> (s: &'static str)
    ensures
        starts_with(path@, "assets/"@) ==> s@ == "public, max-age=31536000, immutable"@,
        !starts_with(path@, "assets/"@) ==> s@ == "no-cache"@,
{
    let v = str_chars(path);
    if crate::text::starts_with_chars(&v, &str_chars("assets/")) {
        "public, max-age=31536000, immutable"
    } else {
        "no-cache"
    }
}

/// The media type that `mime_guess` gives for a file path: the first type
/// its extension table lists for the path's extension, or
/// `application/octet-stream`.
pub uninterp spec fn mime_type_of(path: Seq<char>) -> Seq<char>;

/// Guesses the media type of `path` with
/// `mime_guess::from_path(..).first_or_octet_stream()`.
#[verifier::external_body]
fn guess_mime(path: &str) -> (s: String)
    ensures
        s@ == mime_type_of(path@),
{
    mime_guess::from_path(path).first_or_octet_stream().to_string()
}

/// The headers of a bundled file: its media type, guessed from its path,
/// and its cache policy.
pub fn asset_headers(path: &str) -> (r: (String, &'static str))
    ensures
        r.0@ == mime_type_of(path@),
        starts_with(path@, "assets/"@) ==> r.1@ == "public, max-age=31536000, immutable"@,
        !starts_with(path@, "assets/"@) ==> r.1@ == "no-cache"@,
{
    (guess_mime(path), cache_control_for(path))
}

} // verus!
