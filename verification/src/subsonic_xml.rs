//! The XML documents of the Subsonic API: the response envelope, error
//! answers, and the search, artist, album, lyrics and folder payloads.
use vstd::prelude::*;

use crate::subsonic::{
    album_attr_text, album_attrs, album_xml, artist_xml, attr, empty_element, escape_attr,
    escape_text, num_attr, opt_usize, push_attr_escaped, push_escaped_attr, push_escaped_text,
    push_opt_num_attr, push_opt_text_attr, song_attr_text, song_xml, text_attr, widen_usize,
    SubsonicAlbum, SubsonicArtist, SubsonicSong, SUBSONIC_MUSIC_FOLDER_ID, artist_attr_text,
};
use crate::text::{chars_to_string, push_signed_decimal, push_str, signed_decimal, starts_with, str_chars};

verus! {

/// The Subsonic API version this server speaks.
pub const SUBSONIC_API_VERSION: &'static str = "1.16.1";

/// The server type reported to clients.
pub const SUBSONIC_SERVER_TYPE: &'static str = "wrapper-rs";

/// The license payload: always valid.
pub const LICENSE_XML: &'static str = "<license valid=\"true\"/>";

/// The opening of a response envelope with `status`, naming the server's
/// build `version`.
pub open spec fn envelope_open(status: Seq<char>, version: Seq<char>) -> Seq<char> {
    "<?xml version=\"1.0\" encoding=\"UTF-8\"?><subsonic-response xmlns=\"http://subsonic.org/restapi\" status=\""@
        + status + "\" version=\""@ + SUBSONIC_API_VERSION@ + "\" type=\""@ + SUBSONIC_SERVER_TYPE@
        + "\" serverVersion=\""@ + version + "\">"@
}

/// A successful response around `fragment`.
pub open spec fn ok_document(fragment: Seq<char>, version: Seq<char>) -> Seq<char> {
    envelope_open("ok"@, version) + fragment + "</subsonic-response>"@
}

/// A failed response with an error code and message.
pub open spec fn error_document(code: i32, message: Seq<char>, version: Seq<char>) -> Seq<char> {
    envelope_open("failed"@, version) + "<error code=\""@ + signed_decimal(code as int) + "\" message=\""@
        + escape_attr(message) + "\"/>"@ + "</subsonic-response>"@
}

fn push_envelope_open(out: &mut Vec<char>, status: &str, version: &str)
    ensures
        final(out)@ == old(out)@ + envelope_open(status@, version@),
{
    push_str(
        out,
        "<?xml version=\"1.0\" encoding=\"UTF-8\"?><subsonic-response xmlns=\"http://subsonic.org/restapi\" status=\"",
    );
    push_str(out, status);
    push_str(out, "\" version=\"");
    push_str(out, SUBSONIC_API_VERSION);
    push_str(out, "\" type=\"");
    push_str(out, SUBSONIC_SERVER_TYPE);
    push_str(out, "\" serverVersion=\"");
    push_str(out, version);
    push_str(out, "\">");
    assert(out@ =~= old(out)@ + envelope_open(status@, version@));
}

/// The successful XML response around `fragment`, from a server of build
/// `version`.
pub fn subsonic_ok_xml_document(fragment: &str, version: &str) -> (s: String)
    ensures
        s@ == ok_document(fragment@, version@),
{
    let mut out: Vec<char> = Vec::new();
    push_envelope_open(&mut out, "ok", version);
    push_str(&mut out, fragment);
    push_str(&mut out, "</subsonic-response>");
    assert(out@ =~= ok_document(fragment@, version@));
    chars_to_string(&out)
}

/// The failed XML response with `code` and `message`, from a server of
/// build `version`.
pub fn subsonic_error_xml_document(code: i32, message: &str, version: &str) -> (s: String)
    ensures
        s@ == error_document(code, message@, version@),
{
    let mut out: Vec<char> = Vec::new();
    push_envelope_open(&mut out, "failed", version);
    push_str(&mut out, "<error code=\"");
    push_signed_decimal(&mut out, code as i64);
    push_str(&mut out, "\" message=\"");
    push_escaped_attr(&mut out, message);
    push_str(&mut out, "\"/>");
    push_str(&mut out, "</subsonic-response>");
    assert(out@ =~= error_document(code, message@, version@));
    chars_to_string(&out)
}

/// The texts of `parts`, one after another.
pub open spec fn concat_all(parts: Seq<Seq<char>>) -> Seq<char>
    decreases parts.len(),
{
    if parts.len() == 0 {
        Seq::empty()
    } else {
        concat_all(parts.drop_last()) + parts.last()
    }
}

/// The `artist` elements of `v`.
pub open spec fn artists_text(v: Seq<SubsonicArtist>) -> Seq<char> {
    concat_all(v.map_values(|a: SubsonicArtist| empty_element("artist"@, artist_attr_text(a))))
}

/// The `album` elements of `v`.
pub open spec fn albums_text(v: Seq<SubsonicAlbum>) -> Seq<char> {
    concat_all(v.map_values(|a: SubsonicAlbum| empty_element("album"@, album_attr_text(a))))
}

/// The `song` elements of `v`.
pub open spec fn songs_text(v: Seq<SubsonicSong>) -> Seq<char> {
    concat_all(v.map_values(|s: SubsonicSong| empty_element("song"@, song_attr_text(s))))
}

fn push_artists(out: &mut Vec<char>, v: &Vec<SubsonicArtist>)
    ensures
        final(out)@ == old(out)@ + artists_text(v@),
{
    let mut i: usize = 0;
    while i < v.len()
        invariant
            i <= v@.len(),
            out@ == old(out)@ + artists_text(v@.subrange(0, i as int)),
        decreases v.len() - i,
    {
        let e = artist_xml(&v[i]);
        push_str(out, e.as_str());
        proof {
            let f = |a: SubsonicArtist| empty_element("artist"@, artist_attr_text(a));
            let next = v@.subrange(0, i + 1).map_values(f);
            assert(next.drop_last() =~= v@.subrange(0, i as int).map_values(f));
            assert(next.last() == e@);
        }
        i += 1;
    }
    assert(v@.subrange(0, v@.len() as int) =~= v@);
}

fn push_albums(out: &mut Vec<char>, v: &Vec<SubsonicAlbum>)
    ensures
        final(out)@ == old(out)@ + albums_text(v@),
{
    let mut i: usize = 0;
    while i < v.len()
        invariant
            i <= v@.len(),
            out@ == old(out)@ + albums_text(v@.subrange(0, i as int)),
        decreases v.len() - i,
    {
        let e = album_xml(&v[i]);
        push_str(out, e.as_str());
        proof {
            let f = |a: SubsonicAlbum| empty_element("album"@, album_attr_text(a));
            let next = v@.subrange(0, i + 1).map_values(f);
            assert(next.drop_last() =~= v@.subrange(0, i as int).map_values(f));
            assert(next.last() == e@);
        }
        i += 1;
    }
    assert(v@.subrange(0, v@.len() as int) =~= v@);
}

fn push_songs(out: &mut Vec<char>, v: &Vec<SubsonicSong>)
    ensures
        final(out)@ == old(out)@ + songs_text(v@),
{
    let mut i: usize = 0;
    while i < v.len()
        invariant
            i <= v@.len(),
            out@ == old(out)@ + songs_text(v@.subrange(0, i as int)),
        decreases v.len() - i,
    {
        let e = song_xml(&v[i]);
        push_str(out, e.as_str());
        proof {
            let f = |s: SubsonicSong| empty_element("song"@, song_attr_text(s));
            let next = v@.subrange(0, i + 1).map_values(f);
            assert(next.drop_last() =~= v@.subrange(0, i as int).map_values(f));
            assert(next.last() == e@);
        }
        i += 1;
    }
    assert(v@.subrange(0, v@.len() as int) =~= v@);
}

/// The `searchResult3` payload: the artists, then the albums, then the songs.
pub fn search_result3_xml(
    artists: &Vec<SubsonicArtist>,
    albums: &Vec<SubsonicAlbum>,
    songs: &Vec<SubsonicSong>,
) -> (s: String)
    ensures
        s@ == "<searchResult3>"@ + artists_text(artists@) + albums_text(albums@) + songs_text(songs@)
            + "</searchResult3>"@,
{
    let mut out: Vec<char> = Vec::new();
    push_str(&mut out, "<searchResult3>");
    push_artists(&mut out, artists);
    push_albums(&mut out, albums);
    push_songs(&mut out, songs);
    push_str(&mut out, "</searchResult3>");
    chars_to_string(&out)
}

/// The `artist` payload with its albums: id, name, album count and image
/// URL, then the album elements.
pub fn artist_with_albums_xml(artist: &SubsonicArtist, albums: &Vec<SubsonicAlbum>) -> (s: String)
    ensures
        s@ == "<artist"@ + attr("id"@, escape_attr(artist.id@)) + attr("name"@, escape_attr(artist.name@))
            + num_attr("albumCount"@, opt_usize(artist.album_count)) + text_attr(
            "artistImageUrl"@,
            artist.artist_image_url,
        ) + ">"@ + albums_text(albums@) + "</artist>"@,
{
    let mut out: Vec<char> = Vec::new();
    push_str(&mut out, "<artist");
    push_attr_escaped(&mut out, "id", artist.id.as_str());
    push_attr_escaped(&mut out, "name", artist.name.as_str());
    push_opt_num_attr(&mut out, "albumCount", widen_usize(artist.album_count));
    push_opt_text_attr(&mut out, "artistImageUrl", &artist.artist_image_url);
    push_str(&mut out, ">");
    push_albums(&mut out, albums);
    push_str(&mut out, "</artist>");
    chars_to_string(&out)
}

/// The `album` payload with its songs.
pub fn album_with_songs_xml(album: &SubsonicAlbum, songs: &Vec<SubsonicSong>) -> (s: String)
    ensures
        s@ == "<album"@ + album_attr_text(*album) + ">"@ + songs_text(songs@) + "</album>"@,
{
    let mut out: Vec<char> = Vec::new();
    push_str(&mut out, "<album");
    let attrs = album_attrs(album);
    push_str(&mut out, attrs.as_str());
    push_str(&mut out, ">");
    push_songs(&mut out, songs);
    push_str(&mut out, "</album>");
    chars_to_string(&out)
}

/// The `lyrics` payload.
pub fn lyrics_xml(artist: &str, title: &str, value: &str) -> (s: String)
    ensures
        s@ == "<lyrics artist=\""@ + escape_attr(artist@) + "\" title=\""@ + escape_attr(title@) + "\">"@
            + escape_text(value@) + "</lyrics>"@,
{
    let mut out: Vec<char> = Vec::new();
    push_str(&mut out, "<lyrics artist=\"");
    push_escaped_attr(&mut out, artist);
    push_str(&mut out, "\" title=\"");
    push_escaped_attr(&mut out, title);
    push_str(&mut out, "\">");
    push_escaped_text(&mut out, value);
    push_str(&mut out, "</lyrics>");
    assert(out@ =~= "<lyrics artist=\""@ + escape_attr(artist@) + "\" title=\""@ + escape_attr(title@)
        + "\">"@ + escape_text(value@) + "</lyrics>"@);
    chars_to_string(&out)
}

/// The `musicFolders` payload: the one catalog folder.
pub fn music_folders_xml() -> (s: String)
    ensures
        s@ == "<musicFolders><musicFolder id=\""@ + signed_decimal(SUBSONIC_MUSIC_FOLDER_ID as int)
            + "\" name=\"Apple Music\"/></musicFolders>"@,
{
    let mut out: Vec<char> = Vec::new();
    push_str(&mut out, "<musicFolders><musicFolder id=\"");
    push_signed_decimal(&mut out, SUBSONIC_MUSIC_FOLDER_ID as i64);
    push_str(&mut out, "\" name=\"Apple Music\"/></musicFolders>");
    assert(out@ =~= "<musicFolders><musicFolder id=\""@ + signed_decimal(SUBSONIC_MUSIC_FOLDER_ID as int)
        + "\" name=\"Apple Music\"/></musicFolders>"@);
    chars_to_string(&out)
}

/// Where a downloaded track lies inside the cache directory: its path
/// without the leading `cache/`.
pub fn cache_file_name(relative_path: &str) -> (s: String)
    ensures
        starts_with(relative_path@, "cache/"@) ==> s@ == relative_path@.subrange(6, relative_path@.len() as int),
        !starts_with(relative_path@, "cache/"@) ==> s@ == relative_path@,
{
    let v = str_chars(relative_path);
    proof {
        reveal_strlit("cache/");
    }
    if crate::text::starts_with_chars(&v, &str_chars("cache/")) {
        chars_to_string(&crate::text::chars_range(&v, 6, v.len()))
    } else {
        relative_path.to_string()
    }
}

} // verus!
