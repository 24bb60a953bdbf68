use wrapper_rust::catalog::{
    album_summary_with_songs, artwork_descriptor, lyrics_target, playback_track_metadata,
    search_album_to_subsonic, search_artist_to_subsonic, search_song_to_subsonic,
    album_track_to_subsonic, unique_artist_albums, CatalogItem,
};
use wrapper_rust::api::{Artwork, SongPlaybackMetadata};
use wrapper_rust::http::AppError;
use wrapper_rust::subsonic::{
    album_xml, artist_xml, clamp_search_limit, decode_password, escape_xml_text, lyrics_title,
    map_app_error, music_folder_id, normalize_match_text, render_artwork_url, requested_codec,
    response_format, song_xml, validate_auth_credentials, AuthQuery, ResponseFormat,
    SubsonicAlbum, SubsonicArtist, SubsonicSong,
};

fn item(id: &str) -> CatalogItem {
    CatalogItem {
        id: Some(id.into()),
        name: Some(format!("name {id}")),
        artist_name: Some("IOSYS".into()),
        album_name: Some("miko BEST".into()),
        artwork_url: Some("https://a/{w}x{h}bb.jpg".into()),
        track_count: Some(24),
        release_date: Some("2013-12-11".into()),
        first_genre: Some("J-Pop".into()),
        duration_millis: Some(240_618),
        track_number: Some(1),
        disc_number: Some(1),
        album_relation_id: Some("1480785394".into()),
        artist_relation_id: Some("287018328".into()),
        catalog_id: None,
    }
}

fn query() -> AuthQuery {
    AuthQuery {
        u: Some("wrapper".into()),
        p: Some("secret".into()),
        t: None,
        s: None,
        v: Some("1.16.1".into()),
        c: Some("client".into()),
        f: None,
    }
}

#[test]
fn response_format_defaults_to_xml() {
    assert_eq!(ResponseFormat::from_query(None), Ok(ResponseFormat::Xml));
    assert_eq!(ResponseFormat::from_query(Some("")), Ok(ResponseFormat::Xml));
    assert_eq!(ResponseFormat::from_query(Some(" JSON ")), Ok(ResponseFormat::Json));
    assert_eq!(ResponseFormat::from_query(Some("yaml")), Err("unsupported response format"));
    let e = response_format(&AuthQuery { f: Some("yaml".into()), ..query() }).unwrap_err();
    assert_eq!((e.format, e.code), (ResponseFormat::Xml, 10));
}

#[test]
fn stream_formats_map_to_codecs() {
    assert_eq!(requested_codec(None, Some("raw"), ResponseFormat::Xml).unwrap(), None);
    assert_eq!(requested_codec(Some(128), Some("MP4"), ResponseFormat::Xml).unwrap(), Some("aac".into()));
    assert_eq!(requested_codec(None, Some("lossless"), ResponseFormat::Xml).unwrap(), Some("alac".into()));
    assert_eq!(requested_codec(None, Some(" AAC "), ResponseFormat::Xml).unwrap(), Some("aac".into()));
    let e = requested_codec(None, Some("FLAC"), ResponseFormat::Json).unwrap_err();
    assert_eq!(e.code, 10);
    assert_eq!(e.format, ResponseFormat::Json);
    assert_eq!(e.message, "unsupported stream format: flac");
}

#[test]
fn xml_text_escape_keeps_quotes() {
    assert_eq!(escape_xml_text("a&b<c>\"'"), "a&amp;b&lt;c&gt;\"'");
}

#[test]
fn artwork_templates_take_the_size() {
    assert_eq!(render_artwork_url("https://a/{w}x{h}bb.jpg", None), "https://a/1200x1200bb.jpg");
    assert_eq!(render_artwork_url("https://a/{w}x{h}bb.jpg", Some(300)), "https://a/300x300bb.jpg");
    assert_eq!(render_artwork_url("{w}{w}{h}", Some(0)), "111");
    assert_eq!(render_artwork_url("plain", None), "plain");
}

#[test]
fn search_limits_are_clamped() {
    assert_eq!(clamp_search_limit(0), 1);
    assert_eq!(clamp_search_limit(20), 20);
    assert_eq!(clamp_search_limit(500), 50);
    assert_eq!(music_folder_id(), 1);
}

#[test]
fn match_text_is_trimmed_and_lowercased() {
    assert_eq!(normalize_match_text("  Hello World "), "hello world");
}

#[test]
fn encoded_passwords_are_hex_utf8() {
    assert_eq!(decode_password("enc:736563726574").unwrap(), "secret");
    assert_eq!(decode_password("enc:7365637265744A").unwrap(), "secretJ");
    assert_eq!(decode_password("plain").unwrap(), "plain");
    let e = decode_password("enc:zz").unwrap_err();
    assert_eq!((e.code, e.message.as_str()), (40, "invalid encoded password"));
    assert!(decode_password("enc:abc").is_err());
    assert!(decode_password("enc:ff").is_err());
}

#[test]
fn credential_failures_name_their_cause() {
    let e = validate_auth_credentials("wrapper", "secret", &AuthQuery { u: None, ..query() }).unwrap_err();
    assert_eq!((e.code, e.message.as_str()), (10, "u is required"));
    let e = validate_auth_credentials("wrapper", "secret", &AuthQuery { v: Some(String::new()), ..query() }).unwrap_err();
    assert_eq!(e.message, "v is required");
    let e = validate_auth_credentials("wrapper", "secret", &AuthQuery { c: None, ..query() }).unwrap_err();
    assert_eq!(e.message, "c is required");
    let e = validate_auth_credentials("other", "secret", &query()).unwrap_err();
    assert_eq!((e.code, e.message.as_str()), (40, "wrong username or password"));
    let e = validate_auth_credentials("wrapper", "nope", &query()).unwrap_err();
    assert_eq!(e.code, 40);
    let e = validate_auth_credentials("wrapper", "secret", &AuthQuery { p: None, ..query() }).unwrap_err();
    assert_eq!((e.code, e.message.as_str()), (10, "either p or t+s is required"));
    let token = format!("{:X}", md5::compute("secret123"));
    validate_auth_credentials(
        "wrapper",
        "secret",
        &AuthQuery { p: None, t: Some(token), s: Some("123".into()), ..query() },
    )
    .expect("upper-case token");
    validate_auth_credentials(
        "wrapper",
        "secret",
        &AuthQuery { p: Some("enc:736563726574".into()), ..query() },
    )
    .expect("encoded password");
    let e = validate_auth_credentials(
        "wrapper",
        "secret",
        &AuthQuery { f: Some("json".into()), p: None, t: Some("00".into()), s: Some("1".into()), ..query() },
    )
    .unwrap_err();
    assert_eq!((e.format, e.code), (ResponseFormat::Json, 40));
}

#[test]
fn artist_and_album_elements() {
    let artist = SubsonicArtist {
        id: "1".into(),
        name: "A&B".into(),
        cover_art: Some("1".into()),
        artist_image_url: None,
        album_count: Some(3),
    };
    assert_eq!(artist_xml(&artist), r#"<artist id="1" name="A&amp;B" albumCount="3" coverArt="1"/>"#);
    let album = SubsonicAlbum {
        id: "2".into(),
        name: "N".into(),
        artist: "A".into(),
        artist_id: None,
        cover_art: None,
        song_count: Some(2),
        duration: Some(300),
        year: Some(-5),
        created: None,
        genre: Some("Pop".into()),
    };
    assert_eq!(
        album_xml(&album),
        r#"<album id="2" name="N" artist="A" musicFolderId="1" songCount="2" duration="300" year="-5" genre="Pop"/>"#
    );
}

#[test]
fn song_element_lists_known_attributes() {
    let song = SubsonicSong {
        id: "3".into(),
        parent: Some("2".into()),
        title: "T\"".into(),
        album: None,
        artist: "A".into(),
        artist_id: None,
        cover_art: None,
        duration: Some(240),
        track: Some(1),
        disc_number: None,
        year: Some(2013),
        created: Some("2013-12-11T00:00:00".into()),
        genre: None,
        suffix: "m4a",
        content_type: "audio/mp4",
        album_id: Some("2".into()),
    };
    assert_eq!(
        song_xml(&song),
        r#"<song id="3" isDir="false" title="T&quot;" artist="A" suffix="m4a" contentType="audio/mp4" musicFolderId="1" parent="2" duration="240" track="1" year="2013" created="2013-12-11T00:00:00" albumId="2"/>"#
    );
}

#[test]
fn daemon_errors_become_generic_subsonic_errors() {
    let e = map_app_error(ResponseFormat::Json, AppError::NoActiveSession);
    assert_eq!((e.code, e.message.as_str()), (0, "no active session"));
    let e = map_app_error(ResponseFormat::Xml, AppError::Io("disk".into()));
    assert_eq!(e.message, "io error: disk");
    let e = map_app_error(ResponseFormat::Xml, AppError::Protocol("bad".into()));
    assert_eq!(e.message, "bad");
}

#[test]
fn lyrics_title_is_required() {
    assert_eq!(lyrics_title(Some(" Song "), ResponseFormat::Xml).unwrap(), "Song");
    let e = lyrics_title(Some("  "), ResponseFormat::Xml).unwrap_err();
    assert_eq!((e.code, e.message.as_str()), (10, "title is required"));
    assert!(lyrics_title(None, ResponseFormat::Xml).is_err());
}

#[test]
fn search_hits_become_subsonic_records() {
    let artist = search_artist_to_subsonic(&item("7"));
    assert_eq!(artist.cover_art.as_deref(), Some("7"));
    assert_eq!(artist.artist_image_url.as_deref(), Some("https://a/1200x1200bb.jpg"));
    let album = search_album_to_subsonic(&item("8"));
    assert_eq!(album.year, Some(2013));
    assert_eq!(album.created.as_deref(), Some("2013-12-11T00:00:00"));
    assert_eq!(album.song_count, Some(24));
    assert_eq!(album.genre.as_deref(), Some("J-Pop"));
    let song = search_song_to_subsonic(&item("9"));
    assert_eq!(song.duration, Some(240));
    assert_eq!(song.parent.as_deref(), Some("1480785394"));
    assert_eq!(song.cover_art.as_deref(), Some("1480785394"));
    let lone = CatalogItem { album_relation_id: None, ..item("9") };
    assert_eq!(search_song_to_subsonic(&lone).cover_art.as_deref(), Some("9"));
    let odd_year = CatalogItem { release_date: Some("20x3-01-01".into()), ..item("1") };
    assert_eq!(search_album_to_subsonic(&odd_year).year, None);
    let signed = CatalogItem { release_date: Some("-123".into()), ..item("1") };
    assert_eq!(search_album_to_subsonic(&signed).year, Some(-123));
    let track = album_track_to_subsonic(&CatalogItem { catalog_id: Some("c".into()), ..item("5") });
    assert_eq!(track.album_id.as_deref(), Some("c"));
}

#[test]
fn artist_albums_are_listed_once_each() {
    let views = vec![vec![item("a"), item("b")], vec![item("b"), item("c")], vec![item("a")]];
    let (name, image, albums) = unique_artist_albums(&item("artist"), &views);
    assert_eq!(name, "name artist");
    assert_eq!(image.as_deref(), Some("https://a/1200x1200bb.jpg"));
    let ids: Vec<&str> = albums.iter().map(|a| a.id.as_str()).collect();
    assert_eq!(ids, vec!["a", "b", "c"]);
}

#[test]
fn album_totals_come_from_tracks() {
    let tracks = vec![item("t1"), CatalogItem { duration_millis: None, ..item("t2") }, item("t3")];
    let (album, songs) = album_summary_with_songs(&item("album"), &tracks).expect("album");
    assert_eq!(songs.len(), 3);
    assert_eq!(album.song_count, Some(3));
    assert_eq!(album.duration, Some(480));
    assert!(album_summary_with_songs(&CatalogItem { name: None, ..item("x") }, &tracks).is_none());
}

#[test]
fn lyrics_target_prefers_title_and_artist() {
    let hits = vec![
        CatalogItem { name: Some("Song".into()), artist_name: Some("Other".into()), ..item("1") },
        CatalogItem { name: Some(" song ".into()), artist_name: Some("IOSYS".into()), ..item("2") },
    ];
    assert_eq!(lyrics_target(&hits, "Song", Some("iosys")).as_deref(), Some("2"));
    assert_eq!(lyrics_target(&hits, "Song", Some("nobody")).as_deref(), Some("1"));
    assert_eq!(lyrics_target(&hits, "Song", None).as_deref(), Some("1"));
    assert_eq!(lyrics_target(&hits, "Missing", None), None);
}

#[test]
fn artwork_descriptors_need_a_template() {
    let d = artwork_descriptor(Some("u/{w}x{h}"), Some(64)).expect("descriptor");
    assert_eq!(d.url, "u/64x64");
    assert_eq!((d.width, d.height), (Some(64), Some(64)));
    assert!(artwork_descriptor(Some(""), None).is_none());
    assert!(artwork_descriptor(None, None).is_none());
}

#[test]
fn playback_tags_fill_artwork_templates() {
    let md = SongPlaybackMetadata {
        song_id: "1".into(),
        artist: "A".into(),
        artist_id: "2".into(),
        album_id: "3".into(),
        album: "B".into(),
        title: "C".into(),
        track_number: 4,
        disc_number: 1,
        artwork: Some(Artwork { url: "x/{w}x{h}".into(), width: Some(5), height: Some(6) }),
        album_artwork: None,
    };
    let tags = playback_track_metadata(md.clone(), Some("[00:00.00]x".into()));
    assert_eq!(tags.artwork.expect("art").url, "x/1200x1200");
    let plain = wrapper_rust::http::playback_track_metadata(md, None);
    assert_eq!(plain.artwork.expect("art").url, "x/{w}x{h}");
}

fn format_parameter(query: &str) -> Option<String> {
    let pairs: Vec<(String, String)> =
        serde_urlencoded::from_str(query).expect("parse auth query");
    pairs.into_iter().find(|(key, _)| key == "f").map(|(_, value)| value)
}

#[test]
fn subsonic_parse_auth_query_defaults_to_xml() {
    let f = format_parameter("u=wrapper&v=1.16.1&c=test&p=secret");
    assert_eq!(f, None);
    assert_eq!(
        ResponseFormat::from_query(f.as_deref()).expect("format"),
        ResponseFormat::Xml
    );
}

#[test]
fn mod_parse_auth_query_defaults_to_xml() {
    let f = format_parameter("u=wrapper&v=1.16.1&c=test&p=secret");
    assert_eq!(f, None);
    assert_eq!(
        ResponseFormat::from_query(f.as_deref()).expect("format"),
        ResponseFormat::Xml
    );
}

#[test]
fn blank_search3_queries_are_refused() {
    let e = wrapper_rust::subsonic::search3_query_error(ResponseFormat::Json, "   ").expect("refused");
    assert_eq!((e.format, e.code, e.message.as_str()), (ResponseFormat::Json, 10, "query is required"));
    assert!(wrapper_rust::subsonic::search3_query_error(ResponseFormat::Xml, " beatles ").is_none());
}
