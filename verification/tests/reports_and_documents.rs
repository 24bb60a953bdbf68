use wrapper_rust::catalog::first_artwork;
use wrapper_rust::download::{
    aac_stream_params, command_failure_line, detected_codec_label, tool_version_line, ProbeStream,
};
use wrapper_rust::http::AppError;
use wrapper_rust::subsonic::{SubsonicAlbum, SubsonicArtist, SubsonicSong};
use wrapper_rust::subsonic_xml::{
    album_with_songs_xml, artist_with_albums_xml, cache_file_name, lyrics_xml, music_folders_xml,
    search_result3_xml, subsonic_error_xml_document, subsonic_ok_xml_document, LICENSE_XML,
};

fn stream(kind: Option<&str>, name: Option<&str>, rate: Option<&str>, channels: Option<u64>) -> ProbeStream {
    ProbeStream {
        codec_type: kind.map(str::to_string),
        codec_name: name.map(str::to_string),
        sample_rate: rate.map(str::to_string),
        channels,
    }
}

#[test]
fn codec_label_comes_from_the_first_named_audio_stream() {
    let streams = vec![
        stream(Some("video"), Some("mjpeg"), None, None),
        stream(Some("audio"), None, None, None),
        stream(Some("audio"), Some("alac"), None, None),
    ];
    assert_eq!(detected_codec_label(&streams), "ALAC");
    assert_eq!(detected_codec_label(&vec![stream(Some("audio"), Some("aac"), None, None)]), "AAC");
    assert_eq!(detected_codec_label(&vec![stream(Some("audio"), Some("flac"), None, None)]), "flac");
    assert_eq!(detected_codec_label(&vec![]), "unknown");
}

#[test]
fn aac_parameters_come_from_the_first_audio_stream() {
    let streams = vec![
        stream(Some("video"), None, Some("1"), Some(1)),
        stream(Some("audio"), Some("aac"), Some("44100"), Some(258)),
    ];
    assert_eq!(aac_stream_params(&streams).unwrap(), (44100, 2));
    let cases: Vec<(Vec<ProbeStream>, bool, &str)> = vec![
        (vec![], false, "ffprobe did not return an audio stream"),
        (vec![stream(Some("audio"), None, None, Some(2))], false, "ffprobe audio stream omitted sample_rate"),
        (
            vec![stream(Some("audio"), None, Some("fast"), Some(2))],
            true,
            "invalid AAC sample rate: invalid digit found in string",
        ),
        (vec![stream(Some("audio"), None, Some("48000"), None)], false, "ffprobe audio stream omitted channels"),
    ];
    for (streams, protocol, message) in cases {
        match (aac_stream_params(&streams).unwrap_err(), protocol) {
            (AppError::Protocol(m), true) | (AppError::Message(m), false) => assert_eq!(m, message),
            (other, _) => panic!("unexpected {other:?}"),
        }
    }
}

#[test]
fn tool_messages_take_the_first_nonblank_line() {
    assert_eq!(
        command_failure_line(b"\n  \n  bad input  \nmore", b"out"),
        Some("bad input".to_string())
    );
    assert_eq!(command_failure_line(b"   ", b"\r\n from stdout\n"), Some("from stdout".to_string()));
    assert_eq!(command_failure_line(b"", b" \n"), None);
    assert_eq!(tool_version_line(b" ffmpeg version 6.1 \nbuilt with gcc"), Some("ffmpeg version 6.1".to_string()));
    assert_eq!(tool_version_line(b"\nffmpeg"), None);
    assert_eq!(tool_version_line(b""), None);
}

#[test]
fn cover_art_uses_the_first_template_found() {
    let templates = vec![None, Some(String::new()), Some("a/{w}x{h}.jpg".to_string()), Some("b".to_string())];
    let d = first_artwork(&templates, Some(300)).expect("artwork");
    assert_eq!(d.url, "a/300x300.jpg");
    assert_eq!((d.width, d.height), (Some(300), Some(300)));
    assert!(first_artwork(&vec![None, Some(String::new())], None).is_none());
}

fn artist() -> SubsonicArtist {
    SubsonicArtist {
        id: "ar<1>".into(),
        name: "A & B".into(),
        cover_art: Some("ar1".into()),
        artist_image_url: Some("http://x/y?a=1&b=2".into()),
        album_count: Some(1),
    }
}

fn album() -> SubsonicAlbum {
    SubsonicAlbum {
        id: "al1".into(),
        name: "Record".into(),
        artist: "Band".into(),
        artist_id: None,
        cover_art: None,
        song_count: Some(1),
        duration: Some(200),
        year: Some(2020),
        created: None,
        genre: None,
    }
}

fn song() -> SubsonicSong {
    SubsonicSong {
        id: "s1".into(),
        parent: None,
        title: "Tune".into(),
        album: None,
        artist: "Band".into(),
        artist_id: None,
        cover_art: None,
        duration: None,
        track: Some(1),
        disc_number: None,
        year: None,
        created: None,
        genre: None,
        suffix: "m4a",
        content_type: "audio/mp4",
        album_id: None,
    }
}

#[test]
fn response_envelopes_carry_version_and_status() {
    let prefix = format!(
        "<?xml version=\"1.0\" encoding=\"UTF-8\"?><subsonic-response xmlns=\"http://subsonic.org/restapi\" status=\"ok\" version=\"1.16.1\" type=\"wrapper-rs\" serverVersion=\"{}\">",
        "0a1b2c3d"
    );
    assert_eq!(subsonic_ok_xml_document(LICENSE_XML, "0a1b2c3d"), format!("{prefix}<license valid=\"true\"/></subsonic-response>"));
    let failed = subsonic_error_xml_document(40, "bad <auth>", wrapper_rust::config::BUILD_VERSION);
    assert!(failed.contains("serverVersion=\"00000000\""));
    assert!(failed.contains("status=\"failed\""));
    assert!(failed.ends_with("<error code=\"40\" message=\"bad &lt;auth&gt;\"/></subsonic-response>"));
}

#[test]
fn payload_documents_nest_their_elements() {
    assert_eq!(
        search_result3_xml(&vec![], &vec![album()], &vec![]),
        "<searchResult3><album id=\"al1\" name=\"Record\" artist=\"Band\" musicFolderId=\"1\" songCount=\"1\" duration=\"200\" year=\"2020\"/></searchResult3>"
    );
    assert_eq!(
        artist_with_albums_xml(&artist(), &vec![]),
        "<artist id=\"ar&lt;1&gt;\" name=\"A &amp; B\" albumCount=\"1\" artistImageUrl=\"http://x/y?a=1&amp;b=2\"></artist>"
    );
    assert_eq!(
        album_with_songs_xml(&album(), &vec![song()]),
        "<album id=\"al1\" name=\"Record\" artist=\"Band\" musicFolderId=\"1\" songCount=\"1\" duration=\"200\" year=\"2020\"><song id=\"s1\" isDir=\"false\" title=\"Tune\" artist=\"Band\" suffix=\"m4a\" contentType=\"audio/mp4\" musicFolderId=\"1\" track=\"1\"/></album>"
    );
    assert_eq!(
        lyrics_xml("A\"B", "T", "x < y\n"),
        "<lyrics artist=\"A&quot;B\" title=\"T\">x &lt; y\n</lyrics>"
    );
    assert_eq!(
        music_folders_xml(),
        "<musicFolders><musicFolder id=\"1\" name=\"Apple Music\"/></musicFolders>"
    );
    assert_eq!(cache_file_name("cache/albums/a/s.m4a"), "albums/a/s.m4a");
    assert_eq!(cache_file_name("other/s.m4a"), "other/s.m4a");
}
