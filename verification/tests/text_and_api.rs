use wrapper_rust::api::{search3_request, search_cache_ttl, search_entry_fresh};
use wrapper_rust::api::{
    extract_web_token, lyrics_event, lyrics_exhausted, lyrics_request_url,
    prefers_syllable_lyrics, retry_after_ttl, song_playback_metadata_from, AppleMusicApiError,
    Artwork, LyricsAction, LyricsEvent, SearchRequest, SongRecord,
};
use wrapper_rust::text::{parse_u64, trim_str, IntErrorKind};
use wrapper_rust::ttml::{format_lrc_line, node_text, render_node_text, XmlNode};

#[test]
fn unsigned_parse_follows_std() {
    assert_eq!(parse_u64("42"), Ok(42));
    assert_eq!(parse_u64("+42"), Ok(42));
    assert_eq!(parse_u64(""), Err(IntErrorKind::Empty));
    assert_eq!(parse_u64("+"), Err(IntErrorKind::InvalidDigit));
    assert_eq!(parse_u64("-1"), Err(IntErrorKind::InvalidDigit));
    assert_eq!(parse_u64(" 1"), Err(IntErrorKind::InvalidDigit));
    assert_eq!(parse_u64("18446744073709551615"), Ok(u64::MAX));
    assert_eq!(parse_u64("18446744073709551616"), Err(IntErrorKind::PosOverflow));
    assert_eq!(parse_u64("99999999999999999999x"), Err(IntErrorKind::PosOverflow));
    for s in ["0", "7", "007", "1234567890", "x", "1.5", "", "+0"] {
        assert_eq!(parse_u64(s).ok(), s.parse::<u64>().ok());
    }
}

#[test]
fn trim_removes_unicode_whitespace() {
    assert_eq!(trim_str("\u{3000} a b \t\n"), "a b");
    assert_eq!(trim_str("   "), "");
}

#[test]
fn retry_after_ignores_zero_and_whitespace() {
    assert_eq!(retry_after_ttl(Some(" 9 ")), 9);
    assert_eq!(retry_after_ttl(Some("0")), 2);
    assert_eq!(retry_after_ttl(Some("-3")), 2);
}

#[test]
fn search_cache_key_trims_query_and_drops_empty_language() {
    let request = SearchRequest {
        storefront: "jp",
        language: Some(""),
        query: "  IOSYS ",
        search_type: "album",
        limit: 2,
        offset: 4,
    };
    let key = request.cache_key();
    assert_eq!(key.query, "IOSYS");
    assert_eq!(key.language, None);
    assert_eq!(key.storefront, "jp");
    assert_eq!(key.limit, 2);
    assert_eq!(key.offset, 4);
    let request = SearchRequest { language: Some("ja"), ..request };
    assert_eq!(request.cache_key().language.as_deref(), Some("ja"));
}

#[test]
fn plain_language_becomes_l_parameter() {
    assert_eq!(
        lyrics_request_url("/v1/catalog/jp/songs/1/lyrics", Some(" ?ja ")),
        "https://amp-api.music.apple.com/v1/catalog/jp/songs/1/lyrics?l=ja&extend=ttmlLocalizations"
    );
    assert_eq!(
        lyrics_request_url("/p", None),
        "https://amp-api.music.apple.com/p?extend=ttmlLocalizations"
    );
    assert_eq!(
        lyrics_request_url("/p", Some("l=ja&extend=x")),
        "https://amp-api.music.apple.com/p?l=ja&extend=x"
    );
}

#[test]
fn syllable_preference_is_case_insensitive() {
    assert!(prefers_syllable_lyrics(Some("L[LYRICS]=zh")));
    assert!(!prefers_syllable_lyrics(Some("   ")));
    assert!(!prefers_syllable_lyrics(None));
}

#[test]
fn web_token_is_missing_when_absent() {
    match extract_web_token("no token here") {
        Err(AppleMusicApiError::Protocol(m)) => {
            assert_eq!(m, "music.apple.com script did not contain web token")
        }
        other => panic!("unexpected {other:?}"),
    }
}

#[test]
fn song_metadata_needs_album_and_artist() {
    let record = SongRecord {
        artist_name: "IOSYS".into(),
        album_name: "miko BEST".into(),
        name: "track".into(),
        track_number: 17,
        disc_number: 1,
        artwork: None,
        album: Some(("1480785394".into(), Some(Artwork { url: "u/{w}".into(), width: Some(10), height: None }))),
        artist_id: Some("287018328".into()),
    };
    let md = song_playback_metadata_from("1480785411", Some(record.clone())).expect("metadata");
    assert_eq!(md.song_id, "1480785411");
    assert_eq!(md.album_id, "1480785394");
    assert_eq!(md.artist_id, "287018328");
    assert_eq!(md.track_number, 17);
    assert_eq!(md.album_artwork.expect("album art").width, Some(10));

    match song_playback_metadata_from("9", None) {
        Err(AppleMusicApiError::Message(m)) => assert_eq!(m, "song 9 did not return any data"),
        other => panic!("unexpected {other:?}"),
    }
    match song_playback_metadata_from("9", Some(SongRecord { album: None, ..record.clone() })) {
        Err(AppleMusicApiError::Message(m)) => assert_eq!(m, "song 9 is missing album metadata"),
        other => panic!("unexpected {other:?}"),
    }
    match song_playback_metadata_from("9", Some(SongRecord { artist_id: None, ..record })) {
        Err(AppleMusicApiError::Message(m)) => assert_eq!(m, "song 9 is missing artist metadata"),
        other => panic!("unexpected {other:?}"),
    }
}

#[test]
fn lyrics_endpoints_fall_through_not_found() {
    let mut last = None;
    assert!(matches!(lyrics_event(&mut last, LyricsEvent::Empty), LyricsAction::TryNext));
    let nf = AppleMusicApiError::UpstreamHttp { status: 404, message: "nf".into(), retry_after: None };
    assert!(matches!(lyrics_event(&mut last, LyricsEvent::NotFound(nf)), LyricsAction::TryNext));
    assert!(matches!(last, Some(AppleMusicApiError::UpstreamHttp { status: 404, .. })));
    assert!(matches!(lyrics_exhausted(last), AppleMusicApiError::UpstreamHttp { status: 404, .. }));
    match lyrics_exhausted(None) {
        AppleMusicApiError::Message(m) => assert_eq!(m, "failed to get lyrics"),
        other => panic!("unexpected {other:?}"),
    }
    let mut last = None;
    match lyrics_event(&mut last, LyricsEvent::Ttml("<tt/>".into())) {
        LyricsAction::Convert(t) => assert_eq!(t, "<tt/>"),
        other => panic!("unexpected {other:?}"),
    }
}

fn text(s: &str) -> XmlNode {
    XmlNode::Text(s.into())
}

fn element(name: &str, children: Vec<XmlNode>) -> XmlNode {
    XmlNode::Element { name: name.into(), attributes: Vec::new(), children }
}

fn span(s: &str) -> XmlNode {
    element("span", vec![text(s)])
}

#[test]
fn syllable_spans_are_concatenated() {
    let p = element(
        "p",
        vec![
            text("\n                    "),
            span("摇曳海中"),
            span("扁舟 "),
            span("或穿越丛林的风"),
            text("\n                  "),
        ],
    );
    assert_eq!(node_text(&p), "摇曳海中扁舟 或穿越丛林的风");
    assert_eq!(format_lrc_line(0, 20, 2, &node_text(&p)), "[00:20.02]摇曳海中扁舟 或穿越丛林的风");
}

#[test]
fn duplicate_nested_branches_render_once() {
    let branch = || {
        element(
            "span",
            vec![text("\n  "), span("摇曳海中"), span("扁舟 "), span("或穿越丛林的风"), text("\n  ")],
        )
    };
    let p = element("p", vec![text("\n  "), branch(), text("\n  "), branch(), text("\n ")]);
    assert_eq!(node_text(&p), "摇曳海中扁舟 或穿越丛林的风");
}

#[test]
fn direct_text_repeated_by_branches_is_kept_once() {
    let p = element("p", vec![text("hello "), element("span", vec![span("hello")])]);
    assert_eq!(render_node_text(&p), "hello");
    let p = element("p", vec![text("a"), span("b")]);
    assert_eq!(render_node_text(&p), "ab");
    assert_eq!(render_node_text(&text("x")), "");
}

#[test]
fn lrc_lines_pad_to_two_digits() {
    assert_eq!(format_lrc_line(3, 5, 7, "x"), "[03:05.07]x");
    assert_eq!(format_lrc_line(123, 59, 99, ""), "[123:59.99]");
}

#[test]
fn search_outcomes_are_cached_by_kind() {
    assert_eq!(search_cache_ttl(&Ok(())), Some(15));
    let limited = |retry_after: Option<&str>| {
        Err(AppleMusicApiError::UpstreamHttp {
            status: 429,
            message: "apple api request failed: 429 Too Many Requests".into(),
            retry_after: retry_after.map(String::from),
        })
    };
    assert_eq!(search_cache_ttl(&limited(Some("7"))), Some(7));
    assert_eq!(search_cache_ttl(&limited(Some("soon"))), Some(2));
    assert_eq!(search_cache_ttl(&limited(None)), Some(2));
    let failed = Err(AppleMusicApiError::UpstreamHttp { status: 500, message: "x".into(), retry_after: None });
    assert_eq!(search_cache_ttl(&failed), None);
    assert_eq!(search_cache_ttl(&Err(AppleMusicApiError::Message("x".into()))), None);
}

#[test]
fn search3_requests_default_and_clamp_their_pages() {
    let r = search3_request("us", Some("en-US"), "beatles", "album", None, None);
    assert_eq!((r.storefront, r.language, r.query, r.search_type, r.limit, r.offset), ("us", Some("en-US"), "beatles", "album", 20, 0));
    let r = search3_request("jp", None, "q", "song", Some(500), Some(40));
    assert_eq!((r.limit, r.offset), (50, 40));
    assert_eq!(search3_request("jp", None, "q", "song", Some(0), None).limit, 1);
}

#[test]
fn cached_searches_stay_fresh_for_their_time() {
    assert!(search_entry_fresh(14_999, 15));
    assert!(!search_entry_fresh(15_000, 15));
    assert!(!search_entry_fresh(0, 0));
    assert!(search_entry_fresh(u64::MAX - 1, u64::MAX));
}

#[test]
fn catalog_errors_describe_themselves() {
    assert_eq!(AppleMusicApiError::Message("m".into()).describe(), "m");
    assert_eq!(AppleMusicApiError::Http("timeout".into()).describe(), "http client error: timeout");
    assert_eq!(AppleMusicApiError::Json("eof".into()).describe(), "json error: eof");
    assert_eq!(AppleMusicApiError::Xml("bad".into()).describe(), "xml error: bad");
    assert_eq!(AppleMusicApiError::Protocol("p".into()).describe(), "protocol error: p");
    let upstream = AppleMusicApiError::UpstreamHttp { status: 429, message: "slow down".into(), retry_after: None };
    assert_eq!(upstream.describe(), "slow down");
}
