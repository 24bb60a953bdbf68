use std::time::Duration;

use wrapper_rust::api::{
    extract_index_js_path, extract_web_token, lyrics_endpoints, lyrics_request_url,
    retry_after_ttl,
};
use wrapper_rust::config::{DeviceInfo, BUILD_VERSION};
use wrapper_rust::http::AppError;
use wrapper_rust::mp4::{iter_boxes, make_adts_header};
use wrapper_rust::subsonic::{
    escape_xml_attr, lyrics_not_found_as_empty, requested_codec, validate_auth_credentials,
    AuthQuery, ResponseFormat,
};

#[test]
fn extract_index_js_path_finds_music_web_bundle() {
    let homepage = r#"<script type="module" src="/assets/index~en-US.abcd1234.js"></script>"#;
    assert_eq!(
        extract_index_js_path(homepage).expect("index js path"),
        "/assets/index~en-US.abcd1234.js"
    );
}

#[test]
fn extract_web_token_finds_jwt_like_value() {
    let script = r#"const token="eyJh.fake.web.token";"#;
    assert_eq!(
        extract_web_token(script).expect("web token"),
        "eyJh.fake.web.token"
    );
}

#[test]
fn client_retry_after_ttl_uses_numeric_header_value() {
    assert_eq!(
        Duration::from_secs(retry_after_ttl(Some("7"))),
        Duration::from_secs(7)
    );
}

#[test]
fn client_retry_after_ttl_falls_back_for_invalid_value() {
    assert_eq!(
        Duration::from_secs(retry_after_ttl(Some("Wed, 21 Oct 2015 07:28:00 GMT"))),
        Duration::from_secs(2)
    );
    assert_eq!(Duration::from_secs(retry_after_ttl(None)), Duration::from_secs(2));
}

#[test]
fn search_retry_after_ttl_uses_numeric_header_value() {
    assert_eq!(
        Duration::from_secs(retry_after_ttl(Some("7"))),
        Duration::from_secs(7)
    );
}

#[test]
fn search_retry_after_ttl_falls_back_for_invalid_value() {
    assert_eq!(
        Duration::from_secs(retry_after_ttl(Some("Wed, 21 Oct 2015 07:28:00 GMT"))),
        Duration::from_secs(2)
    );
    assert_eq!(Duration::from_secs(retry_after_ttl(None)), Duration::from_secs(2));
}

#[test]
fn lyrics_request_url_preserves_structured_language_params() {
    let url = lyrics_request_url(
        "/v1/catalog/cn/songs/1648869428/syllable-lyrics",
        Some("l[lyrics]=zh-hans-cn&l[script]=zh-Hans"),
    );
    assert_eq!(
        url,
        "https://amp-api.music.apple.com/v1/catalog/cn/songs/1648869428/syllable-lyrics?l[lyrics]=zh-hans-cn&l[script]=zh-Hans&extend=ttmlLocalizations"
    );
}

#[test]
fn lyrics_endpoints_prefers_syllable_when_language_requests_lyrics_locale() {
    assert_eq!(
        lyrics_endpoints(Some("l[lyrics]=zh-hans-cn&l[script]=zh-Hans")),
        ["syllable-lyrics", "lyrics"]
    );
    assert_eq!(
        lyrics_endpoints(Some("l%5Blyrics%5D=zh-hans-cn&l%5Bscript%5D=zh-Hans")),
        ["syllable-lyrics", "lyrics"]
    );
}

#[test]
fn lyrics_endpoints_default_to_standard_lyrics() {
    assert_eq!(lyrics_endpoints(None), ["lyrics", "syllable-lyrics"]);
    assert_eq!(lyrics_endpoints(Some("ja")), ["lyrics", "syllable-lyrics"]);
}

#[test]
fn parses_expected_shape() {
    let info =
        DeviceInfo::parse("Music/4.9/Android/10/Samsung S9/7663313/en-US/en-US/dc28071e981c439e")
            .expect("device info should parse");
    assert_eq!(info.client_identifier, "Music");
    assert_eq!(info.android_id, "dc28071e981c439e");
}

#[test]
fn rejects_short_shape() {
    assert!(DeviceInfo::parse("Music/4.9/Android").is_err());
}

#[test]
fn iter_boxes_reads_simple_payload() {
    let mut data = Vec::new();
    data.extend_from_slice(&8u32.to_be_bytes());
    data.extend_from_slice(b"ftyp");
    data.extend_from_slice(&12u32.to_be_bytes());
    data.extend_from_slice(b"free");
    data.extend_from_slice(&[1, 2, 3, 4]);

    let boxes = iter_boxes(&data, 0, data.len()).expect("iter_boxes should parse");
    assert_eq!(boxes.len(), 2);
    assert_eq!(boxes[0].box_type, *b"ftyp");
    assert_eq!(boxes[1].box_type, *b"free");
    assert_eq!(boxes[1].size, 12);
}

#[test]
fn adts_header_matches_expected_bits() {
    let header = make_adts_header(1024, 44_100, 2).expect("adts header should build");
    assert_eq!(header[0], 0xFF);
    assert_eq!(header[1], 0xF1);
}

#[test]
fn account_build_version_uses_short_lowercase_git_prefix() {
    assert_eq!(BUILD_VERSION.len(), 8);
    assert!(BUILD_VERSION.chars().all(|ch| matches!(ch, '0'..='9' | 'a'..='f')));
}

#[test]
fn response_build_version_uses_short_lowercase_git_prefix() {
    assert_eq!(BUILD_VERSION.len(), 8);
    assert!(BUILD_VERSION.chars().all(|ch| matches!(ch, '0'..='9' | 'a'..='f')));
}

#[test]
fn subsonic_validate_auth_accepts_plain_and_token_passwords() {
    validate_auth_credentials(
        "wrapper",
        "secret",
        &AuthQuery {
            u: Some("wrapper".into()),
            p: Some("secret".into()),
            t: None,
            s: None,
            v: Some("1.16.1".into()),
            c: Some("client".into()),
            f: Some("json".into()),
        },
    )
    .expect("plain auth");

    validate_auth_credentials(
        "wrapper",
        "secret",
        &AuthQuery {
            u: Some("wrapper".into()),
            p: None,
            t: Some(format!("{:x}", md5::compute("secret123"))),
            s: Some("123".into()),
            v: Some("1.16.1".into()),
            c: Some("client".into()),
            f: Some("json".into()),
        },
    )
    .expect("token auth");
}

#[test]
fn mod_validate_auth_accepts_plain_and_token_passwords() {
    validate_auth_credentials(
        "wrapper",
        "secret",
        &AuthQuery {
            u: Some("wrapper".into()),
            p: Some("secret".into()),
            t: None,
            s: None,
            v: Some("1.16.1".into()),
            c: Some("client".into()),
            f: Some("json".into()),
        },
    )
    .expect("plain auth");

    validate_auth_credentials(
        "wrapper",
        "secret",
        &AuthQuery {
            u: Some("wrapper".into()),
            p: None,
            t: Some(format!("{:x}", md5::compute("secret123"))),
            s: Some("123".into()),
            v: Some("1.16.1".into()),
            c: Some("client".into()),
            f: Some("json".into()),
        },
    )
    .expect("token auth");
}

#[test]
fn subsonic_requested_codec_prefers_aac_when_bitrate_is_limited() {
    assert_eq!(
        requested_codec(Some(320), None, ResponseFormat::Json).expect("codec"),
        Some("aac".into())
    );
    assert_eq!(
        requested_codec(None, Some("alac"), ResponseFormat::Json).expect("codec"),
        Some("alac".into())
    );
}

#[test]
fn mod_requested_codec_prefers_aac_when_bitrate_is_limited() {
    assert_eq!(
        requested_codec(Some(320), None, ResponseFormat::Json).expect("codec"),
        Some("aac".into())
    );
    assert_eq!(
        requested_codec(None, Some("alac"), ResponseFormat::Json).expect("codec"),
        Some("alac".into())
    );
}

#[test]
fn requested_codec_keeps_original_stream_when_max_bitrate_is_zero() {
    assert_eq!(
        requested_codec(Some(0), None, ResponseFormat::Json).expect("codec"),
        None
    );
}

#[test]
fn lyrics_not_found_maps_to_empty_payload() {
    let lyrics = lyrics_not_found_as_empty(
        AppError::UpstreamHttp {
            status: 404,
            message: "apple api request failed: 404 Not Found".into(),
            retry_after: None,
        },
        ResponseFormat::Json,
    )
    .expect("empty lyrics");
    assert!(lyrics.is_empty());
}

#[test]
fn subsonic_xml_attr_escape_handles_special_characters() {
    assert_eq!(escape_xml_attr("a&b\"<>'"), "a&amp;b&quot;&lt;&gt;&apos;");
}

#[test]
fn mod_xml_attr_escape_handles_special_characters() {
    assert_eq!(escape_xml_attr("a&b\"<>'"), "a&amp;b&quot;&lt;&gt;&apos;");
}
