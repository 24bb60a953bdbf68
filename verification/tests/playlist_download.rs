use wrapper_rust::download::{
    assemble_sample, check_segment_length, choose_remux_strategy, decrypt_prefix_len,
    ffmpeg_remux_args, mp4box_remux_args, playback_relative_path, probe_codec_label,
    range_header, sanitized_variant_stem, splice_sample, working_file_name, RemuxStrategy,
};
use wrapper_rust::playlist::{
    attr_get, choose_variant, parse_attrs, parse_byterange, parse_master_playlist,
    parse_media_playlist, resolve_url, DownloadError, Variant,
};

const MASTER: &str = "#EXTM3U\n\
#EXT-X-STREAM-INF:BANDWIDTH=256000,AVERAGE-BANDWIDTH=250000,CODECS=\"mp4a.40.2\"\n\
aac/stream.m3u8\n\
#EXT-X-STREAM-INF:BANDWIDTH=1500000,AVERAGE-BANDWIDTH=1400000,CODECS=\"alac\"\n\
alac/stream.m3u8\n";

const MEDIA: &str = "#EXTM3U\n\
#EXT-X-KEY:METHOD=SAMPLE-AES,URI=\"skd://key1\"\n\
#EXT-X-MAP:URI=\"init.mp4\",BYTERANGE=\"100@0\"\n\
#EXTINF:10.0,\n\
#EXT-X-BYTERANGE:500@100\n\
seg.mp4\n\
#EXTINF:5.5,\n\
#EXT-X-BYTERANGE:300\n\
seg.mp4\n";

fn protocol_message(e: DownloadError) -> String {
    match e {
        DownloadError::Protocol(m) => m,
        DownloadError::Message(m) => panic!("expected a protocol error, got message {m}"),
    }
}

fn plain_message(e: DownloadError) -> String {
    match e {
        DownloadError::Message(m) => m,
        DownloadError::Protocol(m) => panic!("expected a plain error, got protocol {m}"),
    }
}

fn variant(uri: &str, average: u64, peak: u64, codecs: &str) -> Variant {
    Variant {
        uri: uri.to_string(),
        average_bandwidth: average,
        bandwidth: peak,
        codecs: codecs.to_string(),
    }
}

#[test]
fn attribute_lists_strip_quotes_and_keep_quoted_commas() {
    let attrs = parse_attrs("BANDWIDTH=256000,CODECS=\"mp4a.40.2,alac\",URI=\"a.m3u8\"");
    assert_eq!(attrs.len(), 3);
    assert_eq!(attrs[0], ("BANDWIDTH".to_string(), "256000".to_string()));
    assert_eq!(attrs[1], ("CODECS".to_string(), "mp4a.40.2,alac".to_string()));
    assert_eq!(attr_get(&attrs, "URI"), Some("a.m3u8".to_string()));
    assert_eq!(attr_get(&attrs, "MISSING"), None);
}

#[test]
fn repeated_attribute_keeps_the_last_value() {
    let attrs = parse_attrs("A=1,A=2");
    assert_eq!(attr_get(&attrs, "A"), Some("2".to_string()));
}

#[test]
fn byterange_reads_length_and_offset() {
    assert_eq!(parse_byterange("500@100", None).unwrap(), (500, 100));
    assert_eq!(parse_byterange(" 300 ", Some(600)).unwrap(), (300, 600));
}

#[test]
fn byterange_without_offset_needs_a_previous_range() {
    let e = parse_byterange("300", None).unwrap_err();
    assert_eq!(
        protocol_message(e),
        "segment byterange omitted offset before any previous range"
    );
}

#[test]
fn byterange_with_bad_numbers_is_refused() {
    let e = parse_byterange("x@1", None).unwrap_err();
    assert_eq!(protocol_message(e), "invalid byte-range length: invalid digit found in string");
    let e = parse_byterange("1@", None).unwrap_err();
    assert_eq!(
        protocol_message(e),
        "invalid byte-range offset: cannot parse integer from empty string"
    );
}

#[test]
fn relative_uris_resolve_against_the_playlist() {
    assert_eq!(
        resolve_url("https://example.com/a/master.m3u8", "b/c.m3u8").unwrap(),
        "https://example.com/a/b/c.m3u8"
    );
    let e = resolve_url("not a url", "x").unwrap_err();
    assert!(protocol_message(e).starts_with("invalid playlist base url: "));
}

#[test]
fn master_playlist_lists_variants_in_order() {
    let vs = parse_master_playlist("https://example.com/m/master.m3u8", MASTER).unwrap();
    assert_eq!(vs.len(), 2);
    assert_eq!(vs[0].uri, "https://example.com/m/aac/stream.m3u8");
    assert_eq!(vs[0].average_bandwidth, 250000);
    assert_eq!(vs[0].bandwidth, 256000);
    assert_eq!(vs[0].codecs, "mp4a.40.2");
    assert_eq!(vs[1].uri, "https://example.com/m/alac/stream.m3u8");
    assert_eq!(vs[1].codec_label(), "ALAC");
    assert_eq!(vs[0].codec_label(), "AAC");
}

#[test]
fn master_playlist_without_variants_is_refused() {
    let e = parse_master_playlist("https://example.com/m.m3u8", "#EXTM3U\n").unwrap_err();
    assert_eq!(plain_message(e), "master playlist did not contain any variants");
}

#[test]
fn variant_average_falls_back_to_peak_bandwidth() {
    let text = "#EXT-X-STREAM-INF:BANDWIDTH=900,CODECS=\"alac\"\nx.m3u8\n";
    let vs = parse_master_playlist("https://example.com/m.m3u8", text).unwrap();
    assert_eq!(vs[0].average_bandwidth, 900);
    assert_eq!(vs[0].bandwidth, 900);
}

#[test]
fn choose_variant_prefers_alac_then_falls_back() {
    let vs = vec![
        variant("aac", 250, 256, "mp4a.40.2"),
        variant("alac", 1400, 1500, "alac"),
    ];
    assert_eq!(choose_variant(&vs, None).unwrap().uri, "alac");
    assert_eq!(choose_variant(&vs, Some("AAC ")).unwrap().uri, "aac");
    assert_eq!(choose_variant(&vs, Some("auto")).unwrap().uri, "alac");
    let only_aac = vec![variant("aac", 250, 256, "mp4a.40.2")];
    assert_eq!(choose_variant(&only_aac, Some("alac")).unwrap().uri, "aac");
}

#[test]
fn choose_variant_picks_the_last_of_equal_rank() {
    let vs = vec![variant("first", 10, 10, "alac"), variant("second", 10, 10, "alac")];
    assert_eq!(choose_variant(&vs, None).unwrap().uri, "second");
    let vs = vec![variant("peak", 10, 20, "alac"), variant("low", 10, 15, "alac")];
    assert_eq!(choose_variant(&vs, None).unwrap().uri, "peak");
}

#[test]
fn choose_variant_refuses_unknown_codecs_and_empty_lists() {
    let vs = vec![variant("a", 1, 1, "alac")];
    let e = choose_variant(&vs, Some("FLAC")).unwrap_err();
    assert_eq!(protocol_message(e), "unsupported codec selection: flac");
    let none: Vec<Variant> = Vec::new();
    let e = choose_variant(&none, None).unwrap_err();
    assert_eq!(plain_message(e), "failed to choose a playlist variant");
}

#[test]
fn media_playlist_reads_init_and_segments() {
    let p = parse_media_playlist("https://example.com/a/media.m3u8", MEDIA).unwrap();
    assert_eq!(p.init.uri, "https://example.com/a/init.mp4");
    assert_eq!((p.init.length, p.init.offset), (100, 0));
    assert_eq!(p.segments.len(), 2);
    let s0 = &p.segments[0];
    assert_eq!(s0.index, 0);
    assert_eq!(s0.uri, "https://example.com/a/seg.mp4");
    assert_eq!((s0.length, s0.offset), (500, 100));
    assert_eq!(s0.duration, "10.0");
    assert_eq!(s0.key_uri, "skd://key1");
    let s1 = &p.segments[1];
    assert_eq!(s1.index, 1);
    assert_eq!((s1.length, s1.offset), (300, 600));
    assert_eq!(s1.duration, "5.5");
}

#[test]
fn media_playlist_needs_a_key_before_segments() {
    let text = "#EXT-X-MAP:URI=\"i.mp4\",BYTERANGE=\"1@0\"\n#EXTINF:1,\n#EXT-X-BYTERANGE:1@1\ns.mp4\n";
    let e = parse_media_playlist("https://example.com/m.m3u8", text).unwrap_err();
    assert_eq!(protocol_message(e), "segment appeared before any EXT-X-KEY");
}

#[test]
fn media_playlist_needs_an_init_map() {
    let text = "#EXT-X-KEY:URI=\"k\"\n#EXTINF:1,\n#EXT-X-BYTERANGE:1@1\ns.mp4\n";
    let e = parse_media_playlist("https://example.com/m.m3u8", text).unwrap_err();
    assert_eq!(protocol_message(e), "media playlist did not include EXT-X-MAP");
}

#[test]
fn media_playlist_refuses_bad_durations() {
    let text = "#EXT-X-KEY:URI=\"k\"\n#EXTINF:abc,\n";
    let e = parse_media_playlist("https://example.com/m.m3u8", text).unwrap_err();
    assert_eq!(protocol_message(e), "invalid segment duration: invalid float literal");
}

#[test]
fn remux_strategy_depends_on_codec_and_tool() {
    assert_eq!(choose_remux_strategy(true, true), RemuxStrategy::Ffmpeg);
    assert_eq!(choose_remux_strategy(false, false), RemuxStrategy::Ffmpeg);
    assert_eq!(choose_remux_strategy(false, true), RemuxStrategy::Mp4Box);
}

#[test]
fn remux_arguments_name_input_and_output() {
    assert_eq!(
        ffmpeg_remux_args("in.mp4", "out.m4a"),
        vec!["-y", "-loglevel", "error", "-i", "in.mp4", "-c", "copy", "out.m4a"]
    );
    assert_eq!(
        mp4box_remux_args("in.mp4", "out.m4a"),
        vec!["-quiet", "-add", "in.mp4", "-new", "out.m4a"]
    );
}

#[test]
fn probe_labels_known_codecs() {
    assert_eq!(probe_codec_label("alac"), "ALAC");
    assert_eq!(probe_codec_label("aac"), "AAC");
    assert_eq!(probe_codec_label("opus"), "opus");
}

#[test]
fn decrypted_prefix_is_block_aligned() {
    assert_eq!(decrypt_prefix_len(33), 32);
    assert_eq!(decrypt_prefix_len(15), 0);
    assert_eq!(decrypt_prefix_len(48), 48);
}

#[test]
fn samples_are_assembled_and_spliced() {
    let sample = [1u8, 2, 3, 4, 5];
    assert_eq!(assemble_sample(vec![9, 9], &sample), vec![9, 9, 3, 4, 5]);
    let mut fragment = vec![0u8; 6];
    splice_sample(&mut fragment, 2, 4, &[7, 8]).unwrap();
    assert_eq!(fragment, vec![0, 0, 7, 8, 0, 0]);
    let e = splice_sample(&mut fragment, 0, 3, &[1]).unwrap_err();
    assert_eq!(plain_message(e), "decrypt sample length mismatch");
    assert_eq!(fragment, vec![0, 0, 7, 8, 0, 0]);
}

#[test]
fn range_header_is_inclusive() {
    assert_eq!(range_header(0, 10), "bytes=0-9");
    assert_eq!(range_header(100, 1), "bytes=100-100");
}

#[test]
fn segment_length_mismatch_is_reported() {
    assert!(check_segment_length(5, 0, 5).is_ok());
    let e = check_segment_length(4, 2, 5).unwrap_err();
    assert_eq!(plain_message(e), "downloaded 4 bytes for segment 2, expected 5");
}

#[test]
fn cache_and_working_file_names() {
    assert_eq!(playback_relative_path("alb", "song"), "cache/albums/alb/song.m4a");
    assert_eq!(working_file_name("123", "P1", ".mp4"), "123_P1.mp4");
}

#[test]
fn variant_stems_are_sanitized() {
    assert_eq!(
        sanitized_variant_stem("https://example.com/x/P123_A+B.m3u8?x=1"),
        "P123_A_B"
    );
    assert_eq!(sanitized_variant_stem("not a url"), "track");
    assert_eq!(sanitized_variant_stem("https://example.com/"), "track");
    assert_eq!(sanitized_variant_stem("https://example.com/a/..x..m3u8"), "x");
}

#[test]
fn lyrics_are_cached_under_the_song_id() {
    assert_eq!(wrapper_rust::download::lyrics_cache_relative_path("123"), "lyrics/123.lrc");
}

#[test]
fn init_segment_must_match_its_byterange() {
    assert!(wrapper_rust::download::check_init_length(10, 10).is_ok());
    match wrapper_rust::download::check_init_length(9, 10) {
        Err(wrapper_rust::playlist::DownloadError::Message(m)) => {
            assert_eq!(m, "downloaded init segment length does not match playlist byterange")
        }
        other => panic!("unexpected {other:?}"),
    }
}
