use wrapper_rust::config::{
    commit_prefix, decrypt_inflight, decrypt_workers, normalize_api_token, normalize_storefront,
    workers_for_cpus, build_version,
    resolve_language, resolve_storefront, ConfigError, DeviceInfo, DeviceInfoError, BUILD_VERSION,
};
use wrapper_rust::control::{state_name, AppState, ControlResponse};
use wrapper_rust::daemon_logging;
use wrapper_rust::http::{
    auth_from, check_bearer, conflict_from, default_search_limit, default_search_type,
    health_status, playback_redirect_target, search_params_error, ApiError, AppError,
    AuthResponse, BinaryHealth, ToolHealthReport,
};
use wrapper_rust::layout::{is_short_mark, short_len, short_string_text, ShortString};
use wrapper_rust::logging::{
    android_log_level, android_log_message, effective_level, emit_android_log, format_log_line,
    should_emit,
};
use wrapper_rust::ui::{asset_headers, asset_route, cache_control_for, normalized_asset_path, AssetRoute};

#[test]
fn device_info_reads_nine_fields() {
    let d = DeviceInfo::parse("c/v/p/pv/m/b/loc/lang/id").unwrap();
    assert_eq!(d.client_identifier, "c");
    assert_eq!(d.device_model, "m");
    assert_eq!(d.android_id, "id");
    match DeviceInfo::parse("a/b") {
        Err(DeviceInfoError::InvalidDeviceInfo(m)) => {
            assert_eq!(m, "expected 9 slash-separated fields, got 2")
        }
        Ok(_) => panic!("two fields must be refused"),
    }
}

#[test]
fn storefront_setting_is_two_letters_or_us() {
    assert_eq!(normalize_storefront(" JP ".to_string()), "jp");
    assert_eq!(normalize_storefront("usa".to_string()), "us");
    assert_eq!(normalize_storefront(String::new()), "us");
}

#[test]
fn api_token_is_trimmed_and_required() {
    assert_eq!(normalize_api_token("  tok \n".to_string()).unwrap(), "tok");
    match normalize_api_token("   ".to_string()) {
        Err(ConfigError::Message(m)) => assert_eq!(m, "api token cannot be empty; pass --api-token"),
        Ok(_) => panic!("a blank token must be refused"),
    }
}

#[test]
fn request_storefront_beats_session_and_configuration() {
    assert_eq!(resolve_storefront(Some(" GB "), Some("jp"), "us"), "gb");
    assert_eq!(resolve_storefront(Some("abc"), Some("JP"), "us"), "jp");
    assert_eq!(resolve_storefront(None, Some("xyz"), "de"), "de");
    assert_eq!(resolve_storefront(None, None, "us"), "us");
}

#[test]
fn request_language_beats_configuration() {
    assert_eq!(resolve_language(Some(" en-GB "), Some("fr")), Some("en-GB".to_string()));
    assert_eq!(resolve_language(Some("  "), Some("fr")), Some("fr".to_string()));
    assert_eq!(resolve_language(None, None), None);
}

#[test]
fn decrypt_worker_counts() {
    assert_eq!(decrypt_workers(Some(3)), 3);
    let w = decrypt_workers(None);
    assert!((2..=8).contains(&w));
    assert_eq!(decrypt_inflight(None, 4), 8);
    assert_eq!(decrypt_inflight(None, 0), 2);
    assert_eq!(decrypt_inflight(Some(5), 4), 5);
    assert_eq!(decrypt_inflight(None, usize::MAX), usize::MAX);
}

#[test]
fn commit_prefix_takes_eight_hex_digits() {
    assert_eq!(commit_prefix("  0123456789abcdef\n"), Some("01234567".to_string()));
    assert_eq!(commit_prefix("0123456"), None);
    assert_eq!(commit_prefix("0123456z"), None);
    assert_eq!(BUILD_VERSION.len(), 8);
}

#[test]
fn android_priorities_map_to_levels() {
    assert_eq!(android_log_level(2), "DEBUG");
    assert_eq!(android_log_level(3), "DEBUG");
    assert_eq!(android_log_level(4), "INFO");
    assert_eq!(android_log_level(5), "WARN");
    assert_eq!(android_log_level(7), "ERROR");
    assert_eq!(android_log_message(-1, "x"), "prio=-1 x");
}

#[test]
fn native_info_is_logged_at_debug() {
    assert_eq!(effective_level("INFO", "ffi::x"), "DEBUG");
    assert_eq!(effective_level("INFO", "app"), "INFO");
    assert!(should_emit("DEBUG", "ffi::x"));
    assert!(!should_emit("DEBUG", "app"));
    assert!(!should_emit("TRACE", "ffi::x"));
    assert!(should_emit("WARN", "app"));
}

#[test]
fn decryptor_android_events_are_always_written() {
    let rec = emit_android_log(4, "tag", "hello").expect("written");
    assert_eq!(rec.level, "DEBUG");
    assert_eq!(rec.target, "ffi::android::tag");
    assert_eq!(rec.message, "prio=4 hello");
    let rec = emit_android_log(6, "tag", "bad").expect("written");
    assert_eq!(rec.level, "ERROR");
}

#[test]
fn log_lines_are_aligned() {
    assert_eq!(
        format_log_line(12, 5, "INFO", "main", "t", "hi"),
        "[        12.005] [INFO ] [main] [t] hi"
    );
}

#[test]
fn daemon_debug_events_need_the_setting() {
    assert!(daemon_logging::debug_requested(Some("info,DEBUG")));
    assert!(!daemon_logging::debug_requested(Some("info")));
    assert!(!daemon_logging::debug_requested(None));
    assert!(!daemon_logging::should_emit("DEBUG", false));
    assert!(daemon_logging::should_emit("DEBUG", true));
    assert!(daemon_logging::emit_android_log(3, "t", "m", false).is_none());
    let rec = daemon_logging::emit_android_log(3, "t", "m", true).expect("written");
    assert_eq!((rec.level, rec.target.as_str(), rec.message.as_str()), ("DEBUG", "t", "prio=3 m"));
    let rec = daemon_logging::emit_android_log(6, "t", "m", false).expect("written");
    assert_eq!(rec.level, "ERROR");
}

#[test]
fn app_errors_map_to_http_answers() {
    let e = ApiError::from_app_error(AppError::NoActiveSession);
    assert_eq!((e.status, e.state, e.message.as_str()), (409, Some("logged_out"), "no active session"));
    let e = ApiError::from_app_error(AppError::UpstreamHttp {
        status: 429,
        message: "slow down".into(),
        retry_after: Some("30".into()),
    });
    assert_eq!((e.status, e.retry_after.as_deref()), (429, Some("30")));
    let e = ApiError::from_app_error(AppError::UpstreamHttp {
        status: 1000,
        message: "odd".into(),
        retry_after: None,
    });
    assert_eq!(e.status, 502);
    let e = ApiError::from_app_error(AppError::Io("disk".into()));
    assert_eq!((e.status, e.message()), (500, "io error: disk"));
    let e = ApiError::from_app_error(AppError::Command("boom".into()));
    assert_eq!((e.status, e.message()), (500, "boom"));
    let e = ApiError::from_app_error(AppError::Protocol("bad".into()));
    assert_eq!((e.status, e.message()), (400, "bad"));
    assert_eq!(
        AppError::UnexpectedTwoFactor.describe(),
        "2FA was not requested for the current login flow"
    );
}

#[test]
fn bearer_tokens_are_checked() {
    assert!(check_bearer("/api", Some(Some("Bearer tok")), "tok").is_ok());
    let cases: [(Option<Option<&str>>, &str); 4] = [
        (None, "missing bearer token"),
        (Some(None), "invalid authorization header encoding"),
        (Some(Some("Basic tok")), "authorization header must use Bearer"),
        (Some(Some("Bearer nope")), "invalid bearer token"),
    ];
    for (header, why) in cases {
        let e = check_bearer("/api", header, "tok").unwrap_err();
        assert_eq!(e.status, 401);
        assert_eq!(e.www_authenticate, Some("Bearer"));
        assert_eq!(e.message, format!("unauthorized for /api: {why}"));
    }
}

fn tool(available: bool) -> BinaryHealth {
    BinaryHealth { path: "tool", available, version: None, error: None }
}

#[test]
fn health_needs_ffmpeg_and_ffprobe() {
    let report = ToolHealthReport { ffmpeg: tool(true), ffprobe: tool(true), mp4box: tool(false) };
    assert!(report.is_healthy());
    let report = ToolHealthReport { ffmpeg: tool(true), ffprobe: tool(false), mp4box: tool(true) };
    assert!(!report.is_healthy());
    assert_eq!(health_status(true), (200, "ok"));
    assert_eq!(health_status(false), (503, "degraded"));
}

#[test]
fn login_answers_carry_state_and_message() {
    let r = AuthResponse::ok("logged_in");
    assert_eq!((r.status, r.state, r.message), ("ok", "logged_in", None));
    let r = AuthResponse::need_two_factor("code sent");
    assert_eq!((r.status, r.state), ("need_2fa", "awaiting_2fa"));
    let r = auth_from(ControlResponse::need_2fa("check phone"));
    assert_eq!((r.status, r.state, r.message.as_deref()), ("need_2fa", "awaiting_2fa", Some("check phone")));
    let e = conflict_from(&ControlResponse::error("awaiting_2fa", "finish login first"));
    assert_eq!((e.status, e.state, e.message.as_str()), (409, Some("awaiting_2fa"), "finish login first"));
    let e = ApiError::bad_request("nope");
    assert_eq!((e.status, e.message.as_str()), (400, "nope"));
    let e = ApiError::conflict("logged_out", "x");
    assert_eq!((e.status, e.state), (409, Some("logged_out")));
    assert_eq!(ApiError::internal("z").status, 500);
}

#[test]
fn search_defaults_and_checks() {
    assert_eq!(default_search_limit(), 10);
    assert_eq!(default_search_type(), "song");
    assert_eq!(search_params_error("  ", "song"), Some("query parameter is required".to_string()));
    assert_eq!(
        search_params_error("q", "video"),
        Some("invalid search type: video. Use 'album', 'song', or 'artist'".to_string())
    );
    assert_eq!(search_params_error("q", "album"), None);
    assert_eq!(playback_redirect_target("cache/x.m4a"), "/cache/x.m4a");
}

#[test]
fn short_native_strings() {
    assert!(is_short_mark(4));
    assert!(!is_short_mark(5));
    assert_eq!(short_len(10), 5);
    let mut data = [0u8; 23];
    data[..5].copy_from_slice(b"hello");
    assert_eq!(short_string_text(&ShortString { mark: 10, data }), "hello");
    data[0] = 0xff;
    assert_eq!(short_string_text(&ShortString { mark: 2, data }), "\u{fffd}");
}

#[test]
fn asset_routes() {
    assert_eq!(normalized_asset_path("//a/b.js"), "a/b.js");
    assert!(matches!(asset_route("/", false), AssetRoute::Index));
    assert!(matches!(asset_route("/a.js", true), AssetRoute::File(ref f) if f == "a.js"));
    assert!(matches!(asset_route("/a.js", false), AssetRoute::NotFound));
    assert!(matches!(asset_route("/library/albums", false), AssetRoute::Index));
    assert_eq!(cache_control_for("assets/x.js"), "public, max-age=31536000, immutable");
    assert_eq!(cache_control_for("index.html"), "no-cache");
}

#[test]
fn conflict_errors_serialize_request_status_separately_from_session_state() {
    let error = ApiError::conflict("logged_out", "no active session");
    assert_eq!(error.status, 409);
    assert_eq!(error.state, Some("logged_out"));
    assert_eq!(error.message, "no active session");
}

#[test]
fn bad_request_errors_do_not_invent_logged_out_state() {
    let error = ApiError::bad_request("query parameter is required");
    assert_eq!(error.status, 400);
    assert_eq!(error.state, None);
    assert_eq!(error.message, "query parameter is required");
}

#[test]
fn upstream_429_preserves_status_and_retry_after_header() {
    let error = ApiError::from_app_error(AppError::UpstreamHttp {
        status: 429,
        message: "apple api request failed: 429 Too Many Requests".into(),
        retry_after: Some("3".into()),
    });
    assert_eq!(error.status, 429);
    assert_eq!(error.retry_after.as_deref().expect("retry-after header"), "3");
}

#[test]
fn unauthorized_errors_set_www_authenticate_header() {
    let error = ApiError::unauthorized("/search", "missing bearer token");
    assert_eq!(error.status, 401);
    assert_eq!(error.www_authenticate.expect("www-authenticate header"), "Bearer");
}

fn health_of_logged_out_daemon() -> ((u16, &'static str), &'static str) {
    let report = ToolHealthReport {
        ffmpeg: BinaryHealth {
            path: "/usr/local/bin/ffmpeg",
            available: true,
            version: Some("ffmpeg version 7".into()),
            error: None,
        },
        ffprobe: BinaryHealth {
            path: "/usr/local/bin/ffprobe",
            available: true,
            version: Some("ffprobe version 7".into()),
            error: None,
        },
        mp4box: BinaryHealth { path: "MP4Box", available: false, version: None, error: None },
    };
    let state: AppState<u32, u32> = AppState::new();
    (health_status(report.is_healthy()), state_name(&state))
}

#[test]
fn account_health_response_includes_build_version() {
    let ((status, label), state) = health_of_logged_out_daemon();
    assert_eq!(status, 200);
    assert_eq!(label, "ok");
    assert_eq!(state, "logged_out");
    assert_eq!(BUILD_VERSION.len(), 8);
}

#[test]
fn response_health_response_includes_build_version() {
    let ((status, label), state) = health_of_logged_out_daemon();
    assert_eq!(status, 200);
    assert_eq!(label, "ok");
    assert_eq!(state, "logged_out");
    assert!(BUILD_VERSION.chars().all(|ch| matches!(ch, '0'..='9' | 'a'..='f')));
}

#[test]
fn worker_count_follows_cpu_count_between_two_and_eight() {
    assert_eq!(workers_for_cpus(0), 2);
    assert_eq!(workers_for_cpus(1), 2);
    assert_eq!(workers_for_cpus(2), 2);
    assert_eq!(workers_for_cpus(5), 5);
    assert_eq!(workers_for_cpus(8), 8);
    assert_eq!(workers_for_cpus(64), 8);
    let w = decrypt_workers(None);
    assert!((2..=8).contains(&w));
}

#[test]
fn build_version_comes_from_the_recorded_commit() {
    assert_eq!(build_version(Some("0a1b2c3d4e5f60718293a4b5c6d7e8f901234567\n")), "0a1b2c3d");
    assert_eq!(build_version(Some("")), "00000000");
    assert_eq!(build_version(Some("not a commit")), "00000000");
    assert_eq!(build_version(None), "00000000");
}

#[test]
fn app_index_is_served_without_auth() {
    assert!(matches!(asset_route("", false), AssetRoute::Index));
    let (content_type, cache_control) = asset_headers("index.html");
    assert!(content_type.starts_with("text/html"));
    assert_eq!(cache_control, "no-cache");
}

#[test]
fn bundle_files_get_their_media_type_and_cache_policy() {
    assert_eq!(asset_headers("assets/index-abc123.js"), ("text/javascript".to_string(), "public, max-age=31536000, immutable"));
    assert_eq!(asset_headers("assets/index-abc123.css").0, "text/css");
    assert_eq!(asset_headers("favicon.unknownext").0, "application/octet-stream");
}
