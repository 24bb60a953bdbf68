use wrapper_rust::control::{
    complete_login, plan_control, query_reply, request_name, state_name, AppState, ControlRequest,
    ControlResponse, ControlStep, LoginOutcome,
};
use wrapper_rust::frame::{encode_frame, frame_payload_len, FrameError};
use wrapper_rust::session::{AccountProfile, SessionRuntime};

fn error_of<S, L>(step: ControlStep<S, L>) -> (&'static str, String) {
    match step {
        ControlStep::Reply(r) => {
            assert_eq!(r.status, "error");
            (r.state, r.message.expect("error message"))
        }
        _ => panic!("expected a reply"),
    }
}

#[test]
fn login_is_refused_while_a_session_is_active() {
    let mut state: AppState<u32, u32> = AppState::new();
    state.replace_session(7);
    let step = plan_control(
        &mut state,
        ControlRequest::Login { username: "u".into(), password: "p".into() },
    );
    let (st, msg) = error_of(step);
    assert_eq!(st, "logged_in");
    assert_eq!(msg, "logout before starting a new login");
    assert_eq!(state.session(), Some(7));
}

#[test]
fn login_is_refused_while_a_login_waits() {
    let mut state: AppState<u32, u32> = AppState::new();
    state.set_pending_login(3);
    let step = plan_control(
        &mut state,
        ControlRequest::Login { username: "u".into(), password: "p".into() },
    );
    let (st, msg) = error_of(step);
    assert_eq!(st, "awaiting_2fa");
    assert_eq!(msg, "a previous login is still waiting for 2FA");
}

#[test]
fn login_flow_reaches_logged_in_through_two_factor() {
    let mut state: AppState<u32, u32> = AppState::new();
    let step = plan_control(
        &mut state,
        ControlRequest::Login { username: "user".into(), password: "pw".into() },
    );
    match step {
        ControlStep::StartLogin { username, password } => {
            assert_eq!(username, "user");
            assert_eq!(password, "pw");
        }
        _ => panic!("expected a login to start"),
    }
    let r = complete_login(&mut state, LoginOutcome::NeedTwoFactor(11));
    assert_eq!(r.status, "need_2fa");
    assert_eq!(r.state, "awaiting_2fa");
    assert_eq!(r.message.as_deref(), Some("verification code required"));
    assert_eq!(state_name(&state), "awaiting_2fa");

    let step = plan_control(&mut state, ControlRequest::Submit2fa { code: "123456".into() });
    match step {
        ControlStep::Submit2fa { attempt, code } => {
            assert_eq!(attempt, 11);
            assert_eq!(code, "123456");
        }
        _ => panic!("expected the code to be submitted"),
    }
    assert_eq!(state.pending_login(), None);
    let r = complete_login(&mut state, LoginOutcome::Completed(42));
    assert_eq!(r.status, "ok");
    assert_eq!(r.state, "logged_in");
    assert_eq!(state_name(&state), "logged_in");
}

#[test]
fn failed_login_answers_logged_out() {
    let mut state: AppState<u32, u32> = AppState::new();
    let r = complete_login(&mut state, LoginOutcome::Failed("bad password".into()));
    assert_eq!(r.status, "error");
    assert_eq!(r.state, "logged_out");
    assert_eq!(r.message.as_deref(), Some("bad password"));
    assert_eq!(state_name(&state), "logged_out");
}

#[test]
fn submit_without_pending_login_is_refused() {
    let mut state: AppState<u32, u32> = AppState::new();
    let (st, msg) = error_of(plan_control(&mut state, ControlRequest::Submit2fa { code: "1".into() }));
    assert_eq!(st, "logged_out");
    assert_eq!(msg, "submit_2fa is only valid after login returns need_2fa");
}

#[test]
fn logout_clears_the_session_but_not_while_a_login_waits() {
    let mut state: AppState<u32, u32> = AppState::new();
    state.set_pending_login(1);
    let (st, msg) = error_of(plan_control(&mut state, ControlRequest::Logout));
    assert_eq!(st, "awaiting_2fa");
    assert_eq!(msg, "cannot logout while a login is waiting for 2FA");

    let mut state: AppState<u32, u32> = AppState::new();
    state.replace_session(5);
    match plan_control(&mut state, ControlRequest::Logout) {
        ControlStep::Logout { cleared } => assert_eq!(cleared, Some(5)),
        _ => panic!("expected a logout"),
    }
    assert_eq!(state.session(), None);
}

#[test]
fn reset_login_cancels_the_pending_login() {
    let mut state: AppState<u32, u32> = AppState::new();
    state.set_pending_login(9);
    match plan_control(&mut state, ControlRequest::ResetLogin) {
        ControlStep::ResetLogin { cancelled } => assert_eq!(cancelled, Some(9)),
        _ => panic!("expected a reset"),
    }
    let mut state: AppState<u32, u32> = AppState::new();
    state.replace_session(1);
    let (st, msg) = error_of(plan_control(&mut state, ControlRequest::ResetLogin));
    assert_eq!(st, "logged_in");
    assert_eq!(msg, "use logout to clear the active session");
}

#[test]
fn status_reports_the_state_name() {
    let mut state: AppState<u32, u32> = AppState::new();
    match plan_control(&mut state, ControlRequest::Status) {
        ControlStep::Reply(r) => {
            assert_eq!(r.status, "ok");
            assert_eq!(r.state, "logged_out");
        }
        _ => panic!("expected a reply"),
    }
}

#[test]
fn query_needs_a_session_and_a_numeric_id() {
    let mut state: AppState<u32, u32> = AppState::new();
    let (st, msg) = error_of(plan_control(&mut state, ControlRequest::QueryM3u8 { adam: "1".into() }));
    assert_eq!(st, "logged_out");
    assert_eq!(msg, "no active session");

    state.replace_session(2);
    let (st, msg) = error_of(plan_control(&mut state, ControlRequest::QueryM3u8 { adam: "12x".into() }));
    assert_eq!(st, "logged_in");
    assert_eq!(msg, "invalid adam: invalid digit found in string");
    let (_, msg) = error_of(plan_control(&mut state, ControlRequest::QueryM3u8 { adam: "".into() }));
    assert_eq!(msg, "invalid adam: cannot parse integer from empty string");
    let (_, msg) = error_of(plan_control(
        &mut state,
        ControlRequest::QueryM3u8 { adam: "18446744073709551616".into() },
    ));
    assert_eq!(msg, "invalid adam: number too large to fit in target type");

    match plan_control(&mut state, ControlRequest::QueryM3u8 { adam: "1648869428".into() }) {
        ControlStep::QueryM3u8 { session, adam, adam_id } => {
            assert_eq!(session, 2);
            assert_eq!(adam, "1648869428");
            assert_eq!(adam_id, 1648869428);
        }
        _ => panic!("expected a query"),
    }
}

#[test]
fn account_and_refresh_need_a_session() {
    let mut state: AppState<u32, u32> = AppState::new();
    let (_, msg) = error_of(plan_control(&mut state, ControlRequest::AccountInfo));
    assert_eq!(msg, "no active session");
    let (_, msg) = error_of(plan_control(&mut state, ControlRequest::RefreshLease));
    assert_eq!(msg, "no active session to refresh");
}

#[test]
fn query_reply_carries_the_url_or_the_error() {
    let r = query_reply("1".into(), Ok("https://x/m.m3u8".into()));
    assert_eq!(r.adam.as_deref(), Some("1"));
    assert_eq!(r.url.as_deref(), Some("https://x/m.m3u8"));
    let r = query_reply("1".into(), Err("boom".into()));
    assert_eq!(r.status, "error");
    assert_eq!(r.state, "logged_in");
}

#[test]
fn request_names_match_the_wire_names() {
    assert_eq!(request_name(&ControlRequest::Status), "status");
    assert_eq!(request_name(&ControlRequest::Submit2fa { code: String::new() }), "submit_2fa");
    assert_eq!(request_name(&ControlRequest::QueryM3u8 { adam: String::new() }), "query_m3u8");
}

#[test]
fn account_info_response_carries_tokens() {
    let r = ControlResponse::account_info("logged_in", "sf".into(), "dev".into(), "music".into());
    assert_eq!(r.storefront_id.as_deref(), Some("sf"));
    assert_eq!(r.dev_token.as_deref(), Some("dev"));
    assert_eq!(r.music_token.as_deref(), Some("music"));
    assert!(r.message.is_none());
}

#[test]
fn frames_carry_their_length_then_the_payload() {
    let framed = encode_frame(b"hello").expect("frame");
    assert_eq!(framed, vec![0, 0, 0, 5, b'h', b'e', b'l', b'l', b'o']);
    assert_eq!(frame_payload_len([framed[0], framed[1], framed[2], framed[3]]), 5);
    assert_eq!(frame_payload_len([0, 0, 1, 0]), 256);
    assert_eq!(FrameError::TooLarge.message(), "frame payload exceeds u32::MAX");
}

#[test]
fn session_runtime_shares_its_handle_and_profile() {
    let profile = AccountProfile {
        storefront_id: "143441".into(),
        dev_token: "dev".into(),
        music_token: "music".into(),
        offline_available: true,
    };
    let runtime = SessionRuntime::new(7u32, profile);
    assert_eq!(*runtime.native(), 7);
    assert_eq!(runtime.account_profile().dev_token, "dev");
    assert!(runtime.offline_available());
    let reply = runtime.account_info_reply();
    assert_eq!((reply.status, reply.state), ("ok", "logged_in"));
    assert_eq!(reply.storefront_id.as_deref(), Some("143441"));
    assert_eq!(reply.dev_token.as_deref(), Some("dev"));
    assert_eq!(reply.music_token.as_deref(), Some("music"));
}

#[test]
fn request_roundtrip_uses_type_tag() {
    let request = ControlRequest::Login { username: "user".into(), password: "pw".into() };
    assert_eq!(request_name(&request), "login");
}

#[test]
fn response_roundtrip_has_state() {
    let response = ControlResponse::need_2fa("verification code required");
    assert_eq!(response.status, "need_2fa");
    assert_eq!(response.state, "awaiting_2fa");
    assert_eq!(response.message.as_deref(), Some("verification code required"));
}

#[test]
fn account_info_response_serializes_payload_fields() {
    let response = ControlResponse::account_info(
        "logged_in",
        "storefront".into(),
        "dev".into(),
        "music".into(),
    );
    assert_eq!(response.storefront_id.as_deref(), Some("storefront"));
    assert_eq!(response.dev_token.as_deref(), Some("dev"));
    assert_eq!(response.music_token.as_deref(), Some("music"));
}
