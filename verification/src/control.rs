//! The control channel: its requests and responses, the daemon's login state,
//! and the decisions taken for each request.
//!
//! The connection handler runs in three steps. [`plan_control`] looks at the
//! request and the state, performs the state change that needs no outside
//! work, and either answers at once or names the outside work to do (start a
//! native login, log a session out, cancel a pending login, submit a code,
//! read the account profile, resolve a playlist, refresh the lease). After that
//! work the handler calls [`complete_login`] or [`query_reply`], or answers
//! with the fixed success response that the step names.
use vstd::prelude::*;

use crate::text::{concat2, int_error_message, parse_u64, parse_unsigned};

verus! {

/// A command sent over the control channel.
#[derive(Debug)]
pub enum ControlRequest {
    Login { username: String, password: String },
    Submit2fa { code: String },
    AccountInfo,
    QueryM3u8 { adam: String },
    ResetLogin,
    Logout,
    Status,
    RefreshLease,
}

/// The answer written back for a control command.
#[derive(Debug)]
pub struct ControlResponse {
    pub status: &'static str,
    pub state: &'static str,
    pub message: Option<String>,
    pub adam: Option<String>,
    pub url: Option<String>,
    pub storefront_id: Option<String>,
    pub dev_token: Option<String>,
    pub music_token: Option<String>,
}

/// The view of an optional string.
pub open spec fn opt_view(o: Option<String>) -> Option<Seq<char>> {
    match o {
        Some(s) => Some(s@),
        None => None,
    }
}

/// `r` carries `status` and `state`, the given optional fields, and nothing
/// else.
pub open spec fn response_is(
    r: ControlResponse,
    status: Seq<char>,
    state: Seq<char>,
    message: Option<Seq<char>>,
    adam: Option<Seq<char>>,
    url: Option<Seq<char>>,
    account: Option<(Seq<char>, Seq<char>, Seq<char>)>,
) -> bool {
    &&& r.status@ == status
    &&& r.state@ == state
    &&& opt_view(r.message) == message
    &&& opt_view(r.adam) == adam
    &&& opt_view(r.url) == url
    &&& match account {
        Some((sf, dev, music)) => {
            &&& opt_view(r.storefront_id) == Some(sf)
            &&& opt_view(r.dev_token) == Some(dev)
            &&& opt_view(r.music_token) == Some(music)
        },
        None => {
            &&& r.storefront_id is None
            &&& r.dev_token is None
            &&& r.music_token is None
        },
    }
}

/// A plain success in `state`.
pub open spec fn is_ok_response(r: ControlResponse, state: Seq<char>) -> bool {
    response_is(r, "ok"@, state, None, None, None, None)
}

/// A failure in `state` with `message`.
pub open spec fn is_error_response(r: ControlResponse, state: Seq<char>, message: Seq<char>) -> bool {
    response_is(r, "error"@, state, Some(message), None, None, None)
}

impl ControlResponse {
    /// Success in `state`.
    pub fn ok(state: &'static str) -> (r: Self)
        ensures
            is_ok_response(r, state@),
    {
        ControlResponse {
            status: "ok",
            state,
            message: None,
            adam: None,
            url: None,
            storefront_id: None,
            dev_token: None,
            music_token: None,
        }
    }

    /// A login that waits for its second factor.
    pub fn need_2fa(message: &str) -> (r: Self)
        ensures
            response_is(r, "need_2fa"@, "awaiting_2fa"@, Some(message@), None, None, None),
    {
        ControlResponse {
            status: "need_2fa",
            state: "awaiting_2fa",
            message: Some(message.to_string()),
            adam: None,
            url: None,
            storefront_id: None,
            dev_token: None,
            music_token: None,
        }
    }

    /// A failure in `state`, explained by `message`.
    pub fn error(state: &'static str, message: &str) -> (r: Self)
        ensures
            is_error_response(r, state@, message@),
    {
        ControlResponse {
            status: "error",
            state,
            message: Some(message.to_string()),
            adam: None,
            url: None,
            storefront_id: None,
            dev_token: None,
            music_token: None,
        }
    }

    /// The answer to a status query: success in `state`.
    pub fn status(state: &'static str) -> (r: Self)
        ensures
            is_ok_response(r, state@),
    {
        ControlResponse {
            status: "ok",
            state,
            message: None,
            adam: None,
            url: None,
            storefront_id: None,
            dev_token: None,
            music_token: None,
        }
    }

    /// The account details of the active session.
    pub fn account_info(
        state: &'static str,
        storefront_id: String,
        dev_token: String,
        music_token: String,
    ) -> (r: Self)
        ensures
            response_is(
                r,
                "ok"@,
                state@,
                None,
                None,
                None,
                Some((storefront_id@, dev_token@, music_token@)),
            ),
    {
        ControlResponse {
            status: "ok",
            state,
            message: None,
            adam: None,
            url: None,
            storefront_id: Some(storefront_id),
            dev_token: Some(dev_token),
            music_token: Some(music_token),
        }
    }

    /// The playlist found for the track `adam`.
    pub fn query_m3u8(state: &'static str, adam: String, url: String) -> (r: Self)
        ensures
            response_is(r, "ok"@, state@, None, Some(adam@), Some(url@), None),
    {
        ControlResponse {
            status: "ok",
            state,
            message: None,
            adam: Some(adam),
            url: Some(url),
            storefront_id: None,
            dev_token: None,
            music_token: None,
        }
    }
}

/// The daemon's login state: the active session, if any, and a login that
/// waits for its second factor, if any.
pub struct AppState<S, L> {
    session: Option<S>,
    pending_login: Option<L>,
}

impl<S, L> AppState<S, L> {
    /// The active session.
    pub closed spec fn active(&self) -> Option<S> {
        self.session
    }

    /// The login waiting for its second factor.
    pub closed spec fn pending(&self) -> Option<L> {
        self.pending_login
    }

    /// A state with neither a session nor a pending login.
    pub fn new() -> (r: Self)
        ensures
            r.active() is None,
            r.pending() is None,
    {
        AppState { session: None, pending_login: None }
    }

    /// Installs `session` as the active one, dropping any pending login;
    /// returns the session it replaces.
    pub fn replace_session(&mut self, session: S) -> (previous: Option<S>)
        ensures
            previous == old(self).active(),
            final(self).active() == Some(session),
            final(self).pending() is None,
    {
        self.clear_pending_login();
        let previous = self.session.take();
        self.session = Some(session);
        previous
    }

    /// Removes and returns the active session.
    pub fn clear_session(&mut self) -> (previous: Option<S>)
        ensures
            previous == old(self).active(),
            final(self).active() is None,
            final(self).pending() == old(self).pending(),
    {
        self.session.take()
    }

    /// A handle on the active session.
    pub fn session(&self) -> (r: Option<S>) where S: Clone
        ensures
            r is Some <==> self.active() is Some,
            r is Some ==> cloned(self.active().unwrap(), r.unwrap()),
    {
        self.session.clone()
    }

    /// Stores `attempt` as the login waiting for its second factor.
    pub fn set_pending_login(&mut self, attempt: L)
        ensures
            final(self).pending() == Some(attempt),
            final(self).active() == old(self).active(),
    {
        self.pending_login = Some(attempt);
    }

    /// A handle on the pending login.
    pub fn pending_login(&self) -> (r: Option<L>) where L: Clone
        ensures
            r is Some <==> self.pending() is Some,
            r is Some ==> cloned(self.pending().unwrap(), r.unwrap()),
    {
        self.pending_login.clone()
    }

    /// Removes and returns the pending login.
    pub fn take_pending_login(&mut self) -> (previous: Option<L>)
        ensures
            previous == old(self).pending(),
            final(self).pending() is None,
            final(self).active() == old(self).active(),
    {
        self.pending_login.take()
    }

    /// Removes and returns the pending login.
    pub fn clear_pending_login(&mut self) -> (previous: Option<L>)
        ensures
            previous == old(self).pending(),
            final(self).pending() is None,
            final(self).active() == old(self).active(),
    {
        self.pending_login.take()
    }

    /// Whether a session is active.
    pub fn has_session(&self) -> (b: bool)
        ensures
            b == self.active() is Some,
    {
        self.session.is_some()
    }

    /// Whether a login waits for its second factor.
    pub fn has_pending_login(&self) -> (b: bool)
        ensures
            b == self.pending() is Some,
    {
        self.pending_login.is_some()
    }
}

/// The name of the login state: a pending login first, then a session.
pub open spec fn state_label(has_session: bool, has_pending: bool) -> Seq<char> {
    if has_pending {
        "awaiting_2fa"@
    } else if has_session {
        "logged_in"@
    } else {
        "logged_out"@
    }
}

/// The name of the current login state.
pub fn state_name<S, L>(state: &AppState<S, L>) -> (name: &'static str)
    ensures
        name@ == state_label(state.active() is Some, state.pending() is Some),
{
    if state.has_pending_login() {
        "awaiting_2fa"
    } else if state.has_session() {
        "logged_in"
    } else {
        "logged_out"
    }
}

/// The name of a request, as it appears in logs.
pub open spec fn request_label(request: ControlRequest) -> Seq<char> {
    match request {
        ControlRequest::Login { .. } => "login"@,
        ControlRequest::ResetLogin => "reset_login"@,
        ControlRequest::Logout => "logout"@,
        ControlRequest::Submit2fa { .. } => "submit_2fa"@,
        ControlRequest::Status => "status"@,
        ControlRequest::AccountInfo => "account_info"@,
        ControlRequest::QueryM3u8 { .. } => "query_m3u8"@,
        ControlRequest::RefreshLease => "refresh_lease"@,
    }
}

/// The name of a request, as it appears in logs.
pub fn request_name(request: &ControlRequest) -> (name: &'static str)
    ensures
        name@ == request_label(*request),
{
    match request {
        ControlRequest::Login { .. } => "login",
        ControlRequest::ResetLogin => "reset_login",
        ControlRequest::Logout => "logout",
        ControlRequest::Submit2fa { .. } => "submit_2fa",
        ControlRequest::Status => "status",
        ControlRequest::AccountInfo => "account_info",
        ControlRequest::QueryM3u8 { .. } => "query_m3u8",
        ControlRequest::RefreshLease => "refresh_lease",
    }
}

/// What the connection handler does next for a request.
pub enum ControlStep<S, L> {
    /// Write this response; nothing else to do.
    Reply(ControlResponse),
    /// Start a native login with these credentials and wait for its first
    /// outcome, then call [`complete_login`].
    StartLogin { username: String, password: String },
    /// The session (if there was one) was removed from the state: log it out
    /// natively, then answer `ok` in `logged_out`.
    Logout { cleared: Option<S> },
    /// The pending login (if there was one) was removed from the state:
    /// cancel it, then answer `ok` in `logged_out`.
    ResetLogin { cancelled: Option<L> },
    /// The pending login was taken from the state: submit `code` to it, wait
    /// for it, then call [`complete_login`].
    Submit2fa { attempt: L, code: String },
    /// Answer with the account profile of `session` in `logged_in`.
    AccountInfo { session: S },
    /// Resolve the playlist of track `adam_id` through `session`, then call
    /// [`query_reply`].
    QueryM3u8 { session: S, adam: String, adam_id: u64 },
    /// Refresh the lease of `session`, then answer `ok` in `logged_in`.
    RefreshLease { session: S },
}

/// The message of a malformed track id.
pub open spec fn invalid_adam_message(adam: Seq<char>) -> Seq<char> {
    "invalid adam: "@ + int_error_message(parse_unsigned(adam, u64::MAX as nat)->Err_0)
}

/// What `plan_control` does: from the state `before` and the request, the
/// step it names and the state `after` it leaves.
pub open spec fn planned<S: Clone, L>(
    before: AppState<S, L>,
    request: ControlRequest,
    step: ControlStep<S, L>,
    after: AppState<S, L>,
) -> bool {
    let has_session = before.active() is Some;
    let has_pending = before.pending() is Some;
    match request {
        ControlRequest::Login { username, password } => {
            &&& after == before
            &&& if has_session {
                step matches ControlStep::Reply(r) && is_error_response(
                    r,
                    "logged_in"@,
                    "logout before starting a new login"@,
                )
            } else if has_pending {
                step matches ControlStep::Reply(r) && is_error_response(
                    r,
                    "awaiting_2fa"@,
                    "a previous login is still waiting for 2FA"@,
                )
            } else {
                step matches ControlStep::StartLogin { username: u, password: p } && u@
                    == username@ && p@ == password@
            }
        },
        ControlRequest::Logout => if has_pending {
            &&& after == before
            &&& step matches ControlStep::Reply(r) && is_error_response(
                r,
                "awaiting_2fa"@,
                "cannot logout while a login is waiting for 2FA"@,
            )
        } else {
            &&& after.active() is None
            &&& after.pending() == before.pending()
            &&& step matches ControlStep::Logout { cleared } && cleared == before.active()
        },
        ControlRequest::ResetLogin => if has_session {
            &&& after == before
            &&& step matches ControlStep::Reply(r) && is_error_response(
                r,
                "logged_in"@,
                "use logout to clear the active session"@,
            )
        } else {
            &&& after.pending() is None
            &&& after.active() == before.active()
            &&& step matches ControlStep::ResetLogin { cancelled } && cancelled == before.pending()
        },
        ControlRequest::Submit2fa { code } => {
            &&& after.pending() is None
            &&& after.active() == before.active()
            &&& if has_pending {
                step matches ControlStep::Submit2fa { attempt, code: c } && attempt == before.pending().unwrap() && c@ == code@
            } else {
                step matches ControlStep::Reply(r) && is_error_response(
                    r,
                    "logged_out"@,
                    "submit_2fa is only valid after login returns need_2fa"@,
                )
            }
        },
        ControlRequest::Status => {
            &&& after == before
            &&& step matches ControlStep::Reply(r) && is_ok_response(
                r,
                state_label(has_session, has_pending),
            )
        },
        ControlRequest::AccountInfo => {
            &&& after == before
            &&& if has_session {
                step matches ControlStep::AccountInfo { session } && cloned(
                    before.active().unwrap(),
                    session,
                )
            } else {
                step matches ControlStep::Reply(r) && is_error_response(
                    r,
                    "logged_out"@,
                    "no active session"@,
                )
            }
        },
        ControlRequest::QueryM3u8 { adam } => {
            &&& after == before
            &&& if !has_session {
                step matches ControlStep::Reply(r) && is_error_response(
                    r,
                    "logged_out"@,
                    "no active session"@,
                )
            } else {
                match parse_unsigned(adam@, u64::MAX as nat) {
                    Ok(id) => step matches ControlStep::QueryM3u8 {
                        session,
                        adam: a,
                        adam_id,
                    } && cloned(before.active().unwrap(), session) && a@ == adam@
                        && adam_id == id,
                    Err(_) => step matches ControlStep::Reply(r) && is_error_response(
                        r,
                        "logged_in"@,
                        invalid_adam_message(adam@),
                    ),
                }
            }
        },
        ControlRequest::RefreshLease => {
            &&& after == before
            &&& if has_session {
                step matches ControlStep::RefreshLease { session } && cloned(
                    before.active().unwrap(),
                    session,
                )
            } else {
                step matches ControlStep::Reply(r) && is_error_response(
                    r,
                    "logged_out"@,
                    "no active session to refresh"@,
                )
            }
        },
    }
}

/// Decides what to do with `request`, performing the state change that needs
/// no outside work.
pub fn plan_control<S: Clone, L>(state: &mut AppState<S, L>, request: ControlRequest) -> (step:
    ControlStep<S, L>)
    ensures
        planned(*old(state), request, step, *final(state)),
{
    match request {
        ControlRequest::Login { username, password } => {
            if state.has_session() {
                ControlStep::Reply(
                    ControlResponse::error("logged_in", "logout before starting a new login"),
                )
            } else if state.has_pending_login() {
                ControlStep::Reply(
                    ControlResponse::error(
                        "awaiting_2fa",
                        "a previous login is still waiting for 2FA",
                    ),
                )
            } else {
                ControlStep::StartLogin { username, password }
            }
        },
        ControlRequest::Logout => {
            if state.has_pending_login() {
                ControlStep::Reply(
                    ControlResponse::error(
                        "awaiting_2fa",
                        "cannot logout while a login is waiting for 2FA",
                    ),
                )
            } else {
                let previous = state.clear_session();
                ControlStep::Logout { cleared: previous }
            }
        },
        ControlRequest::ResetLogin => {
            if state.has_session() {
                ControlStep::Reply(
                    ControlResponse::error("logged_in", "use logout to clear the active session"),
                )
            } else {
                let previous = state.clear_pending_login();
                ControlStep::ResetLogin { cancelled: previous }
            }
        },
        ControlRequest::Submit2fa { code } => match state.take_pending_login() {
            Some(attempt) => ControlStep::Submit2fa { attempt, code },
            None => ControlStep::Reply(
                ControlResponse::error(
                    "logged_out",
                    "submit_2fa is only valid after login returns need_2fa",
                ),
            ),
        },
        ControlRequest::Status => {
            let name = state_name(state);
            ControlStep::Reply(ControlResponse::status(name))
        },
        ControlRequest::AccountInfo => match state.session() {
            Some(session) => ControlStep::AccountInfo { session },
            None => ControlStep::Reply(ControlResponse::error("logged_out", "no active session")),
        },
        ControlRequest::QueryM3u8 { adam } => match state.session() {
            None => ControlStep::Reply(ControlResponse::error("logged_out", "no active session")),
            Some(session) => match parse_u64(adam.as_str()) {
                Ok(adam_id) => ControlStep::QueryM3u8 { session, adam, adam_id },
                Err(kind) => {
                    let message = concat2("invalid adam: ", kind.message());
                    ControlStep::Reply(ControlResponse::error("logged_in", message.as_str()))
                },
            },
        },
        ControlRequest::RefreshLease => match state.session() {
            Some(session) => ControlStep::RefreshLease { session },
            None => ControlStep::Reply(
                ControlResponse::error("logged_out", "no active session to refresh"),
            ),
        },
    }
}

/// What a native login reported: it waits for a second factor, it produced a
/// session, or it failed with a message.
pub enum LoginOutcome<S, L> {
    NeedTwoFactor(L),
    Completed(S),
    Failed(String),
}

/// What `complete_login` does: from the state `before` and the outcome,
/// the answer `r` and the state `after`.
pub open spec fn login_completed<S, L>(
    before: AppState<S, L>,
    outcome: LoginOutcome<S, L>,
    r: ControlResponse,
    after: AppState<S, L>,
) -> bool {
    match outcome {
        LoginOutcome::NeedTwoFactor(attempt) => {
            &&& after.pending() == Some(attempt)
            &&& after.active() == before.active()
            &&& response_is(
                r,
                "need_2fa"@,
                "awaiting_2fa"@,
                Some("verification code required"@),
                None,
                None,
                None,
            )
        },
        LoginOutcome::Completed(session) => {
            &&& after.active() == Some(session)
            &&& after.pending() is None
            &&& is_ok_response(r, "logged_in"@)
        },
        LoginOutcome::Failed(message) => {
            &&& after == before
            &&& is_error_response(r, "logged_out"@, message@)
        },
    }
}

/// Records the outcome of a login in the state and gives the answer.
pub fn complete_login<S, L>(state: &mut AppState<S, L>, outcome: LoginOutcome<S, L>) -> (r:
    ControlResponse)
    ensures
        login_completed(*old(state), outcome, r, *final(state)),
{
    match outcome {
        LoginOutcome::NeedTwoFactor(attempt) => {
            state.set_pending_login(attempt);
            ControlResponse::need_2fa("verification code required")
        },
        LoginOutcome::Completed(session) => {
            state.replace_session(session);
            ControlResponse::ok("logged_in")
        },
        LoginOutcome::Failed(message) => ControlResponse::error("logged_out", message.as_str()),
    }
}

/// The answer to a playlist query once the session tried to resolve it.
pub fn query_reply(adam: String, result: Result<String, String>) -> (r: ControlResponse)
    ensures
        match result {
            Ok(url) => response_is(r, "ok"@, "logged_in"@, None, Some(adam@), Some(url@), None),
            Err(message) => is_error_response(r, "logged_in"@, message@),
        },
{
    match result {
        Ok(url) => ControlResponse::query_m3u8("logged_in", adam, url),
        Err(message) => ControlResponse::error("logged_in", message.as_str()),
    }
}

/// Whether a state holds a session and a pending login at once.
pub open spec fn exclusive<S, L>(st: AppState<S, L>) -> bool {
    !(st.active() is Some && st.pending() is Some)
}

/// Law: planning a request never leaves a session and a pending login side
/// by side when the state had not both before.
pub proof fn law_plan_keeps_exclusive<S: Clone, L>(
    before: AppState<S, L>,
    request: ControlRequest,
    step: ControlStep<S, L>,
    after: AppState<S, L>,
)
    requires
        exclusive(before),
        planned(before, request, step, after),
    ensures
        exclusive(after),
{
}

/// Law: a login is started only from a state with neither a session nor a
/// pending login; once its outcome is recorded, the state holds exactly what
/// the outcome says (a pending login, a session, or nothing), and its name
/// says so.
pub proof fn law_login_flow<S: Clone, L>(
    before: AppState<S, L>,
    username: String,
    password: String,
    step: ControlStep<S, L>,
    middle: AppState<S, L>,
    outcome: LoginOutcome<S, L>,
    r: ControlResponse,
    after: AppState<S, L>,
)
    requires
        planned(before, ControlRequest::Login { username, password }, step, middle),
        step is StartLogin,
        login_completed(middle, outcome, r, after),
    ensures
        before.active() is None && before.pending() is None,
        exclusive(after),
        state_label(after.active() is Some, after.pending() is Some) == match outcome {
            LoginOutcome::NeedTwoFactor(_) => "awaiting_2fa"@,
            LoginOutcome::Completed(_) => "logged_in"@,
            LoginOutcome::Failed(_) => "logged_out"@,
        },
{
}

/// Law: a status request changes nothing and reports the state's name.
pub proof fn law_status_reports_state<S: Clone, L>(
    before: AppState<S, L>,
    step: ControlStep<S, L>,
    after: AppState<S, L>,
)
    requires
        planned(before, ControlRequest::Status, step, after),
    ensures
        after == before,
        step matches ControlStep::Reply(r) && r.state@ == state_label(
            before.active() is Some,
            before.pending() is Some,
        ) && r.status@ == "ok"@,
{
}

} // verus!
