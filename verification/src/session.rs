//! A signed-in session: the native session handle shared between requests,
//! and the account profile read from it once when the session starts.
use vstd::prelude::*;
use std::sync::Arc;

use crate::control::{response_is, ControlResponse};

verus! {

/// What the native session says of the signed-in account.
#[derive(Clone, Debug)]
pub struct AccountProfile {
    pub storefront_id: String,
    pub dev_token: String,
    pub music_token: String,
    pub offline_available: bool,
}

/// A session that requests share: the native handle `N` and the account
/// profile it had when the session started.
pub struct SessionRuntime<N> {
    native: Arc<N>,
    account_profile: Arc<AccountProfile>,
}

/// Another pointer to the value `a` points to (`Arc::clone`).
#[verifier::external_body]
fn share<T>(a: &Arc<T>) -> (r: Arc<T>)
    ensures
        *r == **a,
{
    Arc::clone(a)
}

impl<N> SessionRuntime<N> {
    /// The native session handle.
    pub closed spec fn native_handle(&self) -> N {
        *self.native
    }

    /// The account profile of the session.
    pub closed spec fn profile(&self) -> AccountProfile {
        *self.account_profile
    }

    /// A session over `native`, whose account profile has been read as
    /// `account_profile`.
    pub fn new(native: N, account_profile: AccountProfile) -> (r: Self)
        ensures
            r.native_handle() == native,
            r.profile() == account_profile,
    {
        SessionRuntime { native: Arc::new(native), account_profile: Arc::new(account_profile) }
    }

    /// The native session handle, shared.
    pub fn native(&self) -> (r: Arc<N>)
        ensures
            *r == self.native_handle(),
    {
        share(&self.native)
    }

    /// The account profile, shared.
    pub fn account_profile(&self) -> (r: Arc<AccountProfile>)
        ensures
            *r == self.profile(),
    {
        share(&self.account_profile)
    }

    /// Whether playlists are asked for in their offline form: what the
    /// profile says.
    pub fn offline_available(&self) -> (b: bool)
        ensures
            b == self.profile().offline_available,
    {
        self.account_profile.offline_available
    }

    /// The answer to an account request: the profile's storefront and tokens
    /// in the signed-in state.
    pub fn account_info_reply(&self) -> (r: ControlResponse)
        ensures
            response_is(
                r,
                "ok"@,
                "logged_in"@,
                None,
                None,
                None,
                Some((
                    self.profile().storefront_id@,
                    self.profile().dev_token@,
                    self.profile().music_token@,
                )),
            ),
    {
        let p = &self.account_profile;
        ControlResponse::account_info(
            "logged_in",
            p.storefront_id.clone(),
            p.dev_token.clone(),
            p.music_token.clone(),
        )
    }
}

} // verus!
