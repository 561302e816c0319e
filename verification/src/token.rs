//! The OAuth2 token lifecycle: decide whether a stored token can be reused,
//! must be refreshed, or a fresh authorization is needed, and persist every
//! successful exchange or refresh. Times are seconds since the epoch; the
//! caller performs the network calls and hands their outcomes back.

use vstd::prelude::*;

verus! {

/// What the authorization endpoint returns for a code exchange or a refresh.
pub struct AuthorizationResponse {
    pub access_token: String,
    pub refresh_token: String,
    /// Granted lifetime in seconds.
    pub expires_in: i32,
}

/// A stored token triple. `expires_at` is always the issue time plus the
/// granted lifetime, in seconds since the epoch.
pub struct AuthorizationTokens {
    pub access_token: String,
    pub refresh_token: String,
    pub expires_at: i64,
}

impl Clone for AuthorizationTokens {
    fn clone(&self) -> (r: Self)
        ensures
            r == *self,
    {
        AuthorizationTokens {
            access_token: self.access_token.clone(),
            refresh_token: self.refresh_token.clone(),
            expires_at: self.expires_at,
        }
    }
}

impl AuthorizationTokens {
    /// Derives the stored triple from an authorization response issued at
    /// time `now`.
    pub fn from_authorization_response(response: AuthorizationResponse, now: i64) -> (r: Self)
        requires
            i64::MIN <= now + response.expires_in as i64 <= i64::MAX,
        ensures
            r.access_token == response.access_token,
            r.refresh_token == response.refresh_token,
            r.expires_at == now + response.expires_in as i64,
    {
        AuthorizationTokens {
            access_token: response.access_token,
            refresh_token: response.refresh_token,
            expires_at: now + (response.expires_in as i64),
        }
    }
}

/// The persisted token record: a single current token, overwritten in place
/// on every successful exchange or refresh. Absence is not an error; it
/// signals that authorization is required.
pub struct TokenStore {
    pub current: Option<AuthorizationTokens>,
}

impl TokenStore {
    /// A store holding no token.
    pub fn empty() -> (r: Self)
        ensures
            r.current is None,
    {
        TokenStore { current: None }
    }

    /// A store holding `t`.
    pub fn with_token(t: AuthorizationTokens) -> (r: Self)
        ensures
            r.current == Some(t),
    {
        TokenStore { current: Some(t) }
    }

    /// Replaces the stored record with `t`.
    pub fn put(&mut self, t: AuthorizationTokens)
        ensures
            final(self).current == Some(t),
    {
        self.current = Some(t);
    }
}

/// The lifecycle states of the stored token.
#[derive(Clone, Copy, PartialEq, Eq, Structural, Debug)]
pub enum TokenState {
    /// Nothing is stored; the user must authorize.
    NoToken,
    /// The stored token expires more than 60 s from now.
    Valid,
    /// The stored token expires within the 60 s safety margin (or already
    /// has); it must be refreshed.
    Expiring,
    /// The upstream rejected a refresh: the token is irrecoverably invalid
    /// and the user must authorize again.
    Invalid,
}

/// The state the stored record is in at time `now`, going only by the
/// wall-clock comparison against the 60 s safety margin.
pub open spec fn spec_token_state(stored: Option<AuthorizationTokens>, now: int) -> TokenState {
    match stored {
        Option::None => TokenState::NoToken,
        Option::Some(t) => if t.expires_at > now + 60 {
            TokenState::Valid
        } else {
            TokenState::Expiring
        },
    }
}

/// Classifies the stored record at time `now`.
pub fn token_state(store: &TokenStore, now: i64) -> (r: TokenState)
    requires
        now <= i64::MAX - 60,
    ensures
        r == spec_token_state(store.current, now as int),
{
    match &store.current {
        None => TokenState::NoToken,
        Some(t) => {
            if t.expires_at > now + 60 {
                TokenState::Valid
            } else {
                TokenState::Expiring
            }
        },
    }
}

/// What the caller must do next to hold a valid access token.
pub enum TokenAction {
    /// Use the stored token as it is; no network call is needed.
    UseStored(AuthorizationTokens),
    /// Ask the upstream to refresh, presenting this refresh token.
    Refresh(String),
    /// Nothing is stored: an authorization code must be obtained.
    AuthRequired,
}

/// Decides how to obtain a valid access token at time `now`: a stored token
/// more than 60 s from expiry is returned unchanged and nothing else needs
/// to happen; one within the margin must be refreshed with its refresh
/// token; an empty store requires a fresh authorization.
pub fn next_token_action(store: &TokenStore, now: i64) -> (r: TokenAction)
    requires
        now <= i64::MAX - 60,
    ensures
        match store.current {
            Option::None => r is AuthRequired,
            Option::Some(t) => if t.expires_at > now + 60 {
                r == TokenAction::UseStored(t)
            } else {
                r == TokenAction::Refresh(t.refresh_token)
            },
        },
{
    match &store.current {
        None => TokenAction::AuthRequired,
        Some(t) => {
            if t.expires_at > now + 60 {
                TokenAction::UseStored(t.clone())
            } else {
                TokenAction::Refresh(t.refresh_token.clone())
            }
        },
    }
}

/// What came back from a refresh call.
pub enum RefreshOutcome {
    /// The upstream granted a new token.
    Refreshed(AuthorizationResponse),
    /// The upstream answered and said no: the stored token is irrecoverably
    /// invalid.
    Rejected,
    /// The call itself failed; fatal for the run, no retry.
    TransportError,
}

/// How a run can fail to obtain a token.
#[derive(Clone, Copy, PartialEq, Eq, Structural, Debug)]
pub enum TokenError {
    /// The user must obtain an authorization code out of band.
    AuthRequired,
    /// A transport or HTTP failure distinct from an upstream rejection.
    TokenRefreshFailed,
}

/// Applies the outcome of a refresh performed at time `now`. A new grant is
/// persisted — the store afterwards holds exactly the new token, so the old
/// refresh token is discarded — and returned. An upstream rejection
/// escalates to `AuthRequired`; a transport failure is fatal. The store is
/// untouched unless the refresh succeeded.
pub fn refresh_step(store: &mut TokenStore, outcome: RefreshOutcome, now: i64) -> (r: Result<
    AuthorizationTokens,
    TokenError,
>)
    requires
        match outcome {
            RefreshOutcome::Refreshed(resp) => i64::MIN <= now + resp.expires_in as i64
                <= i64::MAX,
            _ => true,
        },
    ensures
        match outcome {
            RefreshOutcome::Refreshed(resp) => match r {
                Result::Ok(t) => {
                    &&& t.access_token == resp.access_token
                    &&& t.refresh_token == resp.refresh_token
                    &&& t.expires_at == now + resp.expires_in as i64
                    &&& final(store).current == Some(t)
                },
                Result::Err(_) => false,
            },
            RefreshOutcome::Rejected => *final(store) == *old(store) && (match r {
                Result::Err(e) => e == TokenError::AuthRequired,
                Result::Ok(_) => false,
            }),
            RefreshOutcome::TransportError => *final(store) == *old(store) && (match r {
                Result::Err(e) => e == TokenError::TokenRefreshFailed,
                Result::Ok(_) => false,
            }),
        },
{
    match outcome {
        RefreshOutcome::Refreshed(resp) => {
            let t = AuthorizationTokens::from_authorization_response(resp, now);
            let stored = t.clone();
            store.put(stored);
            Result::Ok(t)
        },
        RefreshOutcome::Rejected => Result::Err(TokenError::AuthRequired),
        RefreshOutcome::TransportError => Result::Err(TokenError::TokenRefreshFailed),
    }
}

/// Persists and returns the token obtained by exchanging an authorization
/// code at time `now`; the store afterwards holds exactly that token.
pub fn complete_authorization(
    store: &mut TokenStore,
    response: AuthorizationResponse,
    now: i64,
) -> (r: AuthorizationTokens)
    requires
        i64::MIN <= now + response.expires_in as i64 <= i64::MAX,
    ensures
        r.access_token == response.access_token,
        r.refresh_token == response.refresh_token,
        r.expires_at == now + response.expires_in as i64,
        final(store).current == Some(r),
{
    let t = AuthorizationTokens::from_authorization_response(response, now);
    let stored = t.clone();
    store.put(stored);
    t
}

} // verus!
