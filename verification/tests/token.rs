use run_report::token::{
    next_token_action, refresh_step, token_state, AuthorizationResponse, AuthorizationTokens,
    RefreshOutcome, TokenAction, TokenError, TokenState, TokenStore,
};

fn stored(access: &str, refresh: &str, expires_at: i64) -> AuthorizationTokens {
    AuthorizationTokens {
        access_token: access.to_string(),
        refresh_token: refresh.to_string(),
        expires_at,
    }
}

#[test]
fn valid_token_is_reused_unchanged() {
    let now: i64 = 1_700_000_000;
    let store = TokenStore::with_token(stored("acc", "ref", now + 61));
    match next_token_action(&store, now) {
        TokenAction::UseStored(t) => {
            assert_eq!(t.access_token, "acc");
            assert_eq!(t.refresh_token, "ref");
            assert_eq!(t.expires_at, now + 61);
        }
        _ => panic!("a token with more than 60 s left must be reused"),
    }
}

#[test]
fn expiring_token_is_refreshed() {
    let now: i64 = 1_700_000_000;
    let store = TokenStore::with_token(stored("acc", "ref", now + 60));
    match next_token_action(&store, now) {
        TokenAction::Refresh(refresh_token) => assert_eq!(refresh_token, "ref"),
        _ => panic!("a token within the safety margin must be refreshed"),
    }
}

#[test]
fn missing_token_requires_authorization() {
    let store = TokenStore::empty();
    match next_token_action(&store, 0) {
        TokenAction::AuthRequired => {}
        _ => panic!("an empty store must ask for authorization"),
    }
}

#[test]
fn successful_refresh_replaces_the_stored_token() {
    let now: i64 = 1_700_000_000;
    let mut store = TokenStore::with_token(stored("old_a", "old_r", now + 10));
    let response = AuthorizationResponse {
        access_token: "new_a".to_string(),
        refresh_token: "new_r".to_string(),
        expires_in: 28800,
    };
    let token = refresh_step(&mut store, RefreshOutcome::Refreshed(response), now).unwrap();
    assert_eq!(token.access_token, "new_a");
    assert_eq!(token.expires_at, now + 28800);
    let current = store.current.expect("the new token must be persisted");
    assert_eq!(current.access_token, "new_a");
    assert_eq!(current.refresh_token, "new_r");
    assert_eq!(current.expires_at, now + 28800);
}

#[test]
fn rejected_refresh_escalates_to_auth_required() {
    let now: i64 = 1_700_000_000;
    let mut store = TokenStore::with_token(stored("old_a", "old_r", now + 10));
    match refresh_step(&mut store, RefreshOutcome::Rejected, now) {
        Err(TokenError::AuthRequired) => {}
        _ => panic!("an upstream rejection must demand re-authorization"),
    }
    assert_eq!(store.current.unwrap().access_token, "old_a");
}

#[test]
fn transport_failure_is_fatal() {
    let now: i64 = 1_700_000_000;
    let mut store = TokenStore::with_token(stored("old_a", "old_r", now + 10));
    match refresh_step(&mut store, RefreshOutcome::TransportError, now) {
        Err(TokenError::TokenRefreshFailed) => {}
        _ => panic!("a transport failure must be reported as such"),
    }
}

#[test]
fn expiry_is_issue_time_plus_lifetime() {
    let now: i64 = 1_700_000_000;
    let response = AuthorizationResponse {
        access_token: "a".to_string(),
        refresh_token: "r".to_string(),
        expires_in: 3600,
    };
    let token = AuthorizationTokens::from_authorization_response(response, now);
    assert_eq!(token.expires_at, now + 3600);
}

#[test]
fn lifecycle_states_follow_the_clock() {
    let now: i64 = 1_700_000_000;
    assert_eq!(token_state(&TokenStore::empty(), now), TokenState::NoToken);
    let fresh = TokenStore::with_token(stored("a", "r", now + 3600));
    assert_eq!(token_state(&fresh, now), TokenState::Valid);
    let stale = TokenStore::with_token(stored("a", "r", now - 5));
    assert_eq!(token_state(&stale, now), TokenState::Expiring);
}
