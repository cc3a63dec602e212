use lan_manager::auth::{AuthError, AuthManager};
use lan_manager::credential::{CredentialError, CredentialStore};
use lan_manager::crypto::calculate_hmac;
use lan_manager::device_id::{generate_device_id, DeviceId};
use lan_manager::session::SessionManager;

fn manager_with_password(password: &str) -> AuthManager {
    let mut auth = AuthManager::new(None, 10);
    auth.set_password(password).expect("set_password");
    auth
}

#[test]
fn test_uuid_generation() {
    let uuid1 = generate_device_id();
    let uuid2 = generate_device_id();

    assert_ne!(uuid1, uuid2);

    assert!(DeviceId::is_valid_uuid(&uuid1));
    assert!(DeviceId::is_valid_uuid(&uuid2));
}

#[test]
fn credential_accepts_only_the_set_password() {
    let mut store = CredentialStore::new();
    assert!(!store.is_set());
    assert!(!store.verify("password123"));

    store.set("password123").expect("set");
    assert!(store.is_set());
    assert!(store.verify("password123"));
    assert!(!store.verify("password123x"));
    assert!(!store.verify(""));

    store.clear();
    assert!(!store.is_set());
    assert!(!store.verify("password123"));
}

#[test]
fn short_passwords_are_rejected() {
    let mut store = CredentialStore::new();
    assert!(matches!(store.set("seven77"), Err(CredentialError::TooShort)));
    assert!(!store.is_set());
    assert!(store.set("eight888").is_ok());
}

#[test]
fn identical_passwords_hash_differently() {
    let mut a = CredentialStore::new();
    let mut b = CredentialStore::new();
    a.set("password123").expect("set");
    b.set("password123").expect("set");
    let ha = a.hash_string().expect("hash");
    let hb = b.hash_string().expect("hash");
    assert_ne!(ha, hb);
}

#[test]
fn login_round_trip_issues_a_token() {
    let mut auth = manager_with_password("password123");
    let t0: u64 = 1_000_000;
    let challenge = auth.generate_challenge(t0);
    let response = calculate_hmac(&challenge, "password123");
    let grant = auth
        .authenticate(&challenge, &response, "password123", t0 + 1)
        .expect("login");
    assert_eq!(grant.expires_in, 3600);
    assert!(auth.verify_token(&grant.token, t0 + 2));
    assert_eq!(auth.get_session_count(), 1);
}

#[test]
fn challenge_is_single_use() {
    let mut auth = manager_with_password("password123");
    let t0: u64 = 50_000;
    let challenge = auth.generate_challenge(t0);
    let response = calculate_hmac(&challenge, "password123");
    auth.authenticate(&challenge, &response, "password123", t0 + 1)
        .expect("first login");
    let retry = auth.authenticate(&challenge, &response, "password123", t0 + 2);
    assert_eq!(retry.unwrap_err(), AuthError::InvalidChallenge);
}

#[test]
fn challenge_expires_after_five_minutes() {
    let mut auth = manager_with_password("password123");
    let t0: u64 = 700_000;
    let challenge = auth.generate_challenge(t0);
    let response = calculate_hmac(&challenge, "password123");
    let late = auth.authenticate(&challenge, &response, "password123", t0 + 301);
    assert_eq!(late.unwrap_err(), AuthError::ExpiredChallenge);
}

#[test]
fn wrong_password_and_wrong_response_are_told_apart() {
    let mut auth = manager_with_password("password123");
    let t0: u64 = 1_000;
    let challenge = auth.generate_challenge(t0);
    let response = calculate_hmac(&challenge, "password123");

    let bad_password = auth.authenticate(&challenge, &response, "password124", t0 + 1);
    assert_eq!(bad_password.unwrap_err(), AuthError::InvalidPassword);

    let bad_response = calculate_hmac("something else", "password123");
    let bad = auth.authenticate(&challenge, &bad_response, "password123", t0 + 1);
    assert_eq!(bad.unwrap_err(), AuthError::InvalidResponse);

    let unknown = auth.authenticate("no-such-nonce", &response, "password123", t0 + 1);
    assert_eq!(unknown.unwrap_err(), AuthError::InvalidChallenge);
}

#[test]
fn password_rotation_revokes_every_session() {
    let mut auth = manager_with_password("password123");
    let t0: u64 = 9_000;
    let challenge = auth.generate_challenge(t0);
    let response = calculate_hmac(&challenge, "password123");
    let grant = auth
        .authenticate(&challenge, &response, "password123", t0 + 1)
        .expect("login");
    assert!(auth.verify_token(&grant.token, t0 + 2));

    auth.set_password("anotherpass").expect("rotate");
    assert!(!auth.verify_token(&grant.token, t0 + 3));
    assert_eq!(auth.get_session_count(), 0);
}

#[test]
fn eleventh_session_evicts_the_oldest() {
    let mut sessions = SessionManager::new(10);
    for i in 0..10u64 {
        sessions.insert(format!("token-{}", i), 100 + i, None);
    }
    assert_eq!(sessions.count(), 10);

    sessions.insert("token-10".to_string(), 200, None);
    assert_eq!(sessions.count(), 10);

    // The session with the smallest created_at (token-0, at 100) is gone;
    // every other one survived.
    assert!(!sessions.verify_token("token-0", 300));
    for i in 1..10u64 {
        assert!(sessions.verify_token(&format!("token-{}", i), 300));
    }
    assert!(sessions.verify_token("token-10", 300));
}

#[test]
fn session_window_is_anchored_at_creation() {
    let mut sessions = SessionManager::new(10);
    sessions.insert("tok".to_string(), 1_000, None);

    // Refreshing last_access just before the boundary does not move it.
    assert!(sessions.verify_token("tok", 4_599));
    assert!(!sessions.verify_token("tok", 4_600));
    // The expired session was evicted on lookup.
    assert_eq!(sessions.count(), 0);
}

#[test]
fn revocation_removes_sessions() {
    let mut sessions = SessionManager::new(10);
    sessions.insert("a".to_string(), 10, None);
    sessions.insert("b".to_string(), 11, Some("peer".to_string()));
    assert!(sessions.revoke("a"));
    assert!(!sessions.revoke("a"));
    assert_eq!(sessions.count(), 1);
    sessions.revoke_all();
    assert_eq!(sessions.count(), 0);
}

#[test]
fn change_password_checks_the_current_one() {
    let mut auth = manager_with_password("password123");
    let wrong = auth.change_password("password124", "freshpass99");
    assert!(matches!(wrong, Err(CredentialError::WrongCurrent)));
    assert!(auth.verify_password("password123"));

    let short = auth.change_password("password123", "tiny");
    assert!(matches!(short, Err(CredentialError::TooShort)));
    assert!(auth.verify_password("password123"));

    auth.change_password("password123", "freshpass99").expect("change");
    assert!(auth.verify_password("freshpass99"));
    assert!(!auth.verify_password("password123"));
}

#[test]
fn hmac_digest_matches_reference_vector() {
    assert_eq!(
        calculate_hmac("challenge", "password123"),
        "73c9b8906e2a5498674f32801a8b97775350e6b05d4f3eaa90b205ff6fc0f417"
    );
    assert_eq!(
        calculate_hmac("abc", "secretpw"),
        "254f291ab50607aad4a50da4c199ce32aded16b82c15cc9da6356d138d3c9520"
    );
}
