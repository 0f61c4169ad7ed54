use auth_core::errors::GateError;
use auth_core::gate::authorize;
use auth_core::token::{SigningKey, issue};

fn test_key() -> SigningKey {
    SigningKey { bytes: b"unit-test-signing-key".to_vec() }
}

#[test]
fn missing_cookie_is_unauthenticated() {
    let key = test_key();
    let err = authorize(&key, None, 1000).unwrap_err();
    assert_eq!(err, GateError::Unauthenticated);
    assert_eq!(err.status_code(), 401);
}

#[test]
fn expired_cookie_is_unauthenticated() {
    let key = test_key();
    let token = issue(&key, 0x15, &b"example@gmail.com".to_vec(), 1000, 600);
    assert!(authorize(&key, Some(&token), 1600).is_ok());
    let err = authorize(&key, Some(&token), 1601).unwrap_err();
    assert_eq!(err, GateError::Unauthenticated);
    assert_eq!(err.status_code(), 401);
}

#[test]
fn garbage_cookie_is_unauthenticated() {
    let key = test_key();
    let err = authorize(&key, Some(&b"no such token".to_vec()), 1000).unwrap_err();
    assert_eq!(err, GateError::Unauthenticated);
}

#[test]
fn valid_cookie_attaches_identity() {
    let key = test_key();
    let token = issue(&key, 0x15, &b"example@gmail.com".to_vec(), 1000, 600);
    let claims = authorize(&key, Some(&token), 1000).unwrap();
    assert_eq!(claims.user_id, 0x15);
    assert_eq!(claims.email, b"example@gmail.com".to_vec());
    assert_eq!(claims.issued_at, 1000);
    assert_eq!(claims.expires_at, 1600);
}
