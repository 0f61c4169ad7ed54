use auth_core::errors::TokenError;
use auth_core::token::{SigningKey, issue, verify_token};

fn test_key() -> SigningKey {
    SigningKey { bytes: b"unit-test-signing-key".to_vec() }
}

#[test]
fn issued_token_verifies_until_expiry() {
    let key = test_key();
    let email = b"example@gmail.com".to_vec();
    let token = issue(&key, 0x15, &email, 1000, 600);

    // Immediately valid, and valid up to the expiry instant itself.
    let claims = verify_token(&key, &token, 1000).unwrap();
    assert_eq!(claims.user_id, 0x15);
    assert_eq!(claims.email, email);
    assert_eq!(claims.issued_at, 1000);
    assert_eq!(claims.expires_at, 1600);
    assert!(verify_token(&key, &token, 1600).is_ok());

    // One tick past expiry the same token is expired, not invalid.
    assert_eq!(verify_token(&key, &token, 1601).unwrap_err(), TokenError::Expired);
}

#[test]
fn tampered_token_is_invalid() {
    let key = test_key();
    let token = issue(&key, 0x15, &b"example@gmail.com".to_vec(), 1000, 600);

    // Flipping one bit of the trailing tag invalidates the token.
    let mut tag_flipped = token.clone();
    let last = tag_flipped.len() - 1;
    tag_flipped[last] ^= 0x01;
    assert_eq!(verify_token(&key, &tag_flipped, 1000).unwrap_err(), TokenError::InvalidToken);

    // Flipping one bit of the payload (here: inside the email) too.
    let mut payload_flipped = token.clone();
    payload_flipped[33] ^= 0x80;
    assert_eq!(verify_token(&key, &payload_flipped, 1000).unwrap_err(), TokenError::InvalidToken);

    // Flipping one bit of the stored expiry does not extend a session.
    let mut expiry_flipped = token.clone();
    expiry_flipped[31] ^= 0x40;
    assert_eq!(verify_token(&key, &expiry_flipped, 1000).unwrap_err(), TokenError::InvalidToken);

    // The untouched token still verifies.
    assert!(verify_token(&key, &token, 1000).is_ok());
}

#[test]
fn malformed_and_foreign_tokens_are_invalid() {
    let key = test_key();

    // Too short to carry the header and tag.
    assert_eq!(verify_token(&key, &b"short".to_vec(), 0).unwrap_err(), TokenError::InvalidToken);
    assert_eq!(verify_token(&key, &vec![0u8; 39], 0).unwrap_err(), TokenError::InvalidToken);

    // A token signed under another key fails the integrity check.
    let other = SigningKey { bytes: b"some-other-key".to_vec() };
    let token = issue(&other, 0x15, &b"example@gmail.com".to_vec(), 1000, 600);
    assert_eq!(verify_token(&key, &token, 1000).unwrap_err(), TokenError::InvalidToken);
}

#[test]
fn empty_email_token_round_trips() {
    let key = test_key();
    let token = issue(&key, u128::MAX, &Vec::new(), 0, 0);
    assert_eq!(token.len(), 40);
    let claims = verify_token(&key, &token, 0).unwrap();
    assert_eq!(claims.user_id, u128::MAX);
    assert_eq!(claims.email, Vec::<u8>::new());
    assert_eq!(claims.expires_at, 0);
    assert_eq!(verify_token(&key, &token, 1).unwrap_err(), TokenError::Expired);
}

#[test]
fn issuance_is_deterministic_in_its_inputs() {
    let key = test_key();
    let email = b"example@gmail.com".to_vec();
    let t1 = issue(&key, 0x15, &email, 1000, 600);
    let t2 = issue(&key, 0x15, &email, 1000, 600);
    assert_eq!(t1, t2);
    assert_eq!(t1.len(), 40 + email.len());
    // A different key yields a different tag for the same claims.
    let other = SigningKey { bytes: b"some-other-key".to_vec() };
    assert_ne!(issue(&other, 0x15, &email, 1000, 600), t1);
}
