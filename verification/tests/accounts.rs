use auth_core::errors::{LoginError, RegisterError};
use auth_core::gate::authorize;
use auth_core::resolver::{ExternalIdentity, Provider, RegisterModel};
use auth_core::store::Store;
use auth_core::token::SigningKey;

fn test_key() -> SigningKey {
    SigningKey { bytes: b"unit-test-signing-key".to_vec() }
}

fn salieri_request() -> RegisterModel {
    RegisterModel {
        name: b"Salieri".to_vec(),
        email: b"example@gmail.com".to_vec(),
        password: b"hunter42".to_vec(),
    }
}

#[test]
fn register_then_login() {
    let key = test_key();
    let mut store = Store::new();
    let resp = store.register(&key, &salieri_request(), 1000, 600).unwrap();

    assert_eq!(store.users.len(), 1);
    assert_eq!(store.users[0].id, resp.user_id);
    assert_eq!(store.users[0].email, b"example@gmail.com".to_vec());
    assert_eq!(store.users[0].team, None);
    assert!(store.users[0].password_hash.is_some());

    // The returned token authorizes requests for the fresh account.
    let claims = authorize(&key, Some(&resp.token), 1100).unwrap();
    assert_eq!(claims.user_id, resp.user_id);
    assert_eq!(claims.email, b"example@gmail.com".to_vec());

    // The registered credentials log in; wrong ones do not.
    let login = store
        .login(&key, &b"example@gmail.com".to_vec(), &b"hunter42".to_vec(), 2000, 600)
        .unwrap();
    assert_eq!(login.user_id, resp.user_id);
    assert_eq!(
        store.login(&key, &b"example@gmail.com".to_vec(), &b"wrong".to_vec(), 2000, 600)
            .unwrap_err(),
        LoginError::InvalidCredentials
    );
    assert_eq!(
        store.login(&key, &b"nobody@gmail.com".to_vec(), &b"hunter42".to_vec(), 2000, 600)
            .unwrap_err(),
        LoginError::InvalidCredentials
    );
}

#[test]
fn register_rejects_bad_email_before_any_write() {
    let key = test_key();
    let mut store = Store::new();
    let mut request = salieri_request();
    request.email = b"not-an-email".to_vec();

    let err = store.register(&key, &request, 1000, 600).unwrap_err();
    assert_eq!(err, RegisterError::InvalidEmailAddress);
    assert_eq!(err.status_code(), 400);
    // Nothing was persisted.
    assert_eq!(store.users.len(), 0);
    assert_eq!(store.teams.len(), 0);
}

#[test]
fn register_rejects_duplicate_email() {
    let key = test_key();
    let mut store = Store::new();
    store.register(&key, &salieri_request(), 1000, 600).unwrap();

    let mut again = salieri_request();
    again.name = b"Impostor".to_vec();
    again.password = b"other password".to_vec();
    let err = store.register(&key, &again, 1001, 600).unwrap_err();
    assert_eq!(err, RegisterError::DuplicateAccount);
    assert_eq!(err.status_code(), 409);
    assert_eq!(store.users.len(), 1);
}

#[test]
fn external_login_creates_then_reuses_record() {
    let key = test_key();
    let mut store = Store::new();
    let identity = ExternalIdentity {
        provider: Provider::GitHub,
        provider_user_id: b"4217".to_vec(),
        email: b"example@gmail.com".to_vec(),
    };

    let first = store.resolve_external(&key, &identity, 1000, 600).unwrap();
    assert_eq!(store.users.len(), 1);
    assert_eq!(store.users[0].id, first.user_id);
    assert!(store.users[0].password_hash.is_none());
    assert_eq!(store.users[0].team, None);

    // A later login with the same email maps to the same record.
    let second = store.resolve_external(&key, &identity, 2000, 600).unwrap();
    assert_eq!(store.users.len(), 1);
    assert_eq!(second.user_id, first.user_id);

    // The issued token authorizes requests for the resolved account.
    let claims = authorize(&key, Some(&second.token), 2100).unwrap();
    assert_eq!(claims.user_id, first.user_id);

    // An account without a local password cannot log in locally.
    assert_eq!(
        store.login(&key, &b"example@gmail.com".to_vec(), &b"anything".to_vec(), 2000, 600)
            .unwrap_err(),
        LoginError::InvalidCredentials
    );
}

#[test]
fn two_registrations_get_distinct_ids() {
    let key = test_key();
    let mut store = Store::new();
    let first = store.register(&key, &salieri_request(), 1000, 600).unwrap();
    let mut other = salieri_request();
    other.name = b"Mozart".to_vec();
    other.email = b"mozart@gmail.com".to_vec();
    let second = store.register(&key, &other, 1001, 600).unwrap();
    assert_ne!(first.user_id, second.user_id);
    assert_eq!(store.users.len(), 2);
}
