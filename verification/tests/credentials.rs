use auth_core::password::{hash_password, verify_password};

#[test]
fn password_round_trip_verifies() {
    let password = b"correct horse battery staple".to_vec();
    let hash = hash_password(&password).unwrap();
    assert!(verify_password(&password, &hash));
}

#[test]
fn wrong_password_is_rejected() {
    let p1 = b"first password".to_vec();
    let p2 = b"second password".to_vec();
    let hash_of_p2 = hash_password(&p2).unwrap();
    assert!(!verify_password(&p1, &hash_of_p2));
}

#[test]
fn distinct_hashes_of_one_password_both_verify() {
    // Each hash embeds a fresh random salt, so the strings differ, yet
    // both verify the password they were derived from.
    let password = b"hunter42".to_vec();
    let h1 = hash_password(&password).unwrap();
    let h2 = hash_password(&password).unwrap();
    assert_ne!(h1, h2);
    assert!(verify_password(&password, &h1));
    assert!(verify_password(&password, &h2));
}

#[test]
fn garbage_hash_string_never_matches() {
    assert!(!verify_password(&b"anything".to_vec(), &String::from("not a phc string")));
}
