use auth_core::email::is_valid_email;

#[test]
fn accepts_ordinary_addresses() {
    assert!(is_valid_email(b"example@gmail.com"));
    assert!(is_valid_email(b"a@b.co"));
    assert!(is_valid_email(b"first.last+tag_1@mail-server.example.org"));
    assert!(is_valid_email(b"x@y.museum"));
}

#[test]
fn rejects_not_an_email() {
    assert!(!is_valid_email(b"not-an-email"));
}

#[test]
fn rejects_malformed_addresses() {
    assert!(!is_valid_email(b""));
    assert!(!is_valid_email(b"@gmail.com"));
    assert!(!is_valid_email(b"user@"));
    assert!(!is_valid_email(b".user@gmail.com"));
    assert!(!is_valid_email(b"user.@gmail.com"));
    assert!(!is_valid_email(b"user@gmail"));
    assert!(!is_valid_email(b"user@gmail.c"));
    assert!(!is_valid_email(b"user@gmail.commerce"));
    assert!(!is_valid_email(b"user@-gmail.com"));
    assert!(!is_valid_email(b"user@gmail-.com"));
    assert!(!is_valid_email(b"user@gma--il.com"));
    assert!(!is_valid_email(b"user@gmail..com"));
    assert!(!is_valid_email(b"User@gmail.com"));
    assert!(!is_valid_email(b"user@@gmail.com"));
    assert!(!is_valid_email(b"us er@gmail.com"));
    assert!(!is_valid_email(b"user@gmail.com "));
}

#[test]
fn single_hyphen_separators_are_allowed() {
    assert!(is_valid_email(b"u@a-b.com"));
    assert!(!is_valid_email(b"u@a.-b.com"));
}
