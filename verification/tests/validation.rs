use access_control::errors::{Error, ValidationError};
use access_control::service::AccessControl;
use access_control::types::{AccountId, Role, UserInfo};

fn acc(n: u64) -> AccountId {
    AccountId::new(n)
}

fn profile(name: &str, lastname: &str, dni: &str, email: &str) -> UserInfo {
    UserInfo {
        name: name.to_string(),
        lastname: lastname.to_string(),
        dni: dni.to_string(),
        email: email.to_string(),
    }
}

#[test]
fn test_name_empty_rejected() {
    let mut access = AccessControl::default();
    let r = access.add_user(
        acc(1),
        profile("", "Doe", "12345678", "a@b.org"),
        Role::Patient,
    );
    assert_eq!(r, Err(Error::Validation(ValidationError::NameInvalid)));
    // Nothing was written.
    assert!(!access.user_exists(acc(1)));
    assert_eq!(access.get_role(acc(1)), None);
    assert_eq!(access.get_accounts("12345678".to_string()), vec![]);
}

#[test]
fn test_name_too_long_rejected() {
    let mut access = AccessControl::default();
    let r = access.add_user(
        acc(1),
        profile("Abcdefghijklm", "Doe", "12345678", "a@b.org"),
        Role::Patient,
    );
    assert_eq!(r, Err(Error::Validation(ValidationError::NameInvalid)));
    assert!(!access.user_exists(acc(1)));
}

#[test]
fn test_name_at_limit_accepted() {
    let mut access = AccessControl::default();
    access
        .add_user(
            acc(1),
            profile("Abcdefghijkl", "Doe", "12345678", "a@b.org"),
            Role::Patient,
        )
        .unwrap();
    assert!(access.user_exists(acc(1)));
}

#[test]
fn test_lastname_invalid() {
    let mut access = AccessControl::default();
    let empty = access.add_user(
        acc(1),
        profile("Alice", "", "12345678", "a@b.org"),
        Role::Patient,
    );
    assert_eq!(empty, Err(Error::Validation(ValidationError::LastnameInvalid)));
    let long = access.add_user(
        acc(1),
        profile("Alice", "Abcdefghijklm", "12345678", "a@b.org"),
        Role::Patient,
    );
    assert_eq!(long, Err(Error::Validation(ValidationError::LastnameInvalid)));
}

#[test]
fn test_identity_key_wrong_length() {
    let mut access = AccessControl::default();
    let short = access.add_user(
        acc(1),
        profile("Alice", "Doe", "1234567", "a@b.org"),
        Role::Patient,
    );
    assert_eq!(short, Err(Error::Validation(ValidationError::IdentityKeyInvalid)));
    let long = access.add_user(
        acc(1),
        profile("Alice", "Doe", "123456789", "a@b.org"),
        Role::Patient,
    );
    assert_eq!(long, Err(Error::Validation(ValidationError::IdentityKeyInvalid)));
}

#[test]
fn test_email_invalid() {
    let mut access = AccessControl::default();
    let empty = access.add_user(
        acc(1),
        profile("Alice", "Doe", "12345678", ""),
        Role::Patient,
    );
    assert_eq!(empty, Err(Error::Validation(ValidationError::EmailInvalid)));
    let no_at = access.add_user(
        acc(1),
        profile("Alice", "Doe", "12345678", "alice.example.com"),
        Role::Patient,
    );
    assert_eq!(no_at, Err(Error::Validation(ValidationError::EmailInvalid)));
    let too_long = access.add_user(
        acc(1),
        profile("Alice", "Doe", "12345678", "averylongname@long.example.org"),
        Role::Patient,
    );
    assert_eq!(too_long, Err(Error::Validation(ValidationError::EmailInvalid)));
}

#[test]
fn test_email_at_limit_accepted() {
    let mut access = AccessControl::default();
    // Exactly 20 characters.
    access
        .add_user(
            acc(1),
            profile("Alice", "Doe", "12345678", "alice@example-abc.de"),
            Role::Patient,
        )
        .unwrap();
    assert!(access.user_exists(acc(1)));
}

#[test]
fn test_first_failing_rule_reported() {
    let mut access = AccessControl::default();
    // Both the name and the email are invalid: the name is reported, since
    // the fields are checked in a fixed order.
    let r = access.add_user(acc(1), profile("", "", "123", ""), Role::Patient);
    assert_eq!(r, Err(Error::Validation(ValidationError::NameInvalid)));
}
