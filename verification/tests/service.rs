use access_control::errors::{Error, IdentityError, PermissionError, RequestError};
use access_control::service::AccessControl;
use access_control::types::{AccountId, Role, UserInfo};

fn acc(n: u64) -> AccountId {
    AccountId::new(n)
}

fn profile(name: &str, lastname: &str, dni: &str, email: &str) -> UserInfo {
    UserInfo {
        name: name.to_string(),
        lastname: lastname.to_string(),
        dni: dni.to_string(),
        email: email.to_string(),
    }
}

#[test]
fn test_add_user() {
    let mut access = AccessControl::default();
    let account_id = acc(1);
    let user_info = profile("Alice", "Doe", "12345678", "alice@example.com");
    access.add_user(account_id, user_info, Role::Patient).unwrap();
    assert!(access.user_exists(account_id));
}

#[test]
fn test_get_user_info() {
    let mut access = AccessControl::default();
    let account_id = acc(1);
    let user_info = profile("Bob", "Smith", "87654321", "bob@example.com");
    access.add_user(account_id, user_info.clone(), Role::Patient).unwrap();
    assert_eq!(access.get_user_info(account_id), Some(user_info));
}

#[test]
fn test_has_permission() {
    let mut access = AccessControl::default();
    let granter = acc(1);
    let grantee = acc(2);

    access.grant_permission(granter, grantee).unwrap();
    assert!(access.has_permission(granter, grantee));
}

#[test]
fn test_register_same_key_two_roles() {
    let mut access = AccessControl::default();
    let a = acc(1);
    let b = acc(2);

    access
        .add_user(a, profile("Ana", "Diaz", "12345678", "ana@clinic.org"), Role::Doctor)
        .unwrap();
    let dup = access.add_user(
        b,
        profile("Beto", "Ruiz", "12345678", "beto@clinic.org"),
        Role::Doctor,
    );
    assert_eq!(dup, Err(Error::Identity(IdentityError::DuplicateRole)));
    access
        .add_user(b, profile("Beto", "Ruiz", "12345678", "beto@clinic.org"), Role::Patient)
        .unwrap();
    assert_eq!(access.get_accounts("12345678".to_string()), vec![a, b]);
}

#[test]
fn test_identity_exhausted() {
    let mut access = AccessControl::default();
    access
        .add_user(acc(1), profile("Ana", "Diaz", "11112222", "ana@clinic.org"), Role::Doctor)
        .unwrap();
    access
        .add_user(acc(2), profile("Beto", "Ruiz", "11112222", "beto@clinic.org"), Role::Patient)
        .unwrap();
    let third = access.add_user(
        acc(3),
        profile("Caro", "Sanz", "11112222", "caro@clinic.org"),
        Role::Doctor,
    );
    assert_eq!(third, Err(Error::Identity(IdentityError::IdentityExhausted)));
    assert_eq!(access.get_accounts("11112222".to_string()), vec![acc(1), acc(2)]);
    assert!(!access.user_exists(acc(3)));
}

#[test]
fn test_grant_revoke_cycle() {
    let mut access = AccessControl::default();
    let g = acc(1);
    let h = acc(2);

    access.grant_permission(g, h).unwrap();
    assert!(access.has_permission(g, h));
    assert_eq!(
        access.grant_permission(g, h),
        Err(Error::Permission(PermissionError::AlreadyGranted))
    );
    access.revoke_permission(g, h).unwrap();
    assert!(!access.has_permission(g, h));
    assert_eq!(
        access.revoke_permission(g, h),
        Err(Error::Permission(PermissionError::NotGranted))
    );
}

#[test]
fn test_grantees_match_permissions() {
    let mut access = AccessControl::default();
    let g = acc(1);

    access.grant_permission(g, acc(2)).unwrap();
    access.grant_permission(g, acc(3)).unwrap();
    access.grant_permission(g, acc(4)).unwrap();
    access.revoke_permission(g, acc(3)).unwrap();

    let grantees = access.get_granted_permissions(g);
    assert_eq!(grantees, vec![acc(2), acc(4)]);
    for h in [acc(2), acc(3), acc(4), acc(5)] {
        assert_eq!(access.has_permission(g, h), grantees.contains(&h));
    }
}

#[test]
fn test_request_not_authorized() {
    let mut access = AccessControl::default();
    let patient = acc(1);
    let doctor_wannabe = acc(2);

    access
        .add_user(patient, profile("Ana", "Diaz", "12345678", "ana@clinic.org"), Role::Patient)
        .unwrap();
    // A Patient may not request access, and neither may an unknown account.
    let denied = access.request_access(patient, acc(3));
    assert_eq!(denied, Err(Error::Request(RequestError::NotAuthorized)));
    let unknown = access.request_access(doctor_wannabe, acc(3));
    assert_eq!(unknown, Err(Error::Request(RequestError::NotAuthorized)));
    assert_eq!(access.get_access_requests(acc(3)), vec![]);
}

#[test]
fn test_request_duplicate() {
    let mut access = AccessControl::default();
    let doctor = acc(1);
    let subject = acc(2);

    access
        .add_user(doctor, profile("Ana", "Diaz", "12345678", "ana@clinic.org"), Role::Doctor)
        .unwrap();
    access.request_access(doctor, subject).unwrap();
    let again = access.request_access(doctor, subject);
    assert_eq!(again, Err(Error::Request(RequestError::DuplicateRequest)));
    assert_eq!(access.get_access_requests(subject), vec![doctor]);
}

#[test]
fn test_decide_approve() {
    let mut access = AccessControl::default();
    let doctor = acc(1);
    let subject = acc(2);

    access
        .add_user(doctor, profile("Ana", "Diaz", "12345678", "ana@clinic.org"), Role::Doctor)
        .unwrap();
    access.request_access(doctor, subject).unwrap();
    access.decide(subject, doctor, true).unwrap();
    assert_eq!(access.get_access_requests(subject), vec![]);
    assert!(access.has_permission(subject, doctor));
}

#[test]
fn test_decide_deny() {
    let mut access = AccessControl::default();
    let doctor = acc(1);
    let subject = acc(2);

    access
        .add_user(doctor, profile("Ana", "Diaz", "12345678", "ana@clinic.org"), Role::Doctor)
        .unwrap();
    access.request_access(doctor, subject).unwrap();
    access.decide(subject, doctor, false).unwrap();
    assert_eq!(access.get_access_requests(subject), vec![]);
    assert!(!access.has_permission(subject, doctor));
}

#[test]
fn test_decide_no_pending() {
    let mut access = AccessControl::default();
    let r = access.decide(acc(1), acc(2), true);
    assert_eq!(r, Err(Error::Request(RequestError::NoPendingRequest)));
}

#[test]
fn test_request_cycle_restarts() {
    let mut access = AccessControl::default();
    let doctor = acc(1);
    let subject = acc(2);

    access
        .add_user(doctor, profile("Ana", "Diaz", "12345678", "ana@clinic.org"), Role::Doctor)
        .unwrap();
    access.request_access(doctor, subject).unwrap();
    access.decide(subject, doctor, false).unwrap();
    // The pair returned to the no-request state: a new cycle may begin.
    access.request_access(doctor, subject).unwrap();
    assert_eq!(access.get_access_requests(subject), vec![doctor]);
}

#[test]
fn test_assign_role() {
    let mut access = AccessControl::default();
    assert_eq!(access.get_role(acc(1)), None);
    access.assign_role(acc(1), Role::Doctor).unwrap();
    assert_eq!(access.get_role(acc(1)), Some(Role::Doctor));
    access.assign_role(acc(1), Role::Patient).unwrap();
    assert_eq!(access.get_role(acc(1)), Some(Role::Patient));
}

#[test]
fn test_get_accounts_unknown_key() {
    let access = AccessControl::default();
    assert_eq!(access.get_accounts("00000000".to_string()), vec![]);
}
