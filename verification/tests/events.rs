use access_control::service::AccessControl;
use access_control::types::{
    AccessRequested, AccountId, Event, PermissionGranted, Role, RoleAssigned, UserAdded, UserInfo,
};

fn acc(n: u64) -> AccountId {
    AccountId::new(n)
}

fn profile(name: &str, lastname: &str, dni: &str, email: &str) -> UserInfo {
    UserInfo {
        name: name.to_string(),
        lastname: lastname.to_string(),
        dni: dni.to_string(),
        email: email.to_string(),
    }
}

#[test]
fn test_event_log() {
    let mut access = AccessControl::default();
    let doctor = acc(1);
    let subject = acc(2);

    access
        .add_user(doctor, profile("Ana", "Diaz", "12345678", "ana@clinic.org"), Role::Doctor)
        .unwrap();
    access.request_access(doctor, subject).unwrap();
    access.decide(subject, doctor, true).unwrap();
    access.revoke_permission(subject, doctor).unwrap();

    assert_eq!(
        access.events,
        vec![
            Event::RoleAssigned(RoleAssigned { account: doctor, role: Role::Doctor }),
            Event::UserAdded(UserAdded { account: doctor }),
            Event::AccessRequested(AccessRequested { requester: doctor, target: subject }),
            Event::PermissionGranted(PermissionGranted {
                granter: subject,
                grantee: doctor,
                state: true,
            }),
            Event::PermissionGranted(PermissionGranted {
                granter: subject,
                grantee: doctor,
                state: false,
            }),
        ]
    );
}

#[test]
fn test_failed_operations_emit_nothing() {
    let mut access = AccessControl::default();
    let _ = access.add_user(
        acc(1),
        profile("", "Doe", "12345678", "a@b.org"),
        Role::Patient,
    );
    let _ = access.request_access(acc(1), acc(2));
    let _ = access.revoke_permission(acc(1), acc(2));
    assert_eq!(access.events, vec![]);
}
