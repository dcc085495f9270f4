use myace::error::{constraint_error, Error};
use myace::ids::{u128_to_dec, EnterpriseId, InviteId, UserId};
use myace::notifications::Email;
use myace::permissions::ApiPermission;
use myace::roles::EnterpriseRole;
use myace::types::{
    check_bio_format, check_email_format, check_phone_format, check_username_format, Bio,
    PhoneNumber, Username,
};

#[test]
fn test_email() {
    assert_eq!(1, 1)
}

#[test]
fn username_format() {
    assert!(check_username_format("abcd"));
    assert!(check_username_format("a.b_c9"));
    assert!(check_username_format("sixteen_chars_xx"));
    assert!(!check_username_format("abc"));
    assert!(!check_username_format("AB"));
    assert!(!check_username_format("UpperCase"));
    assert!(!check_username_format("seventeen_chars_x"));
    assert!(!check_username_format("has space"));
    assert!(!check_username_format(""));
    match Username::new("valid_name".to_owned()) {
        Ok(u) => assert_eq!(u.as_str(), "valid_name"),
        Err(_) => panic!("expected a valid username"),
    }
    assert_eq!(Username::new("AB".to_owned()).err().as_deref(), Some("AB"));
}

#[test]
fn email_format() {
    assert!(check_email_format("a@b.com"));
    assert!(check_email_format("user.name+tag@sub.example.org"));
    assert!(check_email_format("x@localhost"));
    assert!(!check_email_format("not an email"));
    assert!(!check_email_format("@nolocal.com"));
    assert!(!check_email_format("nodomain@"));
    assert!(!check_email_format("two@@ats.com"));
    assert!(!check_email_format("dot@.leading"));
    assert!(!check_email_format("dot@trailing."));
    assert!(!check_email_format("dots@in..row"));
    assert!(!check_email_format("spa ce@x.com"));
    assert!(!check_email_format(""));
}

#[test]
fn phone_format() {
    assert!(check_phone_format("1234567890"));
    assert!(check_phone_format("123-4567890"));
    assert!(check_phone_format("123456-7890"));
    assert!(check_phone_format("123-456-7890"));
    assert!(!check_phone_format("123456789"));
    assert!(!check_phone_format("12345678901"));
    assert!(!check_phone_format("123-45-67890"));
    assert!(!check_phone_format("12a4567890"));
    assert!(!check_phone_format("+11234567890"));
    match PhoneNumber::new("123-456-7890".to_owned()) {
        Ok(p) => assert_eq!(p.as_str(), "123-456-7890"),
        Err(_) => panic!("expected a valid phone number"),
    }
}

#[test]
fn bio_format() {
    assert!(check_bio_format(""));
    let long = "x".repeat(200);
    assert!(check_bio_format(long.as_str()));
    let too_long = "x".repeat(201);
    assert!(!check_bio_format(too_long.as_str()));
    assert!(Bio::new(too_long).is_err());
}

#[test]
fn constraint_table() {
    match constraint_error("uname_check", "AB".to_owned()) {
        Some(Error::InvalidUsername(v)) => assert_eq!(v, "AB"),
        other => panic!("unexpected: {:?}", other),
    }
    match constraint_error("user_username_key", "taken".to_owned()) {
        Some(Error::UsernameTaken(v)) => assert_eq!(v, "taken"),
        other => panic!("unexpected: {:?}", other),
    }
    assert_eq!(
        constraint_error(
            "enterprise_invite_enterprise_id_user_email_key",
            String::new()
        ),
        Some(Error::InvitationAlreadySent)
    );
    match constraint_error("phone_number_check", "12".to_owned()) {
        Some(Error::InvalidPhone(v)) => assert_eq!(v, "12"),
        other => panic!("unexpected: {:?}", other),
    }
    match constraint_error("email_address_check", "x".to_owned()) {
        Some(Error::InvalidEmail(v)) => assert_eq!(v, "x"),
        other => panic!("unexpected: {:?}", other),
    }
    // a name outside the table passes the original error through
    assert_eq!(constraint_error("some_other_constraint", String::new()), None);
}

#[test]
fn decimal_rendering() {
    assert_eq!(u128_to_dec(0), "0");
    assert_eq!(u128_to_dec(7), "7");
    assert_eq!(u128_to_dec(1234567890), "1234567890");
    assert_eq!(u128_to_dec(u128::MAX), "340282366920938463463374607431768211455");
}

#[test]
fn permission_descriptions() {
    assert_eq!(
        ApiPermission::ViewAPIDocumentation.description(),
        "view API documentation"
    );
    assert_eq!(
        ApiPermission::DeleteEnterprise(EnterpriseId(42)).description(),
        "delete enterprise with id 42"
    );
    assert_eq!(
        ApiPermission::AcceptEnterpriseInvitation(InviteId(7)).description(),
        "accept enterprise invitation with id 7"
    );
    assert_eq!(
        ApiPermission::UpdateEnterpriseMembership {
            enterprise_id: EnterpriseId(3),
            user_id: UserId(9),
        }
        .description(),
        "edit the membership status of user 9 within enterprise 3"
    );
    assert_eq!(
        ApiPermission::DeleteEnterpriseMembership {
            enterprise_id: EnterpriseId(3),
            user_id: UserId(9),
        }
        .description(),
        "remove user 9 from enterprise 3"
    );
}

#[test]
fn enterprise_role_display() {
    assert_eq!(EnterpriseRole::Parent.as_str(), "Parent");
    assert_eq!(EnterpriseRole::Player.as_str(), "Player");
    assert_eq!(EnterpriseRole::Instructor.as_str(), "Instructor");
    assert_eq!(EnterpriseRole::Admin.as_str(), "Admin");
}

#[test]
fn email_builder() {
    let e = Email::new("to@example.com".to_owned());
    assert_eq!(e.from_address(), "no-reply@mail.myace.ai");
    assert_eq!(e.dest_address(), "to@example.com");
    assert_eq!(e.subject_text(), "");
    assert_eq!(e.body_text(), "");
    let e = e
        .subject("A subject".to_owned())
        .body("A body".to_owned())
        .from_email_address("custom@mail.myace.ai".to_owned());
    assert_eq!(e.from_address(), "custom@mail.myace.ai");
    assert_eq!(e.dest_address(), "to@example.com");
    assert_eq!(e.subject_text(), "A subject");
    assert_eq!(e.body_text(), "A body");
}
