use myace::enterprises::{NewEnterprise, NewInvitation, UpdateMember};
use myace::error::Error;
use myace::extractor::{AuthUser, MaybeAuthUser};
use myace::ids::{EnterpriseId, UserId};
use myace::permissions::ApiPermission;
use myace::roles::{EnterpriseRole, MyAceTeamRole};
use myace::store::AuthStore;
use myace::token::TokenCodec;
use myace::users::{NewAppUser, NewMyAceTeamMember, PrivatePublicUser, UpdatePassword, UpdateUser};
use myace::Config;

const NOW: i64 = 1_700_000_000;

fn test_codec() -> TokenCodec {
    TokenCodec::new(b"test-hmac-key".to_vec())
}

fn config() -> Config {
    Config {
        database_url: "postgres://localhost/unused".to_owned(),
        hmac_key: "test-hmac-key".to_owned(),
        server_password: "server-setup-credential".to_owned(),
    }
}

fn team_member(username: &str, email: &str, role: MyAceTeamRole) -> NewMyAceTeamMember {
    NewMyAceTeamMember {
        email: email.to_owned(),
        username: username.to_owned(),
        password: "hunter2".to_owned(),
        role,
        server_password: "server-setup-credential".to_owned(),
    }
}

/// Register a team member and return the new identity.
fn seed_team_member(store: &mut AuthStore, username: &str, email: &str) -> UserId {
    let p = store
        .register_team_member(&config(), &test_codec(), team_member(username, email, MyAceTeamRole::Backend), NOW)
        .expect("registration should succeed");
    p.user_id
}

/// Create an enterprise and seed `admin` as its Admin member, as the
/// surrounding provisioning would.
fn seed_enterprise(store: &mut AuthStore, creator: UserId, admin: UserId, name: &str) -> EnterpriseId {
    let ent = store
        .create_enterprise(
            creator,
            NewEnterprise {
                name: name.to_owned(),
                website: None,
                support_email: None,
                support_phone: None,
            },
            NOW,
        )
        .expect("enterprise creation should succeed");
    store
        .add_membership(ent.enterprise_id, admin, EnterpriseRole::Admin, NOW)
        .expect("seeding the admin membership should succeed");
    ent.enterprise_id
}

#[test]
fn team_role_ord() {
    assert!(MyAceTeamRole::Backend > MyAceTeamRole::Frontend);
    assert!(MyAceTeamRole::Frontend > MyAceTeamRole::Business);
    assert!(MyAceTeamRole::Backend > MyAceTeamRole::Business);
}

/// Registering with role Business and the correct server credential yields a
/// token that verifies to the new identity; a wrong server credential is
/// Unauthorized and creates no account row.
#[test]
fn register_team_member_end_to_end() {
    let mut store = AuthStore::new();
    let c = test_codec();
    let p = store
        .register_team_member(&config(), &c, team_member("biz_person", "biz@example.com", MyAceTeamRole::Business), NOW)
        .expect("registration should succeed");
    let token = p.token.expect("a session token is minted");
    assert_eq!(c.verify_token(token.as_str()), Ok(p.user_id));
    assert_eq!(store.platform_role(p.user_id), Some(MyAceTeamRole::Business));

    let mut bad = team_member("other_person", "o@example.com", MyAceTeamRole::Business);
    bad.server_password = "wrong".to_owned();
    let before = store.users.len();
    assert_eq!(
        store.register_team_member(&config(), &c, bad, NOW),
        Err(Error::Unauthorized)
    );
    assert_eq!(store.users.len(), before);
}

/// Username "AB" fails format validation; a username already in use fails
/// with UsernameTaken; a fresh valid username succeeds.
#[test]
fn register_username_validation() {
    let mut store = AuthStore::new();
    let c = test_codec();
    match store.register_team_member(&config(), &c, team_member("AB", "a@example.com", MyAceTeamRole::Backend), NOW) {
        Err(Error::InvalidUsername(u)) => assert_eq!(u, "AB"),
        other => panic!("expected InvalidUsername, got {:?}", other),
    }
    store
        .register_team_member(&config(), &c, team_member("good_name", "g@example.com", MyAceTeamRole::Backend), NOW)
        .expect("fresh valid username succeeds");
    match store.register_team_member(&config(), &c, team_member("good_name", "h@example.com", MyAceTeamRole::Backend), NOW) {
        Err(Error::UsernameTaken(u)) => assert_eq!(u, "good_name"),
        other => panic!("expected UsernameTaken, got {:?}", other),
    }
    // a duplicate email is a uniqueness fault outside the translator's
    // table: it passes through as an internal storage error
    match store.register_team_member(&config(), &c, team_member("fresh_name", "g@example.com", MyAceTeamRole::Backend), NOW) {
        Err(Error::Internal(_)) => {}
        other => panic!("expected an internal error, got {:?}", other),
    }
}

/// Login round trip: correct password yields a token for the account; a
/// wrong password and an unknown email both fail as IncorrectPassword.
#[test]
fn login_round_trip() {
    let mut store = AuthStore::new();
    let c = test_codec();
    let id = seed_team_member(&mut store, "login_user", "l@example.com");
    let p = store.login(&c, "l@example.com", "hunter2").expect("login succeeds");
    assert_eq!(p.user_id, id);
    let token = p.token.expect("a session token is minted");
    assert_eq!(c.verify_token(token.as_str()), Ok(id));
    assert_eq!(
        store.login(&c, "l@example.com", "wrong"),
        Err(Error::IncorrectPassword)
    );
    // an unknown email fails with the same shape as a wrong password: the
    // error must not reveal whether the email exists
    assert_eq!(
        store.login(&c, "nobody@example.com", "hunter2"),
        Err(Error::IncorrectPassword)
    );
}

/// The enterprise role resolves to None before a membership is created,
/// to the assigned role immediately after, and to None again after removal.
#[test]
fn enterprise_role_tracks_membership() {
    let mut store = AuthStore::new();
    let creator = seed_team_member(&mut store, "creator_one", "c1@example.com");
    let admin = seed_team_member(&mut store, "admin_one", "a1@example.com");
    let member = seed_team_member(&mut store, "member_one", "m1@example.com");
    let ent = seed_enterprise(&mut store, creator, admin, "Acme");

    assert_eq!(store.enterprise_role(member, ent), None);
    // invite and accept: membership is created with the invited role
    store
        .create_invitation(
            admin,
            ent,
            NewInvitation {
                user_email: "m1@example.com".to_owned(),
                role: EnterpriseRole::Instructor,
            },
            NOW,
        )
        .expect("admin may invite");
    let invite_id = store.invitations.last().unwrap().invite_id;
    store.accept_invitation(member, invite_id, NOW).expect("recipient accepts");
    assert_eq!(store.enterprise_role(member, ent), Some(EnterpriseRole::Instructor));
    // removal takes effect on the very next lookup
    store.remove_member(admin, ent, member).expect("admin removes the member");
    assert_eq!(store.enterprise_role(member, ent), None);
}

/// Team override: any platform role allows deleting an organization,
/// whatever the enterprise role there; with no platform role and a
/// non-admin enterprise role the action is denied.
#[test]
fn delete_enterprise_team_override() {
    let mut store = AuthStore::new();
    let creator = seed_team_member(&mut store, "creator_two", "c2@example.com");
    let admin = seed_team_member(&mut store, "admin_two", "a2@example.com");
    let ent = seed_enterprise(&mut store, creator, admin, "Umbrella");
    // a platform member with only a Parent role in the enterprise
    let teamer = seed_team_member(&mut store, "team_parent", "tp@example.com");
    store
        .add_membership(ent, teamer, EnterpriseRole::Parent, NOW)
        .expect("seeding the parent membership should succeed");
    assert!(store
        .check_permission(teamer, ApiPermission::DeleteEnterprise(ent))
        .is_ok());
    // an invited app user: a non-admin enterprise role, no platform role
    store
        .create_invitation(
            admin,
            ent,
            NewInvitation {
                user_email: "out@example.com".to_owned(),
                role: EnterpriseRole::Player,
            },
            NOW,
        )
        .expect("admin may invite");
    let invite_id = store.invitations.last().unwrap().invite_id;
    let outsider = store
        .register_invited_user(
            &test_codec(),
            NewAppUser {
                username: "outsider_one".to_owned(),
                display_name: None,
                biography: None,
                invite_id,
                password: "pw".to_owned(),
            },
            NOW,
        )
        .expect("invited registration succeeds")
        .user_id;
    assert_eq!(store.enterprise_role(outsider, ent), Some(EnterpriseRole::Player));
    assert_eq!(
        store.check_permission(outsider, ApiPermission::DeleteEnterprise(ent)),
        Err(Error::Forbidden(ApiPermission::DeleteEnterprise(ent)))
    );
}

/// Accepting an invitation is identity-bound: an admin of an unrelated
/// organization who is not the resolved recipient is denied.
#[test]
fn accept_invitation_identity_bound() {
    let mut store = AuthStore::new();
    let creator = seed_team_member(&mut store, "creator_thr", "c3@example.com");
    let admin = seed_team_member(&mut store, "admin_three", "a3@example.com");
    let other_admin = seed_team_member(&mut store, "admin_other", "ao@example.com");
    let recipient = seed_team_member(&mut store, "recipient_1", "r1@example.com");
    let ent = seed_enterprise(&mut store, creator, admin, "Acme");
    let _unrelated = seed_enterprise(&mut store, creator, other_admin, "Globex");
    store
        .create_invitation(
            admin,
            ent,
            NewInvitation {
                user_email: "r1@example.com".to_owned(),
                role: EnterpriseRole::Player,
            },
            NOW,
        )
        .expect("admin may invite");
    let invite_id = store.invitations.last().unwrap().invite_id;
    // the admin of an unrelated organization is not the recipient
    assert_eq!(
        store.check_permission(other_admin, ApiPermission::AcceptEnterpriseInvitation(invite_id)),
        Err(Error::Forbidden(ApiPermission::AcceptEnterpriseInvitation(invite_id)))
    );
    // the recipient is allowed
    assert!(store
        .check_permission(recipient, ApiPermission::AcceptEnterpriseInvitation(invite_id))
        .is_ok());
}

/// Two invitations for the same (organization, email) pair: the second
/// fails with InvitationAlreadySent; after the first is deleted, a new one
/// succeeds.
#[test]
fn invitation_uniqueness_lifecycle() {
    let mut store = AuthStore::new();
    let creator = seed_team_member(&mut store, "creator_fou", "c4@example.com");
    let admin = seed_team_member(&mut store, "admin_four", "a4@example.com");
    let ent = seed_enterprise(&mut store, creator, admin, "Acme");
    let invite = |store: &mut AuthStore| {
        store.create_invitation(
            admin,
            ent,
            NewInvitation {
                user_email: "a@b.com".to_owned(),
                role: EnterpriseRole::Player,
            },
            NOW,
        )
    };
    invite(&mut store).expect("first invitation succeeds");
    assert_eq!(
        invite(&mut store).map(|v| v.invite_id),
        Err(Error::InvitationAlreadySent)
    );
    let invite_id = store.invitations.last().unwrap().invite_id;
    store.delete_invitation(admin, invite_id).err();
    // deletion needs the recipient linkage; seed the account and delete
    let _rec = seed_team_member(&mut store, "invitee_one", "a@b.com");
    store.delete_invitation(admin, invite_id).expect("admin deletes the invitation");
    invite(&mut store).expect("a new invitation now succeeds");
}

/// An invited registration consumes the invitation into a membership.
#[test]
fn register_invited_user_consumes_invitation() {
    let mut store = AuthStore::new();
    let c = test_codec();
    let creator = seed_team_member(&mut store, "creator_fiv", "c5@example.com");
    let admin = seed_team_member(&mut store, "admin_five", "a5@example.com");
    let ent = seed_enterprise(&mut store, creator, admin, "Acme");
    store
        .create_invitation(
            admin,
            ent,
            NewInvitation {
                user_email: "new@example.com".to_owned(),
                role: EnterpriseRole::Parent,
            },
            NOW,
        )
        .expect("admin may invite");
    let invite_id = store.invitations.last().unwrap().invite_id;
    let n_inv = store.invitations.len();
    let p = store
        .register_invited_user(
            &c,
            NewAppUser {
                username: "new_user_1".to_owned(),
                display_name: Some("New User".to_owned()),
                biography: None,
                invite_id,
                password: "pw-new".to_owned(),
            },
            NOW,
        )
        .expect("invited registration succeeds");
    assert_eq!(p.email, "new@example.com");
    assert_eq!(store.invitations.len(), n_inv - 1);
    assert_eq!(
        store.enterprise_role(p.user_id, ent),
        Some(EnterpriseRole::Parent)
    );
    assert_eq!(c.verify_token(p.token.unwrap().as_str()), Ok(p.user_id));
    assert!(store.login(&c, "new@example.com", "pw-new").is_ok());
    // an invited app user holds no platform role: the team-only listing is
    // forbidden
    assert!(matches!(
        store.get_all_enterprises(p.user_id),
        Err(Error::Forbidden(_))
    ));
}

/// A profile read is private to an authenticated caller and public
/// otherwise.
#[test]
fn get_user_private_or_public() {
    let mut store = AuthStore::new();
    let id = seed_team_member(&mut store, "gettable_u", "gu@example.com");
    let authed = MaybeAuthUser(Some(AuthUser { user_id: id }));
    match store.get_user(&authed, id).unwrap() {
        PrivatePublicUser::Private(p) => assert_eq!(p.email, "gu@example.com"),
        PrivatePublicUser::Public(_) => panic!("expected the private view"),
    }
    let anon = MaybeAuthUser(None);
    match store.get_user(&anon, id).unwrap() {
        PrivatePublicUser::Public(p) => assert_eq!(p.username, "gettable_u"),
        PrivatePublicUser::Private(_) => panic!("expected the public view"),
    }
    assert!(matches!(store.get_user(&anon, UserId(999_999)), Err(Error::NotFound(_))));
}

/// Updating the account: a password change verifies the old password first;
/// the new credentials then log in.
#[test]
fn update_me_changes_password_and_username() {
    let mut store = AuthStore::new();
    let c = test_codec();
    let id = seed_team_member(&mut store, "old_handle", "um@example.com");
    let wrong = store.update_me(
        id,
        UpdateUser {
            username: None,
            display_name: None,
            biography: None,
            password: Some(UpdatePassword {
                old_password: "not-it".to_owned(),
                new_password: "brand-new".to_owned(),
            }),
        },
        NOW + 5,
    );
    assert_eq!(wrong.map(|p| p.user_id), Err(Error::IncorrectPassword));
    let p = store
        .update_me(
            id,
            UpdateUser {
                username: Some("new_handle".to_owned()),
                display_name: Some("display".to_owned()),
                biography: None,
                password: Some(UpdatePassword {
                    old_password: "hunter2".to_owned(),
                    new_password: "brand-new".to_owned(),
                }),
            },
            NOW + 5,
        )
        .expect("update succeeds");
    assert_eq!(p.username, "new_handle");
    assert_eq!(p.updated_at, Some(NOW + 5));
    assert!(store.login(&c, "um@example.com", "brand-new").is_ok());
    assert_eq!(
        store.login(&c, "um@example.com", "hunter2"),
        Err(Error::IncorrectPassword)
    );
}

/// Deleting the account removes the row, the team entry and memberships.
#[test]
fn delete_me_removes_account() {
    let mut store = AuthStore::new();
    let c = test_codec();
    let id = seed_team_member(&mut store, "doomed_user", "dm@example.com");
    assert!(store.check_username("doomed_user") == false);
    store.delete_me(id);
    assert!(store.check_username("doomed_user"));
    assert_eq!(store.platform_role(id), None);
    assert_eq!(
        store.login(&c, "dm@example.com", "hunter2"),
        Err(Error::IncorrectPassword)
    );
}

/// Enterprise CRUD: creation validates the optional contact fields; update
/// overwrites them; deletion cascades memberships and invitations.
#[test]
fn enterprise_crud() {
    let mut store = AuthStore::new();
    let creator = seed_team_member(&mut store, "creator_six", "c6@example.com");
    let admin = seed_team_member(&mut store, "admin_six", "a6@example.com");
    // invalid contact details are rejected with the typed errors
    match store.create_enterprise(
        creator,
        NewEnterprise {
            name: "Acme".to_owned(),
            website: None,
            support_email: None,
            support_phone: Some("12-34".to_owned()),
        },
        NOW,
    ) {
        Err(Error::InvalidPhone(p)) => assert_eq!(p, "12-34"),
        other => panic!("expected InvalidPhone, got {:?}", other),
    }
    match store.create_enterprise(
        creator,
        NewEnterprise {
            name: "Acme".to_owned(),
            website: None,
            support_email: Some("not an email".to_owned()),
            support_phone: None,
        },
        NOW,
    ) {
        Err(Error::InvalidEmail(m)) => assert_eq!(m, "not an email"),
        other => panic!("expected InvalidEmail, got {:?}", other),
    }
    let ent = seed_enterprise(&mut store, creator, admin, "Acme");
    // any platform-team member may list all enterprises
    let all = store.get_all_enterprises(creator).unwrap();
    assert_eq!(all.len(), 1);
    assert_eq!(all[0].name, "Acme");
    // a non-member may read it (public), but only the admin may update it
    let outsider = seed_team_member(&mut store, "reader_user", "rd@example.com");
    assert_eq!(store.get_enterprise(outsider, ent).unwrap().name, "Acme");
    let upd = myace::enterprises::UpdateEnterprise {
        name: Some("Acme Corp".to_owned()),
        website: None,
        support_email: Some("support@acme.com".to_owned()),
        support_phone: Some("123-456-7890".to_owned()),
    };
    assert!(matches!(
        store.update_enterprise(outsider, ent, upd, NOW),
        Err(Error::Forbidden(_))
    ));
    let upd = myace::enterprises::UpdateEnterprise {
        name: Some("Acme Corp".to_owned()),
        website: None,
        support_email: Some("support@acme.com".to_owned()),
        support_phone: Some("123-456-7890".to_owned()),
    };
    let e2 = store.update_enterprise(admin, ent, upd, NOW).expect("admin updates");
    assert_eq!(e2.name, "Acme Corp");
    assert_eq!(e2.support_email.as_deref(), Some("support@acme.com"));
    // the team may delete any enterprise; memberships go with it
    store.delete_enterprise(creator, ent).expect("team deletes");
    assert_eq!(store.enterprise_role(admin, ent), None);
    assert!(matches!(store.get_enterprise(creator, ent), Err(Error::NotFound(_))));
}

/// Member listing and role editing are admin-gated and reflect the store.
#[test]
fn members_listing_and_editing() {
    let mut store = AuthStore::new();
    let creator = seed_team_member(&mut store, "creator_sev", "c7@example.com");
    let admin = seed_team_member(&mut store, "admin_seven", "a7@example.com");
    let member = seed_team_member(&mut store, "member_sev", "m7@example.com");
    let ent = seed_enterprise(&mut store, creator, admin, "Acme");
    store
        .create_invitation(
            admin,
            ent,
            NewInvitation {
                user_email: "m7@example.com".to_owned(),
                role: EnterpriseRole::Player,
            },
            NOW,
        )
        .unwrap();
    let invite_id = store.invitations.last().unwrap().invite_id;
    store.accept_invitation(member, invite_id, NOW).unwrap();
    // only the admin may list members
    assert!(matches!(
        store.enterprise_members(member, ent),
        Err(Error::Forbidden(_))
    ));
    let members = store.enterprise_members(admin, ent).unwrap();
    assert_eq!(members.len(), 2);
    // edit the member's role
    let v = store
        .edit_membership(admin, ent, member, UpdateMember { role: EnterpriseRole::Instructor })
        .expect("admin edits the role");
    assert_eq!(v.role, EnterpriseRole::Instructor);
    assert_eq!(store.enterprise_role(member, ent), Some(EnterpriseRole::Instructor));
    // the member sees the membership from their side
    let mine = store.get_all_user_memberships(member);
    assert_eq!(mine.len(), 1);
    assert_eq!(mine[0].enterprise.name, "Acme");
    // incoming and outgoing invitation listings
    store
        .create_invitation(
            admin,
            ent,
            NewInvitation {
                user_email: "c7@example.com".to_owned(),
                role: EnterpriseRole::Parent,
            },
            NOW,
        )
        .unwrap();
    let incoming = store.invitations_for_user(creator);
    assert_eq!(incoming.len(), 1);
    assert_eq!(incoming[0].enterprise.name, "Acme");
    let outgoing = store.invitations_for_enterprise(admin, ent).unwrap();
    assert_eq!(outgoing.len(), 1);
    assert_eq!(outgoing[0].user_email, "c7@example.com");
}
