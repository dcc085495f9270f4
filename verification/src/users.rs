use vstd::prelude::*;

use crate::error::{constraint_error, Error};
use crate::extractor::MaybeAuthUser;
use crate::ids::{InviteId, UserId};
use crate::password::{
    digest_matches, digest_well_formed, hash_password, password_within_limit, verify_password,
};
use crate::roles::MyAceTeamRole;
use crate::store::{AuthStore, Membership, TeamMember, UserFromDB};
use crate::token::{spec_issue, TokenCodec};
use crate::types::{check_username_format, username_valid};
use crate::Config;

verus! {

// ---------------------------------------------------------------------------
// Views of an account
// ---------------------------------------------------------------------------
/// The public view of a user, which does **not** contain sensitive profile
/// information.
#[derive(Debug, PartialEq, Eq)]
pub struct PublicUser {
    pub user_id: UserId,
    pub username: String,
    pub display_name: String,
    pub biography: String,
}

/// The private view of a user, which **contains sensitive profile
/// information**: only for the account's own session responses.
#[derive(Debug, PartialEq, Eq)]
pub struct PrivateUser {
    pub user_id: UserId,
    pub username: String,
    pub display_name: String,
    pub biography: String,
    pub email: String,
    pub created_at: i64,
    pub updated_at: Option<i64>,
    /// A fresh session token, set when a login or registration minted one.
    pub token: Option<String>,
}

/// The public view of a user extended with the email address, for
/// enterprise administrators.
#[derive(Debug, PartialEq, Eq)]
pub struct PublicUserWithEmail {
    pub user_id: UserId,
    pub username: String,
    pub display_name: String,
    pub biography: String,
    pub email: String,
}

/// Whether `p` is the public-with-email view of the record `u`.
pub open spec fn is_public_email_view_of(p: PublicUserWithEmail, u: UserFromDB) -> bool {
    &&& p.user_id == u.user_id
    &&& p.username@ == u.username@
    &&& p.display_name@ == u.display_name@
    &&& p.biography@ == u.biography@
    &&& p.email@ == u.email@
}

/// Either a private or public user, depending on the currently authenticated
/// user.
#[derive(Debug, PartialEq, Eq)]
pub enum PrivatePublicUser {
    Private(PrivateUser),
    Public(PublicUser),
}

/// Whether `p` is the private view of the record `u`, carrying `token`.
pub open spec fn is_private_view_of(p: PrivateUser, u: UserFromDB) -> bool {
    &&& p.user_id == u.user_id
    &&& p.username@ == u.username@
    &&& p.display_name@ == u.display_name@
    &&& p.biography@ == u.biography@
    &&& p.email@ == u.email@
    &&& p.created_at == u.created_at
    &&& p.updated_at == u.updated_at
}

/// Whether `p` is the public view of the record `u`.
pub open spec fn is_public_view_of(p: PublicUser, u: UserFromDB) -> bool {
    &&& p.user_id == u.user_id
    &&& p.username@ == u.username@
    &&& p.display_name@ == u.display_name@
    &&& p.biography@ == u.biography@
}

pub(crate) fn clone_opt_string(s: &Option<String>) -> (r: Option<String>)
    ensures
        r == *s,
{
    match s {
        Some(x) => Some(x.clone()),
        None => None,
    }
}

impl UserFromDB {
    /// An exact copy of the record.
    pub fn duplicate(&self) -> (r: UserFromDB)
        ensures
            r == *self,
    {
        UserFromDB {
            user_id: self.user_id,
            username: self.username.clone(),
            display_name: self.display_name.clone(),
            biography: self.biography.clone(),
            email: self.email.clone(),
            password_hash: self.password_hash.clone(),
            created_at: self.created_at,
            updated_at: clone_opt_i64(&self.updated_at),
        }
    }

    /// Create a user view that serializes sensitive fields, such as the
    /// user's email, login token, and profile metadata.
    pub fn into_private(self, token: Option<String>) -> (r: PrivateUser)
        ensures
            is_private_view_of(r, self),
            r.token == token,
    {
        PrivateUser {
            user_id: self.user_id,
            username: self.username,
            display_name: self.display_name,
            biography: self.biography,
            email: self.email,
            token,
            created_at: self.created_at,
            updated_at: self.updated_at,
        }
    }

    /// Create a user view that only serializes non-sensitive fields.
    pub fn into_public(self) -> (r: PublicUser)
        ensures
            is_public_view_of(r, self),
    {
        PublicUser {
            user_id: self.user_id,
            username: self.username,
            display_name: self.display_name,
            biography: self.biography,
        }
    }
}

fn clone_opt_i64(s: &Option<i64>) -> (r: Option<i64>)
    ensures
        r == *s,
{
    match s {
        Some(x) => Some(*x),
        None => None,
    }
}

/// The request body to change the account password: the old password must
/// still verify.
pub struct UpdatePassword {
    pub old_password: String,
    pub new_password: String,
}

/// The request body to update the caller's own account; absent fields keep
/// their stored value.
pub struct UpdateUser {
    pub username: Option<String>,
    pub display_name: Option<String>,
    pub biography: Option<String>,
    pub password: Option<UpdatePassword>,
}

/// Whether the password-change part of `req` verifies against the stored
/// record `u` (vacuously true when no change is requested).
pub open spec fn update_password_ok(u: UserFromDB, req: UpdateUser) -> bool {
    match req.password {
        Some(up) => digest_matches(u.password_hash@, up.old_password@),
        None => true,
    }
}

impl AuthStore {
    /// Whether an account other than `caller` holds `name`.
    pub open spec fn username_taken_by_other(&self, caller: UserId, name: Seq<char>) -> bool {
        exists|i: int|
            0 <= i < self.users@.len() && (#[trigger] self.users@[i]).username@ == name
                && self.users@[i].user_id != caller
    }

    fn find_username_other(&self, caller: UserId, name: &str) -> (r: bool)
        ensures
            r == self.username_taken_by_other(caller, name@),
    {
        let n = self.users.len();
        let mut i: usize = 0;
        while i < n
            invariant
                i <= n,
                n == self.users@.len(),
                forall|j: int|
                    0 <= j < i ==> !((#[trigger] self.users@[j]).username@ == name@
                        && self.users@[j].user_id != caller),
            decreases n - i,
        {
            if self.users[i].username.as_str().to_owned() == name.to_owned() && !(self.users[i]
                .user_id == caller) {
                return true;
            }
            i += 1;
        }
        false
    }

    /// Whether `username` is still free.
    pub fn check_username(&self, username: &str) -> (r: bool)
        ensures
            r == !self.has_username(username@),
    {
        !self.find_username(username)
    }

    /// Create a user session by verifying a registered user's email and
    /// password; the response carries a fresh session token for the account.
    ///
    /// A failed login is always `IncorrectPassword`, whether the email is
    /// unknown or the password is wrong: the error must not reveal which
    /// factor failed, nor whether the email exists.
    pub fn login(&self, codec: &TokenCodec, email: &str, password: &str) -> (r: Result<
        PrivateUser,
        Error,
    >)
        requires
            self.wf(),
        ensures
            (r is Ok) == (self.has_user_email(email@) && digest_matches(
                self.spec_user_by_email(email@).password_hash@,
                password@,
            )),
            r is Err ==> r == Err::<PrivateUser, Error>(Error::IncorrectPassword),
            r matches Ok(p) ==> (is_private_view_of(p, self.spec_user_by_email(email@)) && (
            p.token matches Some(t) && t@ == spec_issue(
                codec.spec_key(),
                self.spec_user_by_email(email@).user_id.0,
            ))),
    {
        let i = match self.find_user_by_email(email) {
            Some(i) => i,
            None => {
                return Err(Error::IncorrectPassword);
            },
        };
        verify_password(password, self.users[i].password_hash.as_str())?;
        // create authentication token
        let token = codec.issue(self.users[i].user_id);
        Ok(self.users[i].duplicate().into_private(Some(token)))
    }

    /// Get a user by ID. Return private info only to an authenticated
    /// caller.
    ///
    /// Any authenticated caller receives the private view, not only the
    /// subject themself; narrowing it to the subject is a pending product
    /// decision, so the contract states the behaviour as it stands.
    pub fn get_user(&self, auth_user: &MaybeAuthUser, id: UserId) -> (r: Result<
        PrivatePublicUser,
        Error,
    >)
        requires
            self.wf(),
        ensures
            !self.has_user(id) ==> (r matches Err(e) && e.is_not_found_msg("user"@)),
            self.has_user(id) ==> match auth_user.0 {
                Some(_) => (r matches Ok(v) && v matches PrivatePublicUser::Private(p)
                    && is_private_view_of(p, self.spec_user(id)) && p.token is None),
                None => (r matches Ok(v) && v matches PrivatePublicUser::Public(p)
                    && is_public_view_of(p, self.spec_user(id))),
            },
    {
        let i = match self.find_user(id) {
            Some(i) => i,
            None => {
                return Err(Error::NotFound("user".to_owned()));
            },
        };
        // check if a caller is authenticated at all
        let user = match auth_user.user_id() {
            Some(_) => PrivatePublicUser::Private(self.users[i].duplicate().into_private(None)),
            None => PrivatePublicUser::Public(self.users[i].duplicate().into_public()),
        };
        Ok(user)
    }
}

// ---------------------------------------------------------------------------
// Registration
// ---------------------------------------------------------------------------
/// A registration request for an internal platform-team member.
pub struct NewMyAceTeamMember {
    pub email: String,
    pub username: String,
    pub password: String,
    pub role: MyAceTeamRole,
    /// Credential that allows the caller to create a platform team member.
    pub server_password: String,
}

/// A registration request for an invited app user; the invitation is
/// identified by the id its opaque invite code stands for.
pub struct NewAppUser {
    pub username: String,
    pub display_name: Option<String>,
    pub biography: Option<String>,
    pub invite_id: InviteId,
    pub password: String,
}

impl AuthStore {
    /// Append a fresh account row. The identifier is newly allocated and the
    /// row is appended unchanged; every other table is left alone.
    fn push_user(
        &mut self,
        username: String,
        display_name: String,
        biography: String,
        email: String,
        password_hash: String,
        now: i64,
    ) -> (id: UserId)
        requires
            old(self).wf(),
            old(self).next_id < u128::MAX,
            !old(self).has_username(username@),
            !old(self).has_user_email(email@),
            digest_well_formed(password_hash@),
        ensures
            final (self).wf(),
            id == UserId(old(self).next_id),
            final (self).users@ == old(self).users@.push(
                (UserFromDB {
                    user_id: id,
                    username,
                    display_name,
                    biography,
                    email,
                    password_hash,
                    created_at: now,
                    updated_at: None,
                }),
            ),
            final (self).team == old(self).team,
            final (self).enterprises == old(self).enterprises,
            final (self).memberships == old(self).memberships,
            final (self).invitations == old(self).invitations,
            final (self).next_id == old(self).next_id + 1,
    {
        let id = UserId(self.next_id);
        let rec = UserFromDB {
            user_id: id,
            username,
            display_name,
            biography,
            email,
            password_hash,
            created_at: now,
            updated_at: None,
        };
        self.users.push(rec);
        self.next_id = self.next_id + 1;
        proof {
            let post = self.users@;
            let pre = old(self).users@;
            let n = pre.len() as int;
            assert forall|i: int, j: int|
                0 <= i < post.len() && 0 <= j < post.len() && i != j implies (
            #[trigger] post[i]).user_id != (#[trigger] post[j]).user_id && post[i].username@
                != post[j].username@ && post[i].email@ != post[j].email@ by {
                if i < n && j < n {
                } else if i == n {
                    assert(post[j] == pre[j]);
                    assert(!old(self).has_username(username@));
                    assert(!old(self).has_user_email(email@));
                } else {
                    assert(post[i] == pre[i]);
                }
            }
            assert forall|i: int|
                0 <= i < self.memberships@.len() implies self.has_enterprise(
                (#[trigger] self.memberships@[i]).enterprise_id,
            ) && self.has_user(self.memberships@[i].user_id) by {
                let m = self.memberships@[i];
                assert(old(self).has_user(m.user_id));
                let j = old(self).user_idx(m.user_id);
                assert(0 <= j < pre.len() && pre[j].user_id == m.user_id);
                assert(post[j] == pre[j]);
                assert(old(self).has_enterprise(m.enterprise_id));
            }
            assert forall|i: int|
                0 <= i < self.invitations@.len() implies self.has_enterprise(
                (#[trigger] self.invitations@[i]).enterprise_id,
            ) && self.invitations@[i].invite_id.0 < self.next_id by {
                assert(old(self).has_enterprise(self.invitations@[i].enterprise_id));
            }
        }
        id
    }

    /// Register an internal platform-team member, guarded by the server
    /// credential, and mint a session token for the new account.
    ///
    /// The username is validated and must be free; a duplicate email is a
    /// storage-level uniqueness fault and surfaces as an internal error, as
    /// does a hashing failure.
    pub fn register_team_member(
        &mut self,
        config: &Config,
        codec: &TokenCodec,
        req: NewMyAceTeamMember,
        now: i64,
    ) -> (r: Result<PrivateUser, Error>)
        requires
            old(self).wf(),
            old(self).next_id < u128::MAX,
        ensures
            final (self).wf(),
            r is Err ==> *final (self) == *old(self),
            (r == Err::<PrivateUser, Error>(Error::Unauthorized)) == (req.server_password@
                != config.server_password@),
            ((req.server_password@ == config.server_password@ && !username_valid(req.username@))
                == (match r {
                Err(Error::InvalidUsername(_)) => true,
                _ => false,
            })),
            (match r {
                Err(Error::InvalidUsername(m)) => m@ == req.username@,
                _ => true,
            }),
            ((req.server_password@ == config.server_password@ && username_valid(req.username@)
                && old(self).has_username(req.username@)) == (match r {
                Err(Error::UsernameTaken(_)) => true,
                _ => false,
            })),
            (match r {
                Err(Error::UsernameTaken(m)) => m@ == req.username@,
                _ => true,
            }),
            r matches Err(e) ==> (e matches Error::Unauthorized || e matches Error::InvalidUsername(
                _,
            ) || e matches Error::UsernameTaken(_) || e matches Error::Internal(_)),
            (r matches Err(e) && e matches Error::Internal(_)) ==> (req.server_password@
                == config.server_password@ && username_valid(req.username@) && !old(
                self,
            ).has_username(req.username@) && (old(self).has_user_email(req.email@)
                || !password_within_limit(req.password@))),
            (req.server_password@ == config.server_password@ && username_valid(req.username@)
                && !old(self).has_username(req.username@) && !old(self).has_user_email(req.email@)
                && password_within_limit(req.password@)) ==> r is Ok,
            r matches Ok(p) ==> ({
                let id = UserId(old(self).next_id);
                &&& req.server_password@ == config.server_password@
                &&& username_valid(req.username@)
                &&& !old(self).has_username(req.username@)
                &&& !old(self).has_user_email(req.email@)
                &&& final (self).users@.len() == old(self).users@.len() + 1
                &&& final (self).users@.subrange(0, old(self).users@.len() as int) == old(
                    self,
                ).users@
                &&& ({
                    let u = final (self).users@.last();
                    &&& u.user_id == id
                    &&& u.username@ == req.username@
                    &&& u.email@ == req.email@
                    &&& u.created_at == now
                    &&& u.updated_at is None
                    &&& digest_matches(u.password_hash@, req.password@)
                })
                &&& final (self).team@ == old(self).team@.push(
                    (TeamMember { user_id: id, role: req.role }),
                )
                &&& final (self).enterprises == old(self).enterprises
                &&& final (self).memberships == old(self).memberships
                &&& final (self).invitations == old(self).invitations
                &&& final (self).next_id == old(self).next_id + 1
                &&& is_private_view_of(p, final (self).users@.last())
                &&& (p.token matches Some(t) && t@ == spec_issue(codec.spec_key(), id.0))
            }),
    {
        // check server password matches
        if !(req.server_password == config.server_password) {
            return Err(Error::Unauthorized);
        }
        // the storage schema's uname_check constraint
        if !check_username_format(req.username.as_str()) {
            return Err(
                match constraint_error("uname_check", req.username) {
                    Some(e) => e,
                    None => Error::Internal(String::new()),
                },
            );
        }
        // the storage schema's user_username_key unique index
        if self.find_username(req.username.as_str()) {
            return Err(
                match constraint_error("user_username_key", req.username) {
                    Some(e) => e,
                    None => Error::Internal(String::new()),
                },
            );
        }
        // a duplicate email violates a constraint outside the translator's
        // table: the storage error passes through as an internal error
        if self.find_user_by_email(req.email.as_str()).is_some() {
            return Err(Error::Internal("duplicate user email".to_owned()));
        }
        let password_hash = hash_password(req.password.as_str())?;
        // add the account and the team entry
        let id = self.push_user(
            req.username,
            String::new(),
            String::new(),
            req.email,
            password_hash,
            now,
        );
        self.team.push(TeamMember { user_id: id, role: req.role });
        proof {
            assert forall|i: int, j: int|
                0 <= i < self.team@.len() && 0 <= j < self.team@.len() && i != j implies (
            #[trigger] self.team@[i]).user_id != (#[trigger] self.team@[j]).user_id by {
                let n = old(self).team@.len() as int;
                if i < n && j < n {
                } else if i == n {
                    assert(self.team@[j] == old(self).team@[j]);
                } else if j == n {
                    assert(self.team@[i] == old(self).team@[i]);
                }
            }
        }
        // create authentication token
        let token = codec.issue(id);
        let last = self.users.len() - 1;
        Ok(self.users[last].duplicate().into_private(Some(token)))
    }

    /// Accept an enterprise invitation and register a new user account,
    /// creating a new user session.
    ///
    /// The invitation is consumed: the new account takes the invitation's
    /// email, and a membership with the invitation's role is created in its
    /// enterprise.
    pub fn register_invited_user(
        &mut self,
        codec: &TokenCodec,
        req: NewAppUser,
        now: i64,
    ) -> (r: Result<PrivateUser, Error>)
        requires
            old(self).wf(),
            old(self).next_id < u128::MAX,
        ensures
            final (self).wf(),
            r is Err ==> *final (self) == *old(self),
            (!old(self).has_invitation(req.invite_id)) == (match r {
                Err(Error::NotFound(_)) => true,
                _ => false,
            }),
            (match r {
                Err(Error::NotFound(m)) => m@ == "invite code"@,
                _ => true,
            }),
            ((old(self).has_invitation(req.invite_id) && !username_valid(req.username@)) == (
            match r {
                Err(Error::InvalidUsername(_)) => true,
                _ => false,
            })),
            (match r {
                Err(Error::InvalidUsername(m)) => m@ == req.username@,
                _ => true,
            }),
            ((old(self).has_invitation(req.invite_id) && username_valid(req.username@) && old(
                self,
            ).has_username(req.username@)) == (match r {
                Err(Error::UsernameTaken(_)) => true,
                _ => false,
            })),
            (match r {
                Err(Error::UsernameTaken(m)) => m@ == req.username@,
                _ => true,
            }),
            r matches Err(e) ==> (e matches Error::NotFound(_) || e matches Error::InvalidUsername(
                _,
            ) || e matches Error::UsernameTaken(_) || e matches Error::Internal(_)),
            (r matches Err(e) && e matches Error::Internal(_)) ==> (old(self).has_invitation(
                req.invite_id,
            ) && username_valid(req.username@) && !old(self).has_username(req.username@) && (old(
                self,
            ).has_user_email(old(self).spec_invitation(req.invite_id).user_email@)
                || !password_within_limit(req.password@))),
            (old(self).has_invitation(req.invite_id) && username_valid(req.username@) && !old(
                self,
            ).has_username(req.username@) && !old(self).has_user_email(
                old(self).spec_invitation(req.invite_id).user_email@,
            ) && password_within_limit(req.password@)) ==> r is Ok,
            r matches Ok(p) ==> ({
                let id = UserId(old(self).next_id);
                let inv = old(self).spec_invitation(req.invite_id);
                &&& old(self).has_invitation(req.invite_id)
                &&& username_valid(req.username@)
                &&& !old(self).has_username(req.username@)
                &&& !old(self).has_user_email(inv.user_email@)
                &&& final (self).users@.len() == old(self).users@.len() + 1
                &&& final (self).users@.subrange(0, old(self).users@.len() as int) == old(
                    self,
                ).users@
                &&& ({
                    let u = final (self).users@.last();
                    &&& u.user_id == id
                    &&& u.username@ == req.username@
                    &&& u.email@ == inv.user_email@
                    &&& u.display_name@ == (match req.display_name {
                        Some(d) => d@,
                        None => Seq::<char>::empty(),
                    })
                    &&& u.biography@ == (match req.biography {
                        Some(b) => b@,
                        None => Seq::<char>::empty(),
                    })
                    &&& u.created_at == now
                    &&& digest_matches(u.password_hash@, req.password@)
                })
                &&& final (self).memberships@ == old(self).memberships@.push(
                    (Membership {
                        enterprise_id: inv.enterprise_id,
                        user_id: id,
                        role: inv.role,
                        member_since: now,
                    }),
                )
                &&& final (self).invitations@ == old(self).invitations@.remove(
                    old(self).invitation_idx(req.invite_id),
                )
                &&& final (self).team == old(self).team
                &&& final (self).enterprises == old(self).enterprises
                &&& final (self).next_id == old(self).next_id + 1
                &&& final (self).spec_enterprise_role(id, inv.enterprise_id) == Some(inv.role)
                &&& is_private_view_of(p, final (self).users@.last())
                &&& (p.token matches Some(t) && t@ == spec_issue(codec.spec_key(), id.0))
            }),
    {
        // select the enterprise invitation by its code
        let inv_i = match self.find_invitation(req.invite_id) {
            Some(i) => i,
            None => {
                return Err(Error::NotFound("invite code".to_owned()));
            },
        };
        let inv_email = self.invitations[inv_i].user_email.clone();
        let inv_enterprise = self.invitations[inv_i].enterprise_id;
        let inv_role = self.invitations[inv_i].role;
        // the storage schema's uname_check constraint
        if !check_username_format(req.username.as_str()) {
            return Err(
                match constraint_error("uname_check", req.username) {
                    Some(e) => e,
                    None => Error::Internal(String::new()),
                },
            );
        }
        // the storage schema's user_username_key unique index
        if self.find_username(req.username.as_str()) {
            return Err(
                match constraint_error("user_username_key", req.username) {
                    Some(e) => e,
                    None => Error::Internal(String::new()),
                },
            );
        }
        // an invitee who already holds an account accepts through the
        // invitation endpoint instead; inserting the same email again is a
        // storage-level uniqueness fault
        if self.find_user_by_email(inv_email.as_str()).is_some() {
            return Err(Error::Internal("duplicate user email".to_owned()));
        }
        let password_hash = hash_password(req.password.as_str())?;
        // insert the new user row
        let display_name = match req.display_name {
            Some(d) => d,
            None => String::new(),
        };
        let biography = match req.biography {
            Some(b) => b,
            None => String::new(),
        };
        let id = self.push_user(
            req.username,
            display_name,
            biography,
            inv_email,
            password_hash,
            now,
        );
        // accept the enterprise invitation: create the membership and
        // consume the invitation record
        self.memberships.push(
            Membership {
                enterprise_id: inv_enterprise,
                user_id: id,
                role: inv_role,
                member_since: now,
            },
        );
        self.invitations.remove(inv_i);
        proof {
            self.lemma_wf_after_invited(*old(self), id, inv_i as int);
            assert(self.has_membership(id, inv_enterprise));
            let k = self.membership_idx(id, inv_enterprise);
            assert(self.memberships@[k].user_id == id);
            assert(k == self.memberships@.len() - 1) by {
                if k < self.memberships@.len() - 1 {
                    assert(old(self).memberships@[k] == self.memberships@[k]);
                    assert(old(self).has_user(id));
                    let j = old(self).user_idx(id);
                    assert(old(self).users@[j].user_id.0 < old(self).next_id);
                }
            }
        }
        // create authentication token
        let token = codec.issue(id);
        let last = self.users.len() - 1;
        Ok(self.users[last].duplicate().into_private(Some(token)))
    }

    /// After an invited registration: the pushed membership and the removed
    /// invitation keep the store well-formed.
    proof fn lemma_wf_after_invited(&self, pre: AuthStore, id: UserId, inv_i: int)
        requires
            pre.wf(),
            pre.next_id < u128::MAX,
            0 <= inv_i < pre.invitations@.len(),
            id.0 == pre.next_id,
            self.users@.len() == pre.users@.len() + 1,
            forall|i: int|
                0 <= i < pre.users@.len() ==> #[trigger] self.users@[i] == pre.users@[i],
            self.users@.last().user_id == id,
            forall|i: int, j: int|
                0 <= i < self.users@.len() && 0 <= j < self.users@.len() && i != j ==> (
                #[trigger] self.users@[i]).user_id != (#[trigger] self.users@[j]).user_id
                    && self.users@[i].username@ != self.users@[j].username@
                    && self.users@[i].email@ != self.users@[j].email@,
            forall|i: int|
                0 <= i < self.users@.len() ==> digest_well_formed(
                    (#[trigger] self.users@[i]).password_hash@,
                ) && self.users@[i].user_id.0 < self.next_id,
            self.team == pre.team,
            self.enterprises == pre.enterprises,
            self.memberships@ == pre.memberships@.push(
                (Membership {
                    enterprise_id: pre.invitations@[inv_i].enterprise_id,
                    user_id: id,
                    role: pre.invitations@[inv_i].role,
                    member_since: self.memberships@.last().member_since,
                }),
            ),
            self.invitations@ == pre.invitations@.remove(inv_i),
            self.next_id == pre.next_id + 1,
        ensures
            self.wf(),
    {
        let post_m = self.memberships@;
        let pre_m = pre.memberships@;
        let n = pre_m.len() as int;
        assert forall|i: int, j: int|
            0 <= i < post_m.len() && 0 <= j < post_m.len() && i != j implies !((
        #[trigger] post_m[i]).user_id == (#[trigger] post_m[j]).user_id && post_m[i].enterprise_id
            == post_m[j].enterprise_id) by {
            if i < n && j < n {
            } else if i == n {
                assert(post_m[j] == pre_m[j]);
                assert(pre.has_user(pre_m[j].user_id));
                let u = pre.user_idx(pre_m[j].user_id);
                assert(pre.users@[u].user_id.0 < pre.next_id);
            } else if j == n {
                assert(post_m[i] == pre_m[i]);
                assert(pre.has_user(pre_m[i].user_id));
                let u = pre.user_idx(pre_m[i].user_id);
                assert(pre.users@[u].user_id.0 < pre.next_id);
            }
        }
        assert forall|i: int|
            0 <= i < post_m.len() implies self.has_enterprise(
            (#[trigger] post_m[i]).enterprise_id,
        ) && self.has_user(post_m[i].user_id) by {
            if i < n {
                assert(post_m[i] == pre_m[i]);
                assert(pre.has_enterprise(pre_m[i].enterprise_id));
                assert(pre.has_user(pre_m[i].user_id));
                let u = pre.user_idx(pre_m[i].user_id);
                assert(self.users@[u] == pre.users@[u]);
            } else {
                assert(pre.has_enterprise(pre.invitations@[inv_i].enterprise_id));
                assert(self.users@[self.users@.len() - 1].user_id == id);
            }
        }
        let post_inv = self.invitations@;
        let pre_inv = pre.invitations@;
        assert forall|i: int, j: int|
            0 <= i < post_inv.len() && 0 <= j < post_inv.len() && i != j implies (
        #[trigger] post_inv[i]).invite_id != (#[trigger] post_inv[j]).invite_id && !(
        post_inv[i].enterprise_id == post_inv[j].enterprise_id && post_inv[i].user_email@
            == post_inv[j].user_email@) by {
            let i0 = if i < inv_i {
                i
            } else {
                i + 1
            };
            let j0 = if j < inv_i {
                j
            } else {
                j + 1
            };
            assert(post_inv[i] == pre_inv[i0]);
            assert(post_inv[j] == pre_inv[j0]);
        }
        assert forall|i: int|
            0 <= i < post_inv.len() implies self.has_enterprise(
            (#[trigger] post_inv[i]).enterprise_id,
        ) && post_inv[i].invite_id.0 < self.next_id by {
            let i0 = if i < inv_i {
                i
            } else {
                i + 1
            };
            assert(post_inv[i] == pre_inv[i0]);
            assert(pre.has_enterprise(pre_inv[i0].enterprise_id));
        }
    }
}

impl AuthStore {
    /// Update the authorized user's account info.
    ///
    /// A password change verifies the old password first; a new username is
    /// held to the same constraints as at registration; absent fields keep
    /// their stored values. The refreshed record is returned without a
    /// token.
    pub fn update_me(&mut self, caller: UserId, req: UpdateUser, now: i64) -> (r: Result<
        PrivateUser,
        Error,
    >)
        requires
            old(self).wf(),
        ensures
            final (self).wf(),
            r is Err ==> *final (self) == *old(self),
            !old(self).has_user(caller) ==> (r matches Err(e) && e.is_not_found_msg("user"@)),
            (old(self).has_user(caller) && !update_password_ok(old(self).spec_user(caller), req))
                ==> r == Err::<PrivateUser, Error>(Error::IncorrectPassword),
            (old(self).has_user(caller) && update_password_ok(old(self).spec_user(caller), req))
                ==> (match req.username {
                Some(u) => !username_valid(u@) ==> (r matches Err(e)
                    && e matches Error::InvalidUsername(m) && m@ == u@),
                None => true,
            }),
            (old(self).has_user(caller) && update_password_ok(old(self).spec_user(caller), req))
                ==> (match req.username {
                Some(u) => (username_valid(u@) && old(self).username_taken_by_other(caller, u@))
                    ==> (r matches Err(e) && e matches Error::UsernameTaken(m) && m@ == u@),
                None => true,
            }),
            r matches Err(e) ==> (e matches Error::NotFound(_) || e matches Error::IncorrectPassword
                || e matches Error::InvalidUsername(_) || e matches Error::UsernameTaken(_)
                || e matches Error::Internal(_)),
            (r matches Err(e) && e matches Error::Internal(_)) ==> (req.password matches Some(up)
                && !password_within_limit(up.new_password@)),
            (old(self).has_user(caller) && update_password_ok(old(self).spec_user(caller), req)
                && (match req.username {
                Some(u) => username_valid(u@) && !old(self).username_taken_by_other(caller, u@),
                None => true,
            }) && (match req.password {
                Some(up) => password_within_limit(up.new_password@),
                None => true,
            })) ==> r is Ok,
            r matches Ok(p) ==> ({
                let idx = old(self).user_idx(caller);
                let old_u = old(self).spec_user(caller);
                let nu = final (self).users@[idx];
                &&& old(self).has_user(caller)
                &&& update_password_ok(old_u, req)
                &&& (req.username matches Some(u) ==> username_valid(u@) && !old(
                    self,
                ).username_taken_by_other(caller, u@))
                &&& final (self).users@.len() == old(self).users@.len()
                &&& final (self).users@ == old(self).users@.update(idx, nu)
                &&& nu.user_id == caller
                &&& nu.username@ == (match req.username {
                    Some(u) => u@,
                    None => old_u.username@,
                })
                &&& nu.display_name@ == (match req.display_name {
                    Some(d) => d@,
                    None => old_u.display_name@,
                })
                &&& nu.biography@ == (match req.biography {
                    Some(b) => b@,
                    None => old_u.biography@,
                })
                &&& nu.email@ == old_u.email@
                &&& (match req.password {
                    Some(up) => digest_matches(nu.password_hash@, up.new_password@),
                    None => nu.password_hash@ == old_u.password_hash@,
                })
                &&& nu.created_at == old_u.created_at
                &&& nu.updated_at == Some(now)
                &&& is_private_view_of(p, nu)
                &&& p.token is None
                &&& final (self).team == old(self).team
                &&& final (self).enterprises == old(self).enterprises
                &&& final (self).memberships == old(self).memberships
                &&& final (self).invitations == old(self).invitations
                &&& final (self).next_id == old(self).next_id
            }),
    {
        let idx = match self.find_user(caller) {
            Some(i) => i,
            None => {
                return Err(Error::NotFound("user".to_owned()));
            },
        };
        // handle a password update: verify the old password matches first
        if let Some(up) = &req.password {
            verify_password(up.old_password.as_str(), self.users[idx].password_hash.as_str())?;
        }
        // a new username is held to the uname_check and user_username_key
        // constraints
        let username: Option<String> = match req.username {
            Some(u) => {
                if !check_username_format(u.as_str()) {
                    return Err(
                        match constraint_error("uname_check", u) {
                            Some(e) => e,
                            None => Error::Internal(String::new()),
                        },
                    );
                }
                if self.find_username_other(caller, u.as_str()) {
                    return Err(
                        match constraint_error("user_username_key", u) {
                            Some(e) => e,
                            None => Error::Internal(String::new()),
                        },
                    );
                }
                Some(u)
            },
            None => None,
        };
        // hash the new password
        let password_hash: Option<String> = match req.password {
            Some(up) => Some(hash_password(up.new_password.as_str())?),
            None => None,
        };
        let new_rec = UserFromDB {
            user_id: caller,
            username: match username {
                Some(u) => u,
                None => self.users[idx].username.clone(),
            },
            display_name: match req.display_name {
                Some(d) => d,
                None => self.users[idx].display_name.clone(),
            },
            biography: match req.biography {
                Some(b) => b,
                None => self.users[idx].biography.clone(),
            },
            email: self.users[idx].email.clone(),
            password_hash: match password_hash {
                Some(h) => h,
                None => self.users[idx].password_hash.clone(),
            },
            created_at: self.users[idx].created_at,
            updated_at: Some(now),
        };
        self.users.set(idx, new_rec);
        proof {
            let post = self.users@;
            let pre = old(self).users@;
            assert forall|i: int, j: int|
                0 <= i < post.len() && 0 <= j < post.len() && i != j implies (
            #[trigger] post[i]).user_id != (#[trigger] post[j]).user_id && post[i].username@
                != post[j].username@ && post[i].email@ != post[j].email@ by {
                if i != idx && j != idx {
                    assert(post[i] == pre[i] && post[j] == pre[j]);
                } else if i == idx as int {
                    assert(post[j] == pre[j]);
                    assert(!old(self).username_taken_by_other(caller, post[i].username@));
                } else {
                    assert(post[i] == pre[i]);
                    assert(!old(self).username_taken_by_other(caller, post[j].username@));
                }
            }
            assert forall|i: int|
                0 <= i < self.memberships@.len() implies self.has_enterprise(
                (#[trigger] self.memberships@[i]).enterprise_id,
            ) && self.has_user(self.memberships@[i].user_id) by {
                let m = self.memberships@[i];
                assert(old(self).has_enterprise(m.enterprise_id));
                assert(old(self).has_user(m.user_id));
                let j = old(self).user_idx(m.user_id);
                assert(pre[j].user_id == m.user_id);
                if j == idx as int {
                    assert(post[j].user_id == caller);
                } else {
                    assert(post[j] == pre[j]);
                }
            }
            assert forall|i: int|
                0 <= i < self.invitations@.len() implies self.has_enterprise(
                (#[trigger] self.invitations@[i]).enterprise_id,
            ) by {
                assert(old(self).has_enterprise(self.invitations@[i].enterprise_id));
            }
        }
        Ok(self.users[idx].duplicate().into_private(None))
    }

    /// Remove every membership row of `caller`, keeping the store
    /// well-formed.
    fn remove_memberships_of_user(&mut self, caller: UserId)
        requires
            old(self).wf(),
        ensures
            final (self).wf(),
            final (self).memberships@ == old(self).memberships@.filter(
                |m: Membership| m.user_id != caller,
            ),
            final (self).users == old(self).users,
            final (self).team == old(self).team,
            final (self).enterprises == old(self).enterprises,
            final (self).invitations == old(self).invitations,
            final (self).next_id == old(self).next_id,
    {
        let ghost orig = self.memberships@;
        let ghost pred = |m: Membership| m.user_id != caller;
        let mut i: usize = 0;
        let ghost mut j: int = 0;
        proof {
            Seq::lemma_filter_len(orig.subrange(0, 0), pred);
            assert(orig.subrange(0, 0).filter(pred).len() == 0);
            assert(orig.subrange(0, 0).filter(pred) =~= Seq::<Membership>::empty());
            assert(self.memberships@ =~= orig.subrange(0, 0).filter(pred) + orig.subrange(
                0,
                orig.len() as int,
            ));
        }
        while i < self.memberships.len()
            invariant
                self.wf(),
                0 <= j <= orig.len(),
                pred == (|m: Membership| m.user_id != caller),
                i as int == orig.subrange(0, j).filter(pred).len(),
                self.memberships@ == orig.subrange(0, j).filter(pred) + orig.subrange(
                    j,
                    orig.len() as int,
                ),
                self.users == old(self).users,
                self.team == old(self).team,
                self.enterprises == old(self).enterprises,
                self.invitations == old(self).invitations,
                self.next_id == old(self).next_id,
            decreases orig.len() - j,
        {
            proof {
                Seq::lemma_filter_len(orig.subrange(0, j), pred);
                assert(self.memberships@[i as int] == orig[j]);
                assert(orig.subrange(0, j + 1) =~= orig.subrange(0, j).push(orig[j]));
                Seq::lemma_filter_push(orig.subrange(0, j), orig[j], pred);
            }
            if self.memberships[i].user_id == caller {
                let ghost pre = *self;
                self.memberships.remove(i);
                proof {
                    assert(!pred(orig[j]));
                    assert(orig.subrange(0, j + 1).filter(pred) == orig.subrange(0, j).filter(
                        pred,
                    ));
                    assert(self.memberships@ =~= orig.subrange(0, j + 1).filter(pred)
                        + orig.subrange(j + 1, orig.len() as int));
                    j = j + 1;
                    lemma_wf_after_membership_remove(pre, *self, i as int);
                }
            } else {
                proof {
                    assert(pred(orig[j]));
                    assert(orig.subrange(0, j + 1).filter(pred) == orig.subrange(0, j).filter(
                        pred,
                    ).push(orig[j]));
                    assert(self.memberships@ =~= orig.subrange(0, j + 1).filter(pred)
                        + orig.subrange(j + 1, orig.len() as int));
                    j = j + 1;
                }
                i += 1;
            }
        }
        proof {
            assert(orig.subrange(j, orig.len() as int) =~= Seq::<Membership>::empty());
            assert(orig.subrange(0, j) =~= orig);
            assert(self.memberships@ =~= orig.filter(pred));
        }
    }

    /// Delete the authorized user's account: the row, the platform-team
    /// entry, and every membership are removed; deletion of an absent
    /// account is a no-op, as at the storage layer.
    pub fn delete_me(&mut self, caller: UserId)
        requires
            old(self).wf(),
        ensures
            final (self).wf(),
            !final (self).has_user(caller),
            !final (self).has_team_entry(caller),
            !final (self).has_membership_of(caller),
            final (self).users@ == (if old(self).has_user(caller) {
                old(self).users@.remove(old(self).user_idx(caller))
            } else {
                old(self).users@
            }),
            final (self).team@ == (if old(self).has_team_entry(caller) {
                old(self).team@.remove(old(self).team_idx(caller))
            } else {
                old(self).team@
            }),
            final (self).memberships@ == old(self).memberships@.filter(
                |m: Membership| m.user_id != caller,
            ),
            final (self).enterprises == old(self).enterprises,
            final (self).invitations == old(self).invitations,
            final (self).next_id == old(self).next_id,
    {
        self.remove_memberships_of_user(caller);
        proof {
            assert forall|a: int| 0 <= a < self.memberships@.len() implies (
            #[trigger] self.memberships@[a]).user_id != caller by {
                old(self).memberships@.lemma_filter_pred(|m: Membership| m.user_id != caller, a);
            }
        }
        let ghost mid = *self;
        match self.find_user(caller) {
            Some(i) => {
                let ghost pre = *self;
                self.users.remove(i);
                proof {
                    lemma_wf_after_user_remove(pre, *self, i as int);
                    lemma_idx_transfer_user(*old(self), mid, caller);
                }
            },
            None => {},
        }
        match self.find_team_entry(caller) {
            Some(i) => {
                let ghost pre = *self;
                self.team.remove(i);
                proof {
                    lemma_wf_after_team_remove(pre, *self, i as int);
                    lemma_idx_transfer_team(*old(self), pre, caller);
                }
            },
            None => {},
        }
    }

    /// Whether any membership row belongs to `u`.
    pub open spec fn has_membership_of(&self, u: UserId) -> bool {
        exists|i: int|
            0 <= i < self.memberships@.len() && (#[trigger] self.memberships@[i]).user_id == u
    }

    pub(crate) fn find_team_entry(&self, u: UserId) -> (r: Option<usize>)
        requires
            self.wf(),
        ensures
            match r {
                Some(i) => self.has_team_entry(u) && i == self.team_idx(u) && i < self.team@.len()
                    && self.team@[i as int].user_id == u,
                None => !self.has_team_entry(u),
            },
    {
        let n = self.team.len();
        let mut i: usize = 0;
        while i < n
            invariant
                i <= n,
                n == self.team@.len(),
                self.wf(),
                forall|j: int| 0 <= j < i ==> (#[trigger] self.team@[j]).user_id != u,
            decreases n - i,
        {
            if self.team[i].user_id == u {
                return Some(i);
            }
            i += 1;
        }
        None
    }
}

/// Removing one membership row keeps the store well-formed, and that
/// (identity, enterprise) pair resolves to no membership afterwards.
pub(crate) proof fn lemma_wf_after_membership_remove(pre: AuthStore, post: AuthStore, k: int)
    requires
        pre.wf(),
        0 <= k < pre.memberships@.len(),
        post.memberships@ == pre.memberships@.remove(k),
        post.users == pre.users,
        post.team == pre.team,
        post.enterprises == pre.enterprises,
        post.invitations == pre.invitations,
        post.next_id == pre.next_id,
    ensures
        post.wf(),
        !post.has_membership(pre.memberships@[k].user_id, pre.memberships@[k].enterprise_id),
{
    let pre_m = pre.memberships@;
    let post_m = post.memberships@;
    assert forall|a: int|
        0 <= a < post_m.len() implies !((#[trigger] post_m[a]).user_id == pre_m[k].user_id
        && post_m[a].enterprise_id == pre_m[k].enterprise_id) by {
        let a0 = if a < k {
            a
        } else {
            a + 1
        };
        assert(post_m[a] == pre_m[a0]);
    }
    assert forall|a: int, b: int|
        0 <= a < post_m.len() && 0 <= b < post_m.len() && a != b implies !((
    #[trigger] post_m[a]).user_id == (#[trigger] post_m[b]).user_id && post_m[a].enterprise_id
        == post_m[b].enterprise_id) by {
        let a0 = if a < k {
            a
        } else {
            a + 1
        };
        let b0 = if b < k {
            b
        } else {
            b + 1
        };
        assert(post_m[a] == pre_m[a0]);
        assert(post_m[b] == pre_m[b0]);
    }
    assert forall|a: int|
        0 <= a < post_m.len() implies post.has_enterprise((#[trigger] post_m[a]).enterprise_id)
        && post.has_user(post_m[a].user_id) by {
        let a0 = if a < k {
            a
        } else {
            a + 1
        };
        assert(post_m[a] == pre_m[a0]);
        assert(pre.has_enterprise(post_m[a].enterprise_id));
        let w = pre.enterprise_idx(post_m[a].enterprise_id);
        assert(post.enterprises@[w] == pre.enterprises@[w]);
        assert(pre.has_user(post_m[a].user_id));
        let wu = pre.user_idx(post_m[a].user_id);
        assert(post.users@[wu] == pre.users@[wu]);
    }
    assert forall|a: int|
        0 <= a < post.invitations@.len() implies post.has_enterprise(
        (#[trigger] post.invitations@[a]).enterprise_id,
    ) by {
        assert(post.invitations@[a] == pre.invitations@[a]);
        assert(pre.has_enterprise(pre.invitations@[a].enterprise_id));
        let w = pre.enterprise_idx(pre.invitations@[a].enterprise_id);
        assert(post.enterprises@[w] == pre.enterprises@[w]);
    }
}

/// Removing an account row that no membership row references keeps the
/// store well-formed, and the removed identity resolves to no account.
proof fn lemma_wf_after_user_remove(pre: AuthStore, post: AuthStore, k: int)
    requires
        pre.wf(),
        0 <= k < pre.users@.len(),
        post.users@ == pre.users@.remove(k),
        post.team == pre.team,
        post.enterprises == pre.enterprises,
        post.memberships == pre.memberships,
        post.invitations == pre.invitations,
        post.next_id == pre.next_id,
        forall|a: int|
            0 <= a < pre.memberships@.len() ==> (#[trigger] pre.memberships@[a]).user_id
                != pre.users@[k].user_id,
    ensures
        post.wf(),
        !post.has_user(pre.users@[k].user_id),
{
    let pre_u = pre.users@;
    let post_u = post.users@;
    assert forall|a: int, b: int|
        0 <= a < post_u.len() && 0 <= b < post_u.len() && a != b implies (
    #[trigger] post_u[a]).user_id != (#[trigger] post_u[b]).user_id && post_u[a].username@
        != post_u[b].username@ && post_u[a].email@ != post_u[b].email@ by {
        let a0 = if a < k {
            a
        } else {
            a + 1
        };
        let b0 = if b < k {
            b
        } else {
            b + 1
        };
        assert(post_u[a] == pre_u[a0]);
        assert(post_u[b] == pre_u[b0]);
    }
    assert forall|a: int|
        0 <= a < post_u.len() implies digest_well_formed((#[trigger] post_u[a]).password_hash@)
        && post_u[a].user_id.0 < post.next_id by {
        let a0 = if a < k {
            a
        } else {
            a + 1
        };
        assert(post_u[a] == pre_u[a0]);
    }
    assert forall|a: int|
        0 <= a < post.memberships@.len() implies post.has_enterprise(
        (#[trigger] post.memberships@[a]).enterprise_id,
    ) && post.has_user(post.memberships@[a].user_id) by {
        let m = post.memberships@[a];
        assert(m == pre.memberships@[a]);
        assert(pre.has_enterprise(m.enterprise_id));
        let w = pre.enterprise_idx(m.enterprise_id);
        assert(post.enterprises@[w] == pre.enterprises@[w]);
        assert(pre.has_user(m.user_id));
        let wu = pre.user_idx(m.user_id);
        assert(pre_u[wu].user_id == m.user_id);
        assert(m.user_id != pre_u[k].user_id);
        assert(wu != k);
        let wu2 = if wu < k {
            wu
        } else {
            wu - 1
        };
        assert(post_u[wu2] == pre_u[wu]);
    }
    assert forall|a: int|
        0 <= a < post.invitations@.len() implies post.has_enterprise(
        (#[trigger] post.invitations@[a]).enterprise_id,
    ) by {
        assert(pre.has_enterprise(pre.invitations@[a].enterprise_id));
        let w = pre.enterprise_idx(pre.invitations@[a].enterprise_id);
        assert(post.enterprises@[w] == pre.enterprises@[w]);
    }
    assert forall|a: int| 0 <= a < post_u.len() implies (#[trigger] post_u[a]).user_id
        != pre_u[k].user_id by {
        let a0 = if a < k {
            a
        } else {
            a + 1
        };
        assert(post_u[a] == pre_u[a0]);
    }
}

/// Removing one platform-team row keeps the store well-formed, and the
/// removed identity resolves to no team role.
proof fn lemma_wf_after_team_remove(pre: AuthStore, post: AuthStore, k: int)
    requires
        pre.wf(),
        0 <= k < pre.team@.len(),
        post.team@ == pre.team@.remove(k),
        post.users == pre.users,
        post.enterprises == pre.enterprises,
        post.memberships == pre.memberships,
        post.invitations == pre.invitations,
        post.next_id == pre.next_id,
    ensures
        post.wf(),
        !post.has_team_entry(pre.team@[k].user_id),
{
    let pre_t = pre.team@;
    let post_t = post.team@;
    assert forall|a: int, b: int|
        0 <= a < post_t.len() && 0 <= b < post_t.len() && a != b implies (
    #[trigger] post_t[a]).user_id != (#[trigger] post_t[b]).user_id by {
        let a0 = if a < k {
            a
        } else {
            a + 1
        };
        let b0 = if b < k {
            b
        } else {
            b + 1
        };
        assert(post_t[a] == pre_t[a0]);
        assert(post_t[b] == pre_t[b0]);
    }
    assert forall|a: int| 0 <= a < post_t.len() implies (#[trigger] post_t[a]).user_id.0
        < post.next_id && post_t[a].user_id != pre_t[k].user_id by {
        let a0 = if a < k {
            a
        } else {
            a + 1
        };
        assert(post_t[a] == pre_t[a0]);
    }
    assert forall|a: int|
        0 <= a < post.memberships@.len() implies post.has_enterprise(
        (#[trigger] post.memberships@[a]).enterprise_id,
    ) && post.has_user(post.memberships@[a].user_id) by {
        let m = post.memberships@[a];
        assert(pre.has_enterprise(m.enterprise_id));
        let w = pre.enterprise_idx(m.enterprise_id);
        assert(post.enterprises@[w] == pre.enterprises@[w]);
        assert(pre.has_user(m.user_id));
        let wu = pre.user_idx(m.user_id);
        assert(post.users@[wu] == pre.users@[wu]);
    }
    assert forall|a: int|
        0 <= a < post.invitations@.len() implies post.has_enterprise(
        (#[trigger] post.invitations@[a]).enterprise_id,
    ) by {
        assert(pre.has_enterprise(pre.invitations@[a].enterprise_id));
        let w = pre.enterprise_idx(pre.invitations@[a].enterprise_id);
        assert(post.enterprises@[w] == pre.enterprises@[w]);
    }
}

/// Two stores with the same account table resolve an identity to the same
/// row.
proof fn lemma_idx_transfer_user(a: AuthStore, b: AuthStore, u: UserId)
    requires
        a.wf(),
        a.users == b.users,
        b.has_user(u),
    ensures
        a.has_user(u),
        a.user_idx(u) == b.user_idx(u),
{
    let j = b.user_idx(u);
    assert(0 <= j < b.users@.len() && b.users@[j].user_id == u);
    assert(a.users@[j] == b.users@[j]);
    assert(a.has_user(u));
    let k = a.user_idx(u);
    assert(0 <= k < a.users@.len() && a.users@[k].user_id == u);
    if k != j {
        assert(a.users@[k].user_id != a.users@[j].user_id);
    }
}

/// Two stores with the same team table resolve an identity to the same row.
proof fn lemma_idx_transfer_team(a: AuthStore, b: AuthStore, u: UserId)
    requires
        a.wf(),
        a.team == b.team,
        b.has_team_entry(u),
    ensures
        a.has_team_entry(u),
        a.team_idx(u) == b.team_idx(u),
{
    let j = b.team_idx(u);
    assert(0 <= j < b.team@.len() && b.team@[j].user_id == u);
    assert(a.team@[j] == b.team@[j]);
    assert(a.has_team_entry(u));
    let k = a.team_idx(u);
    assert(0 <= k < a.team@.len() && a.team@[k].user_id == u);
    if k != j {
        assert(a.team@[k].user_id != a.team@[j].user_id);
    }
}

} // verus!
