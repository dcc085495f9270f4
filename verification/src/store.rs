use vstd::prelude::*;

use crate::error::Error;
use crate::ids::{EnterpriseId, InviteId, UserId};
use crate::password::digest_well_formed;
use crate::permissions::ApiPermission;
use crate::roles::{EnterpriseRole, MyAceTeamRole};

verus! {

// ---------------------------------------------------------------------------
// Records
// ---------------------------------------------------------------------------
/// One account row, as the storage collaborator holds it.
#[derive(Debug, PartialEq, Eq)]
pub struct UserFromDB {
    pub user_id: UserId,
    pub username: String,
    pub display_name: String,
    pub biography: String,
    pub email: String,
    pub password_hash: String,
    pub created_at: i64,
    pub updated_at: Option<i64>,
}

/// One platform-team membership row: at most one per identity.
#[derive(Debug, Clone, Copy, PartialEq, Eq)]
pub struct TeamMember {
    pub user_id: UserId,
    pub role: MyAceTeamRole,
}

/// One enterprise (organization) row.
#[derive(Debug, PartialEq, Eq)]
pub struct Enterprise {
    pub enterprise_id: EnterpriseId,
    pub name: String,
    pub website: Option<String>,
    pub support_email: Option<String>,
    pub support_phone: Option<String>,
    pub logo: Option<String>,
    pub created_at: i64,
}

/// One enterprise-membership row: an identity's role within one enterprise.
#[derive(Debug, Clone, Copy, PartialEq, Eq)]
pub struct Membership {
    pub enterprise_id: EnterpriseId,
    pub user_id: UserId,
    pub role: EnterpriseRole,
    pub member_since: i64,
}

/// One pending invitation: an offer binding an email address, an enterprise,
/// and an intended role. At most one per (enterprise, email) pair.
#[derive(Debug, PartialEq, Eq)]
pub struct Invitation {
    pub invite_id: InviteId,
    pub enterprise_id: EnterpriseId,
    pub user_email: String,
    pub role: EnterpriseRole,
    pub created_at: i64,
}

// ---------------------------------------------------------------------------
// The membership store
// ---------------------------------------------------------------------------
/// The authentication and authorization state: accounts, platform-team
/// roles, enterprises, per-enterprise memberships and pending invitations.
///
/// This models the relational store the surrounding program keeps; its
/// invariant `wf` captures the unique indexes and foreign keys the schema
/// enforces. All role and permission decisions re-read this state on every
/// call, so a role change takes effect on the very next request.
pub struct AuthStore {
    pub users: Vec<UserFromDB>,
    pub team: Vec<TeamMember>,
    pub enterprises: Vec<Enterprise>,
    pub memberships: Vec<Membership>,
    pub invitations: Vec<Invitation>,
    /// The next fresh identifier; every stored id is below it.
    pub next_id: u128,
}

impl AuthStore {
    // -- lookups, as mathematical functions of the state --
    pub open spec fn has_user(&self, u: UserId) -> bool {
        exists|i: int| 0 <= i < self.users@.len() && (#[trigger] self.users@[i]).user_id == u
    }

    pub open spec fn user_idx(&self, u: UserId) -> int {
        choose|i: int| 0 <= i < self.users@.len() && (#[trigger] self.users@[i]).user_id == u
    }

    pub open spec fn spec_user(&self, u: UserId) -> UserFromDB {
        self.users@[self.user_idx(u)]
    }

    pub open spec fn has_user_email(&self, email: Seq<char>) -> bool {
        exists|i: int| 0 <= i < self.users@.len() && (#[trigger] self.users@[i]).email@ == email
    }

    pub open spec fn user_email_idx(&self, email: Seq<char>) -> int {
        choose|i: int| 0 <= i < self.users@.len() && (#[trigger] self.users@[i]).email@ == email
    }

    pub open spec fn spec_user_by_email(&self, email: Seq<char>) -> UserFromDB {
        self.users@[self.user_email_idx(email)]
    }

    pub open spec fn has_username(&self, name: Seq<char>) -> bool {
        exists|i: int| 0 <= i < self.users@.len() && (#[trigger] self.users@[i]).username@ == name
    }

    pub open spec fn has_team_entry(&self, u: UserId) -> bool {
        exists|i: int| 0 <= i < self.team@.len() && (#[trigger] self.team@[i]).user_id == u
    }

    pub open spec fn team_idx(&self, u: UserId) -> int {
        choose|i: int| 0 <= i < self.team@.len() && (#[trigger] self.team@[i]).user_id == u
    }

    /// The caller's role within the platform team, if any.
    pub open spec fn spec_platform_role(&self, u: UserId) -> Option<MyAceTeamRole> {
        if self.has_team_entry(u) {
            Some(self.team@[self.team_idx(u)].role)
        } else {
            None
        }
    }

    pub open spec fn has_enterprise(&self, e: EnterpriseId) -> bool {
        exists|i: int|
            0 <= i < self.enterprises@.len() && (#[trigger] self.enterprises@[i]).enterprise_id == e
    }

    pub open spec fn enterprise_idx(&self, e: EnterpriseId) -> int {
        choose|i: int|
            0 <= i < self.enterprises@.len() && (#[trigger] self.enterprises@[i]).enterprise_id == e
    }

    pub open spec fn spec_enterprise(&self, e: EnterpriseId) -> Enterprise {
        self.enterprises@[self.enterprise_idx(e)]
    }

    pub open spec fn has_membership(&self, u: UserId, e: EnterpriseId) -> bool {
        exists|i: int|
            0 <= i < self.memberships@.len() && (#[trigger] self.memberships@[i]).user_id == u
                && self.memberships@[i].enterprise_id == e
    }

    pub open spec fn membership_idx(&self, u: UserId, e: EnterpriseId) -> int {
        choose|i: int|
            0 <= i < self.memberships@.len() && (#[trigger] self.memberships@[i]).user_id == u
                && self.memberships@[i].enterprise_id == e
    }

    /// The caller's role within one enterprise, if a membership exists.
    pub open spec fn spec_enterprise_role(&self, u: UserId, e: EnterpriseId) -> Option<
        EnterpriseRole,
    > {
        if self.has_membership(u, e) {
            Some(self.memberships@[self.membership_idx(u, e)].role)
        } else {
            None
        }
    }

    pub open spec fn has_invitation(&self, inv: InviteId) -> bool {
        exists|i: int|
            0 <= i < self.invitations@.len() && (#[trigger] self.invitations@[i]).invite_id == inv
    }

    pub open spec fn invitation_idx(&self, inv: InviteId) -> int {
        choose|i: int|
            0 <= i < self.invitations@.len() && (#[trigger] self.invitations@[i]).invite_id == inv
    }

    pub open spec fn spec_invitation(&self, inv: InviteId) -> Invitation {
        self.invitations@[self.invitation_idx(inv)]
    }

    pub open spec fn has_invitation_for(&self, e: EnterpriseId, email: Seq<char>) -> bool {
        exists|i: int|
            0 <= i < self.invitations@.len() && (#[trigger] self.invitations@[i]).enterprise_id == e
                && self.invitations@[i].user_email@ == email
    }

    /// The account the invitation is addressed to, resolved by matching the
    /// invitation's stored email to an account email.
    pub open spec fn spec_invitation_recipient(&self, inv: InviteId) -> Option<UserId> {
        if self.has_invitation(inv) && self.has_user_email(self.spec_invitation(inv).user_email@) {
            Some(self.spec_user_by_email(self.spec_invitation(inv).user_email@).user_id)
        } else {
            None
        }
    }

    // -- well-formedness: the unique indexes and foreign keys of the schema --
    pub open spec fn wf(&self) -> bool {
        &&& (forall|i: int, j: int|
            0 <= i < self.users@.len() && 0 <= j < self.users@.len() && i != j ==> (
            #[trigger] self.users@[i]).user_id != (#[trigger] self.users@[j]).user_id
                && self.users@[i].username@ != self.users@[j].username@ && self.users@[i].email@
                != self.users@[j].email@)
        &&& (forall|i: int|
            0 <= i < self.users@.len() ==> digest_well_formed(
                (#[trigger] self.users@[i]).password_hash@,
            ) && self.users@[i].user_id.0 < self.next_id)
        &&& (forall|i: int, j: int|
            0 <= i < self.team@.len() && 0 <= j < self.team@.len() && i != j ==> (
            #[trigger] self.team@[i]).user_id != (#[trigger] self.team@[j]).user_id)
        &&& (forall|i: int|
            0 <= i < self.team@.len() ==> (#[trigger] self.team@[i]).user_id.0 < self.next_id)
        &&& (forall|i: int, j: int|
            0 <= i < self.enterprises@.len() && 0 <= j < self.enterprises@.len() && i != j ==> (
            #[trigger] self.enterprises@[i]).enterprise_id != (
            #[trigger] self.enterprises@[j]).enterprise_id)
        &&& (forall|i: int|
            0 <= i < self.enterprises@.len() ==> (#[trigger] self.enterprises@[i]).enterprise_id.0
                < self.next_id)
        &&& (forall|i: int, j: int|
            0 <= i < self.memberships@.len() && 0 <= j < self.memberships@.len() && i != j ==> !((
            #[trigger] self.memberships@[i]).user_id == (#[trigger] self.memberships@[j]).user_id
                && self.memberships@[i].enterprise_id == self.memberships@[j].enterprise_id))
        &&& (forall|i: int|
            0 <= i < self.memberships@.len() ==> self.has_enterprise(
                (#[trigger] self.memberships@[i]).enterprise_id,
            ) && self.has_user(self.memberships@[i].user_id))
        &&& (forall|i: int, j: int|
            0 <= i < self.invitations@.len() && 0 <= j < self.invitations@.len() && i != j ==> (
            #[trigger] self.invitations@[i]).invite_id != (
            #[trigger] self.invitations@[j]).invite_id && !(self.invitations@[i].enterprise_id
                == self.invitations@[j].enterprise_id && self.invitations@[i].user_email@
                == self.invitations@[j].user_email@))
        &&& (forall|i: int|
            0 <= i < self.invitations@.len() ==> self.has_enterprise(
                (#[trigger] self.invitations@[i]).enterprise_id,
            ) && self.invitations@[i].invite_id.0 < self.next_id)
    }

    /// An empty store.
    pub fn new() -> (s: AuthStore)
        ensures
            s.wf(),
            s.users@.len() == 0,
            s.team@.len() == 0,
            s.enterprises@.len() == 0,
            s.memberships@.len() == 0,
            s.invitations@.len() == 0,
    {
        AuthStore {
            users: Vec::new(),
            team: Vec::new(),
            enterprises: Vec::new(),
            memberships: Vec::new(),
            invitations: Vec::new(),
            next_id: 0,
        }
    }

    // -- executable lookups --
    pub(crate) fn find_user(&self, u: UserId) -> (r: Option<usize>)
        requires
            self.wf(),
        ensures
            match r {
                Some(i) => self.has_user(u) && i == self.user_idx(u) && i < self.users@.len()
                    && self.users@[i as int].user_id == u && self.spec_user(u) == self.users@[i as int],
                None => !self.has_user(u),
            },
    {
        let n = self.users.len();
        let mut i: usize = 0;
        while i < n
            invariant
                i <= n,
                n == self.users@.len(),
                self.wf(),
                forall|j: int| 0 <= j < i ==> (#[trigger] self.users@[j]).user_id != u,
            decreases n - i,
        {
            if self.users[i].user_id == u {
                return Some(i);
            }
            i += 1;
        }
        None
    }

    pub(crate) fn find_user_by_email(&self, email: &str) -> (r: Option<usize>)
        requires
            self.wf(),
        ensures
            match r {
                Some(i) => self.has_user_email(email@) && i == self.user_email_idx(email@) && i
                    < self.users@.len() && self.users@[i as int].email@ == email@
                    && self.spec_user_by_email(email@) == self.users@[i as int],
                None => !self.has_user_email(email@),
            },
    {
        let n = self.users.len();
        let mut i: usize = 0;
        while i < n
            invariant
                i <= n,
                n == self.users@.len(),
                self.wf(),
                forall|j: int| 0 <= j < i ==> (#[trigger] self.users@[j]).email@ != email@,
            decreases n - i,
        {
            if self.users[i].email.as_str().to_owned() == email.to_owned() {
                return Some(i);
            }
            i += 1;
        }
        None
    }

    pub(crate) fn find_username(&self, name: &str) -> (r: bool)
        ensures
            r == self.has_username(name@),
    {
        let n = self.users.len();
        let mut i: usize = 0;
        while i < n
            invariant
                i <= n,
                n == self.users@.len(),
                forall|j: int| 0 <= j < i ==> (#[trigger] self.users@[j]).username@ != name@,
            decreases n - i,
        {
            if self.users[i].username.as_str().to_owned() == name.to_owned() {
                return true;
            }
            i += 1;
        }
        false
    }

    pub(crate) fn find_enterprise(&self, e: EnterpriseId) -> (r: Option<usize>)
        requires
            self.wf(),
        ensures
            match r {
                Some(i) => self.has_enterprise(e) && i == self.enterprise_idx(e) && i
                    < self.enterprises@.len() && self.enterprises@[i as int].enterprise_id == e
                    && self.spec_enterprise(e) == self.enterprises@[i as int],
                None => !self.has_enterprise(e),
            },
    {
        let n = self.enterprises.len();
        let mut i: usize = 0;
        while i < n
            invariant
                i <= n,
                n == self.enterprises@.len(),
                self.wf(),
                forall|j: int| 0 <= j < i ==> (#[trigger] self.enterprises@[j]).enterprise_id != e,
            decreases n - i,
        {
            if self.enterprises[i].enterprise_id == e {
                return Some(i);
            }
            i += 1;
        }
        None
    }

    pub(crate) fn find_membership(&self, u: UserId, e: EnterpriseId) -> (r: Option<usize>)
        requires
            self.wf(),
        ensures
            match r {
                Some(i) => self.has_membership(u, e) && i == self.membership_idx(u, e) && i
                    < self.memberships@.len() && self.memberships@[i as int].user_id == u
                    && self.memberships@[i as int].enterprise_id == e,
                None => !self.has_membership(u, e),
            },
    {
        let n = self.memberships.len();
        let mut i: usize = 0;
        while i < n
            invariant
                i <= n,
                n == self.memberships@.len(),
                self.wf(),
                forall|j: int|
                    0 <= j < i ==> !((#[trigger] self.memberships@[j]).user_id == u
                        && self.memberships@[j].enterprise_id == e),
            decreases n - i,
        {
            if self.memberships[i].user_id == u && self.memberships[i].enterprise_id == e {
                return Some(i);
            }
            i += 1;
        }
        None
    }

    pub(crate) fn find_invitation(&self, inv: InviteId) -> (r: Option<usize>)
        requires
            self.wf(),
        ensures
            match r {
                Some(i) => self.has_invitation(inv) && i == self.invitation_idx(inv) && i
                    < self.invitations@.len() && self.invitations@[i as int].invite_id == inv
                    && self.spec_invitation(inv) == self.invitations@[i as int],
                None => !self.has_invitation(inv),
            },
    {
        let n = self.invitations.len();
        let mut i: usize = 0;
        while i < n
            invariant
                i <= n,
                n == self.invitations@.len(),
                self.wf(),
                forall|j: int| 0 <= j < i ==> (#[trigger] self.invitations@[j]).invite_id != inv,
            decreases n - i,
        {
            if self.invitations[i].invite_id == inv {
                return Some(i);
            }
            i += 1;
        }
        None
    }

    pub(crate) fn find_invitation_for(&self, e: EnterpriseId, email: &str) -> (r: bool)
        ensures
            r == self.has_invitation_for(e, email@),
    {
        let n = self.invitations.len();
        let mut i: usize = 0;
        while i < n
            invariant
                i <= n,
                n == self.invitations@.len(),
                forall|j: int|
                    0 <= j < i ==> !((#[trigger] self.invitations@[j]).enterprise_id == e
                        && self.invitations@[j].user_email@ == email@),
            decreases n - i,
        {
            if self.invitations[i].enterprise_id == e && self.invitations[i]
                .user_email
                .as_str()
                .to_owned() == email.to_owned() {
                return true;
            }
            i += 1;
        }
        false
    }

    // -- the role resolver: two independent read-only lookups --
    /// The caller's platform-team role; `None` is absence, not an error.
    pub fn platform_role(&self, u: UserId) -> (r: Option<MyAceTeamRole>)
        requires
            self.wf(),
        ensures
            r == self.spec_platform_role(u),
    {
        let n = self.team.len();
        let mut i: usize = 0;
        while i < n
            invariant
                i <= n,
                n == self.team@.len(),
                self.wf(),
                forall|j: int| 0 <= j < i ==> (#[trigger] self.team@[j]).user_id != u,
            decreases n - i,
        {
            if self.team[i].user_id == u {
                return Some(self.team[i].role);
            }
            i += 1;
        }
        None
    }

    /// The caller's role within `e`; `None` is absence, not an error.
    pub fn enterprise_role(&self, u: UserId, e: EnterpriseId) -> (r: Option<EnterpriseRole>)
        requires
            self.wf(),
        ensures
            r == self.spec_enterprise_role(u, e),
    {
        match self.find_membership(u, e) {
            Some(i) => Some(self.memberships[i].role),
            None => None,
        }
    }
}

// ---------------------------------------------------------------------------
// The permission engine
// ---------------------------------------------------------------------------
/// The outcome the decision table assigns to one (caller, action) pair.
#[derive(Debug, Clone, Copy, PartialEq, Eq, Structural)]
pub enum Decision {
    Allow,
    Deny,
    /// The referenced invitation, or its linkage to an account, does not
    /// resolve.
    NoLinkedInvitation,
}

impl AuthStore {
    /// Whether the caller administers enterprise `e`.
    pub open spec fn spec_is_admin(&self, caller: UserId, e: EnterpriseId) -> bool {
        self.spec_enterprise_role(caller, e) == Some(EnterpriseRole::Admin)
    }

    /// The decision table: what each action requires of the caller's roles
    /// and of ownership, evaluated against the current state.
    pub open spec fn spec_decision(&self, caller: UserId, action: ApiPermission) -> Decision {
        match action {
            // anyone on the team can view API docs or list all enterprises
            ApiPermission::ViewAPIDocumentation => if self.spec_platform_role(caller) is Some {
                Decision::Allow
            } else {
                Decision::Deny
            },
            ApiPermission::RetrieveAllEnterprises => if self.spec_platform_role(caller) is Some {
                Decision::Allow
            } else {
                Decision::Deny
            },
            ApiPermission::CreateEnterprise => match self.spec_platform_role(caller) {
                Some(MyAceTeamRole::Backend) => Decision::Allow,
                Some(MyAceTeamRole::Frontend) => Decision::Allow,
                _ => Decision::Deny,
            },
            // anyone can view an enterprise
            ApiPermission::RetrieveEnterprise(_) => Decision::Allow,
            ApiPermission::UpdateEnterprise(e) => if self.spec_is_admin(caller, e) {
                Decision::Allow
            } else {
                Decision::Deny
            },
            // the team can delete any enterprise they want
            ApiPermission::DeleteEnterprise(e) => if self.spec_platform_role(caller) is Some
                || self.spec_is_admin(caller, e) {
                Decision::Allow
            } else {
                Decision::Deny
            },
            ApiPermission::AcceptEnterpriseInvitation(inv) => match self.spec_invitation_recipient(
                inv,
            ) {
                None => Decision::NoLinkedInvitation,
                Some(recipient) => if caller == recipient {
                    Decision::Allow
                } else {
                    Decision::Deny
                },
            },
            ApiPermission::DeleteEnterpriseInvitation(inv) => match self.spec_invitation_recipient(
                inv,
            ) {
                None => Decision::NoLinkedInvitation,
                Some(recipient) => if caller == recipient || self.spec_is_admin(
                    caller,
                    self.spec_invitation(inv).enterprise_id,
                ) {
                    Decision::Allow
                } else {
                    Decision::Deny
                },
            },
            ApiPermission::CreateEnterpriseInvitation { enterprise_id } => if self.spec_is_admin(
                caller,
                enterprise_id,
            ) {
                Decision::Allow
            } else {
                Decision::Deny
            },
            ApiPermission::RetrieveOutgoingEnterpriseInvitations { enterprise_id } => if self
                .spec_is_admin(caller, enterprise_id) {
                Decision::Allow
            } else {
                Decision::Deny
            },
            ApiPermission::RetrieveEnterpriseMembers(e) => if self.spec_is_admin(caller, e) {
                Decision::Allow
            } else {
                Decision::Deny
            },
            ApiPermission::UpdateEnterpriseMembership { enterprise_id, user_id } => if self
                .spec_is_admin(caller, enterprise_id) {
                Decision::Allow
            } else {
                Decision::Deny
            },
            ApiPermission::DeleteEnterpriseMembership { enterprise_id, user_id } => if self
                .spec_is_admin(caller, enterprise_id) {
                Decision::Allow
            } else {
                Decision::Deny
            },
        }
    }

    fn is_admin(&self, caller: UserId, e: EnterpriseId) -> (r: bool)
        requires
            self.wf(),
        ensures
            r == self.spec_is_admin(caller, e),
    {
        match self.enterprise_role(caller, e) {
            Some(EnterpriseRole::Admin) => true,
            _ => false,
        }
    }

    fn admin_gate(&self, caller: UserId, e: EnterpriseId, action: ApiPermission) -> (r: Result<
        (),
        Error,
    >)
        requires
            self.wf(),
        ensures
            self.spec_is_admin(caller, e) ==> r is Ok,
            !self.spec_is_admin(caller, e) ==> r == Err::<(), Error>(Error::Forbidden(action)),
    {
        crate::permissions::forbid_false(self.is_admin(caller, e), action)
    }

    /// Check whether `caller` has permission to perform `action`.
    ///
    /// Allowed exactly when the decision table says so; a denial carries the
    /// action so callers can render a "you may not ..." message; an
    /// invitation whose account linkage does not resolve yields `NotFound`.
    pub fn check_permission(&self, caller: UserId, action: ApiPermission) -> (r: Result<(), Error>)
        requires
            self.wf(),
        ensures
            (self.spec_decision(caller, action) == Decision::Allow) == (r is Ok),
            self.spec_decision(caller, action) == Decision::Deny ==> r == Err::<(), Error>(
                Error::Forbidden(action),
            ),
            self.spec_decision(caller, action) == Decision::NoLinkedInvitation ==> (r matches Err(e)
                && e.is_not_found_msg("invitation for user"@)),
    {
        match action {
            ApiPermission::ViewAPIDocumentation => match self.platform_role(caller) {
                Some(_) => Ok(()),
                None => Err(Error::Forbidden(action)),
            },
            ApiPermission::CreateEnterprise => match self.platform_role(caller) {
                Some(MyAceTeamRole::Backend) => Ok(()),
                Some(MyAceTeamRole::Frontend) => Ok(()),
                _ => Err(Error::Forbidden(action)),
            },
            ApiPermission::RetrieveAllEnterprises => match self.platform_role(caller) {
                Some(_) => Ok(()),
                None => Err(Error::Forbidden(action)),
            },
            ApiPermission::RetrieveEnterprise(_) => Ok(()),
            ApiPermission::UpdateEnterprise(enterprise_id) => self.admin_gate(
                caller,
                enterprise_id,
                action,
            ),
            ApiPermission::DeleteEnterprise(enterprise_id) => {
                if self.platform_role(caller).is_some() {
                    return Ok(());
                }
                self.admin_gate(caller, enterprise_id, action)
            },
            ApiPermission::AcceptEnterpriseInvitation(invitation_id) => {
                // check the invitation exists and resolve the recipient
                let recipient_id = match self.invitation_recipient(invitation_id) {
                    Some(id) => id,
                    None => {
                        return Err(Error::NotFound("invitation for user".to_owned()));
                    },
                };
                // ensure the identities match
                if caller == recipient_id {
                    Ok(())
                } else {
                    Err(Error::Forbidden(action))
                }
            },
            ApiPermission::DeleteEnterpriseInvitation(invite_id) => {
                let recipient_id = match self.invitation_recipient(invite_id) {
                    Some(id) => id,
                    None => {
                        return Err(Error::NotFound("invitation for user".to_owned()));
                    },
                };
                let i = match self.find_invitation(invite_id) {
                    Some(i) => i,
                    None => {
                        return Err(Error::NotFound("invitation for user".to_owned()));
                    },
                };
                // the caller must be the enterprise admin or the recipient
                let is_admin = self.is_admin(caller, self.invitations[i].enterprise_id);
                if is_admin || caller == recipient_id {
                    Ok(())
                } else {
                    Err(Error::Forbidden(action))
                }
            },
            ApiPermission::CreateEnterpriseInvitation { enterprise_id } => self.admin_gate(
                caller,
                enterprise_id,
                action,
            ),
            ApiPermission::RetrieveOutgoingEnterpriseInvitations { enterprise_id } => self
                .admin_gate(caller, enterprise_id, action),
            ApiPermission::RetrieveEnterpriseMembers(enterprise_id) => self.admin_gate(
                caller,
                enterprise_id,
                action,
            ),
            ApiPermission::UpdateEnterpriseMembership { enterprise_id, user_id } => self.admin_gate(
                caller,
                enterprise_id,
                action,
            ),
            ApiPermission::DeleteEnterpriseMembership { enterprise_id, user_id } => self.admin_gate(
                caller,
                enterprise_id,
                action,
            ),
        }
    }

    fn invitation_recipient(&self, inv: InviteId) -> (r: Option<UserId>)
        requires
            self.wf(),
        ensures
            r == self.spec_invitation_recipient(inv),
    {
        match self.find_invitation(inv) {
            None => None,
            Some(i) => match self.find_user_by_email(self.invitations[i].user_email.as_str()) {
                None => None,
                Some(j) => Some(self.users[j].user_id),
            },
        }
    }
}

/// A caller with any platform role may delete any organization: the team
/// override dominates, regardless of the caller's enterprise role there.
pub proof fn lemma_delete_enterprise_team_override(s: &AuthStore, caller: UserId, e: EnterpriseId)
    requires
        s.spec_platform_role(caller) is Some,
    ensures
        s.spec_decision(caller, ApiPermission::DeleteEnterprise(e)) == Decision::Allow,
{
}

/// A caller with no platform role and an enterprise role other than `Admin`
/// in that organization may not delete it.
pub proof fn lemma_delete_enterprise_denied(s: &AuthStore, caller: UserId, e: EnterpriseId)
    requires
        s.spec_platform_role(caller) is None,
        s.spec_enterprise_role(caller, e) != Some(EnterpriseRole::Admin),
    ensures
        s.spec_decision(caller, ApiPermission::DeleteEnterprise(e)) == Decision::Deny,
{
}

/// Accepting an invitation is identity-bound: a caller whose identity is not
/// the invitation's resolved recipient is denied, whatever roles the caller
/// holds anywhere else.
pub proof fn lemma_accept_invitation_identity_bound(s: &AuthStore, caller: UserId, inv: InviteId)
    requires
        s.spec_invitation_recipient(inv) matches Some(recipient) && recipient != caller,
    ensures
        s.spec_decision(caller, ApiPermission::AcceptEnterpriseInvitation(inv)) == Decision::Deny,
{
}

/// A caller's enterprise role is exactly the membership relation: some role
/// is resolved if and only if a membership row exists, so creating or
/// removing a membership takes effect on the very next lookup.
pub proof fn lemma_enterprise_role_tracks_membership(s: &AuthStore, u: UserId, e: EnterpriseId)
    ensures
        s.spec_enterprise_role(u, e) is Some <==> s.has_membership(u, e),
{
}

} // verus!
