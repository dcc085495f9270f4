use vstd::prelude::*;

use crate::error::{constraint_error, Error};
use crate::ids::{spec_dec, EnterpriseId, InviteId, UserId};
use crate::permissions::{prefix_with_id, ApiPermission};
use crate::roles::EnterpriseRole;
use crate::store::{AuthStore, Decision, Enterprise, Invitation, Membership, UserFromDB};
use crate::types::{check_email_format, check_phone_format, email_valid, phone_valid};
use crate::users::{clone_opt_string, PublicUserWithEmail};

verus! {

/// The request body to create an enterprise.
pub struct NewEnterprise {
    pub name: String,
    pub website: Option<String>,
    pub support_email: Option<String>,
    pub support_phone: Option<String>,
}

/// The request body to update an enterprise. The name and website keep their
/// stored values when absent; the support email and phone are overwritten
/// with the given value, absent meaning cleared.
pub struct UpdateEnterprise {
    pub name: Option<String>,
    pub website: Option<String>,
    pub support_email: Option<String>,
    pub support_phone: Option<String>,
}

impl Enterprise {
    /// An exact copy of the record.
    pub fn duplicate(&self) -> (r: Enterprise)
        ensures
            r == *self,
    {
        Enterprise {
            enterprise_id: self.enterprise_id,
            name: self.name.clone(),
            website: clone_opt_string(&self.website),
            support_email: clone_opt_string(&self.support_email),
            support_phone: clone_opt_string(&self.support_phone),
            logo: clone_opt_string(&self.logo),
            created_at: self.created_at,
        }
    }
}

impl AuthStore {
    /// Get all enterprises; any platform-team member may.
    pub fn get_all_enterprises(&self, caller: UserId) -> (r: Result<Vec<Enterprise>, Error>)
        requires
            self.wf(),
        ensures
            (r is Ok) == (self.spec_decision(caller, ApiPermission::RetrieveAllEnterprises)
                == Decision::Allow),
            r matches Err(e) ==> e == Error::Forbidden(ApiPermission::RetrieveAllEnterprises),
            r matches Ok(v) ==> v@ == self.enterprises@,
    {
        self.check_permission(caller, ApiPermission::RetrieveAllEnterprises)?;
        let n = self.enterprises.len();
        let mut out: Vec<Enterprise> = Vec::new();
        let mut i: usize = 0;
        proof {
            assert(out@ =~= self.enterprises@.take(0));
        }
        while i < n
            invariant
                i <= n,
                n == self.enterprises@.len(),
                out@ == self.enterprises@.take(i as int),
            decreases n - i,
        {
            out.push(self.enterprises[i].duplicate());
            proof {
                assert(out@ =~= self.enterprises@.take(i + 1));
            }
            i += 1;
        }
        proof {
            assert(self.enterprises@.take(n as int) =~= self.enterprises@);
        }
        Ok(out)
    }

    /// Create a new enterprise. Gated on a platform role; the optional
    /// support email and phone are held to the schema's format constraints.
    pub fn create_enterprise(&mut self, caller: UserId, req: NewEnterprise, now: i64) -> (r: Result<
        Enterprise,
        Error,
    >)
        requires
            old(self).wf(),
            old(self).next_id < u128::MAX,
        ensures
            final (self).wf(),
            r is Err ==> *final (self) == *old(self),
            old(self).spec_decision(caller, ApiPermission::CreateEnterprise) != Decision::Allow ==> r
                == Err::<Enterprise, Error>(Error::Forbidden(ApiPermission::CreateEnterprise)),
            (old(self).spec_decision(caller, ApiPermission::CreateEnterprise) == Decision::Allow)
                ==> (match req.support_phone {
                Some(p) => !phone_valid(p@) ==> (r matches Err(e) && e matches Error::InvalidPhone(
                    m,
                ) && m@ == p@),
                None => true,
            }),
            (old(self).spec_decision(caller, ApiPermission::CreateEnterprise) == Decision::Allow
                && (req.support_phone matches Some(p) ==> phone_valid(p@))) ==> (
            match req.support_email {
                Some(m0) => !email_valid(m0@) ==> (r matches Err(e) && e matches Error::InvalidEmail(
                    m,
                ) && m@ == m0@),
                None => true,
            }),
            (r is Ok) == (old(self).spec_decision(caller, ApiPermission::CreateEnterprise)
                == Decision::Allow && (req.support_phone matches Some(p) ==> phone_valid(p@)) && (
            req.support_email matches Some(m) ==> email_valid(m@))),
            r matches Ok(ent) ==> ({
                &&& ent.enterprise_id == EnterpriseId(old(self).next_id)
                &&& ent.name@ == req.name@
                &&& ent.website == req.website
                &&& ent.support_email == req.support_email
                &&& ent.support_phone == req.support_phone
                &&& ent.logo is None
                &&& ent.created_at == now
                &&& final (self).enterprises@ == old(self).enterprises@.push(ent)
                &&& final (self).users == old(self).users
                &&& final (self).team == old(self).team
                &&& final (self).memberships == old(self).memberships
                &&& final (self).invitations == old(self).invitations
                &&& final (self).next_id == old(self).next_id + 1
            }),
    {
        self.check_permission(caller, ApiPermission::CreateEnterprise)?;
        // the storage schema's phone_number_check and email_address_check
        // constraints
        if let Some(p) = &req.support_phone {
            if !check_phone_format(p.as_str()) {
                return Err(
                    match constraint_error("phone_number_check", p.clone()) {
                        Some(e) => e,
                        None => Error::Internal(String::new()),
                    },
                );
            }
        }
        if let Some(m) = &req.support_email {
            if !check_email_format(m.as_str()) {
                return Err(
                    match constraint_error("email_address_check", m.clone()) {
                        Some(e) => e,
                        None => Error::Internal(String::new()),
                    },
                );
            }
        }
        let ent = Enterprise {
            enterprise_id: EnterpriseId(self.next_id),
            name: req.name,
            website: req.website,
            support_email: req.support_email,
            support_phone: req.support_phone,
            logo: None,
            created_at: now,
        };
        let out = ent.duplicate();
        self.enterprises.push(ent);
        self.next_id = self.next_id + 1;
        proof {
            let pre = *old(self);
            let post_e = self.enterprises@;
            let ne = pre.enterprises@.len() as int;
            assert forall|a: int, b: int|
                0 <= a < post_e.len() && 0 <= b < post_e.len() && a != b implies (
            #[trigger] post_e[a]).enterprise_id != (#[trigger] post_e[b]).enterprise_id by {
                if a < ne && b < ne {
                } else if a == ne {
                    assert(post_e[b] == pre.enterprises@[b]);
                } else {
                    assert(post_e[a] == pre.enterprises@[a]);
                }
            }
            assert forall|a: int|
                0 <= a < self.memberships@.len() implies self.has_enterprise(
                (#[trigger] self.memberships@[a]).enterprise_id,
            ) && self.has_user(self.memberships@[a].user_id) by {
                let m = self.memberships@[a];
                assert(pre.has_enterprise(m.enterprise_id));
                let w = pre.enterprise_idx(m.enterprise_id);
                assert(post_e[w] == pre.enterprises@[w]);
                assert(pre.has_user(m.user_id));
                let wu = pre.user_idx(m.user_id);
                assert(self.users@[wu] == pre.users@[wu]);
            }
            assert forall|a: int|
                0 <= a < self.invitations@.len() implies self.has_enterprise(
                (#[trigger] self.invitations@[a]).enterprise_id,
            ) by {
                assert(pre.has_enterprise(pre.invitations@[a].enterprise_id));
                let w = pre.enterprise_idx(pre.invitations@[a].enterprise_id);
                assert(post_e[w] == pre.enterprises@[w]);
            }
        }
        Ok(out)
    }

    /// Retrieve a specific enterprise by ID: public to anyone.
    pub fn get_enterprise(&self, caller: UserId, enterprise_id: EnterpriseId) -> (r: Result<
        Enterprise,
        Error,
    >)
        requires
            self.wf(),
        ensures
            !self.has_enterprise(enterprise_id) ==> (r matches Err(e) && e.is_not_found_msg(
                "enterprise"@,
            )),
            self.has_enterprise(enterprise_id) ==> r == Ok::<Enterprise, Error>(
                self.spec_enterprise(enterprise_id),
            ),
    {
        self.check_permission(caller, ApiPermission::RetrieveEnterprise(enterprise_id))?;
        match self.find_enterprise(enterprise_id) {
            Some(i) => Ok(self.enterprises[i].duplicate()),
            None => Err(Error::NotFound("enterprise".to_owned())),
        }
    }

    /// Update a specific enterprise by ID; only its admin may. The name and
    /// website keep their stored values when absent; the support email and
    /// phone are overwritten with the request's values.
    pub fn update_enterprise(
        &mut self,
        caller: UserId,
        enterprise_id: EnterpriseId,
        req: UpdateEnterprise,
        now: i64,
    ) -> (r: Result<Enterprise, Error>)
        requires
            old(self).wf(),
        ensures
            final (self).wf(),
            r is Err ==> *final (self) == *old(self),
            old(self).spec_decision(caller, ApiPermission::UpdateEnterprise(enterprise_id))
                != Decision::Allow ==> r == Err::<Enterprise, Error>(
                Error::Forbidden(ApiPermission::UpdateEnterprise(enterprise_id)),
            ),
            (old(self).spec_decision(caller, ApiPermission::UpdateEnterprise(enterprise_id))
                == Decision::Allow) ==> (match req.support_phone {
                Some(p) => !phone_valid(p@) ==> (r matches Err(e) && e matches Error::InvalidPhone(
                    m,
                ) && m@ == p@),
                None => true,
            }),
            (old(self).spec_decision(caller, ApiPermission::UpdateEnterprise(enterprise_id))
                == Decision::Allow && (req.support_phone matches Some(p) ==> phone_valid(p@)))
                ==> (match req.support_email {
                Some(m0) => !email_valid(m0@) ==> (r matches Err(e) && e matches Error::InvalidEmail(
                    m,
                ) && m@ == m0@),
                None => true,
            }),
            (old(self).spec_decision(caller, ApiPermission::UpdateEnterprise(enterprise_id))
                == Decision::Allow && (req.support_phone matches Some(p) ==> phone_valid(p@)) && (
            req.support_email matches Some(m) ==> email_valid(m@)) && !old(self).has_enterprise(
                enterprise_id,
            )) ==> (r matches Err(e) && e.is_not_found_msg("enterprise"@)),
            (r is Ok) == (old(self).spec_decision(caller, ApiPermission::UpdateEnterprise(
                enterprise_id,
            )) == Decision::Allow && (req.support_phone matches Some(p) ==> phone_valid(p@)) && (
            req.support_email matches Some(m) ==> email_valid(m@)) && old(self).has_enterprise(
                enterprise_id,
            )),
            r matches Ok(ent) ==> ({
                let idx = old(self).enterprise_idx(enterprise_id);
                let old_e = old(self).spec_enterprise(enterprise_id);
                &&& ent.enterprise_id == enterprise_id
                &&& ent.name@ == (match req.name {
                    Some(n) => n@,
                    None => old_e.name@,
                })
                &&& ent.website == (match req.website {
                    Some(w) => Some(w),
                    None => old_e.website,
                })
                &&& ent.support_email == req.support_email
                &&& ent.support_phone == req.support_phone
                &&& ent.logo == old_e.logo
                &&& ent.created_at == old_e.created_at
                &&& final (self).enterprises@ == old(self).enterprises@.update(idx, ent)
                &&& final (self).users == old(self).users
                &&& final (self).team == old(self).team
                &&& final (self).memberships == old(self).memberships
                &&& final (self).invitations == old(self).invitations
                &&& final (self).next_id == old(self).next_id
            }),
    {
        self.check_permission(caller, ApiPermission::UpdateEnterprise(enterprise_id))?;
        if let Some(p) = &req.support_phone {
            if !check_phone_format(p.as_str()) {
                return Err(
                    match constraint_error("phone_number_check", p.clone()) {
                        Some(e) => e,
                        None => Error::Internal(String::new()),
                    },
                );
            }
        }
        if let Some(m) = &req.support_email {
            if !check_email_format(m.as_str()) {
                return Err(
                    match constraint_error("email_address_check", m.clone()) {
                        Some(e) => e,
                        None => Error::Internal(String::new()),
                    },
                );
            }
        }
        let idx = match self.find_enterprise(enterprise_id) {
            Some(i) => i,
            None => {
                return Err(Error::NotFound("enterprise".to_owned()));
            },
        };
        let ent = Enterprise {
            enterprise_id,
            name: match req.name {
                Some(n) => n,
                None => self.enterprises[idx].name.clone(),
            },
            website: match req.website {
                Some(w) => Some(w),
                None => clone_opt_string(&self.enterprises[idx].website),
            },
            support_email: req.support_email,
            support_phone: req.support_phone,
            logo: clone_opt_string(&self.enterprises[idx].logo),
            created_at: self.enterprises[idx].created_at,
        };
        let out = ent.duplicate();
        self.enterprises.set(idx, ent);
        proof {
            let pre = *old(self);
            let post_e = self.enterprises@;
            assert forall|a: int, b: int|
                0 <= a < post_e.len() && 0 <= b < post_e.len() && a != b implies (
            #[trigger] post_e[a]).enterprise_id != (#[trigger] post_e[b]).enterprise_id by {
                if a != idx && b != idx {
                    assert(post_e[a] == pre.enterprises@[a]);
                    assert(post_e[b] == pre.enterprises@[b]);
                } else if a == idx as int {
                    assert(post_e[b] == pre.enterprises@[b]);
                    assert(post_e[a].enterprise_id == pre.enterprises@[a].enterprise_id);
                } else {
                    assert(post_e[a] == pre.enterprises@[a]);
                    assert(post_e[b].enterprise_id == pre.enterprises@[b].enterprise_id);
                }
            }
            assert forall|a: int|
                0 <= a < post_e.len() implies (#[trigger] post_e[a]).enterprise_id.0 < self.next_id
                 by {
                if a != idx {
                    assert(post_e[a] == pre.enterprises@[a]);
                } else {
                    assert(post_e[a].enterprise_id == pre.enterprises@[a].enterprise_id);
                }
            }
            assert forall|a: int|
                0 <= a < self.memberships@.len() implies self.has_enterprise(
                (#[trigger] self.memberships@[a]).enterprise_id,
            ) && self.has_user(self.memberships@[a].user_id) by {
                let m = self.memberships@[a];
                assert(pre.has_enterprise(m.enterprise_id));
                let w = pre.enterprise_idx(m.enterprise_id);
                if w == idx as int {
                    assert(post_e[w].enterprise_id == pre.enterprises@[w].enterprise_id);
                } else {
                    assert(post_e[w] == pre.enterprises@[w]);
                }
                assert(pre.has_user(m.user_id));
                let wu = pre.user_idx(m.user_id);
                assert(self.users@[wu] == pre.users@[wu]);
            }
            assert forall|a: int|
                0 <= a < self.invitations@.len() implies self.has_enterprise(
                (#[trigger] self.invitations@[a]).enterprise_id,
            ) by {
                assert(pre.has_enterprise(pre.invitations@[a].enterprise_id));
                let w = pre.enterprise_idx(pre.invitations@[a].enterprise_id);
                if w == idx as int {
                    assert(post_e[w].enterprise_id == pre.enterprises@[w].enterprise_id);
                } else {
                    assert(post_e[w] == pre.enterprises@[w]);
                }
            }
        }
        Ok(out)
    }
}

impl AuthStore {
    /// Remove every membership row of enterprise `e`, keeping the store
    /// well-formed.
    fn remove_memberships_of_enterprise(&mut self, e: EnterpriseId)
        requires
            old(self).wf(),
        ensures
            final (self).wf(),
            final (self).memberships@ == old(self).memberships@.filter(
                |m: Membership| m.enterprise_id != e,
            ),
            final (self).users == old(self).users,
            final (self).team == old(self).team,
            final (self).enterprises == old(self).enterprises,
            final (self).invitations == old(self).invitations,
            final (self).next_id == old(self).next_id,
    {
        let ghost orig = self.memberships@;
        let ghost pred = |m: Membership| m.enterprise_id != e;
        let mut i: usize = 0;
        let ghost mut j: int = 0;
        proof {
            Seq::lemma_filter_len(orig.subrange(0, 0), pred);
            assert(orig.subrange(0, 0).filter(pred) =~= Seq::<Membership>::empty());
            assert(self.memberships@ =~= orig.subrange(0, 0).filter(pred) + orig.subrange(
                0,
                orig.len() as int,
            ));
        }
        while i < self.memberships.len()
            invariant
                self.wf(),
                0 <= j <= orig.len(),
                pred == (|m: Membership| m.enterprise_id != e),
                i as int == orig.subrange(0, j).filter(pred).len(),
                self.memberships@ == orig.subrange(0, j).filter(pred) + orig.subrange(
                    j,
                    orig.len() as int,
                ),
                self.users == old(self).users,
                self.team == old(self).team,
                self.enterprises == old(self).enterprises,
                self.invitations == old(self).invitations,
                self.next_id == old(self).next_id,
            decreases orig.len() - j,
        {
            proof {
                Seq::lemma_filter_len(orig.subrange(0, j), pred);
                assert(self.memberships@[i as int] == orig[j]);
                assert(orig.subrange(0, j + 1) =~= orig.subrange(0, j).push(orig[j]));
                Seq::lemma_filter_push(orig.subrange(0, j), orig[j], pred);
            }
            if self.memberships[i].enterprise_id == e {
                let ghost pre = *self;
                self.memberships.remove(i);
                proof {
                    assert(!pred(orig[j]));
                    assert(self.memberships@ =~= orig.subrange(0, j + 1).filter(pred)
                        + orig.subrange(j + 1, orig.len() as int));
                    j = j + 1;
                    crate::users::lemma_wf_after_membership_remove(pre, *self, i as int);
                }
            } else {
                proof {
                    assert(pred(orig[j]));
                    assert(self.memberships@ =~= orig.subrange(0, j + 1).filter(pred)
                        + orig.subrange(j + 1, orig.len() as int));
                    j = j + 1;
                }
                i += 1;
            }
        }
        proof {
            assert(orig.subrange(j, orig.len() as int) =~= Seq::<Membership>::empty());
            assert(orig.subrange(0, j) =~= orig);
            assert(self.memberships@ =~= orig.filter(pred));
        }
    }

    /// Remove every pending invitation of enterprise `e`, keeping the store
    /// well-formed.
    fn remove_invitations_of_enterprise(&mut self, e: EnterpriseId)
        requires
            old(self).wf(),
        ensures
            final (self).wf(),
            final (self).invitations@ == old(self).invitations@.filter(
                |inv: Invitation| inv.enterprise_id != e,
            ),
            final (self).users == old(self).users,
            final (self).team == old(self).team,
            final (self).enterprises == old(self).enterprises,
            final (self).memberships == old(self).memberships,
            final (self).next_id == old(self).next_id,
    {
        let ghost orig = self.invitations@;
        let ghost pred = |inv: Invitation| inv.enterprise_id != e;
        let mut i: usize = 0;
        let ghost mut j: int = 0;
        proof {
            Seq::lemma_filter_len(orig.subrange(0, 0), pred);
            assert(orig.subrange(0, 0).filter(pred) =~= Seq::<Invitation>::empty());
            assert(self.invitations@ =~= orig.subrange(0, 0).filter(pred) + orig.subrange(
                0,
                orig.len() as int,
            ));
        }
        while i < self.invitations.len()
            invariant
                self.wf(),
                0 <= j <= orig.len(),
                pred == (|inv: Invitation| inv.enterprise_id != e),
                i as int == orig.subrange(0, j).filter(pred).len(),
                self.invitations@ == orig.subrange(0, j).filter(pred) + orig.subrange(
                    j,
                    orig.len() as int,
                ),
                self.users == old(self).users,
                self.team == old(self).team,
                self.enterprises == old(self).enterprises,
                self.memberships == old(self).memberships,
                self.next_id == old(self).next_id,
            decreases orig.len() - j,
        {
            proof {
                Seq::lemma_filter_len(orig.subrange(0, j), pred);
                assert(self.invitations@[i as int] == orig[j]);
                assert(orig.subrange(0, j + 1) =~= orig.subrange(0, j).push(orig[j]));
                Seq::lemma_filter_push(orig.subrange(0, j), orig[j], pred);
            }
            if self.invitations[i].enterprise_id == e {
                let ghost pre = *self;
                self.invitations.remove(i);
                proof {
                    assert(!pred(orig[j]));
                    assert(self.invitations@ =~= orig.subrange(0, j + 1).filter(pred)
                        + orig.subrange(j + 1, orig.len() as int));
                    j = j + 1;
                    lemma_wf_after_invitation_remove(pre, *self, i as int);
                }
            } else {
                proof {
                    assert(pred(orig[j]));
                    assert(self.invitations@ =~= orig.subrange(0, j + 1).filter(pred)
                        + orig.subrange(j + 1, orig.len() as int));
                    j = j + 1;
                }
                i += 1;
            }
        }
        proof {
            assert(orig.subrange(j, orig.len() as int) =~= Seq::<Invitation>::empty());
            assert(orig.subrange(0, j) =~= orig);
            assert(self.invitations@ =~= orig.filter(pred));
        }
    }

    /// Delete a specific enterprise by ID; its memberships and pending
    /// invitations go with it. The platform team may delete any enterprise;
    /// otherwise only its admin may.
    pub fn delete_enterprise(&mut self, caller: UserId, enterprise_id: EnterpriseId) -> (r: Result<
        (),
        Error,
    >)
        requires
            old(self).wf(),
        ensures
            final (self).wf(),
            r is Err ==> *final (self) == *old(self),
            old(self).spec_decision(caller, ApiPermission::DeleteEnterprise(enterprise_id))
                != Decision::Allow ==> r == Err::<(), Error>(
                Error::Forbidden(ApiPermission::DeleteEnterprise(enterprise_id)),
            ),
            (old(self).spec_decision(caller, ApiPermission::DeleteEnterprise(enterprise_id))
                == Decision::Allow && !old(self).has_enterprise(enterprise_id)) ==> (r matches Err(
                e,
            ) && e.is_not_found_msg("enterprise"@)),
            (r is Ok) == (old(self).spec_decision(caller, ApiPermission::DeleteEnterprise(
                enterprise_id,
            )) == Decision::Allow && old(self).has_enterprise(enterprise_id)),
            r is Ok ==> ({
                &&& final (self).enterprises@ == old(self).enterprises@.remove(
                    old(self).enterprise_idx(enterprise_id),
                )
                &&& final (self).memberships@ == old(self).memberships@.filter(
                    |m: Membership| m.enterprise_id != enterprise_id,
                )
                &&& final (self).invitations@ == old(self).invitations@.filter(
                    |inv: Invitation| inv.enterprise_id != enterprise_id,
                )
                &&& final (self).users == old(self).users
                &&& final (self).team == old(self).team
                &&& final (self).next_id == old(self).next_id
                &&& !final (self).has_enterprise(enterprise_id)
            }),
    {
        self.check_permission(caller, ApiPermission::DeleteEnterprise(enterprise_id))?;
        let idx = match self.find_enterprise(enterprise_id) {
            Some(i) => i,
            None => {
                return Err(Error::NotFound("enterprise".to_owned()));
            },
        };
        self.remove_memberships_of_enterprise(enterprise_id);
        self.remove_invitations_of_enterprise(enterprise_id);
        proof {
            assert forall|a: int| 0 <= a < self.memberships@.len() implies (
            #[trigger] self.memberships@[a]).enterprise_id != enterprise_id by {
                old(self).memberships@.lemma_filter_pred(
                    |m: Membership| m.enterprise_id != enterprise_id,
                    a,
                );
            }
            assert forall|a: int| 0 <= a < self.invitations@.len() implies (
            #[trigger] self.invitations@[a]).enterprise_id != enterprise_id by {
                old(self).invitations@.lemma_filter_pred(
                    |inv: Invitation| inv.enterprise_id != enterprise_id,
                    a,
                );
            }
        }
        let ghost pre = *self;
        self.enterprises.remove(idx);
        proof {
            lemma_wf_after_enterprise_remove(pre, *self, idx as int);
        }
        Ok(())
    }
}

// ---------------------------------------------------------------------------
// Members
// ---------------------------------------------------------------------------
/// The request body to update a user's enterprise-specific information.
pub struct UpdateMember {
    pub role: EnterpriseRole,
}

/// An enterprise membership from the perspective of an enterprise
/// administrator.
#[derive(Debug, PartialEq, Eq)]
pub struct MemberInEnterprise {
    pub user: PublicUserWithEmail,
    pub role: EnterpriseRole,
    pub member_since: i64,
}

/// An enterprise membership from the perspective of the member.
#[derive(Debug, PartialEq, Eq)]
pub struct MembershipForMember {
    pub enterprise: Enterprise,
    pub role: EnterpriseRole,
    pub member_since: i64,
}

/// Whether `v` renders the membership row `m` joined with the member's
/// account record `u`.
pub open spec fn is_member_view(v: MemberInEnterprise, m: Membership, u: UserFromDB) -> bool {
    &&& crate::users::is_public_email_view_of(v.user, u)
    &&& v.role == m.role
    &&& v.member_since == m.member_since
}

/// Whether `v` renders the membership row `m` joined with its enterprise.
pub open spec fn is_membership_view(v: MembershipForMember, m: Membership, ent: Enterprise) -> bool {
    &&& v.enterprise == ent
    &&& v.role == m.role
    &&& v.member_since == m.member_since
}

impl AuthStore {
    /// Record a membership row directly, as the surrounding provisioning
    /// does when an organization gets its first administrator.
    ///
    /// The same storage constraints hold as on the invitation path: the
    /// enterprise and the account must exist, and at most one membership per
    /// (enterprise, user) pair; a violation surfaces as the storage fault it
    /// is.
    pub fn add_membership(
        &mut self,
        enterprise_id: EnterpriseId,
        user_id: UserId,
        role: EnterpriseRole,
        now: i64,
    ) -> (r: Result<(), Error>)
        requires
            old(self).wf(),
        ensures
            final (self).wf(),
            r is Err ==> *final (self) == *old(self),
            (r is Ok) == (old(self).has_enterprise(enterprise_id) && old(self).has_user(user_id)
                && !old(self).has_membership(user_id, enterprise_id)),
            r matches Err(e) ==> e matches Error::Internal(_),
            r is Ok ==> ({
                &&& final (self).memberships@ == old(self).memberships@.push(
                    (Membership { enterprise_id, user_id, role, member_since: now }),
                )
                &&& final (self).spec_enterprise_role(user_id, enterprise_id) == Some(role)
                &&& final (self).users == old(self).users
                &&& final (self).team == old(self).team
                &&& final (self).enterprises == old(self).enterprises
                &&& final (self).invitations == old(self).invitations
                &&& final (self).next_id == old(self).next_id
            }),
    {
        if self.find_enterprise(enterprise_id).is_none() {
            return Err(Error::Internal("no such enterprise".to_owned()));
        }
        if self.find_user(user_id).is_none() {
            return Err(Error::Internal("no such user".to_owned()));
        }
        if self.find_membership(user_id, enterprise_id).is_some() {
            return Err(Error::Internal("duplicate enterprise membership".to_owned()));
        }
        let ghost pre = *self;
        self.memberships.push(Membership { enterprise_id, user_id, role, member_since: now });
        proof {
            let post_m = self.memberships@;
            let nm = pre.memberships@.len() as int;
            assert forall|a: int, b: int|
                0 <= a < post_m.len() && 0 <= b < post_m.len() && a != b implies !((
            #[trigger] post_m[a]).user_id == (#[trigger] post_m[b]).user_id
                && post_m[a].enterprise_id == post_m[b].enterprise_id) by {
                if a < nm && b < nm {
                } else if a == nm {
                    assert(post_m[b] == pre.memberships@[b]);
                } else if b == nm {
                    assert(post_m[a] == pre.memberships@[a]);
                }
            }
            assert forall|a: int|
                0 <= a < post_m.len() implies self.has_enterprise(
                (#[trigger] post_m[a]).enterprise_id,
            ) && self.has_user(post_m[a].user_id) by {
                if a < nm {
                    let m = pre.memberships@[a];
                    assert(post_m[a] == m);
                    assert(pre.has_enterprise(m.enterprise_id));
                    let w = pre.enterprise_idx(m.enterprise_id);
                    assert(self.enterprises@[w] == pre.enterprises@[w]);
                    assert(pre.has_user(m.user_id));
                    let wu = pre.user_idx(m.user_id);
                    assert(self.users@[wu] == pre.users@[wu]);
                } else {
                    assert(pre.has_enterprise(enterprise_id));
                    let w = pre.enterprise_idx(enterprise_id);
                    assert(self.enterprises@[w] == pre.enterprises@[w]);
                    assert(pre.has_user(user_id));
                    let wu = pre.user_idx(user_id);
                    assert(self.users@[wu] == pre.users@[wu]);
                }
            }
            assert forall|a: int|
                0 <= a < self.invitations@.len() implies self.has_enterprise(
                (#[trigger] self.invitations@[a]).enterprise_id,
            ) by {
                assert(pre.has_enterprise(pre.invitations@[a].enterprise_id));
                let w = pre.enterprise_idx(pre.invitations@[a].enterprise_id);
                assert(self.enterprises@[w] == pre.enterprises@[w]);
            }
            assert(post_m[nm].user_id == user_id && post_m[nm].enterprise_id == enterprise_id);
            assert(self.has_membership(user_id, enterprise_id));
            let k = self.membership_idx(user_id, enterprise_id);
            if k != nm {
                assert(pre.memberships@[k] == post_m[k]);
                assert(!pre.has_membership(user_id, enterprise_id));
            }
        }
        Ok(())
    }

    fn member_view(&self, i: usize) -> (v: MemberInEnterprise)
        requires
            self.wf(),
            i < self.memberships@.len(),
        ensures
            is_member_view(v, self.memberships@[i as int], self.spec_user(self.memberships@[i as int].user_id)),
    {
        let m = self.memberships[i];
        let ui = match self.find_user(m.user_id) {
            Some(u) => u,
            None => {
                proof {
                    assert(false);
                }
                0
            },
        };
        MemberInEnterprise {
            user: PublicUserWithEmail {
                user_id: self.users[ui].user_id,
                username: self.users[ui].username.clone(),
                display_name: self.users[ui].display_name.clone(),
                biography: self.users[ui].biography.clone(),
                email: self.users[ui].email.clone(),
            },
            role: m.role,
            member_since: m.member_since,
        }
    }

    /// Retrieve all members of a given enterprise; only its admin may.
    pub fn enterprise_members(&self, caller: UserId, enterprise_id: EnterpriseId) -> (r: Result<
        Vec<MemberInEnterprise>,
        Error,
    >)
        requires
            self.wf(),
        ensures
            (r is Ok) == (self.spec_decision(
                caller,
                ApiPermission::RetrieveEnterpriseMembers(enterprise_id),
            ) == Decision::Allow),
            r matches Err(e) ==> e == Error::Forbidden(
                ApiPermission::RetrieveEnterpriseMembers(enterprise_id),
            ),
            r matches Ok(v) ==> ({
                let fil = self.memberships@.filter(|m: Membership| m.enterprise_id == enterprise_id);
                &&& v@.len() == fil.len()
                &&& (forall|i: int|
                    0 <= i < fil.len() ==> is_member_view(
                        #[trigger] v@[i],
                        fil[i],
                        self.spec_user(fil[i].user_id),
                    ))
            }),
    {
        self.check_permission(caller, ApiPermission::RetrieveEnterpriseMembers(enterprise_id))?;
        let ghost pred = |m: Membership| m.enterprise_id == enterprise_id;
        let n = self.memberships.len();
        let mut out: Vec<MemberInEnterprise> = Vec::new();
        let mut i: usize = 0;
        proof {
            Seq::lemma_filter_len(self.memberships@.subrange(0, 0), pred);
            assert(self.memberships@.subrange(0, 0).filter(pred) =~= Seq::<Membership>::empty());
        }
        while i < n
            invariant
                self.wf(),
                i <= n,
                n == self.memberships@.len(),
                pred == (|m: Membership| m.enterprise_id == enterprise_id),
                out@.len() == self.memberships@.subrange(0, i as int).filter(pred).len(),
                forall|k: int|
                    0 <= k < out@.len() ==> is_member_view(
                        #[trigger] out@[k],
                        self.memberships@.subrange(0, i as int).filter(pred)[k],
                        self.spec_user(
                            self.memberships@.subrange(0, i as int).filter(pred)[k].user_id,
                        ),
                    ),
            decreases n - i,
        {
            proof {
                assert(self.memberships@.subrange(0, i + 1) =~= self.memberships@.subrange(
                    0,
                    i as int,
                ).push(self.memberships@[i as int]));
                Seq::lemma_filter_push(
                    self.memberships@.subrange(0, i as int),
                    self.memberships@[i as int],
                    pred,
                );
            }
            if self.memberships[i].enterprise_id == enterprise_id {
                out.push(self.member_view(i));
            }
            i += 1;
        }
        proof {
            assert(self.memberships@.subrange(0, n as int) =~= self.memberships@);
        }
        Ok(out)
    }

    /// Get all enterprises to which the caller belongs.
    pub fn get_all_user_memberships(&self, caller: UserId) -> (r: Vec<MembershipForMember>)
        requires
            self.wf(),
        ensures
            ({
                let fil = self.memberships@.filter(|m: Membership| m.user_id == caller);
                &&& r@.len() == fil.len()
                &&& (forall|i: int|
                    0 <= i < fil.len() ==> is_membership_view(
                        #[trigger] r@[i],
                        fil[i],
                        self.spec_enterprise(fil[i].enterprise_id),
                    ))
            }),
    {
        let ghost pred = |m: Membership| m.user_id == caller;
        let n = self.memberships.len();
        let mut out: Vec<MembershipForMember> = Vec::new();
        let mut i: usize = 0;
        proof {
            Seq::lemma_filter_len(self.memberships@.subrange(0, 0), pred);
            assert(self.memberships@.subrange(0, 0).filter(pred) =~= Seq::<Membership>::empty());
        }
        while i < n
            invariant
                self.wf(),
                i <= n,
                n == self.memberships@.len(),
                pred == (|m: Membership| m.user_id == caller),
                out@.len() == self.memberships@.subrange(0, i as int).filter(pred).len(),
                forall|k: int|
                    0 <= k < out@.len() ==> is_membership_view(
                        #[trigger] out@[k],
                        self.memberships@.subrange(0, i as int).filter(pred)[k],
                        self.spec_enterprise(
                            self.memberships@.subrange(0, i as int).filter(pred)[k].enterprise_id,
                        ),
                    ),
            decreases n - i,
        {
            proof {
                assert(self.memberships@.subrange(0, i + 1) =~= self.memberships@.subrange(
                    0,
                    i as int,
                ).push(self.memberships@[i as int]));
                Seq::lemma_filter_push(
                    self.memberships@.subrange(0, i as int),
                    self.memberships@[i as int],
                    pred,
                );
            }
            if self.memberships[i].user_id == caller {
                let m = self.memberships[i];
                let ei = match self.find_enterprise(m.enterprise_id) {
                    Some(e) => e,
                    None => {
                        proof {
                            assert(false);
                        }
                        0
                    },
                };
                out.push(
                    MembershipForMember {
                        enterprise: self.enterprises[ei].duplicate(),
                        role: m.role,
                        member_since: m.member_since,
                    },
                );
            }
            i += 1;
        }
        proof {
            assert(self.memberships@.subrange(0, n as int) =~= self.memberships@);
        }
        out
    }

    /// Update a user's enterprise membership details; only the enterprise
    /// admin may.
    pub fn edit_membership(
        &mut self,
        caller: UserId,
        enterprise_id: EnterpriseId,
        user_id: UserId,
        req: UpdateMember,
    ) -> (r: Result<MemberInEnterprise, Error>)
        requires
            old(self).wf(),
        ensures
            final (self).wf(),
            r is Err ==> *final (self) == *old(self),
            old(self).spec_decision(
                caller,
                ApiPermission::UpdateEnterpriseMembership { enterprise_id, user_id },
            ) != Decision::Allow ==> r == Err::<MemberInEnterprise, Error>(
                Error::Forbidden(
                    ApiPermission::UpdateEnterpriseMembership { enterprise_id, user_id },
                ),
            ),
            (old(self).spec_decision(
                caller,
                ApiPermission::UpdateEnterpriseMembership { enterprise_id, user_id },
            ) == Decision::Allow && !old(self).has_membership(user_id, enterprise_id)) ==> (
            r matches Err(e) && e.is_not_found_msg(
                "user "@ + spec_dec(user_id.0 as int) + " in enterprise "@ + spec_dec(
                    enterprise_id.0 as int,
                ),
            )),
            (r is Ok) == (old(self).spec_decision(
                caller,
                ApiPermission::UpdateEnterpriseMembership { enterprise_id, user_id },
            ) == Decision::Allow && old(self).has_membership(user_id, enterprise_id)),
            r matches Ok(v) ==> ({
                let idx = old(self).membership_idx(user_id, enterprise_id);
                let old_m = old(self).memberships@[idx];
                let new_m = (Membership {
                    enterprise_id,
                    user_id,
                    role: req.role,
                    member_since: old_m.member_since,
                });
                &&& final (self).memberships@ == old(self).memberships@.update(idx, new_m)
                &&& final (self).spec_enterprise_role(user_id, enterprise_id) == Some(req.role)
                &&& is_member_view(v, new_m, old(self).spec_user(user_id))
                &&& final (self).users == old(self).users
                &&& final (self).team == old(self).team
                &&& final (self).enterprises == old(self).enterprises
                &&& final (self).invitations == old(self).invitations
                &&& final (self).next_id == old(self).next_id
            }),
    {
        self.check_permission(
            caller,
            ApiPermission::UpdateEnterpriseMembership { enterprise_id, user_id },
        )?;
        let idx = match self.find_membership(user_id, enterprise_id) {
            Some(i) => i,
            None => {
                let mut msg = prefix_with_id("user ", user_id.0);
                let tail = prefix_with_id(" in enterprise ", enterprise_id.0);
                msg.append(tail.as_str());
                proof {
                    assert(msg@ =~= "user "@ + spec_dec(user_id.0 as int) + " in enterprise "@
                        + spec_dec(enterprise_id.0 as int));
                }
                return Err(Error::NotFound(msg));
            },
        };
        let old_m = self.memberships[idx];
        let new_m = Membership {
            enterprise_id,
            user_id,
            role: req.role,
            member_since: old_m.member_since,
        };
        self.memberships.set(idx, new_m);
        proof {
            let pre = *old(self);
            let post_m = self.memberships@;
            assert forall|a: int, b: int|
                0 <= a < post_m.len() && 0 <= b < post_m.len() && a != b implies !((
            #[trigger] post_m[a]).user_id == (#[trigger] post_m[b]).user_id
                && post_m[a].enterprise_id == post_m[b].enterprise_id) by {
                let a0 = pre.memberships@[a];
                let b0 = pre.memberships@[b];
                if a != idx {
                    assert(post_m[a] == a0);
                }
                if b != idx {
                    assert(post_m[b] == b0);
                }
                assert(post_m[a].user_id == a0.user_id && post_m[a].enterprise_id
                    == a0.enterprise_id);
                assert(post_m[b].user_id == b0.user_id && post_m[b].enterprise_id
                    == b0.enterprise_id);
            }
            assert forall|a: int|
                0 <= a < post_m.len() implies self.has_enterprise(
                (#[trigger] post_m[a]).enterprise_id,
            ) && self.has_user(post_m[a].user_id) by {
                let m0 = pre.memberships@[a];
                assert(post_m[a].user_id == m0.user_id && post_m[a].enterprise_id
                    == m0.enterprise_id);
                assert(pre.has_enterprise(m0.enterprise_id));
                let w = pre.enterprise_idx(m0.enterprise_id);
                assert(self.enterprises@[w] == pre.enterprises@[w]);
                assert(pre.has_user(m0.user_id));
                let wu = pre.user_idx(m0.user_id);
                assert(self.users@[wu] == pre.users@[wu]);
            }
            assert forall|a: int|
                0 <= a < self.invitations@.len() implies self.has_enterprise(
                (#[trigger] self.invitations@[a]).enterprise_id,
            ) by {
                assert(pre.has_enterprise(pre.invitations@[a].enterprise_id));
                let w = pre.enterprise_idx(pre.invitations@[a].enterprise_id);
                assert(self.enterprises@[w] == pre.enterprises@[w]);
            }
            assert(self.memberships@[idx as int].user_id == user_id
                && self.memberships@[idx as int].enterprise_id == enterprise_id);
            assert(self.has_membership(user_id, enterprise_id));
            let k = self.membership_idx(user_id, enterprise_id);
            if k != idx {
                assert(self.memberships@[k] == pre.memberships@[k]);
            }
        }
        let ui = match self.find_user(user_id) {
            Some(u) => u,
            None => {
                proof {
                    assert(false);
                }
                0
            },
        };
        Ok(
            MemberInEnterprise {
                user: PublicUserWithEmail {
                    user_id: self.users[ui].user_id,
                    username: self.users[ui].username.clone(),
                    display_name: self.users[ui].display_name.clone(),
                    biography: self.users[ui].biography.clone(),
                    email: self.users[ui].email.clone(),
                },
                role: req.role,
                member_since: old_m.member_since,
            },
        )
    }

    /// Remove a member from an enterprise; only the enterprise admin may.
    pub fn remove_member(
        &mut self,
        caller: UserId,
        enterprise_id: EnterpriseId,
        user_id: UserId,
    ) -> (r: Result<(), Error>)
        requires
            old(self).wf(),
        ensures
            final (self).wf(),
            r is Err ==> *final (self) == *old(self),
            old(self).spec_decision(
                caller,
                ApiPermission::DeleteEnterpriseMembership { enterprise_id, user_id },
            ) != Decision::Allow ==> r == Err::<(), Error>(
                Error::Forbidden(
                    ApiPermission::DeleteEnterpriseMembership { enterprise_id, user_id },
                ),
            ),
            (old(self).spec_decision(
                caller,
                ApiPermission::DeleteEnterpriseMembership { enterprise_id, user_id },
            ) == Decision::Allow && !old(self).has_membership(user_id, enterprise_id)) ==> (
            r matches Err(e) && e.is_not_found_msg(
                "member "@ + spec_dec(user_id.0 as int) + " in enterprise "@ + spec_dec(
                    enterprise_id.0 as int,
                ),
            )),
            (r is Ok) == (old(self).spec_decision(
                caller,
                ApiPermission::DeleteEnterpriseMembership { enterprise_id, user_id },
            ) == Decision::Allow && old(self).has_membership(user_id, enterprise_id)),
            r is Ok ==> ({
                &&& final (self).memberships@ == old(self).memberships@.remove(
                    old(self).membership_idx(user_id, enterprise_id),
                )
                &&& !final (self).has_membership(user_id, enterprise_id)
                &&& final (self).spec_enterprise_role(user_id, enterprise_id) is None
                &&& final (self).users == old(self).users
                &&& final (self).team == old(self).team
                &&& final (self).enterprises == old(self).enterprises
                &&& final (self).invitations == old(self).invitations
                &&& final (self).next_id == old(self).next_id
            }),
    {
        self.check_permission(
            caller,
            ApiPermission::DeleteEnterpriseMembership { enterprise_id, user_id },
        )?;
        let idx = match self.find_membership(user_id, enterprise_id) {
            Some(i) => i,
            None => {
                let mut msg = prefix_with_id("member ", user_id.0);
                let tail = prefix_with_id(" in enterprise ", enterprise_id.0);
                msg.append(tail.as_str());
                proof {
                    assert(msg@ =~= "member "@ + spec_dec(user_id.0 as int) + " in enterprise "@
                        + spec_dec(enterprise_id.0 as int));
                }
                return Err(Error::NotFound(msg));
            },
        };
        let ghost pre = *self;
        self.memberships.remove(idx);
        proof {
            crate::users::lemma_wf_after_membership_remove(pre, *self, idx as int);
        }
        Ok(())
    }

    /// Get all incoming enterprise invitations addressed to the caller's
    /// account email.
    pub fn invitations_for_user(&self, caller: UserId) -> (r: Vec<InvitationForRecipient>)
        requires
            self.wf(),
        ensures
            !self.has_user(caller) ==> r@.len() == 0,
            self.has_user(caller) ==> ({
                let em = self.spec_user(caller).email@;
                let fil = self.invitations@.filter(|inv: Invitation| inv.user_email@ == em);
                &&& r@.len() == fil.len()
                &&& (forall|i: int|
                    0 <= i < fil.len() ==> is_recipient_inv_view(
                        #[trigger] r@[i],
                        fil[i],
                        self.spec_enterprise(fil[i].enterprise_id),
                    ))
            }),
    {
        let ui = match self.find_user(caller) {
            Some(u) => u,
            None => {
                return Vec::new();
            },
        };
        let email = self.users[ui].email.clone();
        let ghost em = self.spec_user(caller).email@;
        let ghost pred = |inv: Invitation| inv.user_email@ == em;
        let n = self.invitations.len();
        let mut out: Vec<InvitationForRecipient> = Vec::new();
        let mut i: usize = 0;
        proof {
            Seq::lemma_filter_len(self.invitations@.subrange(0, 0), pred);
            assert(self.invitations@.subrange(0, 0).filter(pred) =~= Seq::<Invitation>::empty());
        }
        while i < n
            invariant
                self.wf(),
                i <= n,
                n == self.invitations@.len(),
                em == self.spec_user(caller).email@,
                email@ == em,
                pred == (|inv: Invitation| inv.user_email@ == em),
                out@.len() == self.invitations@.subrange(0, i as int).filter(pred).len(),
                forall|k: int|
                    0 <= k < out@.len() ==> is_recipient_inv_view(
                        #[trigger] out@[k],
                        self.invitations@.subrange(0, i as int).filter(pred)[k],
                        self.spec_enterprise(
                            self.invitations@.subrange(0, i as int).filter(pred)[k].enterprise_id,
                        ),
                    ),
            decreases n - i,
        {
            proof {
                assert(self.invitations@.subrange(0, i + 1) =~= self.invitations@.subrange(
                    0,
                    i as int,
                ).push(self.invitations@[i as int]));
                Seq::lemma_filter_push(
                    self.invitations@.subrange(0, i as int),
                    self.invitations@[i as int],
                    pred,
                );
            }
            if self.invitations[i].user_email.as_str().to_owned() == email.as_str().to_owned() {
                let ei = match self.find_enterprise(self.invitations[i].enterprise_id) {
                    Some(e) => e,
                    None => {
                        proof {
                            assert(false);
                        }
                        0
                    },
                };
                out.push(self.invitations[i].for_recipient(&self.enterprises[ei]));
            }
            i += 1;
        }
        proof {
            assert(self.invitations@.subrange(0, n as int) =~= self.invitations@);
        }
        out
    }

    /// Get all outgoing enterprise invitations for a specific enterprise;
    /// only its admin may.
    pub fn invitations_for_enterprise(&self, caller: UserId, enterprise_id: EnterpriseId) -> (r:
        Result<Vec<InvitationForEnterprise>, Error>)
        requires
            self.wf(),
        ensures
            (r is Ok) == (self.spec_decision(
                caller,
                ApiPermission::RetrieveOutgoingEnterpriseInvitations { enterprise_id },
            ) == Decision::Allow),
            r matches Err(e) ==> e == Error::Forbidden(
                ApiPermission::RetrieveOutgoingEnterpriseInvitations { enterprise_id },
            ),
            r matches Ok(v) ==> ({
                let fil = self.invitations@.filter(
                    |inv: Invitation| inv.enterprise_id == enterprise_id,
                );
                &&& v@.len() == fil.len()
                &&& (forall|i: int|
                    0 <= i < fil.len() ==> is_enterprise_inv_view(#[trigger] v@[i], fil[i]))
            }),
    {
        self.check_permission(
            caller,
            ApiPermission::RetrieveOutgoingEnterpriseInvitations { enterprise_id },
        )?;
        let ghost pred = |inv: Invitation| inv.enterprise_id == enterprise_id;
        let n = self.invitations.len();
        let mut out: Vec<InvitationForEnterprise> = Vec::new();
        let mut i: usize = 0;
        proof {
            Seq::lemma_filter_len(self.invitations@.subrange(0, 0), pred);
            assert(self.invitations@.subrange(0, 0).filter(pred) =~= Seq::<Invitation>::empty());
        }
        while i < n
            invariant
                self.wf(),
                i <= n,
                n == self.invitations@.len(),
                pred == (|inv: Invitation| inv.enterprise_id == enterprise_id),
                out@.len() == self.invitations@.subrange(0, i as int).filter(pred).len(),
                forall|k: int|
                    0 <= k < out@.len() ==> is_enterprise_inv_view(
                        #[trigger] out@[k],
                        self.invitations@.subrange(0, i as int).filter(pred)[k],
                    ),
            decreases n - i,
        {
            proof {
                assert(self.invitations@.subrange(0, i + 1) =~= self.invitations@.subrange(
                    0,
                    i as int,
                ).push(self.invitations@[i as int]));
                Seq::lemma_filter_push(
                    self.invitations@.subrange(0, i as int),
                    self.invitations@[i as int],
                    pred,
                );
            }
            if self.invitations[i].enterprise_id == enterprise_id {
                out.push(self.invitations[i].for_enterprise());
            }
            i += 1;
        }
        proof {
            assert(self.invitations@.subrange(0, n as int) =~= self.invitations@);
        }
        Ok(out)
    }
}

// ---------------------------------------------------------------------------
// Invitations
// ---------------------------------------------------------------------------
/// The request body to invite a new or existing user to an enterprise.
pub struct NewInvitation {
    pub user_email: String,
    pub role: EnterpriseRole,
}

/// An invitation from the perspective of an enterprise manager.
#[derive(Debug, PartialEq, Eq)]
pub struct InvitationForEnterprise {
    pub invite_id: InviteId,
    pub user_email: String,
    pub role: EnterpriseRole,
    pub created_at: i64,
}

/// An invitation from the perspective of the user to whom it is intended.
#[derive(Debug, PartialEq, Eq)]
pub struct InvitationForRecipient {
    pub invite_id: InviteId,
    pub role: EnterpriseRole,
    pub enterprise: Enterprise,
    pub created_at: i64,
}

/// Whether `v` renders the invitation row `inv` for an enterprise manager.
pub open spec fn is_enterprise_inv_view(v: InvitationForEnterprise, inv: Invitation) -> bool {
    &&& v.invite_id == inv.invite_id
    &&& v.user_email@ == inv.user_email@
    &&& v.role == inv.role
    &&& v.created_at == inv.created_at
}

/// Whether `v` renders the invitation row `inv` for its recipient, joined
/// with its enterprise.
pub open spec fn is_recipient_inv_view(
    v: InvitationForRecipient,
    inv: Invitation,
    ent: Enterprise,
) -> bool {
    &&& v.invite_id == inv.invite_id
    &&& v.role == inv.role
    &&& v.created_at == inv.created_at
    &&& v.enterprise == ent
}

impl Invitation {
    /// The enterprise manager's rendering of this row.
    pub fn for_enterprise(&self) -> (v: InvitationForEnterprise)
        ensures
            is_enterprise_inv_view(v, *self),
    {
        InvitationForEnterprise {
            invite_id: self.invite_id,
            user_email: self.user_email.clone(),
            role: self.role,
            created_at: self.created_at,
        }
    }

    /// The recipient's rendering of this row, joined with its enterprise.
    pub fn for_recipient(&self, ent: &Enterprise) -> (v: InvitationForRecipient)
        ensures
            is_recipient_inv_view(v, *self, *ent),
    {
        InvitationForRecipient {
            invite_id: self.invite_id,
            role: self.role,
            enterprise: ent.duplicate(),
            created_at: self.created_at,
        }
    }
}

impl AuthStore {
    /// Invite a new or existing user to an enterprise; only its admin may.
    /// At most one invitation may be pending per (enterprise, email) pair.
    ///
    /// The surrounding program sends the notification email; this only
    /// records the offer.
    pub fn create_invitation(
        &mut self,
        caller: UserId,
        enterprise_id: EnterpriseId,
        req: NewInvitation,
        now: i64,
    ) -> (r: Result<InvitationForEnterprise, Error>)
        requires
            old(self).wf(),
            old(self).next_id < u128::MAX,
        ensures
            final (self).wf(),
            r is Err ==> *final (self) == *old(self),
            old(self).spec_decision(
                caller,
                ApiPermission::CreateEnterpriseInvitation { enterprise_id },
            ) != Decision::Allow ==> r == Err::<InvitationForEnterprise, Error>(
                Error::Forbidden(ApiPermission::CreateEnterpriseInvitation { enterprise_id }),
            ),
            (old(self).spec_decision(
                caller,
                ApiPermission::CreateEnterpriseInvitation { enterprise_id },
            ) == Decision::Allow && !old(self).has_enterprise(enterprise_id)) ==> (r matches Err(e)
                && e.is_not_found_msg("enterprise"@)),
            (r == Err::<InvitationForEnterprise, Error>(Error::InvitationAlreadySent)) == (old(
                self,
            ).spec_decision(caller, ApiPermission::CreateEnterpriseInvitation { enterprise_id })
                == Decision::Allow && old(self).has_enterprise(enterprise_id) && old(
                self,
            ).has_invitation_for(enterprise_id, req.user_email@)),
            (r is Ok) == (old(self).spec_decision(
                caller,
                ApiPermission::CreateEnterpriseInvitation { enterprise_id },
            ) == Decision::Allow && old(self).has_enterprise(enterprise_id) && !old(
                self,
            ).has_invitation_for(enterprise_id, req.user_email@)),
            r matches Ok(v) ==> ({
                let inv = final (self).invitations@.last();
                &&& final (self).invitations@.len() == old(self).invitations@.len() + 1
                &&& final (self).invitations@.subrange(0, old(self).invitations@.len() as int)
                    == old(self).invitations@
                &&& inv.invite_id == InviteId(old(self).next_id)
                &&& inv.enterprise_id == enterprise_id
                &&& inv.user_email@ == req.user_email@
                &&& inv.role == req.role
                &&& inv.created_at == now
                &&& is_enterprise_inv_view(v, inv)
                &&& final (self).users == old(self).users
                &&& final (self).team == old(self).team
                &&& final (self).enterprises == old(self).enterprises
                &&& final (self).memberships == old(self).memberships
                &&& final (self).next_id == old(self).next_id + 1
                &&& final (self).has_invitation_for(enterprise_id, req.user_email@)
            }),
    {
        self.check_permission(caller, ApiPermission::CreateEnterpriseInvitation { enterprise_id })?;
        if self.find_enterprise(enterprise_id).is_none() {
            return Err(Error::NotFound("enterprise".to_owned()));
        }
        // the storage schema's unique index on (enterprise, invitee email)
        if self.find_invitation_for(enterprise_id, req.user_email.as_str()) {
            return Err(
                match constraint_error(
                    "enterprise_invite_enterprise_id_user_email_key",
                    String::new(),
                ) {
                    Some(e) => e,
                    None => Error::Internal(String::new()),
                },
            );
        }
        let inv = Invitation {
            invite_id: InviteId(self.next_id),
            enterprise_id,
            user_email: req.user_email,
            role: req.role,
            created_at: now,
        };
        let out = inv.for_enterprise();
        self.invitations.push(inv);
        self.next_id = self.next_id + 1;
        proof {
            let pre = *old(self);
            let post_i = self.invitations@;
            let ni = pre.invitations@.len() as int;
            assert forall|a: int, b: int|
                0 <= a < post_i.len() && 0 <= b < post_i.len() && a != b implies (
            #[trigger] post_i[a]).invite_id != (#[trigger] post_i[b]).invite_id && !(
            post_i[a].enterprise_id == post_i[b].enterprise_id && post_i[a].user_email@
                == post_i[b].user_email@) by {
                if a < ni && b < ni {
                } else if a == ni {
                    assert(post_i[b] == pre.invitations@[b]);
                } else if b == ni {
                    assert(post_i[a] == pre.invitations@[a]);
                }
            }
            assert forall|a: int|
                0 <= a < post_i.len() implies self.has_enterprise(
                (#[trigger] post_i[a]).enterprise_id,
            ) && post_i[a].invite_id.0 < self.next_id by {
                if a < ni {
                    assert(post_i[a] == pre.invitations@[a]);
                    assert(pre.has_enterprise(post_i[a].enterprise_id));
                    let w = pre.enterprise_idx(post_i[a].enterprise_id);
                    assert(self.enterprises@[w] == pre.enterprises@[w]);
                } else {
                    assert(pre.has_enterprise(enterprise_id));
                    let w = pre.enterprise_idx(enterprise_id);
                    assert(self.enterprises@[w] == pre.enterprises@[w]);
                }
            }
            assert forall|a: int|
                0 <= a < self.memberships@.len() implies self.has_enterprise(
                (#[trigger] self.memberships@[a]).enterprise_id,
            ) && self.has_user(self.memberships@[a].user_id) by {
                let m = self.memberships@[a];
                assert(pre.has_enterprise(m.enterprise_id));
                let w = pre.enterprise_idx(m.enterprise_id);
                assert(self.enterprises@[w] == pre.enterprises@[w]);
                assert(pre.has_user(m.user_id));
                let wu = pre.user_idx(m.user_id);
                assert(self.users@[wu] == pre.users@[wu]);
            }
            assert(self.invitations@[ni].enterprise_id == enterprise_id && self.invitations@[ni].user_email@ == req.user_email@);
        }
        Ok(out)
    }

    /// Reject or withdraw an invitation: the enterprise admin or the
    /// invitation's recipient may delete it.
    pub fn delete_invitation(&mut self, caller: UserId, invitation_id: InviteId) -> (r: Result<
        (),
        Error,
    >)
        requires
            old(self).wf(),
        ensures
            final (self).wf(),
            r is Err ==> *final (self) == *old(self),
            old(self).spec_decision(caller, ApiPermission::DeleteEnterpriseInvitation(
                invitation_id,
            )) == Decision::NoLinkedInvitation ==> (r matches Err(e) && e.is_not_found_msg(
                "invitation for user"@,
            )),
            old(self).spec_decision(caller, ApiPermission::DeleteEnterpriseInvitation(
                invitation_id,
            )) == Decision::Deny ==> r == Err::<(), Error>(
                Error::Forbidden(ApiPermission::DeleteEnterpriseInvitation(invitation_id)),
            ),
            (r is Ok) == (old(self).spec_decision(
                caller,
                ApiPermission::DeleteEnterpriseInvitation(invitation_id),
            ) == Decision::Allow),
            r is Ok ==> ({
                &&& final (self).invitations@ == old(self).invitations@.remove(
                    old(self).invitation_idx(invitation_id),
                )
                &&& !final (self).has_invitation(invitation_id)
                &&& final (self).users == old(self).users
                &&& final (self).team == old(self).team
                &&& final (self).enterprises == old(self).enterprises
                &&& final (self).memberships == old(self).memberships
                &&& final (self).next_id == old(self).next_id
            }),
    {
        self.check_permission(caller, ApiPermission::DeleteEnterpriseInvitation(invitation_id))?;
        // the permission resolved the invitation, so it exists
        let i = match self.find_invitation(invitation_id) {
            Some(i) => i,
            None => {
                return Err(Error::NotFound("invitation for user".to_owned()));
            },
        };
        let ghost pre = *self;
        self.invitations.remove(i);
        proof {
            lemma_wf_after_invitation_remove(pre, *self, i as int);
        }
        Ok(())
    }

    /// Accept an invitation to join an enterprise: only the caller whose
    /// account email the invitation is addressed to may. The invitation is
    /// consumed into a membership carrying the invited role.
    pub fn accept_invitation(&mut self, caller: UserId, invitation_id: InviteId, now: i64) -> (r:
        Result<(), Error>)
        requires
            old(self).wf(),
        ensures
            final (self).wf(),
            r is Err ==> *final (self) == *old(self),
            old(self).spec_decision(caller, ApiPermission::AcceptEnterpriseInvitation(
                invitation_id,
            )) == Decision::NoLinkedInvitation ==> (r matches Err(e) && e.is_not_found_msg(
                "invitation for user"@,
            )),
            old(self).spec_decision(caller, ApiPermission::AcceptEnterpriseInvitation(
                invitation_id,
            )) == Decision::Deny ==> r == Err::<(), Error>(
                Error::Forbidden(ApiPermission::AcceptEnterpriseInvitation(invitation_id)),
            ),
            (old(self).spec_decision(caller, ApiPermission::AcceptEnterpriseInvitation(
                invitation_id,
            )) == Decision::Allow && old(self).has_membership(
                caller,
                old(self).spec_invitation(invitation_id).enterprise_id,
            )) ==> (r matches Err(e) && e matches Error::Internal(_)),
            (r is Ok) == (old(self).spec_decision(
                caller,
                ApiPermission::AcceptEnterpriseInvitation(invitation_id),
            ) == Decision::Allow && !old(self).has_membership(
                caller,
                old(self).spec_invitation(invitation_id).enterprise_id,
            )),
            r is Ok ==> ({
                let inv = old(self).spec_invitation(invitation_id);
                &&& final (self).memberships@ == old(self).memberships@.push(
                    (Membership {
                        enterprise_id: inv.enterprise_id,
                        user_id: caller,
                        role: inv.role,
                        member_since: now,
                    }),
                )
                &&& final (self).invitations@ == old(self).invitations@.remove(
                    old(self).invitation_idx(invitation_id),
                )
                &&& final (self).spec_enterprise_role(caller, inv.enterprise_id) == Some(inv.role)
                &&& final (self).users == old(self).users
                &&& final (self).team == old(self).team
                &&& final (self).enterprises == old(self).enterprises
                &&& final (self).next_id == old(self).next_id
            }),
    {
        self.check_permission(caller, ApiPermission::AcceptEnterpriseInvitation(invitation_id))?;
        let i = match self.find_invitation(invitation_id) {
            Some(i) => i,
            None => {
                return Err(Error::NotFound("invitation for user".to_owned()));
            },
        };
        let ent = self.invitations[i].enterprise_id;
        let role = self.invitations[i].role;
        // a second membership in the same enterprise violates the schema's
        // unique index, a constraint outside the translator's table
        if self.find_membership(caller, ent).is_some() {
            return Err(Error::Internal("duplicate enterprise membership".to_owned()));
        }
        // the permission holds only when the caller is the resolved
        // recipient, so the caller's account exists
        proof {
            let em = old(self).spec_invitation(invitation_id).user_email@;
            assert(old(self).has_user_email(em));
            let wu = old(self).user_email_idx(em);
            assert(old(self).users@[wu].user_id == caller);
            assert(old(self).has_user(caller));
        }
        let ghost pre = *self;
        self.memberships.push(Membership { enterprise_id: ent, user_id: caller, role, member_since: now });
        proof {
            let post_m = self.memberships@;
            let nm = pre.memberships@.len() as int;
            assert forall|a: int, b: int|
                0 <= a < post_m.len() && 0 <= b < post_m.len() && a != b implies !((
            #[trigger] post_m[a]).user_id == (#[trigger] post_m[b]).user_id
                && post_m[a].enterprise_id == post_m[b].enterprise_id) by {
                if a < nm && b < nm {
                } else if a == nm {
                    assert(post_m[b] == pre.memberships@[b]);
                } else if b == nm {
                    assert(post_m[a] == pre.memberships@[a]);
                }
            }
            assert forall|a: int|
                0 <= a < post_m.len() implies self.has_enterprise(
                (#[trigger] post_m[a]).enterprise_id,
            ) && self.has_user(post_m[a].user_id) by {
                if a < nm {
                    let m = pre.memberships@[a];
                    assert(post_m[a] == m);
                    assert(pre.has_enterprise(m.enterprise_id));
                    let w = pre.enterprise_idx(m.enterprise_id);
                    assert(self.enterprises@[w] == pre.enterprises@[w]);
                    assert(pre.has_user(m.user_id));
                    let wu = pre.user_idx(m.user_id);
                    assert(self.users@[wu] == pre.users@[wu]);
                } else {
                    assert(pre.has_enterprise(ent));
                    let w = pre.enterprise_idx(ent);
                    assert(self.enterprises@[w] == pre.enterprises@[w]);
                    assert(pre.has_user(caller));
                    let wu = pre.user_idx(caller);
                    assert(self.users@[wu] == pre.users@[wu]);
                }
            }
            assert forall|a: int|
                0 <= a < self.invitations@.len() implies self.has_enterprise(
                (#[trigger] self.invitations@[a]).enterprise_id,
            ) by {
                assert(pre.has_enterprise(pre.invitations@[a].enterprise_id));
                let w = pre.enterprise_idx(pre.invitations@[a].enterprise_id);
                assert(self.enterprises@[w] == pre.enterprises@[w]);
            }
        }
        let ghost pre2 = *self;
        self.invitations.remove(i);
        proof {
            lemma_wf_after_invitation_remove(pre2, *self, i as int);
            let last = self.memberships@.len() - 1;
            assert(self.memberships@[last].user_id == caller && self.memberships@[last].enterprise_id == ent);
            assert(self.has_membership(caller, ent));
            let k = self.membership_idx(caller, ent);
            if k != last {
                assert(pre.memberships@[k] == self.memberships@[k]);
                assert(!pre.has_membership(caller, ent));
            }
        }
        Ok(())
    }
}

/// Removing one pending invitation keeps the store well-formed, and its id
/// resolves to no invitation afterwards.
pub(crate) proof fn lemma_wf_after_invitation_remove(pre: AuthStore, post: AuthStore, k: int)
    requires
        pre.wf(),
        0 <= k < pre.invitations@.len(),
        post.invitations@ == pre.invitations@.remove(k),
        post.users == pre.users,
        post.team == pre.team,
        post.enterprises == pre.enterprises,
        post.memberships == pre.memberships,
        post.next_id == pre.next_id,
    ensures
        post.wf(),
        !post.has_invitation(pre.invitations@[k].invite_id),
{
    let pre_i = pre.invitations@;
    let post_i = post.invitations@;
    assert forall|a: int, b: int|
        0 <= a < post_i.len() && 0 <= b < post_i.len() && a != b implies (
    #[trigger] post_i[a]).invite_id != (#[trigger] post_i[b]).invite_id && !(
    post_i[a].enterprise_id == post_i[b].enterprise_id && post_i[a].user_email@
        == post_i[b].user_email@) by {
        let a0 = if a < k {
            a
        } else {
            a + 1
        };
        let b0 = if b < k {
            b
        } else {
            b + 1
        };
        assert(post_i[a] == pre_i[a0]);
        assert(post_i[b] == pre_i[b0]);
    }
    assert forall|a: int|
        0 <= a < post_i.len() implies post.has_enterprise((#[trigger] post_i[a]).enterprise_id)
        && post_i[a].invite_id.0 < post.next_id && post_i[a].invite_id != pre_i[k].invite_id by {
        let a0 = if a < k {
            a
        } else {
            a + 1
        };
        assert(post_i[a] == pre_i[a0]);
        assert(pre.has_enterprise(pre_i[a0].enterprise_id));
        let w = pre.enterprise_idx(pre_i[a0].enterprise_id);
        assert(post.enterprises@[w] == pre.enterprises@[w]);
    }
    assert forall|a: int|
        0 <= a < post.memberships@.len() implies post.has_enterprise(
        (#[trigger] post.memberships@[a]).enterprise_id,
    ) && post.has_user(post.memberships@[a].user_id) by {
        let m = post.memberships@[a];
        assert(pre.has_enterprise(m.enterprise_id));
        let w = pre.enterprise_idx(m.enterprise_id);
        assert(post.enterprises@[w] == pre.enterprises@[w]);
        assert(pre.has_user(m.user_id));
        let wu = pre.user_idx(m.user_id);
        assert(post.users@[wu] == pre.users@[wu]);
    }
}

/// Removing an enterprise row that no membership and no invitation
/// references keeps the store well-formed.
proof fn lemma_wf_after_enterprise_remove(pre: AuthStore, post: AuthStore, k: int)
    requires
        pre.wf(),
        0 <= k < pre.enterprises@.len(),
        post.enterprises@ == pre.enterprises@.remove(k),
        post.users == pre.users,
        post.team == pre.team,
        post.memberships == pre.memberships,
        post.invitations == pre.invitations,
        post.next_id == pre.next_id,
        forall|a: int|
            0 <= a < pre.memberships@.len() ==> (#[trigger] pre.memberships@[a]).enterprise_id
                != pre.enterprises@[k].enterprise_id,
        forall|a: int|
            0 <= a < pre.invitations@.len() ==> (#[trigger] pre.invitations@[a]).enterprise_id
                != pre.enterprises@[k].enterprise_id,
    ensures
        post.wf(),
        !post.has_enterprise(pre.enterprises@[k].enterprise_id),
{
    let pre_e = pre.enterprises@;
    let post_e = post.enterprises@;
    assert forall|a: int, b: int|
        0 <= a < post_e.len() && 0 <= b < post_e.len() && a != b implies (
    #[trigger] post_e[a]).enterprise_id != (#[trigger] post_e[b]).enterprise_id by {
        let a0 = if a < k {
            a
        } else {
            a + 1
        };
        let b0 = if b < k {
            b
        } else {
            b + 1
        };
        assert(post_e[a] == pre_e[a0]);
        assert(post_e[b] == pre_e[b0]);
    }
    assert forall|a: int|
        0 <= a < post_e.len() implies (#[trigger] post_e[a]).enterprise_id.0 < post.next_id
        && post_e[a].enterprise_id != pre_e[k].enterprise_id by {
        let a0 = if a < k {
            a
        } else {
            a + 1
        };
        assert(post_e[a] == pre_e[a0]);
    }
    assert forall|a: int|
        0 <= a < post.memberships@.len() implies post.has_enterprise(
        (#[trigger] post.memberships@[a]).enterprise_id,
    ) && post.has_user(post.memberships@[a].user_id) by {
        let m = post.memberships@[a];
        assert(pre.has_enterprise(m.enterprise_id));
        let w = pre.enterprise_idx(m.enterprise_id);
        assert(pre_e[w].enterprise_id == m.enterprise_id);
        assert(m.enterprise_id != pre_e[k].enterprise_id);
        assert(w != k);
        let w2 = if w < k {
            w
        } else {
            w - 1
        };
        assert(post_e[w2] == pre_e[w]);
        assert(pre.has_user(m.user_id));
        let wu = pre.user_idx(m.user_id);
        assert(post.users@[wu] == pre.users@[wu]);
    }
    assert forall|a: int|
        0 <= a < post.invitations@.len() implies post.has_enterprise(
        (#[trigger] post.invitations@[a]).enterprise_id,
    ) by {
        let v = post.invitations@[a];
        assert(pre.has_enterprise(v.enterprise_id));
        let w = pre.enterprise_idx(v.enterprise_id);
        assert(pre_e[w].enterprise_id == v.enterprise_id);
        assert(v.enterprise_id != pre_e[k].enterprise_id);
        assert(w != k);
        let w2 = if w < k {
            w
        } else {
            w - 1
        };
        assert(post_e[w2] == pre_e[w]);
    }
}

} // verus!
