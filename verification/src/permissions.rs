use vstd::prelude::*;

use crate::error::Error;
use crate::ids::{spec_dec, u128_to_dec, EnterpriseId, InviteId, UserId};

verus! {

/// Actions that an authenticated user may be allowed to perform.
///
/// This is the single argument type of the permission engine: a closed set of
/// gated operations, each carrying the resource identifiers needed to
/// adjudicate it.
#[derive(Debug, Clone, Copy, PartialEq, Eq, Structural)]
pub enum ApiPermission {
    ViewAPIDocumentation,
    RetrieveAllEnterprises,
    CreateEnterprise,
    /// View an enterprise by its ID
    RetrieveEnterprise(EnterpriseId),
    /// Edit an enterprise by its ID
    UpdateEnterprise(EnterpriseId),
    /// Delete an enterprise by its ID
    DeleteEnterprise(EnterpriseId),
    /// Send an invitation to join a specific enterprise to a new or existing user
    CreateEnterpriseInvitation { enterprise_id: EnterpriseId },
    /// View all outgoing invitations from a specific enterprise
    RetrieveOutgoingEnterpriseInvitations { enterprise_id: EnterpriseId },
    /// Accept an enterprise invitation by its ID
    AcceptEnterpriseInvitation(InviteId),
    /// Delete an enterprise invitation by its ID
    DeleteEnterpriseInvitation(InviteId),
    /// View all enterprise members
    RetrieveEnterpriseMembers(EnterpriseId),
    /// Edit a member's status within an enterprise
    UpdateEnterpriseMembership { enterprise_id: EnterpriseId, user_id: UserId },
    /// Remove a member from an enterprise
    DeleteEnterpriseMembership { enterprise_id: EnterpriseId, user_id: UserId },
}

/// The client-friendly rendering of an action, used only in messages, never
/// for access decisions.
pub open spec fn spec_description(p: ApiPermission) -> Seq<char> {
    match p {
        ApiPermission::ViewAPIDocumentation => "view API documentation"@,
        ApiPermission::CreateEnterprise => "create enterprise"@,
        ApiPermission::RetrieveAllEnterprises => "view all enterprises"@,
        ApiPermission::RetrieveEnterprise(id) => "retrieve enterprise with id "@ + spec_dec(
            id.0 as int,
        ),
        ApiPermission::UpdateEnterprise(id) => "update enterprise with id "@ + spec_dec(id.0 as int),
        ApiPermission::DeleteEnterprise(id) => "delete enterprise with id "@ + spec_dec(id.0 as int),
        ApiPermission::AcceptEnterpriseInvitation(id) => "accept enterprise invitation with id "@
            + spec_dec(id.0 as int),
        ApiPermission::DeleteEnterpriseInvitation(id) => "delete enterprise invitation with id "@
            + spec_dec(id.0 as int),
        ApiPermission::CreateEnterpriseInvitation { enterprise_id } =>
            "send enterprise invitation for enterprise with id "@ + spec_dec(enterprise_id.0 as int),
        ApiPermission::RetrieveOutgoingEnterpriseInvitations { enterprise_id } =>
            "retrieve outgoing invitations for enterprise with id "@ + spec_dec(
            enterprise_id.0 as int,
        ),
        ApiPermission::RetrieveEnterpriseMembers(id) => "retrieve all members of enterprise "@
            + spec_dec(id.0 as int),
        ApiPermission::UpdateEnterpriseMembership { enterprise_id, user_id } =>
            "edit the membership status of user "@ + spec_dec(user_id.0 as int)
            + " within enterprise "@ + spec_dec(enterprise_id.0 as int),
        ApiPermission::DeleteEnterpriseMembership { enterprise_id, user_id } => "remove user "@
            + spec_dec(user_id.0 as int) + " from enterprise "@ + spec_dec(enterprise_id.0 as int),
    }
}

pub(crate) fn prefix_with_id(prefix: &str, id: u128) -> (r: String)
    ensures
        r@ == prefix@ + spec_dec(id as int),
{
    let mut s = prefix.to_owned();
    let d = u128_to_dec(id);
    s.append(d.as_str());
    s
}

impl ApiPermission {
    /// Format a permission to be client-friendly.
    pub fn description(&self) -> (r: String)
        ensures
            r@ == spec_description(*self),
    {
        match self {
            ApiPermission::ViewAPIDocumentation => "view API documentation".to_owned(),
            ApiPermission::CreateEnterprise => "create enterprise".to_owned(),
            ApiPermission::RetrieveAllEnterprises => "view all enterprises".to_owned(),
            ApiPermission::RetrieveEnterprise(id) => prefix_with_id(
                "retrieve enterprise with id ",
                id.0,
            ),
            ApiPermission::UpdateEnterprise(id) => prefix_with_id(
                "update enterprise with id ",
                id.0,
            ),
            ApiPermission::DeleteEnterprise(id) => prefix_with_id(
                "delete enterprise with id ",
                id.0,
            ),
            ApiPermission::AcceptEnterpriseInvitation(id) => prefix_with_id(
                "accept enterprise invitation with id ",
                id.0,
            ),
            ApiPermission::DeleteEnterpriseInvitation(id) => prefix_with_id(
                "delete enterprise invitation with id ",
                id.0,
            ),
            ApiPermission::CreateEnterpriseInvitation { enterprise_id } => prefix_with_id(
                "send enterprise invitation for enterprise with id ",
                enterprise_id.0,
            ),
            ApiPermission::RetrieveOutgoingEnterpriseInvitations { enterprise_id } => prefix_with_id(
                "retrieve outgoing invitations for enterprise with id ",
                enterprise_id.0,
            ),
            ApiPermission::RetrieveEnterpriseMembers(id) => prefix_with_id(
                "retrieve all members of enterprise ",
                id.0,
            ),
            ApiPermission::UpdateEnterpriseMembership { enterprise_id, user_id } => {
                let mut s = prefix_with_id("edit the membership status of user ", user_id.0);
                let t = prefix_with_id(" within enterprise ", enterprise_id.0);
                s.append(t.as_str());
                s
            },
            ApiPermission::DeleteEnterpriseMembership { enterprise_id, user_id } => {
                let mut s = prefix_with_id("remove user ", user_id.0);
                let t = prefix_with_id(" from enterprise ", enterprise_id.0);
                s.append(t.as_str());
                s
            },
        }
    }
}

/// Returns `Ok(())` if `cond` is true or `Err(Error::Forbidden(action))`
/// otherwise. Helps improve readability in permission logic.
pub fn forbid_false(cond: bool, action: ApiPermission) -> (r: Result<(), Error>)
    ensures
        cond ==> r is Ok,
        !cond ==> r == Err::<(), Error>(Error::Forbidden(action)),
{
    if cond {
        Ok(())
    } else {
        Err(Error::Forbidden(action))
    }
}

} // verus!
