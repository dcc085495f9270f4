use vstd::prelude::*;

verus! {

/// The role of an internal platform-team member, ordered from lowest to
/// highest tier.
#[derive(Clone, Copy, Debug, PartialEq, Eq, PartialOrd, Ord, Structural)]
pub enum MyAceTeamRole {
    Business,
    Frontend,
    Backend,
}

/// The role a member holds within one enterprise. Only `Admin` is privileged
/// for management actions.
#[derive(Clone, Copy, Debug, PartialEq, Eq, Structural)]
pub enum EnterpriseRole {
    Parent,
    Player,
    Instructor,
    Admin,
}

impl EnterpriseRole {
    /// How a role is displayed in emails and other public notices.
    pub fn as_str(&self) -> (r: &'static str)
        ensures
            r@ == self.spec_str(),
    {
        proof {
            reveal_strlit("Parent");
            reveal_strlit("Player");
            reveal_strlit("Instructor");
            reveal_strlit("Admin");
        }
        match self {
            EnterpriseRole::Parent => "Parent",
            EnterpriseRole::Player => "Player",
            EnterpriseRole::Instructor => "Instructor",
            EnterpriseRole::Admin => "Admin",
        }
    }

    pub open spec fn spec_str(self) -> Seq<char> {
        match self {
            EnterpriseRole::Parent => "Parent"@,
            EnterpriseRole::Player => "Player"@,
            EnterpriseRole::Instructor => "Instructor"@,
            EnterpriseRole::Admin => "Admin"@,
        }
    }
}

} // verus!
