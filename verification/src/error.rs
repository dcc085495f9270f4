use vstd::prelude::*;

use crate::permissions::ApiPermission;

verus! {

/// The error kinds surfaced by this core.
///
/// `Unauthorized` maps to a 401, `Forbidden` to a 403, `NotFound` to a 404;
/// the validation and conflict variants map to 422/409-class responses with
/// precise user-facing text. `Internal` stands for storage faults and data
/// corruption; its detail is logged by the surrounding program, never exposed
/// to the caller.
#[derive(Debug, Clone, PartialEq, Eq)]
pub enum Error {
    /// Missing or invalid session token, or a bad server credential.
    Unauthorized,
    /// Valid caller, insufficient privilege for the carried action.
    Forbidden(ApiPermission),
    /// The named resource does not exist.
    NotFound(String),
    /// Credential mismatch during login or password change.
    IncorrectPassword,
    /// The requested username is already in use.
    UsernameTaken(String),
    /// The requested username fails format validation.
    InvalidUsername(String),
    /// The given email address fails format validation.
    InvalidEmail(String),
    /// The given phone number fails format validation.
    InvalidPhone(String),
    /// A pending invitation for this organization and email already exists.
    InvitationAlreadySent,
    /// A storage-layer failure or corrupted stored data.
    Internal(String),
}

impl Error {
    pub open spec fn is_not_found_msg(self, msg: Seq<char>) -> bool {
        match self {
            Error::NotFound(m) => m@ == msg,
            _ => false,
        }
    }
}

/// Map a failed write's underlying constraint name to a typed domain error.
///
/// `value` is the offending user-supplied value, handed back inside the typed
/// error for user-facing text. A constraint name not in the table yields
/// `None`: the caller passes the original storage error through unchanged.
pub fn constraint_error(constraint: &str, value: String) -> (r: Option<Error>)
    ensures
        constraint@ == "uname_check"@ ==> r == Some(Error::InvalidUsername(value)),
        constraint@ == "user_username_key"@ ==> r == Some(Error::UsernameTaken(value)),
        constraint@ == "enterprise_invite_enterprise_id_user_email_key"@ ==> r == Some(
            Error::InvitationAlreadySent,
        ),
        constraint@ == "phone_number_check"@ ==> r == Some(Error::InvalidPhone(value)),
        constraint@ == "email_address_check"@ ==> r == Some(Error::InvalidEmail(value)),
        (constraint@ != "uname_check"@ && constraint@ != "user_username_key"@ && constraint@
            != "enterprise_invite_enterprise_id_user_email_key"@ && constraint@
            != "phone_number_check"@ && constraint@ != "email_address_check"@) ==> r is None,
{
    proof {
        // the names differ pairwise (already in length)
        reveal_strlit("uname_check");
        reveal_strlit("user_username_key");
        reveal_strlit("enterprise_invite_enterprise_id_user_email_key");
        reveal_strlit("phone_number_check");
        reveal_strlit("email_address_check");
        assert("uname_check"@.len() == 11);
        assert("user_username_key"@.len() == 17);
        assert("enterprise_invite_enterprise_id_user_email_key"@.len() == 46);
        assert("phone_number_check"@.len() == 18);
        assert("email_address_check"@.len() == 19);
    }
    let c = constraint.to_owned();
    if c == "uname_check".to_owned() {
        Some(Error::InvalidUsername(value))
    } else if c == "user_username_key".to_owned() {
        Some(Error::UsernameTaken(value))
    } else if c == "enterprise_invite_enterprise_id_user_email_key".to_owned() {
        Some(Error::InvitationAlreadySent)
    } else if c == "phone_number_check".to_owned() {
        Some(Error::InvalidPhone(value))
    } else if c == "email_address_check".to_owned() {
        Some(Error::InvalidEmail(value))
    } else {
        None
    }
}

} // verus!
