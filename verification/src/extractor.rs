use vstd::prelude::*;

use crate::error::Error;
use crate::ids::UserId;
use crate::token::{spec_issue, spec_verify, TokenCodec};

verus! {

/// The token carried by an `Authorization` header value of the expected form
/// `Token <opaque-string>`, if the form matches.
pub open spec fn spec_header_token(h: Seq<char>) -> Option<Seq<char>> {
    if h.len() >= 6 && h.subrange(0, 6) == "Token "@ {
        Some(h.subrange(6, h.len() as int))
    } else {
        None
    }
}

/// The identity an `Authorization` header value authenticates under `key`,
/// if any: the header must have the `Token` form and carry a token that
/// verifies.
pub open spec fn spec_header_identity(key: Seq<u8>, h: Seq<char>) -> Option<u128> {
    match spec_header_token(h) {
        Some(t) => match spec_verify(key, t) {
            Ok(id) => Some(id),
            Err(_) => None,
        },
        None => None,
    }
}

fn header_token<'a>(h: &'a str) -> (r: Option<&'a str>)
    ensures
        match r {
            Some(t) => spec_header_token(h@) == Some(t@),
            None => spec_header_token(h@) is None,
        },
{
    let n = h.unicode_len();
    if n < 6 {
        return None;
    }
    let prefix = h.substring_char(0, 6);
    if prefix.to_owned() == "Token ".to_owned() {
        Some(h.substring_char(6, n))
    } else {
        None
    }
}

/// An authenticated caller, as established from a verified session token.
pub struct AuthUser {
    pub user_id: UserId,
}

impl AuthUser {
    /// Sign a session token asserting this caller's identity.
    pub fn to_jwt(&self, codec: &TokenCodec) -> (t: String)
        ensures
            t@ == spec_issue(codec.spec_key(), self.user_id.0),
    {
        codec.issue(self.user_id)
    }
}

/// A possibly-absent authenticated caller: `None` when no `Authorization`
/// header was presented at all.
pub struct MaybeAuthUser(pub Option<AuthUser>);

impl MaybeAuthUser {
    pub fn user_id(&self) -> (r: Option<UserId>)
        ensures
            match self.0 {
                Some(u) => r == Some(u.user_id),
                None => r is None,
            },
    {
        match &self.0 {
            Some(u) => Some(u.user_id),
            None => None,
        }
    }
}

/// Required mode: the identity, or `Unauthorized` when the header is absent,
/// malformed, or its token fails verification.
pub fn require_identity(codec: &TokenCodec, authorization: Option<&str>) -> (r: Result<
    AuthUser,
    Error,
>)
    ensures
        match authorization {
            Some(h) => match spec_header_identity(codec.spec_key(), h@) {
                Some(id) => (r matches Ok(u) && u.user_id.0 == id),
                None => r == Err::<AuthUser, Error>(Error::Unauthorized),
            },
            None => r == Err::<AuthUser, Error>(Error::Unauthorized),
        },
{
    match authorization {
        None => Err(Error::Unauthorized),
        Some(h) => match header_token(h) {
            None => Err(Error::Unauthorized),
            Some(tok) => match codec.verify_token(tok) {
                Ok(user_id) => Ok(AuthUser { user_id }),
                Err(_) => Err(Error::Unauthorized),
            },
        },
    }
}

/// Optional mode: absence of the header is tolerated, but a header that is
/// present and invalid is still rejected with `Unauthorized`.
pub fn optional_identity(codec: &TokenCodec, authorization: Option<&str>) -> (r: Result<
    MaybeAuthUser,
    Error,
>)
    ensures
        match authorization {
            Some(h) => match spec_header_identity(codec.spec_key(), h@) {
                Some(id) => (r matches Ok(m) && m.0 matches Some(u) && u.user_id.0 == id),
                None => r == Err::<MaybeAuthUser, Error>(Error::Unauthorized),
            },
            None => (r matches Ok(m) && m.0 is None),
        },
{
    match authorization {
        None => Ok(MaybeAuthUser(None)),
        Some(h) => match header_token(h) {
            None => Err(Error::Unauthorized),
            Some(tok) => match codec.verify_token(tok) {
                Ok(user_id) => Ok(MaybeAuthUser(Some(AuthUser { user_id }))),
                Err(_) => Err(Error::Unauthorized),
            },
        },
    }
}

} // verus!
