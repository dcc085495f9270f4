use vstd::prelude::*;

pub mod enterprises;
pub mod error;
pub mod extractor;
pub mod ids;
pub mod notifications;
pub mod password;
pub mod token;
pub mod permissions;
pub mod roles;
pub mod store;
pub mod types;
pub mod users;

verus! {

/// The configuration parameters for the application.
///
/// The surrounding program reads these from its command line or environment;
/// the library only consumes them as plain values.
pub struct Config {
    /// The connection URL for the Postgres database this application should use.
    pub database_url: String,
    /// The HMAC signing and verification key used for login tokens.
    ///
    /// There is no required structure or format to this key as it's just fed
    /// into a hash function. In practice, it should be a long, random string
    /// that would be infeasible to brute-force.
    pub hmac_key: String,
    /// Credential that allows a caller to register a platform team member.
    pub server_password: String,
}

} // verus!
