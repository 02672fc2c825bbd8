//! Login.
use vstd::prelude::*;
use vstd::string::StringExecFns;

verus! {

/// The credentials a login request carries.
#[derive(Debug)]
pub struct LoginRequest {
    pub username: String,
    pub password: String,
}

impl LoginRequest {
    /// Whether the credentials are the administrator's.
    pub fn credentials_valid(&self) -> (r: bool)
        ensures
            r == (self.username@ == "admin"@ && self.password@ == "secret"@),
    {
        let admin = String::from_str("admin");
        let secret = String::from_str("secret");
        self.username.eq(&admin) && self.password.eq(&secret)
    }
}

} // verus!
