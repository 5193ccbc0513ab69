//! Request and reply bodies that carry no logic of their own.
use vstd::prelude::*;

verus! {

/// A login by user name and password.
pub struct UserTokenRequest {
    pub username: String,
    pub password: String,
}

/// The current epoch.
pub struct EpochResponse {
    pub epoch: i64,
}

/// The access token issued to a user.
pub struct UserTokenResponse {
    pub access_token: String,
}

/// The access token of a newly created user.
pub struct UserCreateResponse {
    pub access_token: String,
}

} // verus!
