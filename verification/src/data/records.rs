//! Stored rows of the layout that identified users and groups by UUID
//! (held here as their 128-bit values).
use vstd::prelude::*;

verus! {

/// A user: its access token and the groups it may change.
pub struct User {
    pub access_token: String,
    pub group_scope: Vec<u128>,
}

/// The link from an access token to the user that holds it.
pub struct UserComposite {
    pub access_token: u128,
    pub username: String,
}

/// The service's own row: its id and the epoch.
pub struct Internal {
    pub id: u128,
    pub epoch: i64,
}

/// A group without its schedule, as listed.
pub struct GroupWithoutSchedule {
    pub id: u128,
    pub epoch: i64,
    pub name: String,
}

} // verus!
