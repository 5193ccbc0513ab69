//! Request bodies of the layout that identified users and groups by UUID
//! (held here as their 128-bit values).
use vstd::prelude::*;

verus! {

/// Asks for the epoch, of a group when one is named.
pub struct EpochRequest {
    pub group_id: Option<u128>,
}

/// Sets the epoch, of a group when one is named.
pub struct EpochUpdateRequest {
    pub access_token: u128,
    pub epoch: i64,
    pub group_id: Option<u128>,
}

/// A request that carries only an optional access token.
pub struct GenericAccessTokenRequest {
    pub access_token: Option<u128>,
}

/// Creates a group with the given name.
pub struct GroupCreateRequest {
    pub access_token: u128,
    pub name: String,
}

/// Deletes a group.
pub struct GroupDeleteRequest {
    pub access_token: u128,
    pub group_id: u128,
}

/// Asks for a group's timetable in a week.
pub struct ScheduleRequest {
    pub week: i32,
    pub group_id: u128,
}

} // verus!
