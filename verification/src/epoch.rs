//! The epoch: the week number that counting starts from, kept for the
//! whole service and optionally overridden per group.
use vstd::prelude::*;

use crate::number::{decimal, format_i64, lemma_parse_decimal, parse_i64_spec, IntErrorKind};

verus! {

/// What an epoch update request asks to store.
pub enum EpochUpdate {
    /// Set (or, with `None`, clear) the epoch of one group.
    Group { group_id: i64, epoch: Option<i64> },
    /// Store `value`, the decimal text of the new epoch, as the service's epoch.
    Global { value: String },
}

/// Why an epoch update request cannot be carried out.
#[derive(Clone, Copy, Debug, PartialEq, Eq, Structural)]
pub enum EpochUpdateError {
    /// The service's epoch was to be set, but no epoch was given.
    EpochNoneForKv,
}

impl EpochUpdateError {
    /// The message sent back to the client.
    pub fn message(&self) -> (m: &'static str)
        ensures
            m@ == "epoch_none_for_kv"@,
    {
        "epoch_none_for_kv"
    }
}

/// Decides what an epoch update request stores: the group's epoch when a
/// group is named, else the service's epoch, which must then be given.
pub fn plan_epoch_update(group_id: Option<i64>, epoch: Option<i64>) -> (r: Result<
    EpochUpdate,
    EpochUpdateError,
>)
    ensures
        match group_id {
            Some(g) => r matches Ok(EpochUpdate::Group { group_id: g2, epoch: e2 }) && g2 == g && e2
                == epoch,
            None => match epoch {
                None => r == Err::<EpochUpdate, EpochUpdateError>(
                    EpochUpdateError::EpochNoneForKv,
                ),
                Some(e) => r matches Ok(EpochUpdate::Global { value }) && value@ == decimal(
                    e as int,
                ),
            },
        },
{
    match group_id {
        Some(g) => Ok(EpochUpdate::Group { group_id: g, epoch }),
        None => match epoch {
            None => Err(EpochUpdateError::EpochNoneForKv),
            Some(e) => Ok(EpochUpdate::Global { value: format_i64(e) }),
        },
    }
}

/// The epoch that applies to a group: its own, when it has one, else the
/// service's.
pub fn effective_epoch(global: i64, group_epoch: Option<i64>) -> (e: i64)
    ensures
        e == match group_epoch {
            Some(g) => g,
            None => global,
        },
{
    match group_epoch {
        Some(g) => g,
        None => global,
    }
}

/// The text stored as the service's epoch when the service first starts.
pub fn initial_epoch_text() -> (s: String)
    ensures
        s@ == decimal(0),
{
    format_i64(0)
}

/// Law: the epoch text that an update stores reads back as the same epoch.
pub proof fn lemma_epoch_round_trip(e: i64)
    ensures
        parse_i64_spec(decimal(e as int)) == Ok::<int, IntErrorKind>(e as int),
{
    lemma_parse_decimal(e as int, i64::MIN as int, i64::MAX as int);
}

} // verus!
