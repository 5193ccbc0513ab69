//! What the store holds for each group, and the errors of store queries.
use vstd::prelude::*;

use crate::data::Schedule;
use crate::number::{decimal, format_i64};
use crate::text::concat_text;

verus! {

/// A group of students and its timetable.
pub struct Group {
    pub id: i64,
    pub epoch: Option<i64>,
    pub name: String,
    pub schedule: Option<Vec<Schedule>>,
}

impl Group {
    /// The group just created under `id`: no epoch of its own, no schedule yet.
    pub fn created(id: i64, name: String) -> (g: Group)
        ensures
            g.id == id,
            g.epoch == None::<i64>,
            g.name == name,
            g.schedule is None,
    {
        Group { id, epoch: None, name, schedule: None }
    }
}

/// A query of the store failed; the text says which.
pub enum QueryError {
    Custom(String),
}

impl QueryError {
    /// `cannot_<action>`, for a query about no particular item.
    pub fn cannot(action: &str) -> (e: QueryError)
        ensures
            e matches QueryError::Custom(m) && m@ == "cannot_"@ + action@,
    {
        QueryError::Custom(concat_text("cannot_", action))
    }

    /// `cannot_<action>_<subject>`, for a query about a key or a name.
    pub fn about(action: &str, subject: &str) -> (e: QueryError)
        ensures
            e matches QueryError::Custom(m) && m@ == "cannot_"@ + action@ + "_"@ + subject@,
    {
        let a = concat_text("cannot_", action);
        let b = concat_text(a.as_str(), "_");
        QueryError::Custom(concat_text(b.as_str(), subject))
    }

    /// `cannot_<action>_<id>`, for a query about a group id.
    pub fn about_id(action: &str, id: i64) -> (e: QueryError)
        ensures
            e matches QueryError::Custom(m) && m@ == "cannot_"@ + action@ + "_"@ + decimal(
                id as int,
            ),
    {
        let n = format_i64(id);
        QueryError::about(action, n.as_str())
    }

    /// The message sent back to the client.
    pub fn message(&self) -> (m: &str)
        ensures
            self matches QueryError::Custom(t) && m@ == t@,
    {
        match self {
            QueryError::Custom(t) => t.as_str(),
        }
    }
}

} // verus!
