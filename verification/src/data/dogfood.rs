//! The row layout of the first schedule import format.
use vstd::prelude::*;

use crate::data::Range;

verus! {

/// A schedule file uploaded for a group, named by the group's name.
pub struct ImportRequest {
    pub group: String,
    pub file: Vec<u8>,
}

/// One lesson with a single week range and separate even/odd flags.
pub struct ScheduleRow {
    pub day: i32,
    pub num: i32,
    pub week_range: Range,
    pub name: String,
    pub lesson_type: Option<String>,
    pub teacher: Option<String>,
    pub auditorium: String,
    pub even: Option<bool>,
    pub odd: Option<bool>,
}

} // verus!
