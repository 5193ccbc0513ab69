//! A service for college timetables: groups, their weekly schedules
//! imported from CSV files, the epoch that week numbers count from, and
//! the administrator session that guards changes.
pub mod auth;
pub mod data;
pub mod epoch;
pub mod import;
pub mod number;
pub mod serialization;
pub mod storage;
pub mod text;
pub mod timetable;
