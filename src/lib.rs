//! Aggregation of time-tracking entries into work groups with time budgets.
//!
//! Entries carry a set of tags and a time span; work groups require a set of
//! tags and hold an allocated budget. Each entry is attributed to the first
//! work group whose required tags it carries, and a fixed-width report of the
//! time spent, allocated and remaining is rendered from the result.

pub mod duration;
pub mod tagset;
pub mod error;
pub mod twentry;
pub mod window;
pub mod twinput;
pub mod workgroup;
pub mod text;
pub mod report;
pub mod json_model;
mod clock;
pub mod allocation;
pub mod laws;
