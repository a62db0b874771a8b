//! Reminders: a named schedule

use crate::schedule::Schedule;
use vstd::prelude::*;

verus! {

/// Record for an individual reminder
pub struct Reminder {
    /// Unique identifier for the reminder record
    pub uid: i32,
    /// Name of the reminder
    pub name: String,
    /// Schedule for the reminder
    pub schedule: Schedule,
}

/// Necessary data to create a new reminder
pub struct NewReminder {
    /// Name of the reminder
    pub name: String,
    /// Schedule for the reminder
    pub schedule: Schedule,
}

} // verus!
