//! Recurring weekly reminders: who is on duty for an occurrence, and when the next
//! occurrence is due.

pub mod datetime;
pub mod integration;
pub mod reminder;
pub mod schedule;
pub mod scheduler;
pub mod stored;
pub mod user;

pub use datetime::{DateTime, Weekday};
pub use integration::Integration;
pub use reminder::Reminder;
pub use schedule::Schedule;
pub use user::User;
