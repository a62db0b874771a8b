//! Integrations with external services that are notified of reminders

use crate::datetime::DateTime;
use crate::reminder::Reminder;
use crate::user::User;
use vstd::prelude::*;

verus! {

/// Type of UID for an integration record
#[derive(Clone, Copy, Debug, PartialEq, Eq, Structural)]
pub enum Uid {
    /// User UID
    User(i32),
}

impl Uid {
    /// Provides the UID value
    pub fn uid(&self) -> (r: i32)
        ensures
            match self {
                Uid::User(u) => r == *u,
            },
    {
        match self {
            Uid::User(uid) => *uid,
        }
    }

    /// Provides the type of UID represented by this value
    pub fn uid_type(&self) -> (r: &'static str)
        ensures
            match self {
                Uid::User(_) => r@ == "user"@,
            },
    {
        proof {
            reveal_strlit("user");
        }
        match self {
            Uid::User(_) => "user",
        }
    }
}

/// Integration configuration record for a specific UID
#[derive(Clone, Debug, PartialEq, Eq)]
pub struct Record {
    /// The UID the record applies to
    pub uid: i32,
    /// The type of entity the UID represents
    pub uid_type: &'static str,
    /// The name of the integration
    pub name: &'static str,
    /// Integration-specific stored data
    pub data: String,
}

impl Record {
    /// The record of integration `name` for the entity that `uid` names
    pub fn new(uid: Uid, name: &'static str, data: String) -> (r: Record)
        ensures
            r.uid == uid.uid_spec(),
            r.uid_type@ == uid.uid_type_spec(),
            r.name == name,
            r.data == data,
    {
        Record { uid: uid.uid(), uid_type: uid.uid_type(), name, data }
    }
}

impl Uid {
    /// The UID value
    pub open spec fn uid_spec(self) -> i32 {
        match self {
            Uid::User(u) => u,
        }
    }

    /// The type of UID, as text
    pub open spec fn uid_type_spec(self) -> Seq<char> {
        match self {
            Uid::User(_) => "user"@,
        }
    }
}

/// An external service that is told when a reminder fires: the caller of
/// `Scheduler::next` hands each firing to every integration
pub trait Integration {
    /// The unique name of the integration
    fn name(&self) -> &'static str;

    /// Notifies the integrated service of a triggered reminder; an error carries a message
    /// for the log
    fn notify(&mut self, reminder: &Reminder, assignees: &[User], timestamp: &DateTime) -> Result<
        (),
        String,
    >;
}

} // verus!
