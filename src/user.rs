//! Users of the service, and the interface through which their records are managed

use vstd::prelude::*;

verus! {

/// Record for an individual user of the service
#[derive(Clone, Debug, PartialEq, Eq)]
pub struct User {
    /// Unique identifier for the user record
    pub uid: i32,
    /// Preferred name of the user
    pub name: String,
}

/// Necessary data to create a new user
#[derive(Clone, Debug, PartialEq, Eq)]
pub struct NewUser {
    /// Preferred name of the user
    pub name: String,
}

/// User operation errors
#[derive(Clone, Debug, PartialEq, Eq)]
pub enum Error {
    /// A user-related storage operation failed, with the store's message
    Database(String),
}

/// Provides an interface for user management, implemented by a user store
pub trait UserManagement {
    /// Creates a new user in the store
    fn add(&self, user: NewUser) -> Result<User, Error>;

    /// Updates an existing user in the store
    fn update(&self, user: User) -> Result<User, Error>;

    /// Removes an existing user from the store
    fn remove(&self, uid: i32) -> Result<(), Error>;

    /// Retrieves all users from the store
    fn get_all(&self) -> Result<Vec<User>, Error>;

    /// Retrieves a user from the store by their uid
    fn get_by_uid(&self, uid: i32) -> Result<User, Error>;
}

} // verus!
