//! Errors that the managers report.

use vstd::prelude::*;

verus! {

/// Why a manager operation failed.
#[derive(Debug)]
pub enum ManagerError {
    /// The database reported an error.
    Store(sled::Error),
    /// A value changed between reading it and swapping it.
    Conflict,
    /// The event names a category that does not exist.
    UnknownCategory,
    /// No event is stored under the id.
    EventNotFound,
    /// No category of that name exists.
    CategoryNotFound,
    /// An application with that id is already stored.
    AppExists,
    /// No application is stored under the id.
    AppNotFound,
    /// The trees are not open: a reset failed part-way.
    Closed,
}

/// Passes a result of the database on, its error as `ManagerError::Store`.
pub fn store_result<T>(r: Result<T, sled::Error>) -> (out: Result<T, ManagerError>)
    ensures
        r matches Ok(v) ==> out == Ok::<T, ManagerError>(v),
        r is Err ==> out matches Err(ManagerError::Store(_)),
{
    match r {
        Ok(v) => Ok(v),
        Err(e) => Err(ManagerError::Store(e)),
    }
}

} // verus!
