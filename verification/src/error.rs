use vstd::prelude::*;

verus! {

/// Why a store operation did not take place.
#[derive(Clone, Copy, Debug, PartialEq, Eq, Structural)]
pub enum DBError {
    /// The store itself failed, or has no room left for what was asked.
    Sqlite,
    /// The request came without credentials.
    Unauthenticated,
    /// The credentials or the token belong to no user.
    UnknownUser,
    /// The user is known, but the password is not theirs.
    BadPassword,
    /// A link was to be written at a version that is no position.
    BadVersion,
    /// The schema was written by a newer application, or could not be brought up to date.
    FatalSchema,
}

pub type DBResult<T> = Result<T, DBError>;

impl DBError {
    /// The message that a user is shown for this error.
    pub fn message(&self) -> (s: &'static str)
        ensures
            s@ == match *self {
                DBError::Sqlite => "Database internal error"@,
                DBError::Unauthenticated => "Unauthenticated request"@,
                DBError::UnknownUser => "Unknown user"@,
                DBError::BadPassword => "Bad credentials"@,
                DBError::BadVersion => "Incorrect version"@,
                DBError::FatalSchema => "Incompatible schema"@,
            },
    {
        match self {
            DBError::Sqlite => "Database internal error",
            DBError::Unauthenticated => "Unauthenticated request",
            DBError::UnknownUser => "Unknown user",
            DBError::BadPassword => "Bad credentials",
            DBError::BadVersion => "Incorrect version",
            DBError::FatalSchema => "Incompatible schema",
        }
    }

    /// Whether the caller can go on after this error. Authentication errors and a bad
    /// version concern one request only; a schema error stops the process.
    pub fn is_recoverable(&self) -> (b: bool)
        ensures
            b == !(*self == DBError::FatalSchema),
    {
        match self {
            DBError::FatalSchema => false,
            _ => true,
        }
    }
}

} // verus!
