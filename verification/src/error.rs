//! What can go wrong, and what the client is told of it.

use vstd::prelude::*;

verus! {

/// A read that the store could not answer.
#[derive(Clone, Copy, Debug, PartialEq, Eq, Structural)]
pub enum StoreError {
    /// The store failed, or what it held could not be decoded.
    InternalError,
    /// A value that a write depended on had changed.
    AssertValueFailed,
}

/// The failures that a session reports to its client.
#[derive(Clone, Copy, Debug, PartialEq, Eq, Structural)]
pub enum Error {
    /// The store could not be read. The session stays up and may try again.
    DatabaseFailure,
    /// The mailbox has no record, or its record has no UIDVALIDITY.
    MailboxUnavailable,
    /// `$` was used before any search was saved.
    NoSavedSearch,
    /// A copy or move names the selected mailbox as its target.
    CannotCopyToSelf,
    /// The target mailbox of a copy or move does not exist.
    TryCreate,
}

impl From<StoreError> for Error {
    /// Whatever went wrong in the store, the client is told of a failure of
    /// the database.
    fn from(error: StoreError) -> (failure: Error) {
        Error::DatabaseFailure
    }
}

impl vstd::std_specs::convert::FromSpecImpl<StoreError> for Error {
    open spec fn obeys_from_spec() -> bool {
        true
    }

    open spec fn from_spec(error: StoreError) -> Error {
        Error::DatabaseFailure
    }
}

impl Error {
    /// The text of the tagged response that tells the client of the
    /// failure, without the tag in front of it.
    pub open spec fn response_text(self) -> Seq<char> {
        match self {
            Error::DatabaseFailure => "NO Database failure."@,
            Error::MailboxUnavailable => "NO Mailbox unavailable."@,
            Error::NoSavedSearch => "NO No saved search found."@,
            Error::CannotCopyToSelf => "NO [CANNOT] Source and destination mailboxes are the same."@,
            Error::TryCreate => "NO [TRYCREATE] Destination mailbox does not exist."@,
        }
    }

    /// The text of the tagged response that tells the client of the
    /// failure, without the tag in front of it.
    pub fn response(&self) -> (text: &'static str)
        ensures
            text@ == self.response_text(),
    {
        match self {
            Error::DatabaseFailure => "NO Database failure.",
            Error::MailboxUnavailable => "NO Mailbox unavailable.",
            Error::NoSavedSearch => "NO No saved search found.",
            Error::CannotCopyToSelf => "NO [CANNOT] Source and destination mailboxes are the same.",
            Error::TryCreate => "NO [TRYCREATE] Destination mailbox does not exist.",
        }
    }
}

} // verus!
