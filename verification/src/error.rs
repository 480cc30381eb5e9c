//! The ways in which a migration run can fail.

use crate::text::{decimal, u64_to_string};
use vstd::prelude::*;
use vstd::string::StringExecFns;

verus! {

/// Why an operation of the migration could not be carried out.
#[derive(Debug, PartialEq, Eq)]
pub enum ApiError {
    /// An option of the form `left:right` holds no colon.
    MissingColon,
    /// A shard number is not a decimal number below 256.
    InvalidBso,
    /// A value of an option is not an unsigned decimal number.
    InvalidNumber,
    /// A legacy user id given in the options is not an unsigned decimal number.
    InvalidUid,
    /// A data-source location is not a URL.
    InvalidDsn,
    /// The source or the destination has no data-source location.
    NoDsns,
    /// The batch size for writes is zero.
    InvalidChunkSize,
    /// There is no such bucket of users: buckets count from 1, and the window of this one
    /// would start behind its end.
    ChunkOutOfRange,
    /// The client state of an identity record is not a run of pairs of hexadecimal digits.
    InvalidClientState,
    /// A line of the identity data has fewer than five fields, or a number in it cannot be
    /// read.
    InvalidRecord,
    /// The identity data holds no user.
    NoUsers,
    /// A user named in the options has no identity.
    UnknownUser(u64),
    /// A time lies beyond what can be held. The number is the time as it was given: in
    /// milliseconds since the epoch, or, for an expiry as the source keeps it, in seconds.
    InvalidTimestamp(u64),
    /// The destination reported a collection id that is not a decimal number below 65536.
    InvalidCollectionId,
    /// The destination's session is gone, and so is the one that replaced it.
    SessionExpired,
    /// The destination answered what it was not asked.
    UnexpectedEvent,
    /// The destination refused an operation; the text is its reason.
    Destination(String),
    /// A statement failed inside its transaction, which was then abandoned; the text is the
    /// destination's reason.
    TransactionFailed(String),
}

impl Clone for ApiError {
    fn clone(&self) -> (copy: Self)
        ensures
            copy == *self,
    {
        match self {
            ApiError::MissingColon => ApiError::MissingColon,
            ApiError::InvalidBso => ApiError::InvalidBso,
            ApiError::InvalidNumber => ApiError::InvalidNumber,
            ApiError::InvalidUid => ApiError::InvalidUid,
            ApiError::InvalidDsn => ApiError::InvalidDsn,
            ApiError::NoDsns => ApiError::NoDsns,
            ApiError::InvalidChunkSize => ApiError::InvalidChunkSize,
            ApiError::ChunkOutOfRange => ApiError::ChunkOutOfRange,
            ApiError::InvalidClientState => ApiError::InvalidClientState,
            ApiError::InvalidRecord => ApiError::InvalidRecord,
            ApiError::NoUsers => ApiError::NoUsers,
            ApiError::UnknownUser(uid) => ApiError::UnknownUser(*uid),
            ApiError::InvalidTimestamp(time) => ApiError::InvalidTimestamp(*time),
            ApiError::InvalidCollectionId => ApiError::InvalidCollectionId,
            ApiError::SessionExpired => ApiError::SessionExpired,
            ApiError::UnexpectedEvent => ApiError::UnexpectedEvent,
            ApiError::Destination(reason) => ApiError::Destination(reason.clone()),
            ApiError::TransactionFailed(reason) => ApiError::TransactionFailed(reason.clone()),
        }
    }
}

impl ApiError {
    /// The text that describes the error to a person.
    pub open spec fn text(self) -> Seq<char> {
        match self {
            ApiError::MissingColon => "option lacks a colon"@,
            ApiError::InvalidBso => "invalid bso"@,
            ApiError::InvalidNumber => "invalid number in option"@,
            ApiError::InvalidUid => "invalid uid option"@,
            ApiError::InvalidDsn => "invalid DSN url"@,
            ApiError::NoDsns => "no DSNs set"@,
            ApiError::InvalidChunkSize => "chunk size must not be zero"@,
            ApiError::ChunkOutOfRange => "there is no such chunk of the users"@,
            ApiError::InvalidClientState => "invalid client state"@,
            ApiError::InvalidRecord => "invalid identity record"@,
            ApiError::NoUsers => "no users found"@,
            ApiError::UnknownUser(uid) => "not found in identity data: "@ + decimal(uid as nat),
            ApiError::InvalidTimestamp(ms) => "invalid timestamp: "@ + decimal(ms as nat),
            ApiError::InvalidCollectionId => "invalid collection id"@,
            ApiError::SessionExpired => "session expired"@,
            ApiError::UnexpectedEvent => "unexpected answer of the destination"@,
            ApiError::Destination(reason) => "destination failed: "@ + reason@,
            ApiError::TransactionFailed(reason) => "transaction failed: "@ + reason@,
        }
    }

    /// Describes the error to a person.
    pub fn message(&self) -> (s: String)
        ensures
            s@ == self.text(),
    {
        match self {
            ApiError::MissingColon => "option lacks a colon".to_owned(),
            ApiError::InvalidBso => "invalid bso".to_owned(),
            ApiError::InvalidNumber => "invalid number in option".to_owned(),
            ApiError::InvalidUid => "invalid uid option".to_owned(),
            ApiError::InvalidDsn => "invalid DSN url".to_owned(),
            ApiError::NoDsns => "no DSNs set".to_owned(),
            ApiError::InvalidChunkSize => "chunk size must not be zero".to_owned(),
            ApiError::ChunkOutOfRange => "there is no such chunk of the users".to_owned(),
            ApiError::InvalidClientState => "invalid client state".to_owned(),
            ApiError::InvalidRecord => "invalid identity record".to_owned(),
            ApiError::NoUsers => "no users found".to_owned(),
            ApiError::UnknownUser(uid) => {
                let mut s = "not found in identity data: ".to_owned();
                s.append(u64_to_string(*uid).as_str());
                s
            },
            ApiError::InvalidTimestamp(ms) => {
                let mut s = "invalid timestamp: ".to_owned();
                s.append(u64_to_string(*ms).as_str());
                s
            },
            ApiError::InvalidCollectionId => "invalid collection id".to_owned(),
            ApiError::SessionExpired => "session expired".to_owned(),
            ApiError::UnexpectedEvent => "unexpected answer of the destination".to_owned(),
            ApiError::Destination(reason) => {
                let mut s = "destination failed: ".to_owned();
                s.append(reason.as_str());
                s
            },
            ApiError::TransactionFailed(reason) => {
                let mut s = "transaction failed: ".to_owned();
                s.append(reason.as_str());
                s
            },
        }
    }
}

} // verus!
