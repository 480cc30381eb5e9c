//! The session with the destination: a handle that is costly to make, so that it is kept,
//! asked after before it is used again, and made anew only when it is gone.

use crate::error::ApiError;
use vstd::prelude::*;

verus! {

/// The largest message, in bytes, that is sent to the destination or taken from it.
pub const MAX_MESSAGE_LEN: i32 = 104_857_600;

/// A session with the destination, by its name.
#[derive(Debug, PartialEq, Eq)]
pub struct SpannerSession {
    pub session: String,
    pub use_test_transactions: bool,
}

/// What the destination said when it was asked whether a session exists.
#[derive(Debug, PartialEq, Eq)]
pub enum Validation {
    /// The session exists.
    Valid,
    /// The session does not exist any more.
    NotFound,
    /// The question failed; the text is the destination's reason.
    Failed(String),
}

/// What to do with a session that was asked after.
#[derive(Debug, PartialEq, Eq)]
pub enum Recycling {
    /// Use the session as it is.
    Keep,
    /// Create a new session in its place.
    Replace,
    /// Give up, with this error.
    Fail(ApiError),
}

/// The address at which the destination is reached.
pub fn spanner_address() -> (address: &'static str)
    ensures
        address@ == "spanner.googleapis.com:443"@,
{
    "spanner.googleapis.com:443"
}

/// The headers that go with the request for a new session on the database `database_name`.
pub open spec fn headers_of(database_name: Seq<char>) -> Seq<(Seq<char>, Seq<char>)> {
    seq![
        ("google-cloud-resource-prefix"@, database_name),
        ("x-goog-api-client"@, "gcp-grpc-rs"@),
    ]
}

/// The names and values of a list of headers.
pub open spec fn header_views(headers: Seq<(String, String)>) -> Seq<(Seq<char>, Seq<char>)> {
    headers.map_values(|header: (String, String)| (header.0@, header.1@))
}

/// Makes the headers that go with the request for a new session.
pub fn session_headers(database_name: &str) -> (headers: Vec<(String, String)>)
    ensures
        header_views(headers@) == headers_of(database_name@),
{
    let mut headers: Vec<(String, String)> = Vec::new();
    headers.push(("google-cloud-resource-prefix".to_owned(), database_name.to_owned()));
    headers.push(("x-goog-api-client".to_owned(), "gcp-grpc-rs".to_owned()));
    assert(header_views(headers@) =~= headers_of(database_name@));
    headers
}

/// What to do with a kept session, given what the destination said of it: a session that
/// exists is used again, one that is gone is replaced, and any other answer is a failure
/// with the destination's own reason.
pub fn recycle_spanner_session(outcome: Validation) -> (recycling: Recycling)
    ensures
        recycling == match outcome {
            Validation::Valid => Recycling::Keep,
            Validation::NotFound => Recycling::Replace,
            Validation::Failed(reason) => Recycling::Fail(ApiError::Destination(reason)),
        },
{
    match outcome {
        Validation::Valid => Recycling::Keep,
        Validation::NotFound => Recycling::Replace,
        Validation::Failed(reason) => Recycling::Fail(ApiError::Destination(reason)),
    }
}

/// Puts the session that was created in the place of the one that is gone. Where none could
/// be created, the handle stays as it is and the destination's reason is the error.
pub fn replace_session(conn: &mut SpannerSession, created: Result<String, String>) -> (r: Result<
    (),
    ApiError,
>)
    ensures
        final(conn).use_test_transactions == old(conn).use_test_transactions,
        match created {
            Ok(name) => r is Ok && final(conn).session == name,
            Err(reason) => {
                &&& r == Err::<(), ApiError>(ApiError::Destination(reason))
                &&& final(conn).session == old(conn).session
            },
        },
{
    match created {
        Ok(name) => {
            conn.session = name;
            Ok(())
        },
        Err(reason) => Err(ApiError::Destination(reason)),
    }
}

} // verus!
