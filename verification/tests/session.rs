use migration_rs::error::ApiError;
use migration_rs::report::{Entry, Report};
use migration_rs::db::User;
use migration_rs::fxa::FxaData;
use migration_rs::session::{
    recycle_spanner_session, replace_session, session_headers, spanner_address, Recycling,
    SpannerSession, Validation, MAX_MESSAGE_LEN,
};

#[test]
fn address_and_limits_of_the_destination() {
    assert_eq!(spanner_address(), "spanner.googleapis.com:443");
    assert_eq!(MAX_MESSAGE_LEN, 100 << 20);
}

#[test]
fn headers_of_a_new_session() {
    assert_eq!(
        session_headers("projects/p/instances/i/databases/d"),
        vec![
            (
                "google-cloud-resource-prefix".to_owned(),
                "projects/p/instances/i/databases/d".to_owned()
            ),
            ("x-goog-api-client".to_owned(), "gcp-grpc-rs".to_owned()),
        ]
    );
}

#[test]
fn session_is_kept_replaced_or_given_up() {
    assert_eq!(recycle_spanner_session(Validation::Valid), Recycling::Keep);
    assert_eq!(recycle_spanner_session(Validation::NotFound), Recycling::Replace);
    assert_eq!(
        recycle_spanner_session(Validation::Failed("deadline exceeded".to_owned())),
        Recycling::Fail(ApiError::Destination("deadline exceeded".to_owned()))
    );
}

#[test]
fn replacement_takes_the_place_of_the_session() {
    let mut conn = SpannerSession { session: "old".to_owned(), use_test_transactions: true };
    assert_eq!(replace_session(&mut conn, Ok("new".to_owned())), Ok(()));
    assert_eq!(conn, SpannerSession { session: "new".to_owned(), use_test_transactions: true });
    assert_eq!(
        replace_session(&mut conn, Err("unavailable".to_owned())),
        Err(ApiError::Destination("unavailable".to_owned()))
    );
    assert_eq!(conn.session, "new");
}

#[test]
fn report_notes_in_order_and_by_shard() {
    let alice = User { uid: 1, fxa_data: FxaData::default() };
    let bob = User { uid: 2, fxa_data: FxaData::default() };
    let mut report = Report::new();
    assert_eq!(report.bso, 0);
    assert!(report.entries.is_empty());
    report.success(&alice);
    report.set_bso(3);
    report.fail(&bob, "why");
    report.success(&bob);
    assert_eq!(
        report.entries,
        vec![
            Entry { bso: 0, uid: 1, failure: None },
            Entry { bso: 3, uid: 2, failure: Some("why".to_owned()) },
            Entry { bso: 3, uid: 2, failure: None },
        ]
    );
}

#[test]
fn messages_of_errors() {
    assert_eq!(ApiError::MissingColon.message(), "option lacks a colon");
    assert_eq!(ApiError::InvalidBso.message(), "invalid bso");
    assert_eq!(ApiError::InvalidNumber.message(), "invalid number in option");
    assert_eq!(ApiError::InvalidUid.message(), "invalid uid option");
    assert_eq!(ApiError::InvalidDsn.message(), "invalid DSN url");
    assert_eq!(ApiError::NoDsns.message(), "no DSNs set");
    assert_eq!(ApiError::InvalidChunkSize.message(), "chunk size must not be zero");
    assert_eq!(ApiError::ChunkOutOfRange.message(), "there is no such chunk of the users");
    assert_eq!(ApiError::InvalidClientState.message(), "invalid client state");
    assert_eq!(ApiError::InvalidRecord.message(), "invalid identity record");
    assert_eq!(ApiError::NoUsers.message(), "no users found");
    assert_eq!(ApiError::UnknownUser(17).message(), "not found in identity data: 17");
    assert_eq!(ApiError::InvalidTimestamp(u64::MAX).message(), "invalid timestamp: 18446744073709551615");
    assert_eq!(ApiError::InvalidCollectionId.message(), "invalid collection id");
    assert_eq!(ApiError::SessionExpired.message(), "session expired");
    assert_eq!(ApiError::UnexpectedEvent.message(), "unexpected answer of the destination");
    assert_eq!(ApiError::Destination("x".to_owned()).message(), "destination failed: x");
    assert_eq!(ApiError::TransactionFailed("y".to_owned()).message(), "transaction failed: y");
}
