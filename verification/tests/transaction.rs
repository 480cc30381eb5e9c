use migration_rs::error::ApiError;
use migration_rs::settings::Settings;
use migration_rs::spanner::{Spanner, Statement};
use migration_rs::transaction::{Action, Event, Stage, Transaction};

fn spanner(dryrun: bool) -> Spanner {
    let mut settings = Settings::default();
    settings.dsns.mysql = Some("mysql://source.example/sync".to_owned());
    settings.dsns.spanner = Some("spanner://projects/p/instances/i/databases/d".to_owned());
    settings.dryrun = dryrun;
    Spanner::new(&settings).unwrap()
}

fn statement(rows: usize) -> Statement {
    Statement { sql: "INSERT".to_owned(), params: Vec::new(), rows }
}

#[test]
fn write_without_a_kept_session() {
    let (mut txn, action) = Transaction::start(None, false, true, 3);
    assert_eq!(action, Action::CreateSession);
    assert_eq!(txn.stage, Stage::AwaitSession);
    assert_eq!(txn.on_event(Event::SessionCreated("s1".to_owned())), Action::Begin);
    assert_eq!(txn.session.as_deref(), Some("s1"));
    assert_eq!(txn.on_event(Event::Begun(vec![1, 2, 3])), Action::Execute);
    assert_eq!(txn.transaction_id, Some(vec![1, 2, 3]));
    assert_eq!(txn.on_event(Event::Executed), Action::Commit);
    assert_eq!(txn.session.as_deref(), Some("s1"));
    assert_eq!(txn.transaction_id, Some(vec![1, 2, 3]));
    assert_eq!(txn.on_event(Event::Committed), Action::Finish(Ok(3)));
    assert_eq!(txn.stage, Stage::Done);
    assert!(!txn.replaced);
}

#[test]
fn write_with_a_kept_session_validates_it_first() {
    let (mut txn, action) = Transaction::start(Some("s1".to_owned()), false, true, 1);
    assert_eq!(action, Action::ValidateSession);
    assert_eq!(txn.on_event(Event::SessionValid), Action::Begin);
    assert_eq!(txn.on_event(Event::Begun(vec![9])), Action::Execute);
    assert_eq!(txn.on_event(Event::Executed), Action::Commit);
    assert_eq!(txn.on_event(Event::Committed), Action::Finish(Ok(1)));
    assert_eq!(txn.session.as_deref(), Some("s1"));
}

#[test]
fn expired_session_is_replaced_once() {
    let (mut txn, action) = Transaction::start(Some("s1".to_owned()), false, true, 2);
    assert_eq!(action, Action::ValidateSession);
    assert_eq!(txn.on_event(Event::SessionNotFound), Action::CreateSession);
    assert!(txn.replaced);
    assert_eq!(txn.session, None);
    assert_eq!(txn.on_event(Event::SessionCreated("s2".to_owned())), Action::ValidateSession);
    assert_eq!(txn.session.as_deref(), Some("s2"));
    assert_eq!(txn.on_event(Event::SessionValid), Action::Begin);
    assert_eq!(txn.on_event(Event::Begun(vec![7])), Action::Execute);
    assert_eq!(txn.on_event(Event::Executed), Action::Commit);
    assert_eq!(txn.on_event(Event::Committed), Action::Finish(Ok(2)));
    assert_eq!(txn.session.as_deref(), Some("s2"));
}

#[test]
fn second_expiry_is_fatal() {
    let (mut txn, _) = Transaction::start(Some("s1".to_owned()), false, true, 2);
    let mut created = 0;
    let mut action = txn.on_event(Event::SessionNotFound);
    if action == Action::CreateSession {
        created += 1;
    }
    action = txn.on_event(Event::SessionCreated("s2".to_owned()));
    assert_eq!(action, Action::ValidateSession);
    action = txn.on_event(Event::SessionNotFound);
    if action == Action::CreateSession {
        created += 1;
    }
    assert_eq!(created, 1);
    assert_eq!(action, Action::Finish(Err(ApiError::SessionExpired)));
    assert_eq!(txn.stage, Stage::Done);
    assert_eq!(
        txn.on_event(Event::SessionCreated("s3".to_owned())),
        Action::Finish(Err(ApiError::UnexpectedEvent))
    );
}

#[test]
fn other_failures_of_validation_are_passed_on() {
    let (mut txn, _) = Transaction::start(Some("s1".to_owned()), false, true, 2);
    assert_eq!(
        txn.on_event(Event::Failed("unavailable".to_owned())),
        Action::Finish(Err(ApiError::Destination("unavailable".to_owned())))
    );
    assert!(!txn.replaced);
}

#[test]
fn failed_statement_is_not_committed() {
    let (mut txn, _) = Transaction::start(None, false, true, 5);
    txn.on_event(Event::SessionCreated("s1".to_owned()));
    txn.on_event(Event::Begun(vec![1]));
    let action = txn.on_event(Event::Failed("too large".to_owned()));
    assert_eq!(action, Action::Finish(Err(ApiError::TransactionFailed("too large".to_owned()))));
    assert_eq!(txn.stage, Stage::Done);
    assert_eq!(txn.on_event(Event::Committed), Action::Finish(Err(ApiError::UnexpectedEvent)));
}

#[test]
fn failures_at_the_other_stages() {
    let (mut txn, _) = Transaction::start(None, false, true, 5);
    assert_eq!(
        txn.on_event(Event::Failed("no credentials".to_owned())),
        Action::Finish(Err(ApiError::Destination("no credentials".to_owned())))
    );
    let (mut txn, _) = Transaction::start(None, false, true, 5);
    txn.on_event(Event::SessionCreated("s1".to_owned()));
    assert_eq!(
        txn.on_event(Event::Failed("aborted".to_owned())),
        Action::Finish(Err(ApiError::Destination("aborted".to_owned())))
    );
    let (mut txn, _) = Transaction::start(None, false, true, 5);
    txn.on_event(Event::SessionCreated("s1".to_owned()));
    txn.on_event(Event::Begun(vec![1]));
    txn.on_event(Event::Executed);
    assert_eq!(
        txn.on_event(Event::Failed("conflict".to_owned())),
        Action::Finish(Err(ApiError::Destination("conflict".to_owned())))
    );
}

#[test]
fn answers_that_were_not_asked_for() {
    let (mut txn, _) = Transaction::start(None, false, true, 5);
    assert_eq!(txn.on_event(Event::Committed), Action::Finish(Err(ApiError::UnexpectedEvent)));
    let (mut txn, _) = Transaction::start(Some("s".to_owned()), false, true, 5);
    assert_eq!(txn.on_event(Event::Executed), Action::Finish(Err(ApiError::UnexpectedEvent)));
    let (mut txn, _) = Transaction::start(None, false, true, 5);
    txn.on_event(Event::SessionCreated("s1".to_owned()));
    assert_eq!(txn.on_event(Event::SessionValid), Action::Finish(Err(ApiError::UnexpectedEvent)));
}

#[test]
fn rehearsal_write_asks_nothing_and_counts_its_rows() {
    let (mut txn, action) = Transaction::start(Some("s1".to_owned()), true, true, 4);
    assert_eq!(action, Action::Finish(Ok(4)));
    assert_eq!(txn.stage, Stage::Done);
    for event in [
        Event::SessionValid,
        Event::SessionCreated("s".to_owned()),
        Event::Begun(vec![1]),
        Event::Executed,
        Event::Committed,
    ] {
        assert!(matches!(txn.on_event(event), Action::Finish(_)));
    }
    let (_, action) = Transaction::start(None, true, true, 0);
    assert_eq!(action, Action::Finish(Ok(0)));
}

#[test]
fn rehearsal_still_reads() {
    let (txn, action) = Transaction::start(None, true, false, 0);
    assert_eq!(action, Action::CreateSession);
    assert_eq!(txn.stage, Stage::AwaitSession);
}

#[test]
fn destination_starts_transactions_by_its_options() {
    let (txn, action) = spanner(false).transaction(None, &statement(6));
    assert_eq!(action, Action::CreateSession);
    assert_eq!(txn.rows, 6);
    let (_, action) = spanner(false).transaction(Some("s".to_owned()), &statement(6));
    assert_eq!(action, Action::ValidateSession);
    let (txn, action) = spanner(true).transaction(Some("s".to_owned()), &statement(6));
    assert_eq!(action, Action::Finish(Ok(6)));
    assert_eq!(txn.stage, Stage::Done);
    let (_, action) = spanner(true).query(Some("s".to_owned()));
    assert_eq!(action, Action::ValidateSession);
    let (_, action) = spanner(false).query(None);
    assert_eq!(action, Action::CreateSession);
}
