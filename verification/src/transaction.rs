//! One statement against the destination, from the session to the commit: what to ask of
//! the destination next, given what it answered last.

use crate::error::ApiError;
use crate::spanner::{Spanner, Statement};
use vstd::prelude::*;

verus! {

/// What a transaction is waiting for.
#[derive(Clone, Copy, Debug, PartialEq, Eq, Structural)]
pub enum Stage {
    /// For a new session.
    AwaitSession,
    /// For the word on whether its session still exists.
    AwaitValidation,
    /// For the transaction to begin.
    AwaitBegin,
    /// For the statement to be executed.
    AwaitExecute,
    /// For the commit.
    AwaitCommit,
    /// For nothing: it is over.
    Done,
}

/// What the destination answered.
#[derive(Debug, PartialEq, Eq)]
pub enum Event {
    /// A session was created; this is its name.
    SessionCreated(String),
    /// The session exists.
    SessionValid,
    /// The session does not exist any more.
    SessionNotFound,
    /// A transaction has begun; this is its id.
    Begun(Vec<u8>),
    /// The statement was executed.
    Executed,
    /// The transaction was committed.
    Committed,
    /// The last request failed; the text is the destination's reason.
    Failed(String),
}

/// What to ask of the destination next. Every request is made with the session and the
/// transaction id that the transaction holds at that time.
#[derive(Debug, PartialEq, Eq)]
pub enum Action {
    /// Create a session.
    CreateSession,
    /// Ask whether the session still exists.
    ValidateSession,
    /// Begin a transaction that reads and writes.
    Begin,
    /// Execute the statement.
    Execute,
    /// Commit the transaction.
    Commit,
    /// Nothing more: the transaction ended, with the number of rows written or the error.
    Finish(Result<usize, ApiError>),
}

/// One statement on its way through the destination.
#[derive(Debug, PartialEq, Eq)]
pub struct Transaction {
    pub stage: Stage,
    /// The session that every request is made with, once there is one.
    pub session: Option<String>,
    /// The id of the transaction, once it has begun.
    pub transaction_id: Option<Vec<u8>>,
    /// Whether the session at hand replaced one that did not exist any more.
    pub replaced: bool,
    /// The number of rows that the statement writes.
    pub rows: usize,
}

impl Transaction {
    /// The transaction at its end, and its last word.
    pub open spec fn finished(self, result: Result<usize, ApiError>) -> (Transaction, Action) {
        (
            Transaction {
                stage: Stage::Done,
                session: self.session,
                transaction_id: self.transaction_id,
                replaced: self.replaced,
                rows: self.rows,
            },
            Action::Finish(result),
        )
    }

    /// The transaction at another stage, and the request that goes with it.
    pub open spec fn moved(self, stage: Stage, action: Action) -> (Transaction, Action) {
        (
            Transaction {
                stage,
                session: self.session,
                transaction_id: self.transaction_id,
                replaced: self.replaced,
                rows: self.rows,
            },
            action,
        )
    }

    /// Where a statement starts: in a rehearsal a write ends at once, as a success with its
    /// rows counted and with nothing asked of the destination. Otherwise a session that was
    /// kept from before is validated first, and without one a session is created.
    pub open spec fn started(cached: Option<String>, dryrun: bool, write: bool, rows: usize) -> (
        Transaction,
        Action,
    ) {
        let fresh = Transaction {
            stage: Stage::AwaitSession,
            session: cached,
            transaction_id: None,
            replaced: false,
            rows,
        };
        if dryrun && write {
            fresh.finished(Ok(rows))
        } else if cached is Some {
            fresh.moved(Stage::AwaitValidation, Action::ValidateSession)
        } else {
            fresh.moved(Stage::AwaitSession, Action::CreateSession)
        }
    }

    /// The step that an answer of the destination leads to.
    ///
    /// A session that does not exist any more is replaced by a new one, once: the new one is
    /// validated like the old, and if it does not exist either, the transaction fails. A
    /// statement that fails ends the transaction without a commit. Any other failure ends it
    /// with the destination's reason, and so does an answer that was not asked for.
    pub open spec fn step(self, event: Event) -> (Transaction, Action) {
        match (self.stage, event) {
            (Stage::Done, _) => self.finished(Err(ApiError::UnexpectedEvent)),
            (Stage::AwaitExecute, Event::Failed(reason)) => self.finished(
                Err(ApiError::TransactionFailed(reason)),
            ),
            (_, Event::Failed(reason)) => self.finished(Err(ApiError::Destination(reason))),
            (Stage::AwaitValidation, Event::SessionValid) => self.moved(
                Stage::AwaitBegin,
                Action::Begin,
            ),
            (Stage::AwaitValidation, Event::SessionNotFound) => if self.replaced {
                self.finished(Err(ApiError::SessionExpired))
            } else {
                (
                    Transaction {
                        stage: Stage::AwaitSession,
                        session: None,
                        transaction_id: self.transaction_id,
                        replaced: true,
                        rows: self.rows,
                    },
                    Action::CreateSession,
                )
            },
            (Stage::AwaitSession, Event::SessionCreated(name)) => (
                Transaction {
                    stage: if self.replaced {
                        Stage::AwaitValidation
                    } else {
                        Stage::AwaitBegin
                    },
                    session: Some(name),
                    transaction_id: self.transaction_id,
                    replaced: self.replaced,
                    rows: self.rows,
                },
                if self.replaced {
                    Action::ValidateSession
                } else {
                    Action::Begin
                },
            ),
            (Stage::AwaitBegin, Event::Begun(id)) => (
                Transaction {
                    stage: Stage::AwaitExecute,
                    session: self.session,
                    transaction_id: Some(id),
                    replaced: self.replaced,
                    rows: self.rows,
                },
                Action::Execute,
            ),
            (Stage::AwaitExecute, Event::Executed) => self.moved(
                Stage::AwaitCommit,
                Action::Commit,
            ),
            (Stage::AwaitCommit, Event::Committed) => self.finished(Ok(self.rows)),
            (_, _) => self.finished(Err(ApiError::UnexpectedEvent)),
        }
    }

    /// Starts a statement that writes `rows` rows, or reads if `write` is not set, with the
    /// session `cached` that was kept from before, if any.
    pub fn start(cached: Option<String>, dryrun: bool, write: bool, rows: usize) -> (r: (
        Transaction,
        Action,
    ))
        ensures
            r == Transaction::started(cached, dryrun, write, rows),
    {
        let has_session = cached.is_some();
        let mut transaction = Transaction {
            stage: Stage::AwaitSession,
            session: cached,
            transaction_id: None,
            replaced: false,
            rows,
        };
        if dryrun && write {
            transaction.stage = Stage::Done;
            (transaction, Action::Finish(Ok(rows)))
        } else if has_session {
            transaction.stage = Stage::AwaitValidation;
            (transaction, Action::ValidateSession)
        } else {
            (transaction, Action::CreateSession)
        }
    }

    /// Ends the transaction with `result`.
    fn finish(&mut self, result: Result<usize, ApiError>) -> (action: Action)
        ensures
            (*final(self), action) == old(self).finished(result),
    {
        self.stage = Stage::Done;
        Action::Finish(result)
    }

    /// Takes an answer of the destination, and says what to ask next.
    pub fn on_event(&mut self, event: Event) -> (action: Action)
        ensures
            (*final(self), action) == old(self).step(event),
    {
        match self.stage {
            Stage::Done => self.finish(Err(ApiError::UnexpectedEvent)),
            Stage::AwaitSession => match event {
                Event::Failed(reason) => self.finish(Err(ApiError::Destination(reason))),
                Event::SessionCreated(name) => {
                    self.session = Some(name);
                    if self.replaced {
                        self.stage = Stage::AwaitValidation;
                        Action::ValidateSession
                    } else {
                        self.stage = Stage::AwaitBegin;
                        Action::Begin
                    }
                },
                _ => self.finish(Err(ApiError::UnexpectedEvent)),
            },
            Stage::AwaitValidation => match event {
                Event::Failed(reason) => self.finish(Err(ApiError::Destination(reason))),
                Event::SessionValid => {
                    self.stage = Stage::AwaitBegin;
                    Action::Begin
                },
                Event::SessionNotFound => {
                    if self.replaced {
                        self.finish(Err(ApiError::SessionExpired))
                    } else {
                        self.session = None;
                        self.replaced = true;
                        self.stage = Stage::AwaitSession;
                        Action::CreateSession
                    }
                },
                _ => self.finish(Err(ApiError::UnexpectedEvent)),
            },
            Stage::AwaitBegin => match event {
                Event::Failed(reason) => self.finish(Err(ApiError::Destination(reason))),
                Event::Begun(id) => {
                    self.transaction_id = Some(id);
                    self.stage = Stage::AwaitExecute;
                    Action::Execute
                },
                _ => self.finish(Err(ApiError::UnexpectedEvent)),
            },
            Stage::AwaitExecute => match event {
                Event::Failed(reason) => self.finish(Err(ApiError::TransactionFailed(reason))),
                Event::Executed => {
                    self.stage = Stage::AwaitCommit;
                    Action::Commit
                },
                _ => self.finish(Err(ApiError::UnexpectedEvent)),
            },
            Stage::AwaitCommit => match event {
                Event::Failed(reason) => self.finish(Err(ApiError::Destination(reason))),
                Event::Committed => {
                    let rows = self.rows;
                    self.finish(Ok(rows))
                },
                _ => self.finish(Err(ApiError::UnexpectedEvent)),
            },
        }
    }
}

/// What a transaction asks, one request after the other, while the destination gives the
/// answers `events`.
pub open spec fn requests(transaction: Transaction, events: Seq<Event>) -> Seq<Action>
    decreases events.len(),
{
    if events.len() == 0 {
        Seq::empty()
    } else {
        let (next, action) = transaction.step(events[0]);
        seq![action] + requests(next, events.skip(1))
    }
}

/// A transaction that is over asks nothing of the destination, whatever comes.
pub proof fn lemma_done_asks_nothing(transaction: Transaction, events: Seq<Event>)
    requires
        transaction.stage == Stage::Done,
    ensures
        requests(transaction, events).len() == events.len(),
        forall|i: int|
            0 <= i < events.len() ==> (#[trigger] requests(transaction, events)[i]) is Finish,
    decreases events.len(),
{
    if events.len() > 0 {
        let (next, action) = transaction.step(events[0]);
        lemma_done_asks_nothing(next, events.skip(1));
        assert forall|i: int| 0 <= i < events.len() implies (#[trigger] requests(
            transaction,
            events,
        )[i]) is Finish by {
            if i > 0 {
                assert(requests(transaction, events)[i] == requests(next, events.skip(1))[i - 1]);
            }
        }
    }
}

/// A rehearsal never commits: a write that starts in a rehearsal ends at once as a success
/// with its rows counted, and asks nothing of the destination then or later.
pub proof fn lemma_rehearsal_never_commits(cached: Option<String>, rows: usize, events: Seq<Event>)
    ensures
        Transaction::started(cached, true, true, rows).1 == Action::Finish(Ok(rows)),
        forall|i: int|
            0 <= i < events.len() ==> (#[trigger] requests(
                Transaction::started(cached, true, true, rows).0,
                events,
            )[i]) is Finish,
{
    lemma_done_asks_nothing(Transaction::started(cached, true, true, rows).0, events);
}

/// A commit follows only the execution of the statement, and is made with the session and
/// the transaction id that the statement was executed with.
pub proof fn lemma_commit_follows_execution(transaction: Transaction, event: Event)
    requires
        transaction.step(event).1 is Commit,
    ensures
        transaction.stage == Stage::AwaitExecute,
        event is Executed,
        transaction.step(event).0.session == transaction.session,
        transaction.step(event).0.transaction_id == transaction.transaction_id,
{
}

/// A session is replaced once at most: after a replacement no further session is created,
/// and a replacement that does not exist either ends the transaction.
pub proof fn lemma_one_replacement(transaction: Transaction, event: Event)
    requires
        transaction.replaced,
    ensures
        !(transaction.step(event).1 is CreateSession),
        transaction.step(event).0.replaced,
        transaction.stage == Stage::AwaitValidation && event is SessionNotFound
            ==> transaction.step(event).1 == Action::Finish(Err(ApiError::SessionExpired)),
{
}

impl Spanner {
    /// Starts the transaction that writes `statement`, with the session `cached` that was
    /// kept from before, if any. This is the one place where a write sets out for the
    /// destination: in a rehearsal it ends here, as a success with its rows counted.
    pub fn transaction(&self, cached: Option<String>, statement: &Statement) -> (r: (
        Transaction,
        Action,
    ))
        ensures
            r == Transaction::started(cached, self.settings.dryrun, true, statement.rows),
            self.settings.dryrun ==> r.1 == Action::Finish(Ok(statement.rows)),
    {
        Transaction::start(cached, self.settings.dryrun, true, statement.rows)
    }

    /// Starts a transaction that only reads, which a rehearsal makes like any other run.
    pub fn query(&self, cached: Option<String>) -> (r: (Transaction, Action))
        ensures
            r == Transaction::started(cached, self.settings.dryrun, false, 0),
            !(r.1 is Finish),
    {
        Transaction::start(cached, self.settings.dryrun, false, 0)
    }
}

} // verus!
