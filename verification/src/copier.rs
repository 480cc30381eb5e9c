//! Copying one user: first the user's collections in one write, then the user's storage
//! objects in batches of a fixed size, one write for each batch.

use crate::collections::{collection_views, Collection, Collections};
use crate::db::{bso_views, Bso, BsoView, Dbs, User};
use crate::error::ApiError;
use crate::report::{EntryView, Report};
use crate::spanner::{
    bsos_statement, first_bad_modified, first_bad_time, user_collections_statement, Statement,
};
use vstd::prelude::*;
use vstd::string::StringExecFns;

verus! {

/// Where the batch that starts at `start` ends: `size` storage objects further, or with the
/// last of the `total` storage objects.
pub open spec fn batch_end(total: nat, size: nat, start: nat) -> nat {
    if start + size < total {
        start + size
    } else {
        total
    }
}

/// How far the copy has come after `k` batches.
pub open spec fn position_after(total: nat, size: nat, k: nat) -> nat {
    if k * size < total {
        k * size
    } else {
        total
    }
}

/// The number of batches: the number of storage objects divided by the size of a batch,
/// rounded up.
pub open spec fn batch_count(total: nat, size: nat) -> nat {
    ((total + size - 1) / (size as int)) as nat
}

/// The storage objects of the first `k` batches, batch after batch.
pub open spec fn batches_upto<T>(rows: Seq<T>, size: nat, k: nat) -> Seq<T>
    decreases k,
{
    if k == 0 {
        Seq::empty()
    } else {
        batches_upto(rows, size, (k - 1) as nat) + rows.subrange(
            position_after(rows.len(), size, (k - 1) as nat) as int,
            position_after(rows.len(), size, k) as int,
        )
    }
}

/// Each batch starts where the one before it ended.
pub proof fn lemma_batches_adjoin(total: nat, size: nat, k: nat)
    requires
        size > 0,
    ensures
        position_after(total, size, 0) == 0,
        position_after(total, size, k + 1) == batch_end(total, size, position_after(total, size, k)),
        position_after(total, size, k) <= position_after(total, size, k + 1) <= total,
{
    assert(0 * size == 0) by (nonlinear_arith);
    assert((k + 1) * size == k * size + size) by (nonlinear_arith);
    assert(k * size >= 0) by (nonlinear_arith);
}

/// There are as many batches as the rounded-up quotient says: before that many batches the
/// copy has not reached the last storage object, and after them it has.
pub proof fn lemma_batch_count(total: nat, size: nat, k: nat)
    requires
        size > 0,
    ensures
        position_after(total, size, k) < total <==> k < batch_count(total, size),
        position_after(total, size, batch_count(total, size)) == total,
{
    let count = batch_count(total, size);
    let a = total + size - 1;
    vstd::arithmetic::div_mod::lemma_fundamental_div_mod(a, size as int);
    vstd::arithmetic::div_mod::lemma_mod_pos_bound(a, size as int);
    vstd::arithmetic::div_mod::lemma_div_pos_is_pos(a, size as int);
    assert(size * (a / (size as int)) == count * size) by (nonlinear_arith)
        requires
            count == a / (size as int),
    ;
    assert(count * size >= total);
    assert(count * size - size < total);
    if k < count {
        assert(k * size <= count * size - size) by (nonlinear_arith)
            requires
                k <= count - 1,
                size > 0,
        ;
    } else {
        assert(k * size >= count * size) by (nonlinear_arith)
            requires
                k >= count,
                size > 0,
        ;
    }
}

/// The first `k` batches, one after the other, are the storage objects up to where the copy
/// has come after `k` batches, in their order.
pub proof fn lemma_batches_prefix<T>(rows: Seq<T>, size: nat, k: nat)
    requires
        size > 0,
    ensures
        batches_upto(rows, size, k) == rows.take(position_after(rows.len(), size, k) as int),
    decreases k,
{
    if k == 0 {
        lemma_batches_adjoin(rows.len(), size, 0);
        assert(batches_upto(rows, size, 0) =~= rows.take(0));
    } else {
        lemma_batches_prefix(rows, size, (k - 1) as nat);
        lemma_batches_adjoin(rows.len(), size, (k - 1) as nat);
        assert(batches_upto(rows, size, k) =~= rows.take(
            position_after(rows.len(), size, k) as int,
        ));
    }
}

/// The batches cover the storage objects exactly: there are as many as the number of storage
/// objects divided by the size of a batch, rounded up, and one after the other they are the
/// storage objects in their order.
pub proof fn lemma_batches_concatenate<T>(rows: Seq<T>, size: nat)
    requires
        size > 0,
    ensures
        batches_upto(rows, size, batch_count(rows.len(), size)) == rows,
{
    let count = batch_count(rows.len(), size);
    lemma_batches_prefix(rows, size, count);
    lemma_batch_count(rows.len(), size, count);
    assert(rows.take(rows.len() as int) =~= rows);
}

/// How far the copy of one user has come.
#[derive(Debug, PartialEq, Eq)]
pub struct UserCopy {
    collections_done: bool,
    done: usize,
    count: usize,
    failure: Option<String>,
    stopped: Option<ApiError>,
}

/// What a [`UserCopy`] holds, as mathematical values.
pub struct CopyView {
    /// Whether the user's collections are written, or there were none to write.
    pub collections_done: bool,
    /// How many of the user's storage objects are in batches that are settled.
    pub done: nat,
    /// How many of the user's storage objects were written.
    pub count: nat,
    /// Why the first write that failed did so, if one failed.
    pub failure: Option<Seq<char>>,
    /// The error that ended the copy before its time, if one did: the user's collections
    /// could not be written.
    pub stopped: Option<ApiError>,
}

impl View for UserCopy {
    type V = CopyView;

    closed spec fn view(&self) -> CopyView {
        CopyView {
            collections_done: self.collections_done,
            done: self.done as nat,
            count: self.count as nat,
            failure: match self.failure {
                Some(reason) => Some(reason@),
                None => None,
            },
            stopped: self.stopped,
        }
    }
}

/// What the copier asks for, or says, next.
#[derive(Debug, PartialEq, Eq)]
pub enum CopyStep {
    /// Execute this statement, and settle the copy with what came of it.
    Write(Statement),
    /// The next batch of storage objects cannot be written down; settle the copy with this
    /// error, and the copy goes on with the batch behind it.
    Rejected(ApiError),
    /// The copy is over before its time, with this error: nothing more is written for the
    /// user.
    Abort(ApiError),
    /// Nothing is left to write.
    Finished,
}

/// The storage objects of the batch that starts at `start`.
pub open spec fn batch_of(bsos: Seq<BsoView>, size: nat, start: nat) -> Seq<BsoView> {
    bsos.subrange(start as int, batch_end(bsos.len(), size, start) as int)
}

/// The reason that is noted when a write fails with the error `e`.
pub open spec fn failure_text(e: ApiError) -> Seq<char> {
    "Unknown error: "@ + e.text()
}

/// The failure of a copy after one more write: the first failure stays.
pub open spec fn noted_failure(failure: Option<Seq<char>>, outcome: Result<usize, ApiError>) -> Option<
    Seq<char>,
> {
    match failure {
        Some(reason) => Some(reason),
        None => match outcome {
            Ok(_) => None,
            Err(e) => Some(failure_text(e)),
        },
    }
}

/// The copy that the error `e` has ended: the error is kept and noted as a failure, and
/// nothing else changes.
pub open spec fn stopped_by(copy: CopyView, e: ApiError) -> CopyView {
    CopyView {
        collections_done: copy.collections_done,
        done: copy.done,
        count: copy.count,
        failure: noted_failure(copy.failure, Err(e)),
        stopped: Some(e),
    }
}

/// The copy after the write that was asked for last came to `outcome`.
///
/// A copy that was ended stays as it is. The write of the collections is settled first:
/// written, the copy goes on to the storage objects; failed, the copy is ended by the
/// error. After it every write is a batch of storage objects: the copy moves on to the end
/// of the batch, whatever came of it, and counts its storage objects if it was written.
/// Where nothing was asked for, nothing changes.
pub open spec fn settled(copy: CopyView, total: nat, size: nat, outcome: Result<usize, ApiError>) -> CopyView {
    if copy.stopped is Some {
        copy
    } else if !copy.collections_done {
        match outcome {
            Ok(_) => CopyView {
                collections_done: true,
                done: copy.done,
                count: copy.count,
                failure: copy.failure,
                stopped: None,
            },
            Err(e) => stopped_by(copy, e),
        }
    } else if copy.done >= total || size == 0 {
        copy
    } else {
        CopyView {
            collections_done: true,
            done: batch_end(total, size, copy.done),
            count: if outcome is Ok {
                (copy.count + batch_end(total, size, copy.done) - copy.done) as nat
            } else {
                copy.count
            },
            failure: noted_failure(copy.failure, outcome),
            stopped: None,
        }
    }
}

impl UserCopy {
    #[verifier::type_invariant]
    spec fn counted(&self) -> bool {
        self.count <= self.done
    }

    /// The copy of a user of whom nothing is written yet.
    pub fn new() -> (copy: UserCopy)
        ensures
            copy@ == (CopyView {
                collections_done: false,
                done: 0,
                count: 0,
                failure: None,
                stopped: None,
            }),
    {
        UserCopy { collections_done: false, done: 0, count: 0, failure: None, stopped: None }
    }

    /// How many of the user's storage objects were written.
    pub fn count(&self) -> (count: usize)
        ensures
            count == self@.count,
    {
        self.count
    }

    /// How many of the user's storage objects are in batches that are settled.
    pub fn done(&self) -> (done: usize)
        ensures
            done == self@.done,
    {
        self.done
    }

    /// Whether a write of this copy failed.
    pub fn failed(&self) -> (failed: bool)
        ensures
            failed == self@.failure is Some,
    {
        self.failure.is_some()
    }

    /// Whether the copy was ended before its time.
    pub fn stopped(&self) -> (stopped: bool)
        ensures
            stopped == self@.stopped is Some,
    {
        self.stopped.is_some()
    }

    /// Notes the outcome of a write: the first failure stays.
    fn note(&mut self, outcome: &Result<usize, ApiError>)
        ensures
            final(self)@ == (CopyView {
                collections_done: old(self)@.collections_done,
                done: old(self)@.done,
                count: old(self)@.count,
                failure: noted_failure(old(self)@.failure, *outcome),
                stopped: old(self)@.stopped,
            }),
    {
        proof {
            use_type_invariant(&*self);
        }
        if self.failure.is_none() {
            if let Err(e) = outcome {
                let mut reason = "Unknown error: ".to_owned();
                reason.append(e.message().as_str());
                self.failure = Some(reason);
            }
        }
    }

    /// Ends the copy with the error `e`.
    fn stop(&mut self, e: ApiError)
        ensures
            final(self)@ == stopped_by(old(self)@, e),
    {
        proof {
            use_type_invariant(&*self);
        }
        let outcome: Result<usize, ApiError> = Err(e);
        self.note(&outcome);
        match outcome {
            Err(e) => {
                self.stopped = Some(e);
            },
            Ok(_) => {},
        }
    }
}

/// A copy of a list of collections.
fn clone_collections(list: &Vec<Collection>) -> (copy: Vec<Collection>)
    ensures
        copy@ == list@,
{
    let mut copy: Vec<Collection> = Vec::new();
    let mut i: usize = 0;
    while i < list.len()
        invariant
            i <= list.len(),
            copy@ == list@.take(i as int),
        decreases list.len() - i,
    {
        copy.push(list[i].clone());
        assert(copy@ =~= list@.take(i + 1));
        i = i + 1;
    }
    assert(list@.take(list.len() as int) =~= list@);
    copy
}

impl Dbs {
    /// The next step of the copy of `user`, whose collections in the source are
    /// `user_collections` and whose storage objects are `bsos`.
    ///
    /// The collections come first, in one write, and a user without collections has no such
    /// write. Collections that cannot be written down end the copy with their error, and so
    /// does their write where it fails: every step from then on is that error, and no
    /// storage object is written. Once the collections are written, each step is the write
    /// of the next batch of storage objects, until none is left. A user without storage
    /// objects has no such write. A batch that cannot be written down is rejected, and the
    /// copy goes on behind it once it is settled. A batch size of zero gives no batch: the
    /// step is an error as long as there are storage objects to write.
    pub fn move_user(
        &self,
        user: &User,
        user_collections: &Vec<Collection>,
        bsos: &[Bso],
        collections: &Collections,
        copy: &mut UserCopy,
    ) -> (step: CopyStep)
        ensures
            step is Write ==> user_collections@.len() > 0 || bsos@.len() > 0,
            match old(copy)@.stopped {
                Some(e) => step == CopyStep::Abort(e) && final(copy)@ == old(copy)@,
                None => if !old(copy)@.collections_done && user_collections@.len() > 0 {
                    match first_bad_modified(collection_views(user_collections@)) {
                        Some(time) => {
                            &&& step == CopyStep::Abort(ApiError::InvalidTimestamp(time))
                            &&& final(copy)@ == stopped_by(
                                old(copy)@,
                                ApiError::InvalidTimestamp(time),
                            )
                        },
                        None => {
                            &&& step matches CopyStep::Write(statement)
                            &&& statement@ == user_collections_statement(
                                user@,
                                collection_views(user_collections@),
                            )
                            &&& final(copy)@ == old(copy)@
                        },
                    }
                } else {
                    &&& final(copy)@ == (CopyView { collections_done: true, ..old(copy)@ })
                    &&& if old(copy)@.done >= bsos@.len() {
                        step is Finished
                    } else if self.settings.chunk == 0 {
                        step == CopyStep::Abort(ApiError::InvalidChunkSize)
                    } else {
                        let batch = batch_of(
                            bso_views(bsos@),
                            self.settings.chunk as nat,
                            old(copy)@.done,
                        );
                        match step {
                            CopyStep::Write(statement) => first_bad_time(batch) is None
                                && statement@ == bsos_statement(user@, batch, collections@),
                            CopyStep::Rejected(e) => first_bad_time(batch) matches Some(time)
                                && e == ApiError::InvalidTimestamp(time),
                            _ => false,
                        }
                    }
                },
            },
    {
        proof {
            use_type_invariant(&*copy);
        }
        if let Some(e) = &copy.stopped {
            return CopyStep::Abort(e.clone());
        }
        if !copy.collections_done {
            match self.spanner.load_user_collections(user, clone_collections(user_collections)) {
                Ok(None) => {
                    copy.collections_done = true;
                },
                Ok(Some(statement)) => {
                    return CopyStep::Write(statement);
                },
                Err(e) => {
                    copy.stop(e.clone());
                    return CopyStep::Abort(e);
                },
            }
        }
        let done = copy.done;
        if done >= bsos.len() {
            return CopyStep::Finished;
        }
        let size = self.settings.chunk;
        if size == 0 {
            return CopyStep::Abort(ApiError::InvalidChunkSize);
        }
        let left = bsos.len() - done;
        let end: usize = if left as u64 <= size {
            bsos.len()
        } else {
            done + size as usize
        };
        let batch = &bsos[done..end];
        assert(bso_views(batch@) =~= batch_of(bso_views(bsos@), size as nat, done as nat));
        match self.spanner.add_user_bsos(user, batch, collections) {
            Ok(Some(statement)) => CopyStep::Write(statement),
            Ok(None) => CopyStep::Finished,
            Err(e) => CopyStep::Rejected(e),
        }
    }

    /// Settles the copy with what came of the write that was asked for last: `outcome` is
    /// the number of rows written, or why the write failed or could not be written down.
    /// `total` is the number of the user's storage objects.
    pub fn settle(&self, copy: &mut UserCopy, total: usize, outcome: Result<usize, ApiError>)
        ensures
            final(copy)@ == settled(old(copy)@, total as nat, self.settings.chunk as nat, outcome),
    {
        proof {
            use_type_invariant(&*copy);
        }
        if copy.stopped.is_some() {
            return ;
        }
        if !copy.collections_done {
            match outcome {
                Ok(_) => {
                    copy.collections_done = true;
                },
                Err(e) => {
                    copy.stop(e);
                },
            }
            return ;
        }
        let done = copy.done;
        let size = self.settings.chunk;
        if done >= total || size == 0 {
            return ;
        }
        let left = total - done;
        let end: usize = if left as u64 <= size {
            total
        } else {
            done + size as usize
        };
        copy.note(&outcome);
        copy.done = end;
        if outcome.is_ok() {
            copy.count = copy.count + (end - done);
        }
    }

    /// Ends the copy of `user`: notes in `report` that the user was written, or, where a
    /// write failed, that the user failed and why, and gives the number of storage objects
    /// that were written.
    pub fn finish(&self, copy: UserCopy, user: &User, report: &mut Report) -> (count: usize)
        ensures
            count == copy@.count,
            final(report).bso == old(report).bso,
            final(report).noted() == old(report).noted().push(
                EntryView { bso: old(report).bso, uid: user.uid, failure: copy@.failure },
            ),
    {
        match &copy.failure {
            Some(reason) => {
                report.fail(user, reason.as_str());
            },
            None => {
                report.success(user);
            },
        }
        copy.count
    }
}

/// The copy after the writes that were asked for came, one after the other, to `outcomes`.
pub open spec fn settled_all(
    copy: CopyView,
    total: nat,
    size: nat,
    outcomes: Seq<Result<usize, ApiError>>,
) -> CopyView
    decreases outcomes.len(),
{
    if outcomes.len() == 0 {
        copy
    } else {
        settled(settled_all(copy, total, size, outcomes.drop_last()), total, size, outcomes.last())
    }
}

/// The copy of the storage objects goes batch by batch: after `k` writes it has come as far
/// as `k` batches reach, so that it asks for as many writes as there are batches. Where
/// every write succeeded, as in a rehearsal, every storage object so far is counted.
pub proof fn lemma_copy_progress(
    copy: CopyView,
    total: nat,
    size: nat,
    outcomes: Seq<Result<usize, ApiError>>,
)
    requires
        size > 0,
        copy.collections_done,
        copy.stopped is None,
        copy.done == 0,
        copy.count == 0,
    ensures
        settled_all(copy, total, size, outcomes).collections_done,
        settled_all(copy, total, size, outcomes).stopped is None,
        settled_all(copy, total, size, outcomes).done == position_after(
            total,
            size,
            outcomes.len(),
        ),
        settled_all(copy, total, size, outcomes).done < total <==> outcomes.len() < batch_count(
            total,
            size,
        ),
        (forall|i: int| 0 <= i < outcomes.len() ==> (#[trigger] outcomes[i]) is Ok) ==> settled_all(
            copy,
            total,
            size,
            outcomes,
        ).count == settled_all(copy, total, size, outcomes).done,
    decreases outcomes.len(),
{
    lemma_batch_count(total, size, outcomes.len());
    if outcomes.len() == 0 {
        lemma_batches_adjoin(total, size, 0);
    } else {
        let before = outcomes.drop_last();
        lemma_copy_progress(copy, total, size, before);
        lemma_batches_adjoin(total, size, before.len());
        if forall|i: int| 0 <= i < outcomes.len() ==> (#[trigger] outcomes[i]) is Ok {
            assert forall|i: int| 0 <= i < before.len() implies (#[trigger] before[i]) is Ok by {
                assert(before[i] == outcomes[i]);
            }
            assert(outcomes.last() == outcomes[outcomes.len() - 1]);
        }
    }
}

/// A copy that was ended stays as it is, whatever is settled with it: nothing is counted
/// and nothing moves on.
pub proof fn lemma_stopped_copy_stays(
    copy: CopyView,
    total: nat,
    size: nat,
    outcomes: Seq<Result<usize, ApiError>>,
)
    requires
        copy.stopped is Some,
    ensures
        settled_all(copy, total, size, outcomes) == copy,
    decreases outcomes.len(),
{
    if outcomes.len() > 0 {
        lemma_stopped_copy_stays(copy, total, size, outcomes.drop_last());
    }
}

/// Collections whose write fails end the copy: the error of the write is the error of the
/// copy, and whatever is settled afterwards, no storage object is counted or passed.
pub proof fn lemma_failed_collections_end_the_copy(
    copy: CopyView,
    total: nat,
    size: nat,
    e: ApiError,
    outcomes: Seq<Result<usize, ApiError>>,
)
    requires
        copy.stopped is None,
        !copy.collections_done,
    ensures
        settled(copy, total, size, Err(e)).stopped == Some(e),
        settled_all(settled(copy, total, size, Err(e)), total, size, outcomes) == settled(
            copy,
            total,
            size,
            Err(e),
        ),
        settled(copy, total, size, Err(e)).done == copy.done,
        settled(copy, total, size, Err(e)).count == copy.count,
{
    lemma_stopped_copy_stays(settled(copy, total, size, Err(e)), total, size, outcomes);
}

} // verus!
