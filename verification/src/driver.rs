//! The course of a run: the collections are reconciled once, then shard after shard the
//! users are selected and copied one by one.

use crate::settings::Settings;
use vstd::prelude::*;

verus! {

/// What a run is doing.
#[derive(Clone, Copy, Debug, PartialEq, Eq, Structural)]
pub enum Phase {
    /// Reconciling the collections of the two stores.
    Reconciling,
    /// Selecting the users of the shard at hand.
    SelectingUsers,
    /// Copying the user at hand.
    CopyingUser,
    /// Nothing any more.
    Done,
}

/// Where a run stands, and what it has moved.
#[derive(Clone, Copy, Debug, PartialEq, Eq, Structural)]
pub struct Migration {
    pub phase: Phase,
    /// The shard at hand.
    pub shard: u8,
    /// The shard before which the run ends.
    pub end: u8,
    /// How many users were selected in the shard at hand.
    pub users: usize,
    /// Which of them is at hand.
    pub user: usize,
    /// How many users were selected in all. The count stops at the largest number that it
    /// can hold.
    pub user_count: usize,
    /// How many storage objects were written in all. The count stops at the largest number
    /// that it can hold.
    pub bso_count: usize,
}

/// The shards of a run, from the first up to but without the second: those that the options
/// name. A run whose options list users has the shard of those users on both sides.
pub open spec fn shard_range(settings: &Settings) -> (u8, u8) {
    match settings.user {
        Some(users) => (users.bso, users.bso),
        None => (settings.start_bso, settings.end_bso),
    }
}

/// The sum of two counts, which stops at the largest number that a count can hold.
pub open spec fn count_sum(a: usize, b: usize) -> usize {
    if a + b > usize::MAX {
        usize::MAX
    } else {
        (a + b) as usize
    }
}

impl Migration {
    /// The run at the shard behind the one at hand: selecting its users, or done where the
    /// shards have run out.
    pub open spec fn at_next_shard(self) -> Migration {
        Migration {
            phase: if self.shard + 1 < self.end {
                Phase::SelectingUsers
            } else {
                Phase::Done
            },
            shard: if self.shard < self.end {
                (self.shard + 1) as u8
            } else {
                self.shard
            },
            end: self.end,
            users: 0,
            user: 0,
            user_count: self.user_count,
            bso_count: self.bso_count,
        }
    }

    /// The run before anything is done.
    pub open spec fn begun(settings: &Settings) -> Migration {
        Migration {
            phase: Phase::Reconciling,
            shard: shard_range(settings).0,
            end: shard_range(settings).1,
            users: 0,
            user: 0,
            user_count: 0,
            bso_count: 0,
        }
    }

    /// The run after the collections were reconciled: it selects the users of the first
    /// shard, or is done where there is no shard. In any other phase nothing changes.
    pub open spec fn after_reconciling(self) -> Migration {
        if self.phase != Phase::Reconciling {
            self
        } else {
            Migration {
                phase: if self.shard < self.end {
                    Phase::SelectingUsers
                } else {
                    Phase::Done
                },
                ..self
            }
        }
    }

    /// The run after `n` users were selected in the shard at hand: it copies the first of
    /// them, or goes on to the next shard where there is none. In any other phase nothing
    /// changes.
    pub open spec fn after_selecting(self, n: usize) -> Migration {
        if self.phase != Phase::SelectingUsers {
            self
        } else if n == 0 {
            self.at_next_shard()
        } else {
            Migration {
                phase: Phase::CopyingUser,
                users: n,
                user: 0,
                user_count: count_sum(self.user_count, n),
                ..self
            }
        }
    }

    /// The run after the user at hand was copied with `rows` storage objects written: it
    /// copies the next user of the shard, or goes on to the next shard after the last. In
    /// any other phase nothing changes.
    pub open spec fn after_copying(self, rows: usize) -> Migration {
        if self.phase != Phase::CopyingUser {
            self
        } else if self.user + 1 < self.users {
            Migration {
                user: (self.user + 1) as usize,
                bso_count: count_sum(self.bso_count, rows),
                ..self
            }
        } else {
            Migration { bso_count: count_sum(self.bso_count, rows), ..self.at_next_shard() }
        }
    }

    /// Starts a run.
    pub fn start(settings: &Settings) -> (run: Migration)
        ensures
            run == Migration::begun(settings),
    {
        let (shard, end) = match &settings.user {
            Some(users) => (users.bso, users.bso),
            None => (settings.start_bso, settings.end_bso),
        };
        Migration {
            phase: Phase::Reconciling,
            shard,
            end,
            users: 0,
            user: 0,
            user_count: 0,
            bso_count: 0,
        }
    }

    /// Goes on to the next shard.
    fn next_shard(&mut self)
        ensures
            *final(self) == old(self).at_next_shard(),
    {
        if self.shard < self.end {
            self.shard = self.shard + 1;
        }
        self.users = 0;
        self.user = 0;
        self.phase = if self.shard < self.end {
            Phase::SelectingUsers
        } else {
            Phase::Done
        };
    }

    /// Notes that the collections were reconciled.
    pub fn reconciled(&mut self)
        ensures
            *final(self) == old(self).after_reconciling(),
    {
        if self.phase == Phase::Reconciling {
            self.phase = if self.shard < self.end {
                Phase::SelectingUsers
            } else {
                Phase::Done
            };
        }
    }

    /// Notes that `n` users were selected in the shard at hand.
    pub fn users_selected(&mut self, n: usize)
        ensures
            *final(self) == old(self).after_selecting(n),
    {
        if self.phase == Phase::SelectingUsers {
            if n == 0 {
                self.next_shard();
            } else {
                self.phase = Phase::CopyingUser;
                self.users = n;
                self.user = 0;
                self.user_count = self.user_count.saturating_add(n);
            }
        }
    }

    /// Notes that the user at hand was copied, with `rows` storage objects written.
    pub fn user_copied(&mut self, rows: usize)
        ensures
            *final(self) == old(self).after_copying(rows),
    {
        if self.phase == Phase::CopyingUser {
            self.bso_count = self.bso_count.saturating_add(rows);
            if self.user < usize::MAX && self.user + 1 < self.users {
                self.user = self.user + 1;
            } else {
                self.next_shard();
            }
        }
    }
}

impl Migration {
    /// Whether the shard at hand is one of the shards of the run, as it is while users are
    /// selected or copied.
    pub open spec fn in_range(self) -> bool {
        self.phase == Phase::SelectingUsers || self.phase == Phase::CopyingUser ==> self.shard
            < self.end
    }

    /// Whether the run `later` has come at least as far as this one: it is at the same
    /// shard or a later one, before the same end, and has counted no less.
    pub open spec fn not_behind(self, later: Migration) -> bool {
        &&& self.end == later.end
        &&& self.shard <= later.shard
        &&& self.user_count <= later.user_count
        &&& self.bso_count <= later.bso_count
    }
}

/// While a run selects or copies users, the shard at hand is one of its shards, and no
/// step takes the run back: the shard at hand never falls, and neither do the counts.
pub proof fn lemma_run_advances(settings: &Settings, run: Migration, n: usize, rows: usize)
    requires
        run.in_range(),
    ensures
        Migration::begun(settings).after_reconciling().in_range(),
        run.after_reconciling().in_range(),
        run.after_selecting(n).in_range(),
        run.after_copying(rows).in_range(),
        run.not_behind(run.after_reconciling()),
        run.not_behind(run.after_selecting(n)),
        run.not_behind(run.after_copying(rows)),
{
}

/// A run that is done stays done, and a run over no shard is done as soon as the
/// collections are reconciled.
pub proof fn lemma_run_ends(settings: &Settings, run: Migration, n: usize, rows: usize)
    ensures
        run.phase == Phase::Done ==> run.after_reconciling() == run && run.after_selecting(n) == run
            && run.after_copying(rows) == run,
        shard_range(settings).0 >= shard_range(settings).1 ==> Migration::begun(
            settings,
        ).after_reconciling().phase == Phase::Done,
        run.phase == Phase::SelectingUsers && n == 0 && run.shard + 1 >= run.end
            ==> run.after_selecting(n).phase == Phase::Done,
        run.phase == Phase::CopyingUser && run.user + 1 >= run.users && run.shard + 1 >= run.end
            ==> run.after_copying(rows).phase == Phase::Done,
{
}

} // verus!
