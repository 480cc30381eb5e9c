//! The record of what became of each user of a run.

use crate::db::User;
use vstd::prelude::*;

verus! {

/// What is noted of one user: the shard, the legacy id, and why the user failed, or `None`
/// where the user succeeded.
#[derive(Debug, PartialEq, Eq)]
pub struct Entry {
    pub bso: u8,
    pub uid: u64,
    pub failure: Option<String>,
}

/// What an [`Entry`] holds, as mathematical values.
pub struct EntryView {
    pub bso: u8,
    pub uid: u64,
    pub failure: Option<Seq<char>>,
}

impl View for Entry {
    type V = EntryView;

    open spec fn view(&self) -> EntryView {
        EntryView {
            bso: self.bso,
            uid: self.uid,
            failure: match self.failure {
                Some(reason) => Some(reason@),
                None => None,
            },
        }
    }
}

/// The entries of a report, as mathematical values.
pub open spec fn entry_views(entries: Seq<Entry>) -> Seq<EntryView> {
    entries.map_values(|entry: Entry| entry@)
}

/// The record of a run: one entry for each success and each failure, in the order in which
/// they were noted, and the shard that the run is at.
#[derive(Debug, PartialEq, Eq)]
pub struct Report {
    pub bso: u8,
    pub entries: Vec<Entry>,
}

impl Report {
    /// The entries noted so far.
    pub open spec fn noted(&self) -> Seq<EntryView> {
        entry_views(self.entries@)
    }

    /// A report without entries, at shard 0.
    pub fn new() -> (report: Report)
        ensures
            report.bso == 0,
            report.noted() == Seq::<EntryView>::empty(),
    {
        let report = Report { bso: 0, entries: Vec::new() };
        assert(report.noted() =~= Seq::<EntryView>::empty());
        report
    }

    /// Moves on to the shard `bso`: what is noted from now on is noted of that shard.
    pub fn set_bso(&mut self, bso: u8)
        ensures
            final(self).bso == bso,
            final(self).noted() == old(self).noted(),
    {
        self.bso = bso;
    }

    /// Notes that `user` was written.
    pub fn success(&mut self, user: &User)
        ensures
            final(self).bso == old(self).bso,
            final(self).noted() == old(self).noted().push(
                EntryView { bso: old(self).bso, uid: user.uid, failure: None },
            ),
    {
        self.entries.push(Entry { bso: self.bso, uid: user.uid, failure: None });
        assert(self.noted() =~= old(self).noted().push(
            EntryView { bso: old(self).bso, uid: user.uid, failure: None },
        ));
    }

    /// Notes that `user` failed, and why.
    pub fn fail(&mut self, user: &User, reason: &str)
        ensures
            final(self).bso == old(self).bso,
            final(self).noted() == old(self).noted().push(
                EntryView { bso: old(self).bso, uid: user.uid, failure: Some(reason@) },
            ),
    {
        self.entries.push(Entry { bso: self.bso, uid: user.uid, failure: Some(reason.to_owned()) });
        assert(self.noted() =~= old(self).noted().push(
            EntryView { bso: old(self).bso, uid: user.uid, failure: Some(reason@) },
        ));
    }
}

} // verus!
