//! The users and the storage objects that a run moves, the two stores, and the selection of
//! the users of a shard.

use crate::dsn::{database_path, url_parts};
use crate::error::ApiError;
use crate::fxa::{is_anonymous_id, FxaData, FxaDataView, FxaInfo};
use crate::mysql::{all_numbers, numbers, MysqlDb};
use crate::report::{EntryView, Report};
use crate::settings::Settings;
use crate::collections::{
    default_table, discovered, merged, row_views, CollectionRow, Collections,
};
use crate::spanner::{
    ids_readable, new_collections_statement, read_rows, ReportedCollection, Spanner, Statement,
};
use crate::text::{parse_u64, parse_unsigned, texts};
use vstd::prelude::*;

verus! {

/// A basic storage object: one record of a user, as read from the source.
#[derive(Debug, PartialEq, Eq)]
pub struct Bso {
    pub col_name: String,
    pub col_id: u16,
    pub bso_id: String,
    /// When the object expires, in milliseconds since the epoch.
    pub expiry: u64,
    /// When the object was last modified, in milliseconds since the epoch.
    pub modify: u64,
    pub payload: String,
    pub sort_index: Option<u64>,
}

/// What a [`Bso`] holds, as mathematical values.
pub struct BsoView {
    pub col_name: Seq<char>,
    pub col_id: u16,
    pub bso_id: Seq<char>,
    pub expiry: u64,
    pub modify: u64,
    pub payload: Seq<char>,
    pub sort_index: Option<u64>,
}

impl View for Bso {
    type V = BsoView;

    open spec fn view(&self) -> BsoView {
        BsoView {
            col_name: self.col_name@,
            col_id: self.col_id,
            bso_id: self.bso_id@,
            expiry: self.expiry,
            modify: self.modify,
            payload: self.payload@,
            sort_index: self.sort_index,
        }
    }
}

/// What each of a sequence of storage objects holds.
pub open spec fn bso_views(v: Seq<Bso>) -> Seq<BsoView> {
    v.map_values(|bso: Bso| bso@)
}

/// A user to migrate: the legacy id, and the federated identity that takes its place.
#[derive(Debug, PartialEq, Eq)]
pub struct User {
    pub uid: u64,
    pub fxa_data: FxaData,
}

/// What a [`User`] holds, as mathematical values.
pub struct UserView {
    pub uid: u64,
    pub fxa_data: FxaDataView,
}

impl View for User {
    type V = UserView;

    open spec fn view(&self) -> UserView {
        UserView { uid: self.uid, fxa_data: self.fxa_data@ }
    }
}

/// What each of a sequence of users holds.
pub open spec fn user_views(v: Seq<User>) -> Seq<UserView> {
    v.map_values(|user: User| user@)
}

impl Default for User {
    /// The user 0 with the identity of nobody.
    fn default() -> (user: Self)
        ensures
            user@ == (UserView {
                uid: 0,
                fxa_data: FxaDataView { fxa_uid: Seq::empty(), fxa_kid: Seq::empty() },
            }),
    {
        User { uid: 0, fxa_data: FxaData::default() }
    }
}

/// Why a user of a shard that has no identity is noted as failed.
pub open spec fn not_found_reason() -> Seq<char> {
    "not found in identity data"@
}

/// The users that the options list, each with the identity that the table has for them. The
/// first id that is no number, or has no identity, makes the list unusable.
pub open spec fn listed(identities: Map<u64, FxaData>, ids: Seq<Seq<char>>) -> Result<
    Seq<UserView>,
    ApiError,
>
    decreases ids.len(),
{
    if ids.len() == 0 {
        Ok(Seq::empty())
    } else {
        match listed(identities, ids.drop_last()) {
            Err(e) => Err(e),
            Ok(users) => match parse_unsigned(ids.last(), u64::MAX as nat) {
                None => Err(ApiError::InvalidUid),
                Some(uid) => if identities.contains_key(uid as u64) {
                    Ok(users.push(UserView { uid: uid as u64, fxa_data: identities[uid as u64]@ }))
                } else {
                    Err(ApiError::UnknownUser(uid as u64))
                },
            },
        }
    }
}

/// An error among the first listed ids is the error of the whole list.
pub proof fn lemma_listed_prefix(identities: Map<u64, FxaData>, ids: Seq<Seq<char>>, k: int)
    requires
        0 <= k <= ids.len(),
        listed(identities, ids.take(k)) is Err,
    ensures
        listed(identities, ids) == listed(identities, ids.take(k)),
    decreases ids.len(),
{
    if k == ids.len() {
        assert(ids.take(k) =~= ids);
    } else {
        assert(ids.drop_last().take(k) =~= ids.take(k));
        lemma_listed_prefix(identities, ids.drop_last(), k);
    }
}

/// The ids of a shard that are to be migrated: the window of the bucket that the options
/// name, or all of them where the options name none.
pub open spec fn selected_ids(settings: &Settings, all: Seq<u64>) -> Result<Seq<u64>, ApiError> {
    match settings.user_percent {
        Some(percent) => if percent.has_window(all.len()) {
            Ok(all.subrange(percent.start(all.len()) as int, percent.end(all.len()) as int))
        } else {
            Err(ApiError::ChunkOutOfRange)
        },
        None => Ok(all),
    }
}

/// Those of the users `ids` that have an identity, in their order.
pub open spec fn resolved(identities: Map<u64, FxaData>, ids: Seq<u64>) -> Seq<UserView>
    decreases ids.len(),
{
    if ids.len() == 0 {
        Seq::empty()
    } else if identities.contains_key(ids.last()) {
        resolved(identities, ids.drop_last()).push(
            UserView { uid: ids.last(), fxa_data: identities[ids.last()]@ },
        )
    } else {
        resolved(identities, ids.drop_last())
    }
}

/// What is noted of those of the users `ids` of the shard `bso` that have no identity, in
/// their order.
pub open spec fn unresolved(identities: Map<u64, FxaData>, ids: Seq<u64>, bso: u8) -> Seq<EntryView>
    decreases ids.len(),
{
    if ids.len() == 0 {
        Seq::empty()
    } else if identities.contains_key(ids.last()) {
        unresolved(identities, ids.drop_last(), bso)
    } else {
        unresolved(identities, ids.drop_last(), bso).push(
            EntryView { bso, uid: ids.last(), failure: Some(not_found_reason()) },
        )
    }
}

/// Whether each of `users` stands for the id at its place in `ids`, under an identity that
/// was made up for it.
pub open spec fn anonymized(users: Seq<User>, ids: Seq<u64>) -> bool {
    &&& users.len() == ids.len()
    &&& forall|i: int|
        0 <= i < users.len() ==> {
            &&& (#[trigger] users[i]).uid == ids[i]
            &&& is_anonymous_id(users[i].fxa_data.fxa_uid@)
            &&& is_anonymous_id(users[i].fxa_data.fxa_kid@)
        }
}

/// The two stores of a run.
#[derive(Debug, PartialEq, Eq)]
pub struct Dbs {
    pub settings: Settings,
    pub mysql: MysqlDb,
    pub spanner: Spanner,
}

impl Dbs {
    /// The two stores that the options name. Both data-source locations must be set, and
    /// that of the destination must be a URL.
    pub fn connect(settings: &Settings) -> (r: Result<Dbs, ApiError>)
        ensures
            match r {
                Ok(dbs) => {
                    &&& settings.dsns.mysql is Some
                    &&& settings.dsns.spanner matches Some(location)
                    &&& url_parts(location@) matches Some(parts)
                    &&& dbs.spanner.database_name@ == database_path(parts)
                    &&& dbs.settings@ == settings@
                    &&& dbs.mysql.settings@ == settings@
                    &&& dbs.spanner.settings@ == settings@
                },
                Err(e) => if settings.dsns.spanner is None || settings.dsns.mysql is None {
                    e == ApiError::NoDsns
                } else {
                    e == ApiError::InvalidDsn && url_parts(settings.dsns.spanner->Some_0@) is None
                },
            },
    {
        let mysql = match MysqlDb::new(settings) {
            Ok(mysql) => mysql,
            Err(e) => {
                return Err(e);
            },
        };
        let spanner = match Spanner::new(settings) {
            Ok(spanner) => spanner,
            Err(e) => {
                return Err(e);
            },
        };
        Ok(Dbs { settings: settings.clone(), mysql, spanner })
    }

    /// The users that the options list, each with its identity.
    fn listed_users(ids: &Vec<String>, fxa: &FxaInfo) -> (r: Result<Vec<User>, ApiError>)
        ensures
            !fxa.anon ==> match r {
                Ok(users) => listed(fxa.users@, texts(ids@)) == Ok::<Seq<UserView>, ApiError>(
                    user_views(users@),
                ),
                Err(e) => listed(fxa.users@, texts(ids@)) == Err::<Seq<UserView>, ApiError>(e),
            },
            fxa.anon ==> match r {
                Ok(users) => all_numbers(texts(ids@)) && anonymized(users@, numbers(texts(ids@))),
                Err(e) => e == ApiError::InvalidUid && !all_numbers(texts(ids@)),
            },
    {
        let mut users: Vec<User> = Vec::new();
        let mut i: usize = 0;
        let ghost all = texts(ids@);
        assert(all.take(0) =~= Seq::<Seq<char>>::empty());
        assert(user_views(users@) =~= Seq::<UserView>::empty());
        while i < ids.len()
            invariant
                i <= ids.len(),
                all == texts(ids@),
                users@.len() == i,
                !fxa.anon ==> listed(fxa.users@, all.take(i as int)) == Ok::<
                    Seq<UserView>,
                    ApiError,
                >(user_views(users@)),
                forall|j: int|
                    0 <= j < i ==> parse_unsigned(#[trigger] all[j], u64::MAX as nat) == Some(
                        users@[j].uid as nat,
                    ),
                fxa.anon ==> forall|j: int|
                    0 <= j < i ==> is_anonymous_id((#[trigger] users@[j]).fxa_data.fxa_uid@)
                        && is_anonymous_id(users@[j].fxa_data.fxa_kid@),
            decreases ids.len() - i,
        {
            proof {
                let next = all.take(i + 1);
                assert(next.drop_last() =~= all.take(i as int));
                assert(next.last() == ids[i as int]@);
                assert(all[i as int] == ids[i as int]@);
                if listed(fxa.users@, next) is Err {
                    lemma_listed_prefix(fxa.users@, all, i + 1);
                }
            }
            let uid = match parse_u64(ids[i].as_str()) {
                Some(uid) => uid,
                None => {
                    return Err(ApiError::InvalidUid);
                },
            };
            let fxa_data = match fxa.get_fxa_data(uid) {
                Some(data) => data,
                None => {
                    return Err(ApiError::UnknownUser(uid));
                },
            };
            let ghost before = users@;
            let user = User { uid, fxa_data };
            let ghost view = user@;
            users.push(user);
            assert(user_views(users@) =~= user_views(before).push(view));
            i = i + 1;
        }
        assert(all.take(ids.len() as int) =~= all);
        proof {
            if fxa.anon {
                assert(users@.len() == numbers(all).len());
            }
        }
        Ok(users)
    }

    /// The users of a shard to migrate, given the ids `all_users` that the source reports
    /// for the shard.
    ///
    /// Where the options list users, those are the users, whatever the source reports, and
    /// each must be a number and have an identity. Otherwise the users are those of the
    /// reported ids, in the window of the bucket that the options name or else all of them,
    /// that have an identity; each one without is noted in `report` as failed and left out.
    pub fn get_users(
        &self,
        all_users: Vec<u64>,
        fxa: &FxaInfo,
        settings: &Settings,
        report: &mut Report,
    ) -> (r: Result<Vec<User>, ApiError>)
        ensures
            final(report).bso == old(report).bso,
            settings.user is Some ==> final(report).noted() == old(report).noted(),
            settings.user matches Some(named) ==> !fxa.anon ==> match r {
                Ok(users) => listed(fxa.users@, texts(named.user_ids@)) == Ok::<
                    Seq<UserView>,
                    ApiError,
                >(user_views(users@)),
                Err(e) => listed(fxa.users@, texts(named.user_ids@)) == Err::<
                    Seq<UserView>,
                    ApiError,
                >(e),
            },
            settings.user matches Some(named) ==> fxa.anon ==> match r {
                Ok(users) => all_numbers(texts(named.user_ids@)) && anonymized(
                    users@,
                    numbers(texts(named.user_ids@)),
                ),
                Err(e) => e == ApiError::InvalidUid && !all_numbers(texts(named.user_ids@)),
            },
            settings.user is None ==> match selected_ids(settings, all_users@) {
                Err(e) => r == Err::<Vec<User>, ApiError>(e) && final(report).noted() == old(
                    report,
                ).noted(),
                Ok(window) => r matches Ok(users) && if fxa.anon {
                    anonymized(users@, window) && final(report).noted() == old(report).noted()
                } else {
                    &&& user_views(users@) == resolved(fxa.users@, window)
                    &&& final(report).noted() == old(report).noted() + unresolved(
                        fxa.users@,
                        window,
                        old(report).bso,
                    )
                },
            },
    {
        if let Some(named) = &settings.user {
            return Dbs::listed_users(&named.user_ids, fxa);
        }
        let window = match &settings.user_percent {
            Some(percent) => match percent.get_percentage(all_users) {
                Ok(window) => window,
                Err(e) => {
                    return Err(e);
                },
            },
            None => all_users,
        };
        let mut users: Vec<User> = Vec::new();
        let mut i: usize = 0;
        assert(window@.take(0) =~= Seq::<u64>::empty());
        assert(user_views(users@) =~= Seq::<UserView>::empty());
        assert(report.noted() =~= old(report).noted() + Seq::<EntryView>::empty());
        while i < window.len()
            invariant
                i <= window.len(),
                report.bso == old(report).bso,
                fxa.anon ==> users@.len() == i && report.noted() == old(report).noted(),
                fxa.anon ==> forall|j: int|
                    0 <= j < i ==> {
                        &&& (#[trigger] users@[j]).uid == window@[j]
                        &&& is_anonymous_id(users@[j].fxa_data.fxa_uid@)
                        &&& is_anonymous_id(users@[j].fxa_data.fxa_kid@)
                    },
                !fxa.anon ==> user_views(users@) == resolved(fxa.users@, window@.take(i as int)),
                !fxa.anon ==> report.noted() == old(report).noted() + unresolved(
                    fxa.users@,
                    window@.take(i as int),
                    old(report).bso,
                ),
            decreases window.len() - i,
        {
            let uid = window[i];
            proof {
                let next = window@.take(i + 1);
                assert(next.drop_last() =~= window@.take(i as int));
                assert(next.last() == uid);
            }
            let ghost before = users@;
            let ghost noted = report.noted();
            match fxa.get_fxa_data(uid) {
                Some(fxa_data) => {
                    let user = User { uid, fxa_data };
                    let ghost view = user@;
                    users.push(user);
                    assert(user_views(users@) =~= user_views(before).push(view));
                },
                None => {
                    let fake = User { uid, fxa_data: FxaData::default() };
                    report.fail(&fake, "not found in identity data");
                    proof {
                        let so_far = unresolved(
                            fxa.users@,
                            window@.take(i as int),
                            old(report).bso,
                        );
                        assert(report.noted() =~= old(report).noted() + so_far.push(
                            EntryView {
                                bso: old(report).bso,
                                uid,
                                failure: Some(not_found_reason()),
                            },
                        ));
                    }
                },
            }
            i = i + 1;
        }
        assert(window@.take(window.len() as int) =~= window@);
        Ok(users)
    }
}

impl Collections {
    /// Reconciles the collections of the two stores before any user moves.
    ///
    /// The table starts from the well-known collections, takes in those that the
    /// destination reports (`reported`), and then those that the source reports
    /// (`observed`); a name that the table knows keeps its number. What the source brought
    /// and the table did not know is new to the destination: the statement inserts all of
    /// it in one write, and there is no statement where nothing is new.
    pub fn new(
        _settings: &Settings,
        dbs: &Dbs,
        reported: &Vec<ReportedCollection>,
        observed: &Vec<CollectionRow>,
    ) -> (r: Result<(Collections, Option<Statement>), ApiError>)
        ensures
            match r {
                Ok((table, statement)) => {
                    let known = merged(default_table(), read_rows(reported@));
                    let fresh = discovered(known, row_views(observed@)).values();
                    &&& ids_readable(reported@)
                    &&& table@ == merged(known, row_views(observed@))
                    &&& match statement {
                        Some(insert) => fresh.len() > 0 && insert@ == new_collections_statement(
                            fresh,
                        ),
                        None => fresh.len() == 0,
                    }
                },
                Err(e) => e == ApiError::InvalidCollectionId && !ids_readable(reported@),
            },
    {
        let mut table = match dbs.spanner.get_collections(reported) {
            Ok(table) => table,
            Err(e) => {
                return Err(e);
            },
        };
        let fresh = dbs.mysql.merge_collections(&mut table, observed);
        let statement = dbs.spanner.add_new_collections(fresh);
        Ok((table, statement))
    }
}

} // verus!
