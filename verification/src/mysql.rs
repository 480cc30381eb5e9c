//! The source: the queries that read it, and what is made of the rows that it gives.

use crate::collections::{discovered, merged, row_views, CollectionRow, Collections};
use crate::db::{Bso, BsoView, User};
use crate::error::ApiError;
use crate::settings::Settings;
use crate::text::{decimal, parse_u64, parse_unsigned, texts, u64_to_string};
use vstd::prelude::*;
use vstd::string::StringExecFns;

verus! {

/// A query for the source: its text, and the numbers that stand for its placeholders, each
/// under its name. A placeholder that is written `?` has the empty name.
#[derive(Debug, PartialEq, Eq)]
pub struct Query {
    pub sql: String,
    pub params: Vec<(String, u64)>,
}

/// The named numbers of a query, as mathematical values.
pub open spec fn query_params(params: Seq<(String, u64)>) -> Seq<(Seq<char>, u64)> {
    params.map_values(|p: (String, u64)| (p.0@, p.1))
}

/// The users of a shard: either they are listed, or the source has to be asked for them.
#[derive(Debug, PartialEq, Eq)]
pub enum UserIds {
    Listed(Vec<u64>),
    Query(String),
}

/// Whether every text of `ids` is an unsigned decimal number.
pub open spec fn all_numbers(ids: Seq<Seq<char>>) -> bool {
    forall|i: int| 0 <= i < ids.len() ==> parse_unsigned(#[trigger] ids[i], u64::MAX as nat) is Some
}

/// The numbers that the texts of `ids` write.
pub open spec fn numbers(ids: Seq<Seq<char>>) -> Seq<u64> {
    ids.map_values(|id: Seq<char>| parse_unsigned(id, u64::MAX as nat)->Some_0 as u64)
}

/// Reads the legacy ids that the options list. One that is no number makes the list
/// unreadable.
pub fn parse_ids(ids: &Vec<String>) -> (r: Result<Vec<u64>, ApiError>)
    ensures
        match r {
            Ok(list) => all_numbers(texts(ids@)) && list@ == numbers(texts(ids@)),
            Err(e) => e == ApiError::InvalidUid && !all_numbers(texts(ids@)),
        },
{
    let mut list: Vec<u64> = Vec::new();
    let mut i: usize = 0;
    while i < ids.len()
        invariant
            i <= ids.len(),
            list@.len() == i,
            forall|j: int|
                0 <= j < i ==> parse_unsigned(#[trigger] texts(ids@)[j], u64::MAX as nat) == Some(
                    list@[j] as nat,
                ),
        decreases ids.len() - i,
    {
        match parse_u64(ids[i].as_str()) {
            Some(uid) => {
                list.push(uid);
            },
            None => {
                assert(texts(ids@)[i as int] == ids[i as int]@);
                return Err(ApiError::InvalidUid);
            },
        }
        assert(texts(ids@)[i as int] == ids[i as int]@);
        i = i + 1;
    }
    assert(list@ =~= numbers(texts(ids@)));
    Ok(list)
}

/// The text of the query for the collections that users of the source have.
pub open spec fn collections_query_text() -> Seq<char> {
    "SELECT DISTINCT uc.collection, cc.name FROM user_collections as uc, collections as cc WHERE uc.collection = cc.collectionid ORDER BY uc.collection"@
}

/// The text of the query for the users of the shard `bso_num`.
pub open spec fn user_ids_query_text(bso_num: u8) -> Seq<char> {
    "SELECT DISTINCT userid FROM bso"@ + decimal(bso_num as nat)
}

/// The text of the query for the collections of one user.
pub open spec fn user_collections_query_text() -> Seq<char> {
    "SELECT collections.name, user_collections.collection, user_collections.last_modified FROM collections, user_collections WHERE user_collections.userid = :user_id and collections.collectionid = user_collections.collection;"@
}

/// The text of the query for the storage objects of one user in the shard `bso_num` that
/// have not expired, ordered by collection and then by id.
pub open spec fn user_bsos_query_text(bso_num: u8) -> Seq<char> {
    "SELECT collections.name, bso.collection, bso.id, bso.modified, bso.ttl, bso.payload, bso.sortindex FROM bso"@
        + decimal(bso_num as nat)
        + " as bso, collections WHERE bso.userid = ? and collections.collectionid = bso.collection and bso.ttl > unix_timestamp() ORDER BY bso.collection, bso.id"@
}

/// The source, as far as the queries for it depend on it.
#[derive(Debug, PartialEq, Eq)]
pub struct MysqlDb {
    pub settings: Settings,
}

impl MysqlDb {
    /// The source that the options name, which must have a data-source location.
    pub fn new(settings: &Settings) -> (r: Result<MysqlDb, ApiError>)
        ensures
            match r {
                Ok(db) => settings.dsns.mysql is Some && db.settings@ == settings@,
                Err(e) => e == ApiError::NoDsns && settings.dsns.mysql is None,
            },
    {
        if settings.dsns.mysql.is_none() {
            return Err(ApiError::NoDsns);
        }
        Ok(MysqlDb { settings: settings.clone() })
    }

    /// The query for the collections that users of the source have.
    pub fn collections_query(&self) -> (sql: String)
        ensures
            sql@ == collections_query_text(),
    {
        "SELECT DISTINCT uc.collection, cc.name FROM user_collections as uc, collections as cc WHERE uc.collection = cc.collectionid ORDER BY uc.collection".to_owned()
    }

    /// Takes the collections that the source reports into `base`, and gives back those that
    /// `base` did not know: the collections that are new to the destination.
    pub fn merge_collections(&self, base: &mut Collections, rows: &Vec<CollectionRow>) -> (fresh:
        Collections)
        ensures
            final(base)@ == merged(old(base)@, row_views(rows@)),
            fresh@ == discovered(old(base)@, row_views(rows@)),
    {
        let mut fresh = Collections::empty();
        let mut i: usize = 0;
        let ghost all = row_views(rows@);
        assert(all.take(0) =~= Seq::empty());
        while i < rows.len()
            invariant
                i <= rows.len(),
                all == row_views(rows@),
                base@ == merged(old(base)@, all.take(i as int)),
                fresh@ == discovered(old(base)@, all.take(i as int)),
            decreases rows.len() - i,
        {
            proof {
                let next = all.take(i + 1);
                assert(next.drop_last() =~= all.take(i as int));
                assert(next.last() == rows[i as int]@);
            }
            let row = &rows[i];
            if base.add_missing(row) {
                fresh.set(
                    row.name.as_str(),
                    crate::collections::Collection {
                        name: row.name.clone(),
                        collection: row.id,
                        last_modified: 0,
                    },
                );
            }
            i = i + 1;
        }
        assert(all.take(rows.len() as int) =~= all);
        fresh
    }

    /// The users of the shard `bso_num`: those that the options list, where they list any,
    /// and else the query that asks the source for them.
    pub fn get_user_ids(&self, bso_num: u8) -> (r: Result<UserIds, ApiError>)
        ensures
            match self.settings.user {
                Some(users) => match r {
                    Ok(UserIds::Listed(list)) => all_numbers(texts(users.user_ids@)) && list@
                        == numbers(texts(users.user_ids@)),
                    Ok(UserIds::Query(_)) => false,
                    Err(e) => e == ApiError::InvalidUid && !all_numbers(texts(users.user_ids@)),
                },
                None => r matches Ok(UserIds::Query(sql)) && sql@ == user_ids_query_text(bso_num),
            },
    {
        match &self.settings.user {
            Some(users) => match parse_ids(&users.user_ids) {
                Ok(list) => Ok(UserIds::Listed(list)),
                Err(e) => Err(e),
            },
            None => {
                let mut sql = "SELECT DISTINCT userid FROM bso".to_owned();
                sql.append(u64_to_string(bso_num as u64).as_str());
                Ok(UserIds::Query(sql))
            },
        }
    }

    /// The query for the collections of `user`.
    pub fn get_user_collections(&self, user: &User, bso_num: u8) -> (query: Query)
        ensures
            query.sql@ == user_collections_query_text(),
            query_params(query.params@) == seq![
                ("bso_num"@, bso_num as u64),
                ("user_id"@, user.uid),
            ],
    {
        let mut params: Vec<(String, u64)> = Vec::new();
        params.push(("bso_num".to_owned(), bso_num as u64));
        params.push(("user_id".to_owned(), user.uid));
        assert(query_params(params@) =~= seq![
            ("bso_num"@, bso_num as u64),
            ("user_id"@, user.uid),
        ]);
        Query {
            sql: "SELECT collections.name, user_collections.collection, user_collections.last_modified FROM collections, user_collections WHERE user_collections.userid = :user_id and collections.collectionid = user_collections.collection;".to_owned(),
            params,
        }
    }

    /// The query for the storage objects of `user` in the shard `bso_num`.
    pub fn get_user_bsos(&self, user: &User, bso_num: u8) -> (query: Query)
        ensures
            query.sql@ == user_bsos_query_text(bso_num),
            query_params(query.params@) == seq![(Seq::<char>::empty(), user.uid)],
    {
        let mut sql = "SELECT collections.name, bso.collection, bso.id, bso.modified, bso.ttl, bso.payload, bso.sortindex FROM bso".to_owned();
        sql.append(u64_to_string(bso_num as u64).as_str());
        sql.append(
            " as bso, collections WHERE bso.userid = ? and collections.collectionid = bso.collection and bso.ttl > unix_timestamp() ORDER BY bso.collection, bso.id",
        );
        let mut params: Vec<(String, u64)> = Vec::new();
        params.push((String::new(), user.uid));
        assert(query_params(params@) =~= seq![(Seq::<char>::empty(), user.uid)]);
        Query { sql, params }
    }

    /// The storage object that a row of the source describes. The source keeps the expiry in
    /// seconds; an expiry whose milliseconds do not fit 64 bits cannot be held.
    pub fn bso_from_row(
        col_name: String,
        col_id: u16,
        bso_id: String,
        modify: u64,
        ttl: u64,
        payload: String,
        sort_index: Option<u64>,
    ) -> (r: Result<Bso, ApiError>)
        ensures
            match r {
                Ok(bso) => ttl * 1000 <= u64::MAX && bso@ == (BsoView {
                    col_name: col_name@,
                    col_id,
                    bso_id: bso_id@,
                    expiry: (ttl * 1000) as u64,
                    modify,
                    payload: payload@,
                    sort_index,
                }),
                Err(e) => e == ApiError::InvalidTimestamp(ttl) && ttl * 1000 > u64::MAX,
            },
    {
        match ttl.checked_mul(1000) {
            Some(expiry) => Ok(Bso { col_name, col_id, bso_id, expiry, modify, payload, sort_index }),
            None => Err(ApiError::InvalidTimestamp(ttl)),
        }
    }
}

} // verus!
