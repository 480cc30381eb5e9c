//! The destination: the statements that write a user's collections and storage objects to
//! it, and the times in them.

use crate::collections::{
    default_table, merged, Collection, CollectionRow, CollectionView, Collections, RowView, Table,
};
use crate::db::{Bso, BsoView, User, UserView};
use crate::dsn::{database_path, get_path, url_parts};
use crate::error::ApiError;
use crate::settings::Settings;
use crate::text::{
    decimal, join, joined, lemma_decimal_injective, parse_u16, parse_unsigned, texts,
    u64_to_string,
};
use chrono::TimeZone;
use vstd::prelude::*;
use vstd::string::StringExecFns;

verus! {

/// The last second, counted from the epoch, that the destination's calendar can write: the
/// end of the year 262142.
pub const MAX_TIMESTAMP_SECS: u64 = 8_210_266_876_799;

/// The time `secs` seconds and `nanos` nanoseconds after the epoch, written for the
/// destination: date and time of day in UTC with nine digits behind the seconds and a `Z`
/// at the end.
pub uninterp spec fn rfc3339_nanos(secs: int, nanos: int) -> Seq<char>;

/// `chrono::Utc.timestamp_opt`, and `DateTime::to_rfc3339_opts` with
/// `SecondsFormat::Nanos` and `Z` for the offset on what it gives. From the epoch on, and
/// with less than a second of nanoseconds, chrono has a time exactly up to the end of the
/// year 262142. The text is named, not spelled out.
#[verifier::external_body]
fn utc_rfc3339(secs: i64, nanos: u32) -> (r: Option<String>)
    requires
        0 <= secs,
        nanos < 1_000_000_000,
    ensures
        r is Some <==> secs <= MAX_TIMESTAMP_SECS,
        r matches Some(text) ==> text@ == rfc3339_nanos(secs as int, nanos as int),
{
    match chrono::Utc.timestamp_opt(secs, nanos) {
        chrono::LocalResult::Single(time) => Some(
            time.to_rfc3339_opts(chrono::SecondsFormat::Nanos, true),
        ),
        chrono::LocalResult::Ambiguous(_, _) => None,
        chrono::LocalResult::None => None,
    }
}

/// Whether the destination can hold the time `ms` milliseconds after the epoch.
pub open spec fn timestamp_ok(ms: u64) -> bool {
    ms / 1000 <= MAX_TIMESTAMP_SECS
}

/// The time `ms` milliseconds after the epoch, written for the destination.
pub open spec fn timestamp_text(ms: u64) -> Seq<char> {
    rfc3339_nanos(ms as int / 1000, (ms as int % 1000) * 1_000_000)
}

/// The kinds of value that the destination is told of; every other value is a text.
#[derive(Clone, Copy, Debug, PartialEq, Eq, Structural)]
pub enum TypeCode {
    Int64,
    Timestamp,
}

/// A named value of a statement, and its kind where it is no text.
#[derive(Debug, PartialEq, Eq)]
pub struct Param {
    pub name: String,
    pub value: String,
    pub type_code: Option<TypeCode>,
}

/// What a [`Param`] holds, as mathematical values.
pub struct ParamView {
    pub name: Seq<char>,
    pub value: Seq<char>,
    pub type_code: Option<TypeCode>,
}

impl View for Param {
    type V = ParamView;

    open spec fn view(&self) -> ParamView {
        ParamView { name: self.name@, value: self.value@, type_code: self.type_code }
    }
}

/// What each of a sequence of named values holds.
pub open spec fn param_views(params: Seq<Param>) -> Seq<ParamView> {
    params.map_values(|param: Param| param@)
}

/// One statement for the destination: its text, its named values, and the number of rows
/// that it inserts.
#[derive(Debug, PartialEq, Eq)]
pub struct Statement {
    pub sql: String,
    pub params: Vec<Param>,
    pub rows: usize,
}

/// What a [`Statement`] holds, as mathematical values.
pub struct StatementView {
    pub sql: Seq<char>,
    pub params: Seq<ParamView>,
    pub rows: nat,
}

impl View for Statement {
    type V = StatementView;

    open spec fn view(&self) -> StatementView {
        StatementView { sql: self.sql@, params: param_views(self.params@), rows: self.rows as nat }
    }
}

/// The destination, as far as the statements for it depend on it.
#[derive(Debug, PartialEq, Eq)]
pub struct Spanner {
    pub settings: Settings,
    pub database_name: String,
}

impl Spanner {
    /// The destination that the options name. Both data-source locations must be set, and
    /// that of the destination must be a URL.
    pub fn new(settings: &Settings) -> (r: Result<Spanner, ApiError>)
        ensures
            match r {
                Ok(spanner) => {
                    &&& settings.dsns.mysql is Some
                    &&& settings.dsns.spanner matches Some(location)
                    &&& url_parts(location@) matches Some(parts)
                    &&& spanner.database_name@ == database_path(parts)
                    &&& spanner.settings@ == settings@
                },
                Err(e) => if settings.dsns.spanner is None || settings.dsns.mysql is None {
                    e == ApiError::NoDsns
                } else {
                    e == ApiError::InvalidDsn && url_parts(settings.dsns.spanner->Some_0@) is None
                },
            },
    {
        if settings.dsns.mysql.is_none() {
            return Err(ApiError::NoDsns);
        }
        match &settings.dsns.spanner {
            None => Err(ApiError::NoDsns),
            Some(location) => match get_path(location.as_str()) {
                Ok(database_name) => Ok(Spanner { settings: settings.clone(), database_name }),
                Err(e) => Err(e),
            },
        }
    }

    /// Writes the time `val` milliseconds after the epoch for the destination.
    pub fn as_rfc3339(&self, val: u64) -> (r: Result<String, ApiError>)
        ensures
            match r {
                Ok(text) => timestamp_ok(val) && text@ == timestamp_text(val),
                Err(e) => e == ApiError::InvalidTimestamp(val) && !timestamp_ok(val),
            },
    {
        let secs: i64 = (val / 1000) as i64;
        let nanos: u32 = ((val % 1000) * 1_000_000) as u32;
        match utc_rfc3339(secs, nanos) {
            Some(text) => Ok(text),
            None => Err(ApiError::InvalidTimestamp(val)),
        }
    }
}

/// The name of the value of row `i` whose names begin with `prefix`.
pub open spec fn numbered(prefix: Seq<char>, i: nat) -> Seq<char> {
    prefix + decimal(i)
}

/// The names, each with the `@` in front that marks a named value in a statement.
pub open spec fn at_names(names: Seq<Seq<char>>) -> Seq<Seq<char>> {
    names.map_values(|name: Seq<char>| "@"@ + name)
}

/// One row of an insert: the named values in brackets, with a comma and a blank between
/// each two.
pub open spec fn tuple_text(names: Seq<Seq<char>>) -> Seq<char> {
    "("@ + joined(at_names(names), ", "@) + ")"@
}

/// The text of an insert of several rows: the header, the word `VALUES`, and the rows with
/// a comma between each two.
pub open spec fn insert_text(header: Seq<char>, tuples: Seq<Seq<char>>) -> Seq<char> {
    header + " VALUES "@ + joined(tuples, ","@)
}

/// Writes the name of the value of row `i` whose names begin with `prefix`.
pub fn numbered_name(prefix: &str, i: usize) -> (name: String)
    ensures
        name@ == numbered(prefix@, i as nat),
{
    let mut name = prefix.to_owned();
    name.append(u64_to_string(i as u64).as_str());
    name
}

/// Writes one row of an insert.
pub fn tuple(names: &Vec<String>) -> (text: String)
    ensures
        text@ == tuple_text(texts(names@)),
{
    let mut marked: Vec<String> = Vec::new();
    let mut k: usize = 0;
    while k < names.len()
        invariant
            k <= names.len(),
            texts(marked@) == at_names(texts(names@).take(k as int)),
        decreases names.len() - k,
    {
        let mut name = "@".to_owned();
        name.append(names[k].as_str());
        let ghost before = marked@;
        let ghost marked_name = name@;
        marked.push(name);
        proof {
            let next = texts(names@).take(k + 1);
            assert(next =~= texts(names@).take(k as int).push(names[k as int]@));
            assert(texts(marked@) =~= texts(before).push(marked_name));
            assert(at_names(next) =~= at_names(texts(names@).take(k as int)).push(marked_name));
        }
        k = k + 1;
    }
    assert(texts(names@).take(names.len() as int) =~= texts(names@));
    let mut text = "(".to_owned();
    text.append(join(&marked, ", ").as_str());
    text.append(")");
    text
}

/// Writes the text of an insert of several rows.
pub fn insert(header: &str, tuples: &Vec<String>) -> (sql: String)
    ensures
        sql@ == insert_text(header@, texts(tuples@)),
{
    let mut sql = header.to_owned();
    sql.append(" VALUES ");
    sql.append(join(tuples, ",").as_str());
    sql
}

/// A named value that is a text.
pub open spec fn text_param(name: Seq<char>, value: Seq<char>) -> ParamView {
    ParamView { name, value, type_code: None }
}

/// A named value that is a whole number.
pub open spec fn int_param(name: Seq<char>, value: nat) -> ParamView {
    ParamView { name, value: decimal(value), type_code: Some(TypeCode::Int64) }
}

/// A named value that is a time, already written for the destination.
pub open spec fn time_param(name: Seq<char>, value: Seq<char>) -> ParamView {
    ParamView { name, value, type_code: Some(TypeCode::Timestamp) }
}

/// Makes a named value that is a text.
pub fn make_text_param(name: String, value: &str) -> (param: Param)
    ensures
        param@ == text_param(name@, value@),
{
    Param { name, value: value.to_owned(), type_code: None }
}

/// Makes a named value that is a whole number.
pub fn make_int_param(name: String, value: u64) -> (param: Param)
    ensures
        param@ == int_param(name@, value as nat),
{
    Param { name, value: u64_to_string(value), type_code: Some(TypeCode::Int64) }
}

/// Makes a named value that is a time, from the text that was written for the destination.
pub fn make_time_param(name: String, value: String) -> (param: Param)
    ensures
        param@ == time_param(name@, value@),
{
    Param { name, value, type_code: Some(TypeCode::Timestamp) }
}

/// The header of the insert of collections.
pub open spec fn collections_header() -> Seq<char> {
    "INSERT INTO collections (collection_id, name)"@
}

/// The names of the values of row `i` of an insert of collections.
pub open spec fn collection_row_names(i: nat) -> Seq<Seq<char>> {
    seq![numbered("collection_id_"@, i), numbered("name_"@, i)]
}

/// The values of row `i` of an insert of collections: the number and the name of `item`.
pub open spec fn collection_row(i: nat, item: CollectionView) -> Seq<ParamView> {
    seq![
        int_param(numbered("collection_id_"@, i), item.collection as nat),
        text_param(numbered("name_"@, i), item.name),
    ]
}

/// The values of an insert of collections, row after row.
pub open spec fn collection_params(items: Seq<CollectionView>) -> Seq<ParamView>
    decreases items.len(),
{
    if items.len() == 0 {
        Seq::empty()
    } else {
        collection_params(items.drop_last()) + collection_row(
            (items.len() - 1) as nat,
            items.last(),
        )
    }
}

/// The statement that inserts `items` into the destination's table of collections, one row
/// for each.
pub open spec fn new_collections_statement(items: Seq<CollectionView>) -> StatementView {
    StatementView {
        sql: insert_text(
            collections_header(),
            Seq::new(items.len(), |i: int| tuple_text(collection_row_names(i as nat))),
        ),
        params: collection_params(items),
        rows: items.len(),
    }
}

impl Spanner {
    /// The statement that makes the collections of `new_collections` known to the
    /// destination, all in one insert, or `None` where there are none to make known.
    pub fn add_new_collections(&self, new_collections: Collections) -> (r: Option<Statement>)
        ensures
            match r {
                Some(statement) => new_collections@.values().len() > 0 && statement@
                    == new_collections_statement(new_collections@.values()),
                None => new_collections@.values().len() == 0,
            },
    {
        let ghost all = new_collections@.values();
        let items = new_collections.items();
        if items.len() == 0 {
            return None;
        }
        let mut params: Vec<Param> = Vec::new();
        let mut tuples: Vec<String> = Vec::new();
        let mut count: usize = 0;
        assert(param_views(params@) =~= collection_params(all.take(0)));
        while count < items.len()
            invariant
                count <= items.len(),
                all == crate::collections::collection_views(items@),
                texts(tuples@) == Seq::new(
                    count as nat,
                    |i: int| tuple_text(collection_row_names(i as nat)),
                ),
                param_views(params@) == collection_params(all.take(count as int)),
            decreases items.len() - count,
        {
            let item = &items[count];
            let l_col_id = numbered_name("collection_id_", count);
            let l_name = numbered_name("name_", count);
            let mut names: Vec<String> = Vec::new();
            names.push(l_col_id.clone());
            names.push(l_name.clone());
            assert(texts(names@) =~= collection_row_names(count as nat));
            let ghost tuples_before = tuples@;
            let row = tuple(&names);
            let ghost row_text = row@;
            tuples.push(row);
            let ghost before = params@;
            params.push(make_int_param(l_col_id, item.collection as u64));
            params.push(make_text_param(l_name, item.name.as_str()));
            proof {
                let next = all.take(count + 1);
                assert(next.drop_last() =~= all.take(count as int));
                assert(next.last() == item@);
                assert(param_views(params@) =~= param_views(before) + collection_row(
                    count as nat,
                    item@,
                ));
                assert(texts(tuples@) =~= texts(tuples_before).push(row_text));
                assert(texts(tuples@) =~= Seq::new(
                    (count + 1) as nat,
                    |i: int| tuple_text(collection_row_names(i as nat)),
                ));
            }
            count = count + 1;
        }
        assert(all.take(items.len() as int) =~= all);
        let sql = insert("INSERT INTO collections (collection_id, name)", &tuples);
        Some(Statement { sql, params, rows: items.len() })
    }
}

/// The two values that every statement about a user starts with: the key id and the user
/// id of the user's identity.
pub open spec fn identity_params(user: UserView) -> Seq<ParamView> {
    seq![
        text_param("fxa_kid"@, user.fxa_data.fxa_kid),
        text_param("fxa_uid"@, user.fxa_data.fxa_uid),
    ]
}

/// Makes the two values that every statement about a user starts with.
pub fn make_identity_params(user: &User) -> (params: Vec<Param>)
    ensures
        param_views(params@) == identity_params(user@),
{
    let mut params: Vec<Param> = Vec::new();
    params.push(make_text_param("fxa_kid".to_owned(), user.fxa_data.fxa_kid.as_str()));
    params.push(make_text_param("fxa_uid".to_owned(), user.fxa_data.fxa_uid.as_str()));
    assert(param_views(params@) =~= identity_params(user@));
    params
}

/// The header of the insert of a user's collections.
pub open spec fn user_collections_header() -> Seq<char> {
    "INSERT INTO user_collections (fxa_kid, fxa_uid, collection_id, modified)"@
}

/// The names of the values of row `i` of an insert of a user's collections.
pub open spec fn user_collection_row_names(i: nat) -> Seq<Seq<char>> {
    seq!["fxa_kid"@, "fxa_uid"@, numbered("collection_id_"@, i), numbered("modified_"@, i)]
}

/// The values of row `i` of an insert of a user's collections: the number of `item`, and
/// the time of its last change as it was written for the destination.
pub open spec fn user_collection_row(i: nat, item: CollectionView, modified: Seq<char>) -> Seq<
    ParamView,
> {
    seq![
        int_param(numbered("collection_id_"@, i), item.collection as nat),
        time_param(numbered("modified_"@, i), modified),
    ]
}

/// The values of the rows of an insert of a user's collections, row after row.
pub open spec fn user_collection_params(items: Seq<CollectionView>) -> Seq<ParamView>
    decreases items.len(),
{
    if items.len() == 0 {
        Seq::empty()
    } else {
        user_collection_params(items.drop_last()) + user_collection_row(
            (items.len() - 1) as nat,
            items.last(),
            timestamp_text(items.last().last_modified),
        )
    }
}

/// The first time of a last change, in the order of the collections, that the destination
/// cannot hold.
pub open spec fn first_bad_modified(items: Seq<CollectionView>) -> Option<u64>
    decreases items.len(),
{
    if items.len() == 0 {
        None
    } else {
        match first_bad_modified(items.drop_last()) {
            Some(time) => Some(time),
            None => if timestamp_ok(items.last().last_modified) {
                None
            } else {
                Some(items.last().last_modified)
            },
        }
    }
}

/// A time that the first collections have and the destination cannot hold is the first
/// such time of all the collections.
pub proof fn lemma_first_bad_modified_prefix(items: Seq<CollectionView>, k: int)
    requires
        0 <= k <= items.len(),
        first_bad_modified(items.take(k)) is Some,
    ensures
        first_bad_modified(items) == first_bad_modified(items.take(k)),
    decreases items.len(),
{
    if k == items.len() {
        assert(items.take(k) =~= items);
    } else {
        assert(items.drop_last().take(k) =~= items.take(k));
        lemma_first_bad_modified_prefix(items.drop_last(), k);
    }
}

/// The statement that inserts the collections of a user, one row for each.
pub open spec fn user_collections_statement(
    user: UserView,
    items: Seq<CollectionView>,
) -> StatementView {
    StatementView {
        sql: insert_text(
            user_collections_header(),
            Seq::new(items.len(), |i: int| tuple_text(user_collection_row_names(i as nat))),
        ),
        params: identity_params(user) + user_collection_params(items),
        rows: items.len(),
    }
}

/// Makes the values of row `i` of an insert of a user's collections, from the collection
/// and the time of its last change as it was written for the destination.
pub fn user_collection_row_params(i: usize, item: &Collection, modified: String) -> (params: Vec<
    Param,
>)
    ensures
        param_views(params@) == user_collection_row(i as nat, item@, modified@),
{
    let mut params: Vec<Param> = Vec::new();
    params.push(make_int_param(numbered_name("collection_id_", i), item.collection as u64));
    params.push(make_time_param(numbered_name("modified_", i), modified));
    assert(param_views(params@) =~= user_collection_row(i as nat, item@, modified@));
    params
}

/// Writes the names of the values of row `i` of an insert of a user's collections.
fn user_collection_names(i: usize) -> (names: Vec<String>)
    ensures
        texts(names@) == user_collection_row_names(i as nat),
{
    let mut names: Vec<String> = Vec::new();
    names.push("fxa_kid".to_owned());
    names.push("fxa_uid".to_owned());
    names.push(numbered_name("collection_id_", i));
    names.push(numbered_name("modified_", i));
    assert(texts(names@) =~= user_collection_row_names(i as nat));
    names
}

impl Spanner {
    /// The statement that writes the collections of `user`, all in one insert, or `None` for
    /// a user without collections. A time of last change that the destination cannot hold is
    /// an error; the first such time is named.
    pub fn load_user_collections(&self, user: &User, collections: Vec<Collection>) -> (r: Result<
        Option<Statement>,
        ApiError,
    >)
        ensures
            match r {
                Ok(None) => collections@.len() == 0,
                Ok(Some(statement)) => {
                    &&& collections@.len() > 0
                    &&& first_bad_modified(crate::collections::collection_views(collections@))
                        is None
                    &&& statement@ == user_collections_statement(
                        user@,
                        crate::collections::collection_views(collections@),
                    )
                },
                Err(e) => {
                    &&& collections@.len() > 0
                    &&& first_bad_modified(crate::collections::collection_views(collections@))
                        matches Some(time)
                    &&& e == ApiError::InvalidTimestamp(time)
                },
            },
    {
        if collections.len() == 0 {
            return Ok(None);
        }
        let ghost all = crate::collections::collection_views(collections@);
        let mut params = make_identity_params(user);
        let mut tuples: Vec<String> = Vec::new();
        let mut count: usize = 0;
        assert(all.take(0) =~= Seq::<CollectionView>::empty());
        assert(param_views(params@) =~= identity_params(user@) + user_collection_params(
            all.take(0),
        ));
        while count < collections.len()
            invariant
                count <= collections.len(),
                collections@.len() > 0,
                all == crate::collections::collection_views(collections@),
                first_bad_modified(all.take(count as int)) is None,
                texts(tuples@) == Seq::new(
                    count as nat,
                    |i: int| tuple_text(user_collection_row_names(i as nat)),
                ),
                param_views(params@) == identity_params(user@) + user_collection_params(
                    all.take(count as int),
                ),
            decreases collections.len() - count,
        {
            let item = &collections[count];
            proof {
                let next = all.take(count + 1);
                assert(next.drop_last() =~= all.take(count as int));
                assert(next.last() == item@);
                if first_bad_modified(next) is Some {
                    lemma_first_bad_modified_prefix(all, count + 1);
                }
            }
            let modified = match self.as_rfc3339(item.last_modified) {
                Ok(text) => text,
                Err(e) => {
                    return Err(e);
                },
            };
            let names = user_collection_names(count);
            let ghost tuples_before = tuples@;
            let row = tuple(&names);
            let ghost row_text = row@;
            tuples.push(row);
            let ghost before = params@;
            let mut row_params = user_collection_row_params(count, item, modified);
            let ghost added = param_views(row_params@);
            params.append(&mut row_params);
            proof {
                assert(param_views(params@) =~= param_views(before) + added);
                assert(texts(tuples@) =~= texts(tuples_before).push(row_text));
                assert(texts(tuples@) =~= Seq::new(
                    (count + 1) as nat,
                    |i: int| tuple_text(user_collection_row_names(i as nat)),
                ));
            }
            count = count + 1;
        }
        assert(all.take(collections.len() as int) =~= all);
        let sql = insert(
            "INSERT INTO user_collections (fxa_kid, fxa_uid, collection_id, modified)",
            &tuples,
        );
        Ok(Some(Statement { sql, params, rows: collections.len() }))
    }
}

/// The header of the insert of storage objects.
pub open spec fn bsos_header() -> Seq<char> {
    "INSERT INTO bsos (fxa_kid, fxa_uid,  bso_id, collection_id, expiry, modified, payload, sortindex)"@
}

/// The names of the values of row `i` of an insert of storage objects.
pub open spec fn bso_row_names(i: nat) -> Seq<Seq<char>> {
    seq![
        "fxa_kid"@,
        "fxa_uid"@,
        numbered("bso_"@, i),
        numbered("collection_id_"@, i),
        numbered("expiry_"@, i),
        numbered("modified_"@, i),
        numbered("payload_"@, i),
        numbered("sortindex_"@, i),
    ]
}

/// The sort index that is written for a storage object: its own, or 0 where it has none.
pub open spec fn sort_index_of(row: BsoView) -> u64 {
    match row.sort_index {
        Some(index) => index,
        None => 0,
    }
}

/// The number under which the destination keeps the collection of a storage object: the
/// one that the table of collections has for the name, or, for a name that the table does
/// not know, the one that the source had.
pub open spec fn destination_id(table: Table, row: BsoView) -> u16 {
    if table.by_name.contains_key(row.col_name) {
        table.by_name[row.col_name].collection
    } else {
        row.col_id
    }
}

/// The values of row `i` of an insert of storage objects, from the object, the number of
/// its collection in the destination, and its two times as they were written for the
/// destination.
pub open spec fn bso_row(
    i: nat,
    row: BsoView,
    collection_id: u16,
    expiry: Seq<char>,
    modified: Seq<char>,
) -> Seq<ParamView> {
    seq![
        text_param(numbered("bso_"@, i), row.bso_id),
        int_param(numbered("collection_id_"@, i), collection_id as nat),
        time_param(numbered("expiry_"@, i), expiry),
        time_param(numbered("modified_"@, i), modified),
        text_param(numbered("payload_"@, i), row.payload),
        int_param(numbered("sortindex_"@, i), sort_index_of(row) as nat),
    ]
}

/// The values of the rows of an insert of storage objects, row after row.
pub open spec fn bso_params(rows: Seq<BsoView>, table: Table) -> Seq<ParamView>
    decreases rows.len(),
{
    if rows.len() == 0 {
        Seq::empty()
    } else {
        bso_params(rows.drop_last(), table) + bso_row(
            (rows.len() - 1) as nat,
            rows.last(),
            destination_id(table, rows.last()),
            timestamp_text(rows.last().expiry),
            timestamp_text(rows.last().modify),
        )
    }
}

/// The first time, in the order of the storage objects and with the expiry of each before
/// its last change, that the destination cannot hold.
pub open spec fn first_bad_time(rows: Seq<BsoView>) -> Option<u64>
    decreases rows.len(),
{
    if rows.len() == 0 {
        None
    } else {
        match first_bad_time(rows.drop_last()) {
            Some(time) => Some(time),
            None => if !timestamp_ok(rows.last().expiry) {
                Some(rows.last().expiry)
            } else if !timestamp_ok(rows.last().modify) {
                Some(rows.last().modify)
            } else {
                None
            },
        }
    }
}

/// A time that the first storage objects have and the destination cannot hold is the first
/// such time of all the storage objects.
pub proof fn lemma_first_bad_time_prefix(rows: Seq<BsoView>, k: int)
    requires
        0 <= k <= rows.len(),
        first_bad_time(rows.take(k)) is Some,
    ensures
        first_bad_time(rows) == first_bad_time(rows.take(k)),
    decreases rows.len(),
{
    if k == rows.len() {
        assert(rows.take(k) =~= rows);
    } else {
        assert(rows.drop_last().take(k) =~= rows.take(k));
        lemma_first_bad_time_prefix(rows.drop_last(), k);
    }
}

/// The statement that inserts storage objects of a user, one row for each.
pub open spec fn bsos_statement(user: UserView, rows: Seq<BsoView>, table: Table) -> StatementView {
    StatementView {
        sql: insert_text(
            bsos_header(),
            Seq::new(rows.len(), |i: int| tuple_text(bso_row_names(i as nat))),
        ),
        params: identity_params(user) + bso_params(rows, table),
        rows: rows.len(),
    }
}

/// Makes the values of row `i` of an insert of storage objects, from the object, the number
/// of its collection in the destination, and its two times as they were written for the
/// destination.
pub fn bso_row_params(
    i: usize,
    bso: &Bso,
    collection_id: u16,
    expiry: String,
    modified: String,
) -> (params: Vec<Param>)
    ensures
        param_views(params@) == bso_row(i as nat, bso@, collection_id, expiry@, modified@),
{
    let mut params: Vec<Param> = Vec::new();
    params.push(make_text_param(numbered_name("bso_", i), bso.bso_id.as_str()));
    params.push(make_int_param(numbered_name("collection_id_", i), collection_id as u64));
    params.push(make_time_param(numbered_name("expiry_", i), expiry));
    params.push(make_time_param(numbered_name("modified_", i), modified));
    params.push(make_text_param(numbered_name("payload_", i), bso.payload.as_str()));
    let sort_index: u64 = match bso.sort_index {
        Some(index) => index,
        None => 0,
    };
    params.push(make_int_param(numbered_name("sortindex_", i), sort_index));
    assert(param_views(params@) =~= bso_row(i as nat, bso@, collection_id, expiry@, modified@));
    params
}

/// Writes the names of the values of row `i` of an insert of storage objects.
fn bso_names(i: usize) -> (names: Vec<String>)
    ensures
        texts(names@) == bso_row_names(i as nat),
{
    let mut names: Vec<String> = Vec::new();
    names.push("fxa_kid".to_owned());
    names.push("fxa_uid".to_owned());
    names.push(numbered_name("bso_", i));
    names.push(numbered_name("collection_id_", i));
    names.push(numbered_name("expiry_", i));
    names.push(numbered_name("modified_", i));
    names.push(numbered_name("payload_", i));
    names.push(numbered_name("sortindex_", i));
    assert(texts(names@) =~= bso_row_names(i as nat));
    names
}

impl Spanner {
    /// The statement that writes the storage objects `bsos` of `user`, all in one insert, or
    /// `None` where there are none to write. The collection of each object is numbered as
    /// `collections` says. A time that the destination cannot hold is an error; the first
    /// such time is named.
    pub fn add_user_bsos(&self, user: &User, bsos: &[Bso], collections: &Collections) -> (r: Result<
        Option<Statement>,
        ApiError,
    >)
        ensures
            match r {
                Ok(None) => bsos@.len() == 0,
                Ok(Some(statement)) => {
                    &&& bsos@.len() > 0
                    &&& first_bad_time(crate::db::bso_views(bsos@)) is None
                    &&& statement@ == bsos_statement(
                        user@,
                        crate::db::bso_views(bsos@),
                        collections@,
                    )
                },
                Err(e) => {
                    &&& bsos@.len() > 0
                    &&& first_bad_time(crate::db::bso_views(bsos@)) matches Some(time)
                    &&& e == ApiError::InvalidTimestamp(time)
                },
            },
    {
        if bsos.len() == 0 {
            return Ok(None);
        }
        let ghost all = crate::db::bso_views(bsos@);
        let mut params = make_identity_params(user);
        let mut tuples: Vec<String> = Vec::new();
        let mut count: usize = 0;
        assert(all.take(0) =~= Seq::<BsoView>::empty());
        assert(param_views(params@) =~= identity_params(user@) + bso_params(
            all.take(0),
            collections@,
        ));
        while count < bsos.len()
            invariant
                count <= bsos.len(),
                bsos@.len() > 0,
                all == crate::db::bso_views(bsos@),
                first_bad_time(all.take(count as int)) is None,
                texts(tuples@) == Seq::new(
                    count as nat,
                    |i: int| tuple_text(bso_row_names(i as nat)),
                ),
                param_views(params@) == identity_params(user@) + bso_params(
                    all.take(count as int),
                    collections@,
                ),
            decreases bsos.len() - count,
        {
            let item = &bsos[count];
            proof {
                let next = all.take(count + 1);
                assert(next.drop_last() =~= all.take(count as int));
                assert(next.last() == item@);
                if first_bad_time(next) is Some {
                    lemma_first_bad_time_prefix(all, count + 1);
                }
            }
            let adj_col: u16 = match collections.get(item.col_name.as_str()) {
                Some(known) => known.collection,
                None => item.col_id,
            };
            let expiry = match self.as_rfc3339(item.expiry) {
                Ok(text) => text,
                Err(e) => {
                    return Err(e);
                },
            };
            let modified = match self.as_rfc3339(item.modify) {
                Ok(text) => text,
                Err(e) => {
                    return Err(e);
                },
            };
            let names = bso_names(count);
            let ghost tuples_before = tuples@;
            let row = tuple(&names);
            let ghost row_text = row@;
            tuples.push(row);
            let ghost before = params@;
            let mut row_params = bso_row_params(count, item, adj_col, expiry, modified);
            let ghost added = param_views(row_params@);
            params.append(&mut row_params);
            proof {
                assert(param_views(params@) =~= param_views(before) + added);
                assert(texts(tuples@) =~= texts(tuples_before).push(row_text));
                assert(texts(tuples@) =~= Seq::new(
                    (count + 1) as nat,
                    |i: int| tuple_text(bso_row_names(i as nat)),
                ));
            }
            count = count + 1;
        }
        assert(all.take(bsos.len() as int) =~= all);
        let sql = insert(
            "INSERT INTO bsos (fxa_kid, fxa_uid,  bso_id, collection_id, expiry, modified, payload, sortindex)",
            &tuples,
        );
        Ok(Some(Statement { sql, params, rows: bsos.len() }))
    }
}

/// A collection as the destination reports it: its number, written as a text, and its
/// name.
#[derive(Debug, PartialEq, Eq)]
pub struct ReportedCollection {
    pub id: String,
    pub name: String,
}

/// Whether the number of every reported collection is a decimal number below 65536.
pub open spec fn ids_readable(rows: Seq<ReportedCollection>) -> bool {
    forall|i: int|
        0 <= i < rows.len() ==> parse_unsigned((#[trigger] rows[i]).id@, u16::MAX as nat) is Some
}

/// The reported collections with their numbers read.
pub open spec fn read_rows(rows: Seq<ReportedCollection>) -> Seq<RowView> {
    rows.map_values(
        |row: ReportedCollection|
            RowView { id: parse_unsigned(row.id@, u16::MAX as nat)->Some_0 as u16, name: row.name@ },
    )
}

/// The text of the query for the collections that the destination's table of collections
/// holds: every collection that was ever made known to it, whether a user has it or not.
pub open spec fn collections_query_text() -> Seq<char> {
    "SELECT cc.collection_id, cc.name FROM collections as cc ORDER BY cc.collection_id"@
}

impl Spanner {
    /// The query for the collections that the destination's table of collections holds.
    pub fn collections_query(&self) -> (sql: String)
        ensures
            sql@ == collections_query_text(),
    {
        "SELECT cc.collection_id, cc.name FROM collections as cc ORDER BY cc.collection_id".to_owned()
    }

    /// The table of collections that a run starts from: the well-known collections, and
    /// behind them those that the destination reports under other names. A reported number
    /// that cannot be read is an error.
    pub fn get_collections(&self, rows: &Vec<ReportedCollection>) -> (r: Result<
        Collections,
        ApiError,
    >)
        ensures
            match r {
                Ok(table) => ids_readable(rows@) && table@ == merged(
                    default_table(),
                    read_rows(rows@),
                ),
                Err(e) => e == ApiError::InvalidCollectionId && !ids_readable(rows@),
            },
    {
        let mut table = Collections::default();
        let mut i: usize = 0;
        assert(read_rows(rows@).take(0) =~= Seq::<RowView>::empty());
        while i < rows.len()
            invariant
                i <= rows.len(),
                forall|j: int|
                    0 <= j < i ==> parse_unsigned((#[trigger] rows[j]).id@, u16::MAX as nat)
                        is Some,
                table@ == merged(default_table(), read_rows(rows@).take(i as int)),
            decreases rows.len() - i,
        {
            let id = match parse_u16(rows[i].id.as_str()) {
                Some(id) => id,
                None => {
                    return Err(ApiError::InvalidCollectionId);
                },
            };
            let row = CollectionRow { id, name: rows[i].name.clone() };
            proof {
                let next = read_rows(rows@).take(i + 1);
                assert(next.drop_last() =~= read_rows(rows@).take(i as int));
                assert(next.last() == row@);
            }
            table.add_missing(&row);
            i = i + 1;
        }
        assert(read_rows(rows@).take(rows.len() as int) =~= read_rows(rows@));
        Ok(table)
    }
}

/// The names of a sequence of named values.
pub open spec fn param_names(params: Seq<ParamView>) -> Seq<Seq<char>> {
    params.map_values(|param: ParamView| param.name)
}

/// Two numbered names differ where their prefixes begin differently, and where they have
/// the same prefix and different numbers.
proof fn lemma_numbered_differ(prefix: Seq<char>, i: nat, other: Seq<char>, j: nat)
    requires
        prefix.len() > 0,
        other.len() > 0,
        prefix[0] != other[0] || (prefix == other && i != j),
    ensures
        numbered(prefix, i) != numbered(other, j),
        numbered(prefix, i).len() > 0,
        numbered(prefix, i)[0] == prefix[0],
{
    let a = numbered(prefix, i);
    let b = numbered(other, j);
    assert(a[0] == prefix[0]);
    assert(b[0] == other[0]);
    if prefix == other && i != j {
        if a == b {
            assert(a.skip(prefix.len() as int) =~= decimal(i));
            assert(b.skip(prefix.len() as int) =~= decimal(j));
            lemma_decimal_injective(i, j);
        }
    }
}

/// The prefix of the names in column `c` of an insert of storage objects.
pub open spec fn bso_prefix(c: int) -> Seq<char> {
    if c == 0 {
        "bso_"@
    } else if c == 1 {
        "collection_id_"@
    } else if c == 2 {
        "expiry_"@
    } else if c == 3 {
        "modified_"@
    } else if c == 4 {
        "payload_"@
    } else {
        "sortindex_"@
    }
}

/// The prefixes of the names of an insert begin differently, and none begins like the names
/// of the parts of an identity.
proof fn lemma_prefixes()
    ensures
        forall|c: int| #![trigger bso_prefix(c)] bso_prefix(c).len() > 0 && bso_prefix(c)[0] != 'f',
        forall|c: int, d: int|
            0 <= c < d < 6 ==> (#[trigger] bso_prefix(c))[0] != (#[trigger] bso_prefix(d))[0],
        "name_"@.len() > 0 && "name_"@[0] == 'n',
        "collection_id_"@.len() > 0 && "collection_id_"@[0] == 'c',
        "modified_"@.len() > 0 && "modified_"@[0] == 'm',
        "fxa_kid"@.len() == 7 && "fxa_kid"@[0] == 'f' && "fxa_kid"@[4] == 'k',
        "fxa_uid"@.len() == 7 && "fxa_uid"@[0] == 'f' && "fxa_uid"@[4] == 'u',
{
    reveal_strlit("bso_");
    reveal_strlit("collection_id_");
    reveal_strlit("expiry_");
    reveal_strlit("modified_");
    reveal_strlit("payload_");
    reveal_strlit("sortindex_");
    reveal_strlit("name_");
    reveal_strlit("fxa_kid");
    reveal_strlit("fxa_uid");
    assert("bso_"@.len() == 4 && "bso_"@[0] == 'b');
    assert("collection_id_"@.len() == 14 && "collection_id_"@[0] == 'c');
    assert("expiry_"@.len() == 7 && "expiry_"@[0] == 'e');
    assert("modified_"@.len() == 9 && "modified_"@[0] == 'm');
    assert("payload_"@.len() == 8 && "payload_"@[0] == 'p');
    assert("sortindex_"@.len() == 10 && "sortindex_"@[0] == 's');
}

/// Where the values of a row stand among the values of an insert of storage objects, and
/// what they are called.
proof fn lemma_bso_params_at(rows: Seq<BsoView>, table: Table, r: int, c: int)
    requires
        0 <= r < rows.len(),
        0 <= c < 6,
    ensures
        bso_params(rows, table).len() == 6 * rows.len(),
        bso_params(rows, table)[6 * r + c].name == numbered(bso_prefix(c), r as nat),
    decreases rows.len(),
{
    lemma_bso_params_len(rows.drop_last(), table);
    if r < rows.len() - 1 {
        lemma_bso_params_at(rows.drop_last(), table, r, c);
        assert(rows.drop_last()[r] == rows[r]);
    }
}

/// An insert of storage objects has six values for each row.
proof fn lemma_bso_params_len(rows: Seq<BsoView>, table: Table)
    ensures
        bso_params(rows, table).len() == 6 * rows.len(),
    decreases rows.len(),
{
    if rows.len() > 0 {
        lemma_bso_params_len(rows.drop_last(), table);
    }
}

/// No two values of an insert of storage objects have the same name, so that the values can
/// be looked up by their names.
pub proof fn lemma_bso_names_distinct(user: UserView, rows: Seq<BsoView>, table: Table)
    ensures
        bsos_statement(user, rows, table).params.len() == 2 + 6 * rows.len(),
        param_names(bsos_statement(user, rows, table).params).no_duplicates(),
{
    let params = bsos_statement(user, rows, table).params;
    let names = param_names(params);
    lemma_bso_params_len(rows, table);
    lemma_prefixes();
    assert forall|i: int, j: int| 0 <= i < j < names.len() implies names[i] != names[j] by {
        if i >= 2 {
            let (ri, ci) = ((i - 2) / 6, (i - 2) % 6);
            let (rj, cj) = ((j - 2) / 6, (j - 2) % 6);
            lemma_bso_params_at(rows, table, ri, ci);
            lemma_bso_params_at(rows, table, rj, cj);
            assert(names[i] == numbered(bso_prefix(ci), ri as nat));
            assert(names[j] == numbered(bso_prefix(cj), rj as nat));
            if ci < cj {
                lemma_numbered_differ(bso_prefix(ci), ri as nat, bso_prefix(cj), rj as nat);
            } else if cj < ci {
                lemma_numbered_differ(bso_prefix(cj), rj as nat, bso_prefix(ci), ri as nat);
            } else {
                lemma_numbered_differ(bso_prefix(ci), ri as nat, bso_prefix(cj), rj as nat);
            }
        } else if j >= 2 {
            let (rj, cj) = ((j - 2) / 6, (j - 2) % 6);
            lemma_bso_params_at(rows, table, rj, cj);
            assert(names[j] == numbered(bso_prefix(cj), rj as nat));
            lemma_numbered_differ(bso_prefix(cj), rj as nat, bso_prefix(cj), (rj + 1) as nat);
            assert(names[j][0] != 'f');
            assert(names[i][0] == 'f');
        } else {
            assert(names[0][4] == 'k');
            assert(names[1][4] == 'u');
        }
    }
}

/// An insert of a user's collections has two values for each row, and this is what they
/// are called.
proof fn lemma_user_collection_params_at(items: Seq<CollectionView>, r: int)
    requires
        0 <= r < items.len(),
    ensures
        user_collection_params(items).len() == 2 * items.len(),
        user_collection_params(items)[2 * r].name == numbered("collection_id_"@, r as nat),
        user_collection_params(items)[2 * r + 1].name == numbered("modified_"@, r as nat),
    decreases items.len(),
{
    lemma_user_collection_params_len(items.drop_last());
    if r < items.len() - 1 {
        lemma_user_collection_params_at(items.drop_last(), r);
    }
}

/// An insert of a user's collections has two values for each row.
proof fn lemma_user_collection_params_len(items: Seq<CollectionView>)
    ensures
        user_collection_params(items).len() == 2 * items.len(),
    decreases items.len(),
{
    if items.len() > 0 {
        lemma_user_collection_params_len(items.drop_last());
    }
}

/// No two values of an insert of a user's collections have the same name.
pub proof fn lemma_user_collection_names_distinct(user: UserView, items: Seq<CollectionView>)
    ensures
        user_collections_statement(user, items).params.len() == 2 + 2 * items.len(),
        param_names(user_collections_statement(user, items).params).no_duplicates(),
{
    let params = user_collections_statement(user, items).params;
    let names = param_names(params);
    lemma_user_collection_params_len(items);
    lemma_prefixes();
    assert forall|i: int, j: int| 0 <= i < j < names.len() implies names[i] != names[j] by {
        if j >= 2 {
            let rj = (j - 2) / 2;
            lemma_user_collection_params_at(items, rj);
            lemma_numbered_differ("collection_id_"@, rj as nat, "modified_"@, rj as nat);
            lemma_numbered_differ("modified_"@, rj as nat, "collection_id_"@, rj as nat);
            assert(names[j][0] != 'f');
            if i >= 2 {
                let ri = (i - 2) / 2;
                lemma_user_collection_params_at(items, ri);
                if (i - 2) % 2 == (j - 2) % 2 {
                    lemma_numbered_differ("collection_id_"@, ri as nat, "collection_id_"@, rj as nat);
                    lemma_numbered_differ("modified_"@, ri as nat, "modified_"@, rj as nat);
                } else {
                    lemma_numbered_differ("collection_id_"@, ri as nat, "modified_"@, rj as nat);
                    lemma_numbered_differ("modified_"@, ri as nat, "collection_id_"@, rj as nat);
                }
            } else {
                assert(names[i][0] == 'f');
            }
        } else {
            assert(names[0][4] == 'k');
            assert(names[1][4] == 'u');
        }
    }
}

/// What an insert of collections writes: row `r` holds the number and the name of the
/// collection at place `r`, so that the rows of the insert are the collections in their
/// order.
pub proof fn lemma_collection_params_at(items: Seq<CollectionView>, r: int)
    requires
        0 <= r < items.len(),
    ensures
        collection_params(items).len() == 2 * items.len(),
        collection_params(items)[2 * r] == int_param(
            numbered("collection_id_"@, r as nat),
            items[r].collection as nat,
        ),
        collection_params(items)[2 * r + 1] == text_param(
            numbered("name_"@, r as nat),
            items[r].name,
        ),
    decreases items.len(),
{
    lemma_collection_params_len(items.drop_last());
    if r < items.len() - 1 {
        lemma_collection_params_at(items.drop_last(), r);
    }
}

/// An insert of collections has two values for each row.
proof fn lemma_collection_params_len(items: Seq<CollectionView>)
    ensures
        collection_params(items).len() == 2 * items.len(),
    decreases items.len(),
{
    if items.len() > 0 {
        lemma_collection_params_len(items.drop_last());
    }
}

/// No two values of an insert of collections have the same name.
pub proof fn lemma_collection_names_distinct(items: Seq<CollectionView>)
    ensures
        new_collections_statement(items).params.len() == 2 * items.len(),
        param_names(new_collections_statement(items).params).no_duplicates(),
{
    let names = param_names(new_collections_statement(items).params);
    lemma_collection_params_len(items);
    lemma_prefixes();
    assert forall|i: int, j: int| 0 <= i < j < names.len() implies names[i] != names[j] by {
        let (ri, rj) = (i / 2, j / 2);
        lemma_collection_params_at(items, ri);
        lemma_collection_params_at(items, rj);
        if i % 2 == j % 2 {
            lemma_numbered_differ("collection_id_"@, ri as nat, "collection_id_"@, rj as nat);
            lemma_numbered_differ("name_"@, ri as nat, "name_"@, rj as nat);
        } else {
            lemma_numbered_differ("collection_id_"@, ri as nat, "name_"@, rj as nat);
            lemma_numbered_differ("name_"@, ri as nat, "collection_id_"@, rj as nat);
        }
    }
}

} // verus!
