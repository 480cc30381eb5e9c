use migration_rs::collections::{CollectionRow, Collections};
use migration_rs::db::{Dbs, User};
use migration_rs::driver::Migration;
use migration_rs::error::ApiError;
use migration_rs::fxa::{FxaData, FxaInfo};
use migration_rs::report::{Entry, Report};
use migration_rs::settings::{Settings, UserPercent, Users};
use migration_rs::spanner::ReportedCollection;
use std::collections::HashMap;

fn settings() -> Settings {
    let mut settings = Settings::default();
    settings.dsns.mysql = Some("mysql://source.example/sync".to_owned());
    settings.dsns.spanner = Some("spanner://projects/p/instances/i/databases/d".to_owned());
    settings
}

fn identity(uid: &str, kid: &str) -> FxaData {
    FxaData { fxa_uid: uid.to_owned(), fxa_kid: kid.to_owned() }
}

fn fxa(known: &[u64]) -> FxaInfo {
    let mut users = HashMap::new();
    for uid in known {
        users.insert(*uid, identity(&format!("user{}", uid), &format!("key{}", uid)));
    }
    FxaInfo { users, anon: false }
}

fn uids(users: &[User]) -> Vec<u64> {
    users.iter().map(|u| u.uid).collect()
}

fn is_simple_id(text: &str) -> bool {
    text.len() == 32 && text.chars().all(|c| c.is_ascii_digit() || ('a'..='f').contains(&c))
}

#[test]
fn connect_needs_both_locations() {
    assert_eq!(Dbs::connect(&Settings::default()), Err(ApiError::NoDsns));
    let mut missing = settings();
    missing.dsns.mysql = None;
    assert_eq!(Dbs::connect(&missing), Err(ApiError::NoDsns));
    let mut missing = settings();
    missing.dsns.spanner = None;
    assert_eq!(Dbs::connect(&missing), Err(ApiError::NoDsns));
    let mut bad = settings();
    bad.dsns.spanner = Some("::".to_owned());
    assert_eq!(Dbs::connect(&bad), Err(ApiError::InvalidDsn));
}

#[test]
fn connect_keeps_the_options_everywhere() {
    let dbs = Dbs::connect(&settings()).unwrap();
    assert_eq!(dbs.settings, settings());
    assert_eq!(dbs.mysql.settings, settings());
    assert_eq!(dbs.spanner.settings, settings());
    assert_eq!(dbs.spanner.database_name, "projects/p/instances/i/databases/d");
}

#[test]
fn full_shard_with_one_user_unmapped() {
    // The source has the users 10 and 11 in shard 1; only 10 has an identity.
    let mut users = HashMap::new();
    users.insert(10, identity("alice", "k1"));
    let fxa = FxaInfo { users, anon: false };
    let settings = settings();
    let dbs = Dbs::connect(&settings).unwrap();
    let mut report = Report::new();
    report.set_bso(1);
    let selected = dbs.get_users(vec![10, 11], &fxa, &settings, &mut report).unwrap();
    assert_eq!(selected, vec![User { uid: 10, fxa_data: identity("alice", "k1") }]);
    assert_eq!(
        report.entries,
        vec![Entry { bso: 1, uid: 11, failure: Some("not found in identity data".to_owned()) }]
    );
    let mut run = Migration::start(&settings);
    run.reconciled();
    run.users_selected(selected.len());
    assert_eq!(run.user_count, 1);
}

#[test]
fn users_come_in_the_order_of_the_source() {
    let settings = settings();
    let dbs = Dbs::connect(&settings).unwrap();
    let mut report = Report::new();
    let selected =
        dbs.get_users(vec![5, 3, 9, 4, 3], &fxa(&[3, 4, 5]), &settings, &mut report).unwrap();
    assert_eq!(uids(&selected), vec![5, 3, 4, 3]);
    assert_eq!(selected[1].fxa_data, identity("user3", "key3"));
    assert_eq!(report.entries.len(), 1);
    assert_eq!(report.entries[0].uid, 9);
}

#[test]
fn shard_without_users() {
    let settings = settings();
    let dbs = Dbs::connect(&settings).unwrap();
    let mut report = Report::new();
    assert_eq!(dbs.get_users(Vec::new(), &fxa(&[1]), &settings, &mut report), Ok(Vec::new()));
    assert!(report.entries.is_empty());
}

#[test]
fn bucket_of_the_users_of_a_shard() {
    let mut settings = settings();
    settings.user_percent = Some(UserPercent { chunk: 2, percentage: 33 });
    let dbs = Dbs::connect(&settings).unwrap();
    let mut report = Report::new();
    report.set_bso(2);
    let all: Vec<u64> = (1..=9).collect();
    let selected = dbs.get_users(all, &fxa(&[1, 2, 3, 4, 6, 7]), &settings, &mut report).unwrap();
    assert_eq!(uids(&selected), vec![4, 6]);
    assert_eq!(
        report.entries,
        vec![Entry { bso: 2, uid: 5, failure: Some("not found in identity data".to_owned()) }]
    );
}

#[test]
fn bucket_out_of_range_is_an_error() {
    let mut settings = settings();
    settings.user_percent = Some(UserPercent { chunk: 9, percentage: 50 });
    let dbs = Dbs::connect(&settings).unwrap();
    let mut report = Report::new();
    assert_eq!(
        dbs.get_users(vec![1, 2, 3, 4], &fxa(&[1]), &settings, &mut report),
        Err(ApiError::ChunkOutOfRange)
    );
    assert!(report.entries.is_empty());
}

#[test]
fn listed_users_are_taken_as_they_are() {
    let mut settings = settings();
    settings.user = Some(Users { bso: 3, user_ids: vec!["7".to_owned(), "+5".to_owned()] });
    settings.user_percent = Some(UserPercent { chunk: 9, percentage: 50 });
    let dbs = Dbs::connect(&settings).unwrap();
    let mut report = Report::new();
    let selected = dbs.get_users(vec![1, 2, 3], &fxa(&[5, 7]), &settings, &mut report).unwrap();
    assert_eq!(uids(&selected), vec![7, 5]);
    assert_eq!(selected[0].fxa_data, identity("user7", "key7"));
    assert!(report.entries.is_empty());
}

#[test]
fn listed_user_without_identity_is_an_error() {
    let mut settings = settings();
    settings.user = Some(Users { bso: 3, user_ids: vec!["7".to_owned(), "8".to_owned(), "x".to_owned()] });
    let dbs = Dbs::connect(&settings).unwrap();
    let mut report = Report::new();
    assert_eq!(
        dbs.get_users(Vec::new(), &fxa(&[7]), &settings, &mut report),
        Err(ApiError::UnknownUser(8))
    );
    assert!(report.entries.is_empty());
}

#[test]
fn listed_user_that_is_no_number_is_an_error() {
    let mut settings = settings();
    settings.user = Some(Users { bso: 3, user_ids: vec!["7".to_owned(), "x".to_owned(), "8".to_owned()] });
    let dbs = Dbs::connect(&settings).unwrap();
    let mut report = Report::new();
    assert_eq!(
        dbs.get_users(Vec::new(), &fxa(&[7]), &settings, &mut report),
        Err(ApiError::InvalidUid)
    );
}

#[test]
fn anonymized_users_all_have_an_identity() {
    let settings = settings();
    let dbs = Dbs::connect(&settings).unwrap();
    let anon = FxaInfo { users: HashMap::new(), anon: true };
    let mut report = Report::new();
    let selected = dbs.get_users(vec![4, 5, 6], &anon, &settings, &mut report).unwrap();
    assert_eq!(uids(&selected), vec![4, 5, 6]);
    for user in &selected {
        assert!(is_simple_id(&user.fxa_data.fxa_uid));
        assert!(is_simple_id(&user.fxa_data.fxa_kid));
    }
    assert_ne!(selected[0].fxa_data, selected[1].fxa_data);
    assert!(report.entries.is_empty());
}

#[test]
fn anonymized_listed_users() {
    let mut settings = settings();
    settings.user = Some(Users { bso: 3, user_ids: vec!["7".to_owned(), "8".to_owned()] });
    let dbs = Dbs::connect(&settings).unwrap();
    let anon = FxaInfo { users: HashMap::new(), anon: true };
    let mut report = Report::new();
    let selected = dbs.get_users(Vec::new(), &anon, &settings, &mut report).unwrap();
    assert_eq!(uids(&selected), vec![7, 8]);
    settings.user = Some(Users { bso: 3, user_ids: vec!["seven".to_owned()] });
    assert_eq!(
        dbs.get_users(Vec::new(), &anon, &settings, &mut report),
        Err(ApiError::InvalidUid)
    );
}

#[test]
fn default_user_is_nobody() {
    assert_eq!(User::default(), User { uid: 0, fxa_data: identity("", "") });
}

#[test]
fn reconciling_makes_new_collections_known() {
    let settings = settings();
    let dbs = Dbs::connect(&settings).unwrap();
    let reported = vec![ReportedCollection { id: "200".to_owned(), name: "older".to_owned() }];
    let observed = vec![
        CollectionRow { id: 7, name: "bookmarks".to_owned() },
        CollectionRow { id: 31, name: "newer".to_owned() },
        CollectionRow { id: 200, name: "older".to_owned() },
        CollectionRow { id: 32, name: "newest".to_owned() },
        CollectionRow { id: 33, name: "newer".to_owned() },
    ];
    let (table, statement) = Collections::new(&settings, &dbs, &reported, &observed).unwrap();
    assert_eq!(table.get("older").map(|c| c.collection), Some(200));
    assert_eq!(table.get("newer").map(|c| c.collection), Some(31));
    assert_eq!(table.get("newest").map(|c| c.collection), Some(32));
    assert_eq!(table.get("bookmarks").map(|c| c.collection), Some(7));
    assert_eq!(table.items().len(), 17);
    let statement = statement.unwrap();
    assert_eq!(statement.rows, 2);
    assert_eq!(
        statement.sql,
        "INSERT INTO collections (collection_id, name) VALUES (@collection_id_0, @name_0),(@collection_id_1, @name_1)"
    );
    let values: Vec<&str> = statement.params.iter().map(|p| p.value.as_str()).collect();
    assert_eq!(values, vec!["31", "newer", "32", "newest"]);
}

#[test]
fn reconciling_twice_finds_nothing_new() {
    let settings = settings();
    let dbs = Dbs::connect(&settings).unwrap();
    let observed = vec![
        CollectionRow { id: 31, name: "newer".to_owned() },
        CollectionRow { id: 32, name: "newest".to_owned() },
    ];
    let (mut table, first) = Collections::new(&settings, &dbs, &Vec::new(), &observed).unwrap();
    assert_eq!(first.map(|s| s.rows), Some(2));
    // Against the table of the first run:
    let fresh = dbs.mysql.merge_collections(&mut table, &observed);
    assert!(fresh.get("newer").is_none());
    assert_eq!(dbs.spanner.add_new_collections(fresh), None);
    assert_eq!(table.items().len(), 16);
    // Against a destination that reports what the first run wrote:
    let reported = vec![
        ReportedCollection { id: "31".to_owned(), name: "newer".to_owned() },
        ReportedCollection { id: "32".to_owned(), name: "newest".to_owned() },
    ];
    let (table, second) = Collections::new(&settings, &dbs, &reported, &observed).unwrap();
    assert_eq!(second, None);
    assert_eq!(table.items().len(), 16);
}

#[test]
fn reconciling_with_nothing_observed() {
    let settings = settings();
    let dbs = Dbs::connect(&settings).unwrap();
    let (table, statement) = Collections::new(&settings, &dbs, &Vec::new(), &Vec::new()).unwrap();
    assert_eq!(statement, None);
    assert_eq!(table.items().len(), 14);
}

#[test]
fn reconciling_fails_on_an_unreadable_number() {
    let settings = settings();
    let dbs = Dbs::connect(&settings).unwrap();
    let reported = vec![ReportedCollection { id: "seven".to_owned(), name: "x".to_owned() }];
    assert!(matches!(
        Collections::new(&settings, &dbs, &reported, &Vec::new()),
        Err(ApiError::InvalidCollectionId)
    ));
}

#[test]
fn bucket_zero_selects_nobody() {
    let mut settings = settings();
    settings.user_percent = Some(UserPercent { chunk: 0, percentage: 50 });
    let dbs = Dbs::connect(&settings).unwrap();
    let mut report = Report::new();
    assert_eq!(
        dbs.get_users(vec![1, 2, 3, 4], &fxa(&[1, 2, 3, 4]), &settings, &mut report),
        Err(ApiError::ChunkOutOfRange)
    );
    assert!(report.entries.is_empty());
}

#[test]
fn second_run_after_the_insert_finds_nothing_new() {
    let settings = settings();
    let dbs = Dbs::connect(&settings).unwrap();
    let reported = vec![ReportedCollection { id: "200".to_owned(), name: "older".to_owned() }];
    let observed = vec![
        CollectionRow { id: 7, name: "bookmarks".to_owned() },
        CollectionRow { id: 31, name: "newer".to_owned() },
        CollectionRow { id: 32, name: "newest".to_owned() },
    ];
    let (first, statement) = Collections::new(&settings, &dbs, &reported, &observed).unwrap();
    // What the destination reports the second time: what it reported before, and the rows
    // that the insert wrote.
    let statement = statement.unwrap();
    let mut again = reported;
    for row in statement.params.chunks(2) {
        again.push(ReportedCollection { id: row[0].value.clone(), name: row[1].value.clone() });
    }
    assert_eq!(again.len(), 3);
    let (second, statement) = Collections::new(&settings, &dbs, &again, &observed).unwrap();
    assert_eq!(statement, None);
    let mut first: Vec<(String, u16)> =
        first.items().into_iter().map(|c| (c.name, c.collection)).collect();
    let mut second: Vec<(String, u16)> =
        second.items().into_iter().map(|c| (c.name, c.collection)).collect();
    first.sort();
    second.sort();
    assert_eq!(first, second);
}
