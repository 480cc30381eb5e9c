use migration_rs::collections::{CollectionRow, Collections};
use migration_rs::db::{Bso, User};
use migration_rs::error::ApiError;
use migration_rs::fxa::FxaData;
use migration_rs::mysql::{parse_ids, MysqlDb, UserIds};
use migration_rs::settings::{Settings, Users};

fn settings() -> Settings {
    let mut settings = Settings::default();
    settings.dsns.mysql = Some("mysql://source.example/sync".to_owned());
    settings
}

fn source() -> MysqlDb {
    MysqlDb::new(&settings()).unwrap()
}

fn user(uid: u64) -> User {
    User { uid, fxa_data: FxaData { fxa_uid: "u".to_owned(), fxa_kid: "k".to_owned() } }
}

#[test]
fn source_needs_a_location() {
    assert_eq!(MysqlDb::new(&Settings::default()), Err(ApiError::NoDsns));
    assert_eq!(source().settings, settings());
}

#[test]
fn listed_ids_are_read_as_numbers() {
    let ids = vec!["1".to_owned(), "+2".to_owned(), "003".to_owned()];
    assert_eq!(parse_ids(&ids), Ok(vec![1, 2, 3]));
    assert_eq!(parse_ids(&Vec::new()), Ok(Vec::new()));
    let ids = vec!["1".to_owned(), String::new()];
    assert_eq!(parse_ids(&ids), Err(ApiError::InvalidUid));
}

#[test]
fn user_ids_come_from_the_options_where_they_list_any() {
    let mut settings = settings();
    settings.user = Some(Users { bso: 2, user_ids: vec!["10".to_owned(), "11".to_owned()] });
    let source = MysqlDb::new(&settings).unwrap();
    assert_eq!(source.get_user_ids(5), Ok(UserIds::Listed(vec![10, 11])));
    settings.user = Some(Users { bso: 2, user_ids: vec!["10".to_owned(), "1x".to_owned()] });
    let source = MysqlDb::new(&settings).unwrap();
    assert_eq!(source.get_user_ids(5), Err(ApiError::InvalidUid));
}

#[test]
fn user_ids_are_asked_of_the_shard_otherwise() {
    assert_eq!(
        source().get_user_ids(0),
        Ok(UserIds::Query("SELECT DISTINCT userid FROM bso0".to_owned()))
    );
    assert_eq!(
        source().get_user_ids(19),
        Ok(UserIds::Query("SELECT DISTINCT userid FROM bso19".to_owned()))
    );
    assert_eq!(
        source().get_user_ids(255),
        Ok(UserIds::Query("SELECT DISTINCT userid FROM bso255".to_owned()))
    );
}

#[test]
fn query_for_the_collections_of_the_source() {
    assert_eq!(
        source().collections_query(),
        "SELECT DISTINCT uc.collection, cc.name FROM user_collections as uc, collections as cc WHERE uc.collection = cc.collectionid ORDER BY uc.collection"
    );
}

#[test]
fn query_for_the_collections_of_a_user() {
    let query = source().get_user_collections(&user(42), 7);
    assert_eq!(
        query.sql,
        "SELECT collections.name, user_collections.collection, user_collections.last_modified FROM collections, user_collections WHERE user_collections.userid = :user_id and collections.collectionid = user_collections.collection;"
    );
    assert_eq!(query.params, vec![("bso_num".to_owned(), 7), ("user_id".to_owned(), 42)]);
}

#[test]
fn query_for_the_storage_objects_of_a_user() {
    let query = source().get_user_bsos(&user(42), 13);
    assert_eq!(
        query.sql,
        "SELECT collections.name, bso.collection, bso.id, bso.modified, bso.ttl, bso.payload, bso.sortindex FROM bso13 as bso, collections WHERE bso.userid = ? and collections.collectionid = bso.collection and bso.ttl > unix_timestamp() ORDER BY bso.collection, bso.id"
    );
    assert_eq!(query.params, vec![(String::new(), 42)]);
}

#[test]
fn merge_takes_new_collections_and_gives_them_back() {
    let mut base = Collections::default();
    let rows = vec![
        CollectionRow { id: 4, name: "history".to_owned() },
        CollectionRow { id: 50, name: "extras".to_owned() },
        CollectionRow { id: 51, name: "extras".to_owned() },
        CollectionRow { id: 52, name: "more".to_owned() },
        CollectionRow { id: 99, name: "keys".to_owned() },
    ];
    let fresh = source().merge_collections(&mut base, &rows);
    assert_eq!(base.get("extras").map(|c| c.collection), Some(50));
    assert_eq!(base.get("more").map(|c| c.collection), Some(52));
    assert_eq!(base.get("keys").map(|c| c.collection), Some(5));
    assert_eq!(fresh.get("extras").map(|c| (c.name.as_str(), c.collection, c.last_modified)), Some(("extras", 50, 0)));
    assert_eq!(fresh.get("more").map(|c| c.collection), Some(52));
    assert!(fresh.get("history").is_none());
    let fresh: Vec<String> = fresh.items().into_iter().map(|c| c.name).collect();
    assert_eq!(fresh, vec!["extras", "more"]);
    assert_eq!(base.items().len(), 16);
}

#[test]
fn merging_the_same_rows_again_changes_nothing() {
    let mut base = Collections::default();
    let rows = vec![
        CollectionRow { id: 50, name: "extras".to_owned() },
        CollectionRow { id: 52, name: "more".to_owned() },
    ];
    let first = source().merge_collections(&mut base, &rows);
    assert_eq!(first.items().len(), 2);
    let second = source().merge_collections(&mut base, &rows);
    assert!(second.items().is_empty());
    assert_eq!(base.items().len(), 16);
}

#[test]
fn storage_object_of_a_row_has_its_expiry_in_milliseconds() {
    let made = MysqlDb::bso_from_row(
        "tabs".to_owned(),
        9,
        "id".to_owned(),
        1_600_000_000_123,
        1_700_000_000,
        "payload".to_owned(),
        Some(3),
    );
    assert_eq!(
        made,
        Ok(Bso {
            col_name: "tabs".to_owned(),
            col_id: 9,
            bso_id: "id".to_owned(),
            expiry: 1_700_000_000_000,
            modify: 1_600_000_000_123,
            payload: "payload".to_owned(),
            sort_index: Some(3),
        })
    );
}

#[test]
fn storage_object_whose_expiry_does_not_fit() {
    let limit = u64::MAX / 1000;
    let made =
        MysqlDb::bso_from_row(String::new(), 0, String::new(), 0, limit, String::new(), None);
    assert_eq!(made.map(|b| b.expiry), Ok(limit * 1000));
    let made =
        MysqlDb::bso_from_row(String::new(), 0, String::new(), 0, limit + 1, String::new(), None);
    assert_eq!(made, Err(ApiError::InvalidTimestamp(limit + 1)));
}
