use migration_rs::collections::{Collection, Collections};
use migration_rs::db::{Bso, User};
use migration_rs::dsn::{get_path, path_of, UrlParts};
use migration_rs::error::ApiError;
use migration_rs::fxa::FxaData;
use migration_rs::settings::Settings;
use migration_rs::spanner::{
    bso_row_params, insert, make_identity_params, make_int_param, make_text_param,
    make_time_param, numbered_name, tuple, user_collection_row_params, Param, ReportedCollection,
    Spanner, TypeCode, MAX_TIMESTAMP_SECS,
};

fn settings() -> Settings {
    let mut settings = Settings::default();
    settings.dsns.mysql = Some("mysql://source.example/sync".to_owned());
    settings.dsns.spanner = Some("spanner://projects/p/instances/i/databases/d".to_owned());
    settings
}

fn spanner() -> Spanner {
    Spanner::new(&settings()).unwrap()
}

fn user() -> User {
    User { uid: 10, fxa_data: FxaData { fxa_uid: "alice".to_owned(), fxa_kid: "k1".to_owned() } }
}

fn collection(name: &str, id: u16, modified: u64) -> Collection {
    Collection { name: name.to_owned(), collection: id, last_modified: modified }
}

fn bso(col_name: &str, col_id: u16, bso_id: &str, sort_index: Option<u64>) -> Bso {
    Bso {
        col_name: col_name.to_owned(),
        col_id,
        bso_id: bso_id.to_owned(),
        expiry: 1_700_000_000_000,
        modify: 1_600_000_000_123,
        payload: format!("payload of {}", bso_id),
        sort_index,
    }
}

fn plain(name: &str, value: &str) -> Param {
    Param { name: name.to_owned(), value: value.to_owned(), type_code: None }
}

fn number(name: &str, value: &str) -> Param {
    Param { name: name.to_owned(), value: value.to_owned(), type_code: Some(TypeCode::Int64) }
}

fn instant(name: &str, value: &str) -> Param {
    Param { name: name.to_owned(), value: value.to_owned(), type_code: Some(TypeCode::Timestamp) }
}

#[test]
fn database_path_is_host_and_path() {
    assert_eq!(
        get_path("spanner://projects/p/instances/i/databases/d"),
        Ok("projects/p/instances/i/databases/d".to_owned())
    );
    assert_eq!(get_path("https://Example.COM/a/b?q=1#frag"), Ok("example.com/a/b".to_owned()));
    assert_eq!(get_path("http://example.com"), Ok("example.com/".to_owned()));
}

#[test]
fn database_path_without_host_is_local() {
    assert_eq!(get_path("file:///var/db"), Ok("localhost/var/db".to_owned()));
    assert_eq!(get_path("mailto:someone@example.com"), Ok("localhostsomeone@example.com".to_owned()));
}

#[test]
fn database_path_of_what_is_no_url() {
    assert_eq!(get_path("projects/p/instances/i"), Err(ApiError::InvalidDsn));
    assert_eq!(get_path(""), Err(ApiError::InvalidDsn));
    assert_eq!(get_path("http://[bad"), Err(ApiError::InvalidDsn));
}

#[test]
fn path_of_given_parts() {
    let parts = UrlParts { scheme: "x".to_owned(), host: Some("h".to_owned()), path: "/p".to_owned() };
    assert_eq!(path_of(&parts), "h/p");
    let parts = UrlParts { scheme: "x".to_owned(), host: None, path: "/p".to_owned() };
    assert_eq!(path_of(&parts), "localhost/p");
    let parts = UrlParts { scheme: "x".to_owned(), host: Some(String::new()), path: String::new() };
    assert_eq!(path_of(&parts), "");
}

#[test]
fn destination_needs_both_locations() {
    let mut missing = settings();
    missing.dsns.spanner = None;
    assert_eq!(Spanner::new(&missing), Err(ApiError::NoDsns));
    let mut missing = settings();
    missing.dsns.mysql = None;
    assert_eq!(Spanner::new(&missing), Err(ApiError::NoDsns));
    assert_eq!(Spanner::new(&Settings::default()), Err(ApiError::NoDsns));
}

#[test]
fn destination_needs_a_url() {
    let mut bad = settings();
    bad.dsns.spanner = Some("no url".to_owned());
    assert_eq!(Spanner::new(&bad), Err(ApiError::InvalidDsn));
}

#[test]
fn destination_keeps_options_and_database_name() {
    let made = spanner();
    assert_eq!(made.database_name, "projects/p/instances/i/databases/d");
    assert_eq!(made.settings, settings());
}

#[test]
fn time_is_written_with_nine_digits_and_z() {
    let spanner = spanner();
    assert_eq!(spanner.as_rfc3339(0), Ok("1970-01-01T00:00:00.000000000Z".to_owned()));
    assert_eq!(spanner.as_rfc3339(1), Ok("1970-01-01T00:00:00.001000000Z".to_owned()));
    assert_eq!(spanner.as_rfc3339(999), Ok("1970-01-01T00:00:00.999000000Z".to_owned()));
    assert_eq!(
        spanner.as_rfc3339(1_600_000_000_123),
        Ok("2020-09-13T12:26:40.123000000Z".to_owned())
    );
    assert_eq!(
        spanner.as_rfc3339(253_402_300_799_999),
        Ok("9999-12-31T23:59:59.999000000Z".to_owned())
    );
}

#[test]
fn time_beyond_four_digit_years_has_a_sign() {
    let spanner = spanner();
    assert_eq!(
        spanner.as_rfc3339(253_402_300_800_000),
        Ok("+10000-01-01T00:00:00.000000000Z".to_owned())
    );
}

#[test]
fn last_time_that_the_destination_can_hold() {
    let spanner = spanner();
    assert_eq!(MAX_TIMESTAMP_SECS, 8_210_266_876_799);
    assert_eq!(
        spanner.as_rfc3339(8_210_266_876_799_999),
        Ok("+262142-12-31T23:59:59.999000000Z".to_owned())
    );
    assert_eq!(
        spanner.as_rfc3339(8_210_266_876_800_000),
        Err(ApiError::InvalidTimestamp(8_210_266_876_800_000))
    );
    assert_eq!(spanner.as_rfc3339(u64::MAX), Err(ApiError::InvalidTimestamp(u64::MAX)));
}

#[test]
fn names_tuples_and_inserts() {
    assert_eq!(numbered_name("bso_", 0), "bso_0");
    assert_eq!(numbered_name("collection_id_", 1234), "collection_id_1234");
    assert_eq!(tuple(&vec!["a".to_owned(), "b_1".to_owned()]), "(@a, @b_1)");
    assert_eq!(tuple(&vec!["a".to_owned()]), "(@a)");
    assert_eq!(tuple(&Vec::new()), "()");
    assert_eq!(
        insert("INSERT INTO t (a)", &vec!["(@a_0)".to_owned(), "(@a_1)".to_owned()]),
        "INSERT INTO t (a) VALUES (@a_0),(@a_1)"
    );
    assert_eq!(insert("H", &Vec::new()), "H VALUES ");
}

#[test]
fn params_of_each_kind() {
    assert_eq!(make_text_param("n".to_owned(), "v"), plain("n", "v"));
    assert_eq!(make_int_param("n".to_owned(), 65_535), number("n", "65535"));
    assert_eq!(make_time_param("n".to_owned(), "t".to_owned()), instant("n", "t"));
    assert_eq!(make_identity_params(&user()), vec![plain("fxa_kid", "k1"), plain("fxa_uid", "alice")]);
}

#[test]
fn no_new_collections_no_statement() {
    assert_eq!(spanner().add_new_collections(Collections::empty()), None);
}

#[test]
fn new_collections_go_into_one_insert() {
    let mut fresh = Collections::empty();
    fresh.set("extras", collection("extras", 101, 5));
    fresh.set("more", collection("more", 102, 6));
    let statement = spanner().add_new_collections(fresh).unwrap();
    assert_eq!(
        statement.sql,
        "INSERT INTO collections (collection_id, name) VALUES (@collection_id_0, @name_0),(@collection_id_1, @name_1)"
    );
    assert_eq!(
        statement.params,
        vec![
            number("collection_id_0", "101"),
            plain("name_0", "extras"),
            number("collection_id_1", "102"),
            plain("name_1", "more"),
        ]
    );
    assert_eq!(statement.rows, 2);
}

#[test]
fn user_without_collections_has_no_insert() {
    assert_eq!(spanner().load_user_collections(&user(), Vec::new()), Ok(None));
}

#[test]
fn user_collections_go_into_one_insert() {
    let rows = vec![collection("bookmarks", 7, 1_600_000_000_123), collection("tabs", 9, 0)];
    let statement = spanner().load_user_collections(&user(), rows).unwrap().unwrap();
    assert_eq!(
        statement.sql,
        "INSERT INTO user_collections (fxa_kid, fxa_uid, collection_id, modified) VALUES (@fxa_kid, @fxa_uid, @collection_id_0, @modified_0),(@fxa_kid, @fxa_uid, @collection_id_1, @modified_1)"
    );
    assert_eq!(
        statement.params,
        vec![
            plain("fxa_kid", "k1"),
            plain("fxa_uid", "alice"),
            number("collection_id_0", "7"),
            instant("modified_0", "2020-09-13T12:26:40.123000000Z"),
            number("collection_id_1", "9"),
            instant("modified_1", "1970-01-01T00:00:00.000000000Z"),
        ]
    );
    assert_eq!(statement.rows, 2);
}

#[test]
fn user_collection_with_a_time_out_of_range() {
    let rows = vec![
        collection("bookmarks", 7, 1),
        collection("tabs", 9, u64::MAX),
        collection("keys", 5, u64::MAX - 1),
    ];
    assert_eq!(
        spanner().load_user_collections(&user(), rows),
        Err(ApiError::InvalidTimestamp(u64::MAX))
    );
}

#[test]
fn user_collection_row_from_given_values() {
    assert_eq!(
        user_collection_row_params(3, &collection("tabs", 9, 77), "then".to_owned()),
        vec![number("collection_id_3", "9"), instant("modified_3", "then")]
    );
}

#[test]
fn no_storage_objects_no_insert() {
    assert_eq!(spanner().add_user_bsos(&user(), &[], &Collections::default()), Ok(None));
}

#[test]
fn storage_objects_go_into_one_insert() {
    let rows = vec![bso("bookmarks", 70, "b1", Some(5)), bso("homemade", 200, "h1", None)];
    let statement =
        spanner().add_user_bsos(&user(), &rows, &Collections::default()).unwrap().unwrap();
    assert_eq!(
        statement.sql,
        "INSERT INTO bsos (fxa_kid, fxa_uid,  bso_id, collection_id, expiry, modified, payload, sortindex) VALUES (@fxa_kid, @fxa_uid, @bso_0, @collection_id_0, @expiry_0, @modified_0, @payload_0, @sortindex_0),(@fxa_kid, @fxa_uid, @bso_1, @collection_id_1, @expiry_1, @modified_1, @payload_1, @sortindex_1)"
    );
    assert_eq!(
        statement.params,
        vec![
            plain("fxa_kid", "k1"),
            plain("fxa_uid", "alice"),
            plain("bso_0", "b1"),
            number("collection_id_0", "7"),
            instant("expiry_0", "2023-11-14T22:13:20.000000000Z"),
            instant("modified_0", "2020-09-13T12:26:40.123000000Z"),
            plain("payload_0", "payload of b1"),
            number("sortindex_0", "5"),
            plain("bso_1", "h1"),
            number("collection_id_1", "200"),
            instant("expiry_1", "2023-11-14T22:13:20.000000000Z"),
            instant("modified_1", "2020-09-13T12:26:40.123000000Z"),
            plain("payload_1", "payload of h1"),
            number("sortindex_1", "0"),
        ]
    );
    assert_eq!(statement.rows, 2);
}

#[test]
fn storage_object_with_a_time_out_of_range() {
    let mut late = bso("tabs", 9, "t1", None);
    late.modify = 9_000_000_000_000_000_000;
    let mut later = bso("tabs", 9, "t2", None);
    later.expiry = 9_000_000_000_000_000_001;
    later.modify = 9_000_000_000_000_000_002;
    let rows = vec![bso("tabs", 9, "t0", None), late, later];
    assert_eq!(
        spanner().add_user_bsos(&user(), &rows, &Collections::default()),
        Err(ApiError::InvalidTimestamp(9_000_000_000_000_000_000))
    );
    assert_eq!(
        spanner().add_user_bsos(&user(), &rows[2..], &Collections::default()),
        Err(ApiError::InvalidTimestamp(9_000_000_000_000_000_001))
    );
}

#[test]
fn storage_object_row_from_given_values() {
    assert_eq!(
        bso_row_params(2, &bso("tabs", 9, "t1", Some(8)), 90, "e".to_owned(), "m".to_owned()),
        vec![
            plain("bso_2", "t1"),
            number("collection_id_2", "90"),
            instant("expiry_2", "e"),
            instant("modified_2", "m"),
            plain("payload_2", "payload of t1"),
            number("sortindex_2", "8"),
        ]
    );
}

#[test]
fn param_names_of_a_statement_are_distinct() {
    let rows: Vec<Bso> = (0..25).map(|i| bso("tabs", 9, &format!("t{}", i), None)).collect();
    let statement =
        spanner().add_user_bsos(&user(), &rows, &Collections::default()).unwrap().unwrap();
    let mut names: Vec<&str> = statement.params.iter().map(|p| p.name.as_str()).collect();
    assert_eq!(names.len(), 2 + 6 * 25);
    names.sort();
    names.dedup();
    assert_eq!(names.len(), 2 + 6 * 25);
}

#[test]
fn destination_collections_start_from_the_well_known() {
    let rows = vec![
        ReportedCollection { id: "7".to_owned(), name: "bookmarks".to_owned() },
        ReportedCollection { id: "300".to_owned(), name: "bookmarks".to_owned() },
        ReportedCollection { id: "301".to_owned(), name: "extras".to_owned() },
        ReportedCollection { id: "302".to_owned(), name: "extras".to_owned() },
    ];
    let table = spanner().get_collections(&rows).unwrap();
    assert_eq!(table.get("bookmarks").map(|c| c.collection), Some(7));
    assert_eq!(table.get("extras"), Some(&collection("extras", 301, 0)));
    assert_eq!(table.items().len(), 15);
    let table = spanner().get_collections(&Vec::new()).unwrap();
    assert_eq!(table.items().len(), 14);
}

#[test]
fn destination_collection_with_a_bad_number() {
    for id in ["", "x", "65536", "-1", "1.0"] {
        let rows = vec![
            ReportedCollection { id: "1".to_owned(), name: "clients".to_owned() },
            ReportedCollection { id: id.to_owned(), name: "extras".to_owned() },
        ];
        assert!(
            matches!(spanner().get_collections(&rows), Err(ApiError::InvalidCollectionId)),
            "{:?}",
            id
        );
    }
}

#[test]
fn query_for_the_collections_of_the_destination() {
    assert_eq!(
        spanner().collections_query(),
        "SELECT cc.collection_id, cc.name FROM collections as cc ORDER BY cc.collection_id"
    );
}
