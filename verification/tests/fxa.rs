use migration_rs::error::ApiError;
use migration_rs::fxa::{make_kid, FxaCSVRecord, FxaData, FxaInfo};
use migration_rs::settings::Settings;
use std::collections::HashMap;

fn record(email: &str, generation: Option<u64>, keys: Option<u64>, state: &str) -> FxaCSVRecord {
    FxaCSVRecord {
        uid: 1,
        email: email.to_owned(),
        generation,
        keys_changed_at: keys,
        client_state: state.to_owned(),
    }
}

fn lines(text: &[&str]) -> Vec<String> {
    text.iter().map(|line| (*line).to_owned()).collect()
}

fn is_simple_id(text: &str) -> bool {
    text.len() == 32 && text.chars().all(|c| c.is_ascii_digit() || ('a'..='f').contains(&c))
}

#[test]
fn uid_is_the_local_part_of_the_email() {
    assert_eq!(FxaInfo::gen_uid(&record("alice@example.com", None, None, "")), Ok("alice".to_owned()));
    assert_eq!(FxaInfo::gen_uid(&record("a@b@c", None, None, "")), Ok("a".to_owned()));
    assert_eq!(FxaInfo::gen_uid(&record("@example.com", None, None, "")), Ok(String::new()));
    assert_eq!(FxaInfo::gen_uid(&record("no-at-sign", None, None, "")), Ok("no-at-sign".to_owned()));
    assert_eq!(FxaInfo::gen_uid(&record("", None, None, "")), Ok(String::new()));
}

#[test]
fn kid_is_padded_index_and_encoded_state() {
    let kid = FxaInfo::gen_kid(&record("a@b", Some(7), Some(42), "deadbeef"));
    assert_eq!(kid, Ok("0000000000042-3q2-7w".to_owned()));
}

#[test]
fn kid_index_falls_back_to_generation_then_zero() {
    assert_eq!(
        FxaInfo::gen_kid(&record("a@b", Some(7), None, "00")),
        Ok("0000000000007-AA".to_owned())
    );
    assert_eq!(
        FxaInfo::gen_kid(&record("a@b", None, None, "00")),
        Ok("0000000000000-AA".to_owned())
    );
    assert_eq!(
        FxaInfo::gen_kid(&record("a@b", None, Some(0), "00")),
        Ok("0000000000000-AA".to_owned())
    );
}

#[test]
fn kid_of_an_empty_client_state() {
    assert_eq!(
        FxaInfo::gen_kid(&record("a@b", None, Some(1_599_999_999_999), "")),
        Ok("1599999999999-".to_owned())
    );
}

#[test]
fn kid_with_an_index_of_more_than_thirteen_digits() {
    assert_eq!(
        FxaInfo::gen_kid(&record("a@b", None, Some(u64::MAX), "ff")),
        Ok("18446744073709551615-_w".to_owned())
    );
}

#[test]
fn kid_encodes_the_bytes_of_the_state_not_its_text() {
    // Upper and lower case digits write the same bytes.
    let lower = FxaInfo::gen_kid(&record("a@b", None, Some(1), "fbffbf00"));
    let upper = FxaInfo::gen_kid(&record("a@b", None, Some(1), "FBFFBF00"));
    assert_eq!(lower, Ok("0000000000001--_-_AA".to_owned()));
    assert_eq!(upper, lower);
    assert_eq!(
        FxaInfo::gen_kid(&record("a@b", None, Some(1), "0123456789abcdef")),
        Ok("0000000000001-ASNFZ4mrze8".to_owned())
    );
}

#[test]
fn kid_needs_a_hexadecimal_client_state() {
    for state in ["abc", "zz", "0g", " 00", "00 ", "éé", "0x00", "a"] {
        assert_eq!(
            FxaInfo::gen_kid(&record("a@b", None, None, state)),
            Err(ApiError::InvalidClientState),
            "{:?}",
            state
        );
    }
}

#[test]
fn make_kid_joins_with_a_hyphen() {
    assert_eq!(make_kid(5, "abc"), "0000000000005-abc");
    assert_eq!(make_kid(0, ""), "0000000000000-");
}

#[test]
fn same_email_same_uid_and_same_key_same_kid() {
    let a = record("carol@one.example", Some(3), None, "a1b2");
    let mut b = record("carol@one.example", None, Some(3), "a1b2");
    b.uid = 99;
    assert_eq!(FxaInfo::gen_uid(&a), FxaInfo::gen_uid(&b));
    assert_eq!(FxaInfo::gen_kid(&a), FxaInfo::gen_kid(&b));
    let c = record("carol@two.example", Some(4), None, "a1b2");
    assert_eq!(FxaInfo::gen_uid(&a), FxaInfo::gen_uid(&c));
    assert_ne!(FxaInfo::gen_kid(&a), FxaInfo::gen_kid(&c));
}

#[test]
fn lookup_finds_what_the_table_holds() {
    let mut users = HashMap::new();
    users.insert(10, FxaData { fxa_uid: "alice".to_owned(), fxa_kid: "k1".to_owned() });
    let info = FxaInfo { users, anon: false };
    assert_eq!(
        info.get_fxa_data(10),
        Some(FxaData { fxa_uid: "alice".to_owned(), fxa_kid: "k1".to_owned() })
    );
    assert_eq!(info.get_fxa_data(11), None);
    assert_eq!(info.get_fxa_data(10), info.get_fxa_data(10));
}

#[test]
fn anonymized_lookup_makes_identities_up() {
    let info = FxaInfo { users: HashMap::new(), anon: true };
    let first = info.get_fxa_data(10).unwrap();
    let second = info.get_fxa_data(10).unwrap();
    assert!(is_simple_id(&first.fxa_uid), "{}", first.fxa_uid);
    assert!(is_simple_id(&first.fxa_kid), "{}", first.fxa_kid);
    assert!(is_simple_id(&second.fxa_uid));
    assert!(is_simple_id(&second.fxa_kid));
    assert_ne!(first.fxa_uid, first.fxa_kid);
    assert_ne!(first, second);
}

#[test]
fn anonymized_lookup_passes_over_the_table() {
    let mut users = HashMap::new();
    users.insert(10, FxaData { fxa_uid: "alice".to_owned(), fxa_kid: "k1".to_owned() });
    let info = FxaInfo { users, anon: true };
    let found = info.get_fxa_data(10).unwrap();
    assert_ne!(found.fxa_uid, "alice");
    assert!(is_simple_id(&found.fxa_uid));
}

#[test]
fn default_identity_is_empty() {
    assert_eq!(FxaData::default(), FxaData { fxa_uid: String::new(), fxa_kid: String::new() });
}

#[test]
fn record_line_with_all_fields() {
    let parsed = FxaInfo::parse_record("12\tbob@example.com\t3\t1600000000000\tdeadbeef");
    assert_eq!(
        parsed,
        Ok(Some(FxaCSVRecord {
            uid: 12,
            email: "bob@example.com".to_owned(),
            generation: Some(3),
            keys_changed_at: Some(1_600_000_000_000),
            client_state: "deadbeef".to_owned(),
        }))
    );
}

#[test]
fn record_line_with_null_and_empty_fields() {
    let parsed = FxaInfo::parse_record("12\tbob@example.com\tNULL\t\tNULL").unwrap().unwrap();
    assert_eq!(parsed.generation, None);
    assert_eq!(parsed.keys_changed_at, None);
    assert_eq!(parsed.client_state, "");
    let parsed = FxaInfo::parse_record("12\tbob@example.com\t\tNULL\t").unwrap().unwrap();
    assert_eq!(parsed.generation, None);
    assert_eq!(parsed.keys_changed_at, None);
    assert_eq!(parsed.client_state, "");
}

#[test]
fn record_line_with_more_fields_than_five() {
    let parsed = FxaInfo::parse_record("1\ta@b\t2\t3\tff\textra\tmore").unwrap().unwrap();
    assert_eq!(parsed.uid, 1);
    assert_eq!(parsed.client_state, "ff");
}

#[test]
fn comment_and_header_lines_hold_no_record() {
    assert_eq!(FxaInfo::parse_record("# a comment"), Ok(None));
    assert_eq!(FxaInfo::parse_record("  \t#indented\tcomment"), Ok(None));
    assert_eq!(FxaInfo::parse_record("#"), Ok(None));
    assert_eq!(FxaInfo::parse_record("uid\temail\tgeneration\tkeys_changed_at\tclient_state"), Ok(None));
    assert_eq!(FxaInfo::parse_record("uid"), Ok(None));
}

#[test]
fn lines_that_cannot_be_read() {
    for line in [
        "",
        "   ",
        "12",
        "12\ta@b\t1\t2",
        "x\ta@b\t1\t2\tff",
        "12\ta@b\tx\t2\tff",
        "12\ta@b\t1\tx\tff",
        "12 a@b 1 2 ff",
        " uid\temail\tgeneration\tkeys_changed_at\tclient_state",
        "-1\ta@b\t1\t2\tff",
        "12\ta@b\tnull\t2\tff",
    ] {
        assert_eq!(FxaInfo::parse_record(line), Err(ApiError::InvalidRecord), "{:?}", line);
    }
}

#[test]
fn identities_from_lines() {
    let settings = Settings::default();
    let data = lines(&[
        "uid\temail\tgeneration\tkeys_changed_at\tclient_state",
        "# test data",
        "10\talice@example.com\t1\t42\tdeadbeef",
        "11\tbob@example.org\tNULL\tNULL\tNULL",
    ]);
    let info = FxaInfo::new(&settings, &data).unwrap();
    assert!(!info.anon);
    assert_eq!(info.users.len(), 2);
    assert_eq!(
        info.get_fxa_data(10),
        Some(FxaData { fxa_uid: "alice".to_owned(), fxa_kid: "0000000000042-3q2-7w".to_owned() })
    );
    assert_eq!(
        info.get_fxa_data(11),
        Some(FxaData { fxa_uid: "bob".to_owned(), fxa_kid: "0000000000000-".to_owned() })
    );
    assert_eq!(info.get_fxa_data(12), None);
}

#[test]
fn later_record_of_a_user_stays() {
    let settings = Settings::default();
    let data = lines(&["10\tfirst@example.com\t1\t\t00", "10\tsecond@example.com\t2\t\t00"]);
    let info = FxaInfo::new(&settings, &data).unwrap();
    assert_eq!(info.users.len(), 1);
    assert_eq!(
        info.get_fxa_data(10),
        Some(FxaData { fxa_uid: "second".to_owned(), fxa_kid: "0000000000002-AA".to_owned() })
    );
}

#[test]
fn identity_data_without_users_is_an_error() {
    let settings = Settings::default();
    assert_eq!(FxaInfo::new(&settings, &Vec::new()), Err(ApiError::NoUsers));
    let data = lines(&["uid\temail\tgeneration\tkeys_changed_at\tclient_state", "# nobody"]);
    assert_eq!(FxaInfo::new(&settings, &data), Err(ApiError::NoUsers));
}

#[test]
fn first_bad_line_ends_the_reading() {
    let settings = Settings::default();
    let data = lines(&["10\ta@b\t1\t2\tff", "11\tc@d\t1\t2\txyz", "broken"]);
    assert_eq!(FxaInfo::new(&settings, &data), Err(ApiError::InvalidClientState));
    let data = lines(&["10\ta@b\t1\t2\tff", "broken", "11\tc@d\t1\t2\txyz"]);
    assert_eq!(FxaInfo::new(&settings, &data), Err(ApiError::InvalidRecord));
}

#[test]
fn anonymized_table_reads_no_line() {
    let mut settings = Settings::default();
    settings.anon = true;
    let info = FxaInfo::new(&settings, &lines(&["broken"])).unwrap();
    assert!(info.anon);
    assert!(info.users.is_empty());
    let info = FxaInfo::new(&settings, &Vec::new()).unwrap();
    assert!(info.anon);
}
