use bytes::BytesMut;
use pg_messages::errors::Error;
use pg_messages::messages::{parse_startup, startup};
use pg_messages::params::read_tokens;

fn buffer(bytes: &[u8]) -> BytesMut {
    BytesMut::from(bytes)
}

fn value(bytes: &[u8], name: &str) -> Option<String> {
    match parse_startup(buffer(bytes)) {
        Ok(params) => params.get(name).cloned(),
        Err(_) => None,
    }
}

#[test]
fn parse_startup_reads_pairs_in_order() {
    let params = parse_startup(buffer(b"user\0alice\0database\0shop\0\0")).unwrap();
    assert_eq!(params.len(), 2);
    assert_eq!(params.get("user"), Some(&String::from("alice")));
    assert_eq!(params.get("database"), Some(&String::from("shop")));
    assert_eq!(params.get("application_name"), None);
}

#[test]
fn parse_startup_keeps_every_parameter() {
    let params =
        parse_startup(buffer(b"application_name\0psql\0user\0bob\0client_encoding\0UTF8\0"))
            .unwrap();
    assert_eq!(params.len(), 3);
    assert_eq!(params.get("application_name"), Some(&String::from("psql")));
    assert_eq!(params.get("user"), Some(&String::from("bob")));
    assert_eq!(params.get("client_encoding"), Some(&String::from("UTF8")));
}

#[test]
fn parse_startup_round_trips_an_encoded_request() {
    let mut message = startup("alice", "shop");
    let section = message.split_off(8);
    let params = parse_startup(section).unwrap();
    assert_eq!(params.len(), 2);
    assert_eq!(params.get("user"), Some(&String::from("alice")));
    assert_eq!(params.get("database"), Some(&String::from("shop")));
}

#[test]
fn parse_startup_round_trips_names_that_look_like_keys() {
    let mut message = startup("database", "user");
    let section = message.split_off(8);
    let params = parse_startup(section).unwrap();
    assert_eq!(params.len(), 2);
    assert_eq!(params.get("user"), Some(&String::from("database")));
    assert_eq!(params.get("database"), Some(&String::from("user")));
}

#[test]
fn parse_startup_rejects_an_encoded_request_without_a_user_name() {
    let mut message = startup("", "shop");
    let section = message.split_off(8);
    assert!(matches!(
        parse_startup(section),
        Err(Error::ClientBadStartup)
    ));
}

#[test]
fn parse_startup_later_pair_overrides_earlier() {
    let bytes = b"user\0first\0user\0second\0";
    let params = parse_startup(buffer(bytes)).unwrap();
    assert_eq!(params.len(), 1);
    assert_eq!(params.get("user"), Some(&String::from("second")));
}

#[test]
fn parse_startup_skips_empty_tokens() {
    let bytes = b"\0\0user\0\0\0alice\0\0";
    let params = parse_startup(buffer(bytes)).unwrap();
    assert_eq!(params.len(), 1);
    assert_eq!(params.get("user"), Some(&String::from("alice")));
}

#[test]
fn parse_startup_rejects_odd_token_count() {
    assert!(matches!(
        parse_startup(buffer(b"user\0alice\0database\0")),
        Err(Error::ClientBadStartup)
    ));
}

#[test]
fn parse_startup_rejects_a_single_token() {
    assert!(matches!(
        parse_startup(buffer(b"user\0")),
        Err(Error::ClientBadStartup)
    ));
}

#[test]
fn parse_startup_rejects_missing_user() {
    assert!(matches!(
        parse_startup(buffer(b"database\0shop\0application_name\0psql\0")),
        Err(Error::ClientBadStartup)
    ));
}

#[test]
fn parse_startup_rejects_user_in_value_position_only() {
    assert!(matches!(
        parse_startup(buffer(b"database\0user\0")),
        Err(Error::ClientBadStartup)
    ));
}

#[test]
fn parse_startup_rejects_empty_input() {
    assert!(matches!(
        parse_startup(buffer(b"")),
        Err(Error::ClientBadStartup)
    ));
    assert!(matches!(
        parse_startup(buffer(b"\0\0\0")),
        Err(Error::ClientBadStartup)
    ));
}

#[test]
fn parse_startup_ignores_bytes_after_the_last_terminator() {
    assert_eq!(
        value(b"user\0alice\0trailing", "user"),
        Some(String::from("alice"))
    );
    assert!(matches!(
        parse_startup(buffer(b"user\0alice")),
        Err(Error::ClientBadStartup)
    ));
}

#[test]
fn parse_startup_maps_each_byte_to_one_character() {
    let bytes = b"user\0zo\xE9\0";
    assert_eq!(value(bytes, "user"), Some(String::from("zo\u{e9}")));
    let bytes = b"user\0\xC3\xA9\0";
    assert_eq!(value(bytes, "user"), Some(String::from("\u{c3}\u{a9}")));
}

#[test]
fn parse_startup_name_is_case_sensitive() {
    assert!(matches!(
        parse_startup(buffer(b"USER\0alice\0")),
        Err(Error::ClientBadStartup)
    ));
}

#[test]
fn read_tokens_splits_on_terminators() {
    let tokens = read_tokens(buffer(b"a\0bc\0\0def\0tail"));
    assert_eq!(
        tokens,
        vec![String::from("a"), String::from("bc"), String::from("def")]
    );
}

#[test]
fn read_tokens_of_nothing_is_empty() {
    assert_eq!(read_tokens(buffer(b"")), Vec::<String>::new());
    assert_eq!(read_tokens(buffer(b"\0")), Vec::<String>::new());
    assert_eq!(read_tokens(buffer(b"no terminator")), Vec::<String>::new());
}
