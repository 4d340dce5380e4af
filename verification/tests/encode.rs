use bytes::BytesMut;
use pg_messages::errors::Error;
use pg_messages::messages::{
    auth_ok, backend_key_data, custom_protocol_response_ok, md5_password, password_response,
    ready_for_query, shutting_down, startup, PROTOCOL_VERSION,
};

fn bytes_of(buf: &BytesMut) -> Vec<u8> {
    buf[..].to_vec()
}

#[test]
fn auth_ok_is_nine_exact_bytes() {
    let frame = auth_ok();
    assert_eq!(
        bytes_of(&frame),
        vec![0x52, 0x00, 0x00, 0x00, 0x08, 0x00, 0x00, 0x00, 0x00]
    );
}

#[test]
fn ready_for_query_is_six_exact_bytes() {
    let frame = ready_for_query();
    assert_eq!(bytes_of(&frame), vec![0x5A, 0x00, 0x00, 0x00, 0x05, 0x49]);
}

#[test]
fn backend_key_data_carries_both_integers_big_endian() {
    let frame = backend_key_data(0x0102_0304, 0x0A0B_0C0D);
    assert_eq!(
        bytes_of(&frame),
        vec![b'K', 0, 0, 0, 12, 0x01, 0x02, 0x03, 0x04, 0x0A, 0x0B, 0x0C, 0x0D]
    );
}

#[test]
fn backend_key_data_encodes_negative_values_in_twos_complement() {
    let frame = backend_key_data(-1, i32::MIN);
    assert_eq!(
        bytes_of(&frame),
        vec![b'K', 0, 0, 0, 12, 0xFF, 0xFF, 0xFF, 0xFF, 0x80, 0x00, 0x00, 0x00]
    );
    let frame = backend_key_data(i32::MAX, -2);
    assert_eq!(
        bytes_of(&frame),
        vec![b'K', 0, 0, 0, 12, 0x7F, 0xFF, 0xFF, 0xFF, 0xFF, 0xFF, 0xFF, 0xFE]
    );
}

#[test]
fn startup_has_no_tag_and_counts_its_own_length() {
    let message = startup("postgres", "shop");
    let mut expected: Vec<u8> = Vec::new();
    expected.extend_from_slice(&[0, 0, 0, 37]);
    expected.extend_from_slice(&[0x00, 0x03, 0x00, 0x00]);
    expected.extend_from_slice(b"user\0postgres\0database\0shop\0\0");
    assert_eq!(bytes_of(&message), expected);
    assert_eq!(message.len(), 37);
}

#[test]
fn startup_with_empty_names_is_twenty_five_bytes() {
    let message = startup("", "");
    let mut expected: Vec<u8> = vec![0, 0, 0, 25, 0x00, 0x03, 0x00, 0x00];
    expected.extend_from_slice(b"user\0\0database\0\0\0");
    assert_eq!(bytes_of(&message), expected);
}

#[test]
fn startup_writes_the_utf8_bytes_of_its_arguments() {
    let message = startup("zo\u{e9}", "d");
    let mut expected: Vec<u8> = vec![0, 0, 0, 30, 0x00, 0x03, 0x00, 0x00];
    expected.extend_from_slice(b"user\0zo\xC3\xA9\0database\0d\0\0");
    assert_eq!(bytes_of(&message), expected);
}

#[test]
fn protocol_version_is_three_point_zero() {
    assert_eq!(PROTOCOL_VERSION, 196608);
    assert_eq!(PROTOCOL_VERSION, 3 << 16);
}

#[test]
fn password_response_wraps_a_challenge() {
    let frame = password_response(b"md5abc");
    assert_eq!(
        bytes_of(&frame),
        vec![b'p', 0, 0, 0, 11, b'm', b'd', b'5', b'a', b'b', b'c', 0]
    );
}

#[test]
fn password_response_of_nothing_is_a_lone_terminator() {
    let frame = password_response(b"");
    assert_eq!(bytes_of(&frame), vec![b'p', 0, 0, 0, 5, 0]);
}

#[test]
fn md5_password_golden_frame() {
    let frame = md5_password("u", "pw", &[1, 2, 3, 4]);
    let mut expected: Vec<u8> = vec![b'p', 0, 0, 0, 40];
    expected.extend_from_slice(b"md50803a98a0618b75c8f9a50f280cad373");
    expected.push(0);
    assert_eq!(bytes_of(&frame), expected);
    assert_eq!(frame.len(), 41);
}

#[test]
fn md5_password_hashes_password_before_user() {
    let one = md5_password("postgres", "secret", &[0x93, 0x1a, 0x0f, 0xee]);
    let mut expected: Vec<u8> = vec![b'p', 0, 0, 0, 40];
    expected.extend_from_slice(b"md58e6d2a8f8c67cfbf1900b96bdf4828b7");
    expected.push(0);
    assert_eq!(bytes_of(&one), expected);
    let swapped = md5_password("secret", "postgres", &[0x93, 0x1a, 0x0f, 0xee]);
    assert_ne!(bytes_of(&swapped), expected);
}

#[test]
fn custom_protocol_response_ok_is_complete_then_ready() {
    let message = custom_protocol_response_ok("SET SHARDING KEY");
    let mut expected: Vec<u8> = vec![b'C', 0, 0, 0, 21];
    expected.extend_from_slice(b"SET SHARDING KEY\0");
    expected.extend_from_slice(&[b'Z', 0, 0, 0, 5, b'I']);
    assert_eq!(bytes_of(&message), expected);
}

#[test]
fn custom_protocol_response_ok_with_empty_text() {
    let message = custom_protocol_response_ok("");
    assert_eq!(
        bytes_of(&message),
        vec![b'C', 0, 0, 0, 5, 0, b'Z', 0, 0, 0, 5, b'I']
    );
}

#[test]
fn shutting_down_is_a_fatal_notice() {
    let frame = shutting_down();
    let mut expected: Vec<u8> = vec![b'N', 0, 0, 0, 77];
    expected.extend_from_slice(b"SFATAL\0");
    expected.extend_from_slice(b"VFATAL\0");
    expected.extend_from_slice(b"C57P01\0");
    expected.extend_from_slice(b"Mterminating connection due to administrator command");
    assert_eq!(bytes_of(&frame), expected);
    assert_eq!(frame.len(), 78);
}

#[test]
fn shutting_down_length_field_counts_all_that_follows_it() {
    let frame = shutting_down();
    let field = i32::from_be_bytes([frame[1], frame[2], frame[3], frame[4]]);
    assert_eq!(field as usize, frame.len() - 1);
    assert_eq!(frame[frame.len() - 1], b'd');
}

#[test]
fn error_kinds_are_distinct() {
    assert_ne!(Error::SocketError, Error::ClientBadStartup);
    assert_eq!(Error::SocketError, Error::SocketError.clone());
    assert_eq!(format!("{:?}", Error::ClientBadStartup), "ClientBadStartup");
}
