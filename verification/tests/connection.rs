use dbus_wire::dbus::{
    auth_message, auth_reply_ok, check_auth_reply, hello_headers, split_messages, uid_to_hex_str,
    DbusConnection,
};
use dbus_wire::message::{Header, HeaderFieldKind, HeaderFieldValue, Message, MessageType};
use dbus_wire::utils::DbusError;

#[test]
fn uid_hex_encoding() {
    // each ASCII digit of the decimal UID becomes its two-digit hex value
    assert_eq!(uid_to_hex_str(1000), "31303030");
    assert_eq!(uid_to_hex_str(0), "30");
    assert_eq!(uid_to_hex_str(65534), "3635353334");
}

#[test]
fn auth_line_for_uid_1000() {
    assert_eq!(auth_message(1000), "AUTH EXTERNAL 31303030\r\n");
    assert_eq!(auth_message(1000).as_bytes(), b"AUTH EXTERNAL 31303030\r\n");
}

#[test]
fn auth_reply_check() {
    assert!(auth_reply_ok(b"OK 1234deadbeef\r\n"));
    // embedded NULs are stripped before the check
    assert!(auth_reply_ok(b"\0OK guid\r\n"));
    assert!(auth_reply_ok(b"O\0K"));
    assert!(!auth_reply_ok(b"REJECTED EXTERNAL\r\n"));
    assert!(!auth_reply_ok(b""));
    assert!(!auth_reply_ok(b"\0\0\0"));
    assert!(!auth_reply_ok(b"NO KIDDING"));
}

#[test]
fn rejected_auth_is_a_connection_error() {
    assert!(check_auth_reply(b"\0OK guid\r\n").is_ok());
    match check_auth_reply(b"REJECTED EXTERNAL\r\n") {
        Err(DbusError::ConnectionError(m)) => {
            assert_eq!(m, "Authentication failed, got message : REJECTED EXTERNAL\r\n");
        },
        other => panic!("expected ConnectionError, got {:?}", other),
    }
}

#[test]
fn hello_call_headers() {
    let headers = hello_headers();
    assert_eq!(headers.len(), 4);
    assert_eq!(headers[0].kind, HeaderFieldKind::Path);
    assert_eq!(headers[0].value, HeaderFieldValue::String("/org/freedesktop/DBus".to_string()));
    assert_eq!(headers[1].kind, HeaderFieldKind::Destination);
    assert_eq!(headers[1].value, HeaderFieldValue::String("org.freedesktop.DBus".to_string()));
    assert_eq!(headers[2].kind, HeaderFieldKind::Interface);
    assert_eq!(headers[2].value, HeaderFieldValue::String("org.freedesktop.DBus".to_string()));
    assert_eq!(headers[3].kind, HeaderFieldKind::Member);
    assert_eq!(headers[3].value, HeaderFieldValue::String("Hello".to_string()));
}

#[test]
fn serials_count_up_from_one() {
    let mut conn = DbusConnection::new(3);
    assert_eq!(conn.socket_fd(), 3);
    assert_eq!(conn.get_msg_id(), 1);
    assert_eq!(conn.get_msg_id(), 2);
    assert_eq!(conn.get_msg_id(), 3);
}

#[test]
fn message_bytes_carries_the_next_serial() {
    let mut conn = DbusConnection::new(5);
    let first = conn.message_bytes(MessageType::MethodCall, hello_headers(), vec![]);
    let second = conn.message_bytes(MessageType::MethodCall, hello_headers(), vec![]);
    assert_eq!(&first[8..12], &[1, 0, 0, 0]);
    assert_eq!(&second[8..12], &[2, 0, 0, 0]);

    let mut ctr: usize = 0;
    let back = Message::deserialize(&first, &mut ctr).expect("decode failed");
    assert_eq!(back.serial, 1);
    assert_eq!(back.headers, hello_headers());
    assert!(back.body.is_empty());
}

fn sample(serial: u32, member: &str, body: Vec<u8>) -> Message {
    let headers = vec![Header {
        kind: HeaderFieldKind::Member,
        value: HeaderFieldValue::String(member.to_string()),
    }];
    Message::new(MessageType::MethodReturn, serial, headers, body)
}

#[test]
fn concatenated_messages_split_in_order() {
    let m1 = sample(1, "First", vec![9, 9]);
    let m2 = sample(2, "Second", vec![]);
    let mut stream = m1.serialize();
    stream.extend_from_slice(&m2.serialize());

    let messages = split_messages(&stream).expect("split failed");
    assert_eq!(messages.len(), 2);
    assert_eq!(messages[0].serial, 1);
    assert_eq!(messages[0].body, vec![9, 9]);
    assert_eq!(
        messages[0].headers[0].value,
        HeaderFieldValue::String("First".to_string())
    );
    assert_eq!(messages[1].serial, 2);
    assert!(messages[1].body.is_empty());
    assert_eq!(
        messages[1].headers[0].value,
        HeaderFieldValue::String("Second".to_string())
    );
}

#[test]
fn empty_stream_splits_into_no_messages() {
    let messages = split_messages(&[]).expect("split failed");
    assert!(messages.is_empty());
}

#[test]
fn trailing_garbage_fails_the_split() {
    let mut stream = sample(1, "Only", vec![]).serialize();
    stream.push(0xFF);
    assert!(split_messages(&stream).is_err());
}
