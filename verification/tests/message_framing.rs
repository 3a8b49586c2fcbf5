use dbus_wire::message::{
    deserialize_headers, serialize_headers, Header, HeaderFieldKind, HeaderFieldValue, Message,
    MessageType,
};
use dbus_wire::serialize::DbusSerialize;
use dbus_wire::utils::DbusError;

fn call_headers() -> Vec<Header> {
    vec![
        Header {
            kind: HeaderFieldKind::Path,
            value: HeaderFieldValue::String("/org/freedesktop/DBus".to_string()),
        },
        Header {
            kind: HeaderFieldKind::Destination,
            value: HeaderFieldValue::String("org.freedesktop.DBus".to_string()),
        },
        Header {
            kind: HeaderFieldKind::Member,
            value: HeaderFieldValue::String("Hello".to_string()),
        },
        Header { kind: HeaderFieldKind::ReplySerial, value: HeaderFieldValue::U32(42) },
    ]
}

#[test]
fn one_header_exact_bytes() {
    let headers = vec![Header {
        kind: HeaderFieldKind::Path,
        value: HeaderFieldValue::String("/a".to_string()),
    }];
    let bytes = serialize_headers(&headers);
    assert_eq!(bytes, vec![1, 1, b'o', 0, 2, 0, 0, 0, b'/', b'a', 0]);
}

#[test]
fn body_signature_header_has_one_byte_length() {
    let headers = vec![Header {
        kind: HeaderFieldKind::BodySignature,
        value: HeaderFieldValue::String("su".to_string()),
    }];
    let bytes = serialize_headers(&headers);
    assert_eq!(bytes, vec![8, 1, b'g', 0, 2, b's', b'u', 0]);
}

#[test]
fn headers_round_trip() {
    let bytes = serialize_headers(&call_headers());
    let back = deserialize_headers(&bytes).expect("header decode failed");
    assert_eq!(back, call_headers());
}

#[test]
fn header_signature_mismatch_is_incorrect_message() {
    // kind 1 (Path) demands 'o', but the entry declares 's'
    let bytes = vec![1u8, 1, b's', 0, 2, 0, 0, 0, b'/', b'a', 0];
    match deserialize_headers(&bytes) {
        Err(DbusError::IncorrectMessage(_)) => {},
        other => panic!("expected IncorrectMessage, got {:?}", other),
    }
}

#[test]
fn multi_byte_header_signature_is_unsupported() {
    // a signature length other than 1 is an unsupported protocol feature
    let bytes = vec![1u8, 2, b'o', b'o', 0, 0, 0, 0];
    match deserialize_headers(&bytes) {
        Err(DbusError::IncompleteImplementation(_)) => {},
        other => panic!("expected IncompleteImplementation, got {:?}", other),
    }
}

#[test]
fn message_round_trip() {
    let mut body: Vec<u8> = Vec::new();
    (String::from("org.freedesktop.systemd1.Manager"), String::from("Version"))
        .serialize(&mut body);

    let message = Message::new(MessageType::MethodCall, 7, call_headers(), body.clone());
    let bytes = message.serialize();

    let mut ctr: usize = 0;
    let back = Message::deserialize(&bytes, &mut ctr).expect("message decode failed");
    assert_eq!(ctr, bytes.len());
    assert_eq!(back.preamble.mtype, MessageType::MethodCall);
    assert_eq!(back.serial, 7);
    assert_eq!(back.headers, call_headers());
    assert_eq!(back.body, body);
}

#[test]
fn message_layout_is_padded_before_the_body() {
    let message = Message::new(MessageType::MethodCall, 1, call_headers(), vec![0xAB, 0xCD]);
    let bytes = message.serialize();
    // preamble: little endian tag, method call, no flags, version 1
    assert_eq!(bytes[0], b'l');
    assert_eq!(bytes[1], 1);
    assert_eq!(bytes[2], 0);
    assert_eq!(bytes[3], 1);
    // body length
    assert_eq!(&bytes[4..8], &[2, 0, 0, 0]);
    // serial
    assert_eq!(&bytes[8..12], &[1, 0, 0, 0]);
    // declared header length excludes the padding to the body boundary
    let hdr_len = u32::from_le_bytes(bytes[12..16].try_into().unwrap()) as usize;
    let body_start = bytes.len() - 2;
    assert_eq!(body_start % 8, 0);
    assert!(16 + hdr_len <= body_start);
    assert!(body_start - (16 + hdr_len) < 8);
    assert_eq!(&bytes[body_start..], &[0xAB, 0xCD]);
}

#[test]
fn big_endian_frame_is_unsupported() {
    let message = Message::new(MessageType::MethodCall, 1, vec![], vec![]);
    let mut bytes = message.serialize();
    bytes[0] = b'B';
    let mut ctr: usize = 0;
    match Message::deserialize(&bytes, &mut ctr) {
        Err(DbusError::IncompleteImplementation(_)) => {},
        other => panic!("expected IncompleteImplementation, got {:?}", other),
    }
}

#[test]
fn unknown_message_type_is_incorrect_message() {
    let message = Message::new(MessageType::MethodCall, 1, vec![], vec![]);
    let mut bytes = message.serialize();
    bytes[1] = 9;
    let mut ctr: usize = 0;
    match Message::deserialize(&bytes, &mut ctr) {
        Err(DbusError::IncorrectMessage(_)) => {},
        other => panic!("expected IncorrectMessage, got {:?}", other),
    }
}

#[test]
fn unknown_protocol_version_is_unsupported() {
    let message = Message::new(MessageType::MethodCall, 1, vec![], vec![]);
    let mut bytes = message.serialize();
    bytes[3] = 2;
    let mut ctr: usize = 0;
    match Message::deserialize(&bytes, &mut ctr) {
        Err(DbusError::IncompleteImplementation(_)) => {},
        other => panic!("expected IncompleteImplementation, got {:?}", other),
    }
}

#[test]
fn truncated_message_is_incorrect_message() {
    let message = Message::new(MessageType::MethodCall, 1, call_headers(), vec![1, 2, 3, 4]);
    let bytes = message.serialize();
    let mut ctr: usize = 0;
    match Message::deserialize(&bytes[..bytes.len() - 2], &mut ctr) {
        Err(DbusError::IncorrectMessage(_)) => {},
        other => panic!("expected IncorrectMessage, got {:?}", other),
    }
}
