use dbus_wire::dbus::DbusConnection;
use dbus_wire::message::{
    Header, HeaderFieldKind, HeaderFieldValue, Message, MessageType,
};
use dbus_wire::proxy::{decode_reply, Proxy};
use dbus_wire::serialize::{DbusSerialize, Variant};
use dbus_wire::utils::DbusError;

fn reply_with(sig: &str, body: Vec<u8>) -> Vec<Message> {
    let headers = vec![Header {
        kind: HeaderFieldKind::BodySignature,
        value: HeaderFieldValue::String(sig.to_string()),
    }];
    vec![Message::new(MessageType::MethodReturn, 1, headers, body)]
}

#[test]
fn method_call_frame_carries_headers_and_body() {
    let mut conn = DbusConnection::new(7);
    let proxy = conn.proxy(
        "org.freedesktop.systemd1".to_string(),
        "/org/freedesktop/systemd1".to_string(),
    );
    let body = ("org.freedesktop.systemd1.Manager".to_string(), "Version".to_string());
    let bytes = proxy.method_call_bytes(
        &mut conn,
        "org.freedesktop.DBus.Properties",
        "Get",
        Some(body.clone()),
    );

    let mut ctr: usize = 0;
    let msg = Message::deserialize(&bytes, &mut ctr).expect("decode failed");
    assert_eq!(ctr, bytes.len());
    assert_eq!(msg.preamble.mtype, MessageType::MethodCall);
    assert_eq!(msg.serial, 1);
    assert_eq!(msg.headers.len(), 5);
    assert_eq!(msg.headers[0].kind, HeaderFieldKind::Path);
    assert_eq!(
        msg.headers[0].value,
        HeaderFieldValue::String("/org/freedesktop/systemd1".to_string())
    );
    assert_eq!(msg.headers[1].kind, HeaderFieldKind::Destination);
    assert_eq!(
        msg.headers[1].value,
        HeaderFieldValue::String("org.freedesktop.systemd1".to_string())
    );
    assert_eq!(msg.headers[2].kind, HeaderFieldKind::Interface);
    assert_eq!(
        msg.headers[2].value,
        HeaderFieldValue::String("org.freedesktop.DBus.Properties".to_string())
    );
    assert_eq!(msg.headers[3].kind, HeaderFieldKind::Member);
    assert_eq!(msg.headers[3].value, HeaderFieldValue::String("Get".to_string()));
    assert_eq!(msg.headers[4].kind, HeaderFieldKind::BodySignature);
    assert_eq!(msg.headers[4].value, HeaderFieldValue::String("ss".to_string()));

    let mut bctr: usize = 0;
    let back = <(String, String)>::deserialize(&msg.body, &mut bctr).expect("body decode failed");
    assert_eq!(back, body);
}

#[test]
fn method_call_without_body_has_no_signature_header() {
    let mut conn = DbusConnection::new(7);
    let proxy = conn.proxy(
        "org.freedesktop.DBus".to_string(),
        "/org/freedesktop/DBus".to_string(),
    );
    let bytes =
        proxy.method_call_bytes::<()>(&mut conn, "org.freedesktop.DBus", "GetId", None);
    let mut ctr: usize = 0;
    let msg = Message::deserialize(&bytes, &mut ctr).expect("decode failed");
    assert_eq!(msg.headers.len(), 4);
    assert!(msg.body.is_empty());
}

#[test]
fn get_id_reply_decodes_to_a_hex_string() {
    // what a bus daemon answers to GetId: one string of 32 hex digits
    let id = "0123456789abcdef0123456789abcdef";
    let mut body: Vec<u8> = Vec::new();
    id.to_string().serialize(&mut body);

    let reply = reply_with("s", body);
    let s: String = decode_reply(&reply).expect("decode_reply failed");
    assert_eq!(s, id);
    assert_eq!(s.len(), 32);
    assert!(s.chars().all(|c| c.is_ascii_hexdigit() && !c.is_ascii_uppercase()));
}

#[test]
fn version_property_reply_decodes_to_a_variant() {
    let mut body: Vec<u8> = Vec::new();
    Variant("252.4".to_string()).serialize(&mut body);

    let reply = reply_with("v", body);
    let v: Variant<String> = decode_reply(&reply).expect("decode_reply failed");
    assert_eq!(v.0, "252.4");
    assert!(!v.0.is_empty());
}

#[test]
fn reply_signature_mismatch_names_both_signatures() {
    // the reply announces a u32 body, the caller expects a string
    let mut body: Vec<u8> = Vec::new();
    5u32.serialize(&mut body);
    let reply = reply_with("u", body);

    match decode_reply::<String>(&reply) {
        Err(DbusError::IncorrectMessage(m)) => {
            assert_eq!(m, "reply signature mismatch: expected s, found u");
        },
        other => panic!("expected IncorrectMessage, got {:?}", other),
    }
}

#[test]
fn error_reply_carries_its_body_string() {
    let mut body: Vec<u8> = Vec::new();
    "oops".to_string().serialize(&mut body);
    let error = Message::new(MessageType::Error, 1, vec![], body);

    match decode_reply::<String>(&vec![error]) {
        Err(DbusError::IncorrectMessage(m)) => assert_eq!(m, "oops"),
        other => panic!("expected IncorrectMessage, got {:?}", other),
    }
}

#[test]
fn error_reply_with_empty_body_is_unknown() {
    let error = Message::new(MessageType::Error, 1, vec![], vec![]);
    match decode_reply::<String>(&vec![error]) {
        Err(DbusError::IncorrectMessage(m)) => assert_eq!(m, "Unknown Dbus Error"),
        other => panic!("expected IncorrectMessage, got {:?}", other),
    }
}

#[test]
fn an_error_wins_over_a_method_return() {
    let mut ok_body: Vec<u8> = Vec::new();
    "fine".to_string().serialize(&mut ok_body);
    let mut err_body: Vec<u8> = Vec::new();
    "broken".to_string().serialize(&mut err_body);

    let mut messages = reply_with("s", ok_body);
    messages.push(Message::new(MessageType::Error, 2, vec![], err_body));

    match decode_reply::<String>(&messages) {
        Err(DbusError::IncorrectMessage(m)) => assert_eq!(m, "broken"),
        other => panic!("expected IncorrectMessage, got {:?}", other),
    }
}

#[test]
fn unit_output_accepts_a_reply_without_signature() {
    let reply = vec![Message::new(MessageType::MethodReturn, 1, vec![], vec![])];
    decode_reply::<()>(&reply).expect("unit decode_reply failed");
}

#[test]
fn missing_body_signature_is_incomplete_implementation() {
    let mut body: Vec<u8> = Vec::new();
    "data".to_string().serialize(&mut body);
    let reply = vec![Message::new(MessageType::MethodReturn, 1, vec![], body)];

    match decode_reply::<String>(&reply) {
        Err(DbusError::IncompleteImplementation(_)) => {},
        other => panic!("expected IncompleteImplementation, got {:?}", other),
    }
}

#[test]
fn signals_are_ignored_in_replies() {
    let signal = Message::new(MessageType::Signal, 9, vec![], vec![]);
    let mut body: Vec<u8> = Vec::new();
    "value".to_string().serialize(&mut body);
    let mut messages = vec![signal];
    messages.extend(reply_with("s", body));

    let s: String = decode_reply(&messages).expect("decode_reply failed");
    assert_eq!(s, "value");
}

#[test]
fn no_method_return_is_an_error() {
    let signal = Message::new(MessageType::Signal, 9, vec![], vec![]);
    match decode_reply::<String>(&vec![signal]) {
        Err(DbusError::IncorrectMessage(_)) => {},
        other => panic!("expected IncorrectMessage, got {:?}", other),
    }
}

#[test]
fn proxy_new_binds_destination_and_path() {
    let proxy = Proxy::new("dest.name".to_string(), "/path".to_string());
    let mut conn = DbusConnection::new(1);
    let bytes = proxy.method_call_bytes::<()>(&mut conn, "iface", "Member", None);
    let mut ctr: usize = 0;
    let msg = Message::deserialize(&bytes, &mut ctr).expect("decode failed");
    assert_eq!(msg.headers[0].value, HeaderFieldValue::String("/path".to_string()));
    assert_eq!(msg.headers[1].value, HeaderFieldValue::String("dest.name".to_string()));
}
