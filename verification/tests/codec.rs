use dbus_wire::serialize::{DbusSerialize, Structure, Variant};

fn round_trip<T: DbusSerialize + PartialEq + std::fmt::Debug>(v: T) {
    let mut buf: Vec<u8> = Vec::new();
    v.serialize(&mut buf);
    let mut ctr: usize = 0;
    let back = T::deserialize(&buf, &mut ctr).expect("decode failed");
    assert_eq!(back, v);
    assert_eq!(ctr, buf.len());
}

// the same round trip, but with 0..7 arbitrary prefix bytes already in the
// buffer and the cursor advanced past them: alignment is relative
fn round_trip_prefixed<T: DbusSerialize + PartialEq + std::fmt::Debug>(v: T, prefix: usize) {
    let mut buf: Vec<u8> = vec![0xC7; prefix];
    v.serialize(&mut buf);
    let mut ctr: usize = prefix;
    let back = T::deserialize(&buf, &mut ctr).expect("decode failed");
    assert_eq!(back, v);
    assert_eq!(ctr, buf.len());
}

#[test]
fn primitives_round_trip() {
    round_trip(false);
    round_trip(true);
    round_trip(0u16);
    round_trip(0xBEEFu16);
    round_trip(0u32);
    round_trip(0xDEAD_BEEFu32);
    round_trip(0u64);
    round_trip(0x0123_4567_89AB_CDEFu64);
    round_trip(String::new());
    round_trip(String::from("hello world"));
    round_trip(String::from("héllo wörld"));
}

#[test]
fn containers_round_trip_with_prefix() {
    for prefix in 0..8usize {
        round_trip_prefixed(0xCAFEu16, prefix);
        round_trip_prefixed(7u32, prefix);
        round_trip_prefixed(7u64, prefix);
        round_trip_prefixed(String::from("abc"), prefix);
        round_trip_prefixed((String::from("key"), 9u32), prefix);
        round_trip_prefixed(vec![1u32, 2, 3], prefix);
        round_trip_prefixed(vec![String::from("a"), String::from("bb")], prefix);
    }
}

#[test]
fn variant_round_trip() {
    for prefix in 0..8usize {
        let mut buf: Vec<u8> = vec![0x55; prefix];
        Variant(String::from("inner")).serialize(&mut buf);
        let mut ctr: usize = prefix;
        let back = <Variant<String>>::deserialize(&buf, &mut ctr).expect("decode failed");
        assert_eq!(back.0, "inner");
        assert_eq!(ctr, buf.len());
    }
}

#[test]
fn structure_round_trip() {
    let mut buf: Vec<u8> = vec![0x11; 3];
    let s = Structure { key: String::from("Version"), val: Variant(String::from("251")) };
    s.serialize(&mut buf);
    let mut ctr: usize = 3;
    let back = <Structure<Variant<String>>>::deserialize(&buf, &mut ctr).expect("decode failed");
    assert_eq!(back.key, "Version");
    assert_eq!(back.val.0, "251");
    assert_eq!(ctr, buf.len());
}

#[test]
fn unit_encodes_nothing_and_swallows_the_buffer() {
    let mut buf: Vec<u8> = Vec::new();
    ().serialize(&mut buf);
    assert!(buf.is_empty());

    let junk = vec![1u8, 2, 3, 4];
    let mut ctr: usize = 0;
    <()>::deserialize(&junk, &mut ctr).expect("unit decode failed");
    assert_eq!(ctr, junk.len());
}

#[test]
fn signature_table() {
    assert_eq!(<()>::get_signature(), "");
    assert_eq!(bool::get_signature(), "b");
    assert_eq!(u16::get_signature(), "q");
    assert_eq!(u32::get_signature(), "u");
    assert_eq!(u64::get_signature(), "t");
    assert_eq!(String::get_signature(), "s");
    assert_eq!(<Vec<u32>>::get_signature(), "au");
    assert_eq!(<Vec<String>>::get_signature(), "as");
    assert_eq!(<Variant<String>>::get_signature(), "v");
    assert_eq!(<(String, String)>::get_signature(), "ss");
    assert_eq!(<(String, u32)>::get_signature(), "su");
    assert_eq!(<Structure<Variant<String>>>::get_signature(), "(sv)");
}

#[test]
fn exact_wire_bytes() {
    let mut buf: Vec<u8> = Vec::new();
    0xDEAD_BEEFu32.serialize(&mut buf);
    assert_eq!(buf, vec![0xEF, 0xBE, 0xAD, 0xDE]);

    let mut buf: Vec<u8> = Vec::new();
    String::from("foo").serialize(&mut buf);
    assert_eq!(buf, vec![3, 0, 0, 0, b'f', b'o', b'o', 0]);

    let mut buf: Vec<u8> = Vec::new();
    true.serialize(&mut buf);
    assert_eq!(buf, vec![1, 0, 0, 0]);

    let mut buf: Vec<u8> = Vec::new();
    0x1234u16.serialize(&mut buf);
    assert_eq!(buf, vec![0x34, 0x12]);

    // arrays are prefixed with the element count, then the elements
    let mut buf: Vec<u8> = Vec::new();
    vec![1u32, 2u32].serialize(&mut buf);
    assert_eq!(buf, vec![2, 0, 0, 0, 1, 0, 0, 0, 2, 0, 0, 0]);

    // a value's padding is inserted before it, relative to the buffer
    let mut buf: Vec<u8> = vec![0xAA];
    7u32.serialize(&mut buf);
    assert_eq!(buf, vec![0xAA, 0, 0, 0, 7, 0, 0, 0]);

    // variant: one-byte signature length, signature, NUL, then the value
    let mut buf: Vec<u8> = Vec::new();
    Variant(String::from("hi")).serialize(&mut buf);
    assert_eq!(buf, vec![1, b's', 0, 0, 2, 0, 0, 0, b'h', b'i', 0]);
}

#[test]
fn bool_decodes_any_nonzero_as_true() {
    let buf = vec![2u8, 0, 0, 0];
    let mut ctr: usize = 0;
    assert_eq!(bool::deserialize(&buf, &mut ctr).unwrap(), true);

    let buf = vec![0u8, 0, 0, 0];
    let mut ctr: usize = 0;
    assert_eq!(bool::deserialize(&buf, &mut ctr).unwrap(), false);
}

#[test]
fn truncated_values_are_rejected() {
    let buf = vec![1u8, 2, 3];
    let mut ctr: usize = 0;
    assert!(u32::deserialize(&buf, &mut ctr).is_err());

    // string whose declared length runs past the buffer
    let buf = vec![200u8, 0, 0, 0, b'x'];
    let mut ctr: usize = 0;
    assert!(String::deserialize(&buf, &mut ctr).is_err());

    // string bytes that are not UTF-8
    let buf = vec![2u8, 0, 0, 0, 0xFF, 0xFE, 0];
    let mut ctr: usize = 0;
    assert!(String::deserialize(&buf, &mut ctr).is_err());
}

#[test]
fn variant_signature_mismatch_is_rejected() {
    // a variant declaring signature "u" cannot be decoded as Variant<String>
    let mut buf: Vec<u8> = Vec::new();
    Variant(5u32).serialize(&mut buf);
    let mut ctr: usize = 0;
    assert!(<Variant<String>>::deserialize(&buf, &mut ctr).is_err());

    // while the declared type decodes fine
    let mut ctr: usize = 0;
    let back = <Variant<u32>>::deserialize(&buf, &mut ctr).expect("decode failed");
    assert_eq!(back.0, 5);
}
