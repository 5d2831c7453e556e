use oxcraft::error::{Error, SerializationError, StrError};
use oxcraft::ser::{Deserialize, Serialize};
use oxcraft::types::{Array, FixedStr, Identifier, Json, Namespace, Uuid};

#[test]
fn string_is_written_with_its_length() {
    let s = String::from("héllo");
    assert_eq!(s.serialize().unwrap(), [&[6u8][..], "héllo".as_bytes()].concat());
}

#[test]
fn fixed_str_bounds_its_length() {
    assert!(FixedStr::<3>::from_string("abc").is_some());
    assert!(FixedStr::<3>::from_string("abcd").is_none());
    assert!(FixedStr::<3>::from_string("éa").is_some());
    assert!(FixedStr::<3>::from_string("éé").is_none());
    assert_eq!(FixedStr::<16>::from_string("Notch").unwrap().as_str(), "Notch");
}

#[test]
fn fixed_str_writes_its_length() {
    let f = FixedStr::<16>::from_string("ab").unwrap();
    assert_eq!(f.serialize().unwrap(), vec![2, b'a', b'b']);
    let mut b = f.serialize().unwrap();
    b.push(9);
    let (back, p) = FixedStr::<16>::deserialize(&b, 0, &()).unwrap();
    assert_eq!(back.as_str(), "ab");
    assert_eq!(p, 3);
}

#[test]
fn fixed_str_reads_its_length() {
    let (f, p) = FixedStr::<16>::deserialize(&[2, b'h', b'i', 9], 0, &()).unwrap();
    assert_eq!(f.as_str(), "hi");
    assert_eq!(p, 3);
}

#[test]
#[allow(clippy::bool_assert_comparison)]
fn option_writes_a_flag_byte() {
    assert_eq!(Some(true).serialize().unwrap(), vec![1, 1]);
    assert_eq!(None::<bool>.serialize().unwrap(), vec![0]);
    let (v, p) = Option::<bool>::deserialize(&[1, 0], 0, &()).unwrap();
    assert_eq!(v, Some(false));
    assert_eq!(p, 2);
    let (v, p) = Option::<bool>::deserialize(&[0, 7], 0, &()).unwrap();
    assert_eq!(v, None);
    assert_eq!(p, 1);
}

#[test]
fn option_refuses_other_flags() {
    let r = Option::<bool>::deserialize(&[2], 0, &());
    assert!(matches!(
        r,
        Err(Error::Ser(SerializationError::Expected { low: 0, high: 1, found: 2 }))
    ));
}

#[test]
fn uuid_is_sixteen_bytes_big_endian() {
    let u = Uuid(0x0011_2233_4455_6677_8899_aabb_ccdd_eeff);
    let b = u.serialize().unwrap();
    assert_eq!(b, (0..16).map(|i| i * 0x11).collect::<Vec<u8>>());
    let (back, p) = Uuid::deserialize(&b, 0, &()).unwrap();
    assert_eq!(back, u);
    assert_eq!(p, 16);
    assert!(matches!(
        Uuid::deserialize(&b[..15], 0, &()),
        Err(Error::Ser(SerializationError::UnexpectedEof))
    ));
}

#[test]
fn offline_uuid_is_name_based() {
    let u = Uuid::offline("Notch");
    let expected = uuid::Uuid::new_v3(&uuid::Uuid::NAMESPACE_DNS, b"OfflinePlayer:Notch");
    assert_eq!(u.0, expected.as_u128());
    assert_eq!(expected.get_version_num(), 3);
    assert_ne!(Uuid::offline("Notch"), Uuid::offline("notch"));
}

#[test]
fn json_is_written_as_a_string() {
    let j = Json(br#"{"a":1}"#.to_vec());
    let b = j.serialize().unwrap();
    assert_eq!(b[0], 7);
    let (back, p) = Json::deserialize(&b, 0, &()).unwrap();
    assert_eq!(back, j);
    assert_eq!(p, 8);
}

#[test]
fn array_roundtrip_and_errors() {
    let a = Array(vec![1i64, -2, 3]);
    let b = a.serialize().unwrap();
    assert_eq!(b.len(), 1 + 24);
    assert_eq!(b[0], 3);
    let (back, p) = Array::<i64>::deserialize(&b, 0, &()).unwrap();
    assert_eq!(back.0, vec![1, -2, 3]);
    assert_eq!(p, 25);
    assert!(matches!(
        Array::<i64>::deserialize(&b[..20], 0, &()),
        Err(Error::Ser(SerializationError::UnexpectedEof))
    ));
}

#[test]
fn identifier_text_and_parse() {
    let id = Identifier::new(Namespace::Minecraft, "overworld");
    assert_eq!(id.to_string(), "minecraft:overworld");
    let b = id.serialize().unwrap();
    assert_eq!(b[0] as usize, "minecraft:overworld".len());
    let (back, p) = Identifier::deserialize(&b, 0, &()).unwrap();
    assert_eq!(p, b.len());
    assert!(matches!(back.0, Namespace::Minecraft));
    assert_eq!(back.1, "overworld");
    let custom = Identifier::parse("my_mod:thing2 and more").unwrap();
    assert!(matches!(custom.0, Namespace::Custom(ref n) if n == "my_mod"));
    assert_eq!(custom.1, "thing2");
}

#[test]
fn identifier_parse_errors() {
    assert!(matches!(
        Identifier::parse("minecraft"),
        Err(Error::SerStr(StrError::UnexpectedEof))
    ));
    assert!(matches!(
        Identifier::parse("minecraft/x"),
        Err(Error::SerStr(StrError::Expected { expected: Some(':'), found: '/' }))
    ));
    assert!(matches!(
        Identifier::parse("1abc:x"),
        Err(Error::SerStr(StrError::Expected { expected: None, found: '1' }))
    ));
    assert!(matches!(Identifier::parse("a:"), Err(Error::SerStr(StrError::UnexpectedEof))));
}

#[test]
fn brand_channel() {
    assert_eq!(Identifier::minecraft_brand().to_string(), "minecraft:brand");
}
