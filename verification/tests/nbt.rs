use oxcraft::nbt::{Nbt, NbtCompound, NbtNamed, NbtTag, NbtTagType, SmolArray};
use oxcraft::ser::{Deserialize, Serialize};

fn test_nbt(value: Nbt, bytes: &[u8]) {
    let mut buf = Vec::new();
    value.serialize_value(&mut buf);
    assert_eq!(&buf[..], bytes);
}

fn test_nbt_named(name: &str, value: Nbt, bytes: &[u8]) {
    let mut buf = Vec::new();
    NbtNamed::serialize_named(value.tag(), name, &value, &mut buf);
    assert_eq!(&buf[..], bytes);
}

#[test]
fn named_tests() {
    test_nbt_named(
        "shortTest",
        Nbt::Short(32767),
        &[
            0x02, // type id
            0x00, 0x09, // length of name
            0x73, 0x68, 0x6f, 0x72, 0x74, 0x54, 0x65, 0x73, 0x74, // name
            0x7f, 0xff, // payload
        ],
    );
    test_nbt_named(
        "hello world",
        Nbt::Compound(vec![("name".to_string(), Nbt::String("Bananrama".to_string()))]),
        &[
            0x0a, // type id of the root compound
            0x00, 0x0b, // length of name of the root compound
            0x68, 0x65, 0x6c, 0x6c, 0x6f, 0x20, 0x77, 0x6f, 0x72, 0x6c, 0x64, // name of the root compound
            0x08, // type id of first element
            0x00, 0x04, // length of name of first element (4)
            0x6e, 0x61, 0x6d, 0x65, // name of first element ("name")
            0x00, 0x09, // length of string named "name" (9)
            0x42, 0x61, 0x6e, 0x61, 0x6e, 0x72, 0x61, 0x6d, 0x61, // string ("Bananrama")
            0x00, // TAG_End
        ],
    );
}

#[test]
fn normal_tests() {
    {
        let string = "uqwjmorpqiwuechrqweirwqeфщцшуйзцшуй";
        let mut bytes = Vec::new();
        bytes.extend_from_slice(&(string.len() as u16).to_be_bytes());
        bytes.extend_from_slice(string.as_bytes());
        test_nbt(Nbt::String(string.to_string()), &bytes[..]);
    }
    {
        let number: i16 = 0x70;
        test_nbt(Nbt::Short(number), &[0x00, 0x70]);
    }
    {
        let number: i32 = 0xd7fa8be;
        test_nbt(Nbt::Int(number), &[0x0d, 0x7f, 0xa8, 0xbe]);
    }
    {
        let number: i64 = 0xf7ba6cf39efb2e5;
        test_nbt(Nbt::Long(number), &[0x0f, 0x7b, 0xa6, 0xcf, 0x39, 0xef, 0xb2, 0xe5]);
    }
    {
        let list = vec![Nbt::Int(0xfeedbee), Nbt::Int(0xfcafeba), Nbt::Int(0xbe00000)];
        test_nbt(
            Nbt::List(list),
            &[
                NbtTagType::Int.byte(),
                0x0,
                0x0,
                0x0,
                0x3,
                0xf,
                0xee,
                0xdb,
                0xee,
                0x0f,
                0xca,
                0xfe,
                0xba,
                0xb,
                0xe0,
                0x00,
                0x00,
            ],
        )
    }
}

#[test]
fn nbt_float_bits_and_arrays() {
    test_nbt(Nbt::Float(1.5f32.to_bits()), &[0x3f, 0xc0, 0x00, 0x00]);
    test_nbt(Nbt::Double(2.0f64.to_bits()), &[0x40, 0, 0, 0, 0, 0, 0, 0]);
    test_nbt(Nbt::ByteArray(vec![-1, 2]), &[0, 0, 0, 2, 0xff, 0x02]);
    test_nbt(Nbt::IntArray(vec![1]), &[0, 0, 0, 1, 0, 0, 0, 1]);
    test_nbt(Nbt::LongArray(vec![]), &[0, 0, 0, 0]);
    test_nbt(Nbt::List(vec![]), &[]);
}

#[test]
fn nbt_value_reads_back() {
    let value = Nbt::Compound(vec![
        ("a".to_string(), Nbt::Int(-5)),
        ("list".to_string(), Nbt::List(vec![Nbt::String("x".into()), Nbt::String("yz".into())])),
        ("nested".to_string(), Nbt::Compound(vec![("b".to_string(), Nbt::Byte(3))])),
        ("longs".to_string(), Nbt::LongArray(vec![1, -2])),
    ]);
    let mut buf = Vec::new();
    value.serialize_value(&mut buf);
    buf.push(0xaa);
    let (read, p) = Nbt::single(&buf, 0, NbtTagType::Compound).unwrap();
    let read = read.unwrap();
    assert_eq!(p, buf.len() - 1);
    assert_eq!(format!("{read:?}"), format!("{value:?}"));
}

#[test]
fn nbt_named_reads_back() {
    let value = Nbt::Short(32767);
    let mut buf = Vec::new();
    NbtNamed::serialize_named(value.tag(), "shortTest", &value, &mut buf);
    let (tag, p) = NbtTag::named(&buf, 0).unwrap();
    assert_eq!(p, buf.len());
    match tag {
        NbtTag::Named(named) => {
            assert_eq!(named.name, "shortTest");
            assert!(matches!(named.value, Nbt::Short(32767)));
            assert_eq!(named.tag, NbtTagType::Short);
        }
        _ => panic!("expected a named tag"),
    }
}

#[test]
fn nbt_end_tag_reads_as_end() {
    let (tag, p) = NbtTag::named(&[0x00, 0x55], 0).unwrap();
    assert!(matches!(tag, NbtTag::End));
    assert_eq!(p, 1);
}

#[test]
fn nbt_bad_tag_is_refused() {
    let r = NbtTag::named(&[13], 0);
    assert!(matches!(
        r,
        Err(oxcraft::error::Error::Ser(oxcraft::error::SerializationError::Type {
            label: oxcraft::error::Label::NbtTagType,
            found: 13
        }))
    ));
}

#[test]
fn nbt_list_of_end_is_refused() {
    let r = NbtTag::list(&[0, 0, 0, 0, 1], 0);
    assert!(matches!(
        r,
        Err(oxcraft::error::Error::Nbt(oxcraft::error::NbtError::ExpectedAnythingButEnd))
    ));
}

#[test]
fn nbt_invalid_utf8_is_refused() {
    let r = Nbt::single(&[0, 2, 0xff, 0xfe], 0, NbtTagType::String);
    assert!(matches!(r, Err(oxcraft::error::Error::InvalidUtf8)));
}

#[test]
fn nbt_compound_keeps_last_value_of_a_name() {
    let bytes = [1, 0, 1, b'k', 5, 1, 0, 1, b'k', 9, 0];
    let (entries, p) = Nbt::compound(&bytes, 0).unwrap();
    assert_eq!(p, bytes.len());
    assert_eq!(entries.len(), 1);
    assert_eq!(entries[0].0, "k");
    assert!(matches!(entries[0].1, Nbt::Byte(9)));
}

#[test]
fn nbt_compound_wrapper_roundtrip() {
    let c = NbtCompound(vec![("x".to_string(), Nbt::Long(7))]);
    let bytes = c.serialize().unwrap();
    assert_eq!(bytes, vec![4, 0, 1, b'x', 0, 0, 0, 0, 0, 0, 0, 7, 0]);
    let (back, p) = NbtCompound::deserialize(&bytes, 0, &()).unwrap();
    assert_eq!(p, bytes.len());
    assert_eq!(back.0.len(), 1);
    assert!(matches!(back.0[0].1, Nbt::Long(7)));
}

#[test]
fn smol_array_reads_back() {
    let mut buf = Vec::new();
    SmolArray::<i32>::serialize_slice(&[1, -1, 70000], &mut buf);
    let (arr, p) = SmolArray::<i32>::deserialize(&buf, 0).unwrap();
    assert_eq!(arr.0, vec![1, -1, 70000]);
    assert_eq!(p, buf.len());
}

#[test]
fn nbt_tag_bytes() {
    assert_eq!(NbtTagType::End.byte(), 0);
    assert_eq!(NbtTagType::Compound.byte(), 10);
    assert_eq!(NbtTagType::LongArray.byte(), 12);
    assert_eq!(Nbt::IntArray(vec![]).tag(), NbtTagType::IntArray);
}

#[test]
fn nbt_list_keeps_its_tag_and_count() {
    let (l, p) = NbtTag::list(&[3, 0, 0, 0, 2, 0, 0, 0, 7, 0, 0, 0, 9, 0xaa], 0).unwrap();
    assert_eq!(l.tag, NbtTagType::Int);
    assert_eq!(l.length, 2);
    assert_eq!(l.tags.len(), 2);
    assert_eq!(p, 13);
    let (e, _) = NbtTag::list(&[1, 0, 0, 0, 0], 0).unwrap();
    assert_eq!(e.tag, NbtTagType::Byte);
    assert_eq!(e.length, 0);
}
