use oxcraft::ser::{Deserialize, Serialize};
use oxcraft::varint::{LEB128Number, VarInt};

fn test_vi(bytes: &[u8], value: i32) {
    let (read, _) = VarInt::<i32>::deserialize(bytes, 0, &()).unwrap();
    assert_eq!(read, VarInt(value));
    assert_eq!(VarInt(value).serialize().unwrap(), bytes);
}

#[test]
fn test_i32() {
    test_vi(&[0x00], 0);
    test_vi(&[0x01], 1);
    test_vi(&[0x02], 2);
    test_vi(&[0x7f], 127);
    test_vi(&[0x80, 0x01], 128);
    test_vi(&[0xff, 0x01], 255);
    test_vi(&[0xdd, 0xc7, 0x01], 25565);
    test_vi(&[0xff, 0xff, 0x7f], 2097151);
}

#[test]
fn varint_negative_takes_five_bytes() {
    let b = VarInt(-1i32).serialize().unwrap();
    assert_eq!(b, vec![0xff, 0xff, 0xff, 0xff, 0x0f]);
    let (v, p) = VarInt::<i32>::deserialize(&b, 0, &()).unwrap();
    assert_eq!(v, VarInt(-1));
    assert_eq!(p, 5);
    assert_eq!(VarInt(-1i32).length_of(), 5);
}

#[test]
fn varint_i64_roundtrip() {
    for x in [0i64, 1, -1, 300, i64::MAX, i64::MIN, 0x1234_5678_9abc] {
        let b = VarInt(x).serialize().unwrap();
        let (v, p) = VarInt::<i64>::deserialize(&b, 0, &()).unwrap();
        assert_eq!(v, VarInt(x));
        assert_eq!(p, b.len());
        assert_eq!(x.leb128_length(), b.len());
    }
    assert_eq!(VarInt(-1i64).serialize().unwrap().len(), 10);
}

#[test]
fn varint_reads_after_position_and_leaves_rest() {
    let bytes = [0x99, 0x80, 0x01, 0x42];
    let (v, p) = VarInt::<i32>::deserialize(&bytes, 1, &()).unwrap();
    assert_eq!(v, VarInt(128));
    assert_eq!(p, 3);
}

#[test]
fn varint_truncated_is_eof() {
    let r = VarInt::<i32>::deserialize(&[0x80, 0x80], 0, &());
    assert!(matches!(
        r,
        Err(oxcraft::error::Error::Ser(oxcraft::error::SerializationError::UnexpectedEof))
    ));
}

#[test]
fn varint_too_long_is_refused() {
    let r = VarInt::<i32>::deserialize(&[0x80, 0x80, 0x80, 0x80, 0x80, 0x01], 0, &());
    assert!(matches!(r, Err(oxcraft::error::Error::VarIntTooBig)));
}

#[test]
fn varint_write_and_length() {
    assert_eq!(25565i32.write(), vec![0xdd, 0xc7, 0x01]);
    assert_eq!(VarInt(25565i32).length_of(), 3);
    let mut buf = vec![7u8];
    300i32.write_to(&mut buf);
    assert_eq!(buf, vec![7, 0xac, 0x02]);
}
