use oxcraft::error::{Error, SerializationError};
use oxcraft::nbt::{Nbt, NbtTagType};
use oxcraft::tool::{can_decode_login_play, decode_nbt, decode_varint, reconcile};

#[test]
fn a_varint_takes_all_the_bytes() {
    assert_eq!(decode_varint(&[0xdd, 0xc7, 0x01]).unwrap().0, 25565);
    match decode_varint(&[0x01, 0x02]) {
        Err(Error::SerSrc(w)) => {
            assert!(matches!(w.errors[..], [SerializationError::ExpectedEof { found: 2 }]));
            assert_eq!(w.src.1.as_deref(), Some("thing.bin"));
        }
        other => panic!("{other:?}"),
    }
    assert!(matches!(decode_varint(&[0x80]), Err(Error::SerSrc(_))));
}

#[test]
fn nbt_is_read_as_its_kind() {
    match decode_nbt(NbtTagType::Int, &[0, 0, 1, 0]).unwrap() {
        Some(Nbt::Int(256)) => {}
        other => panic!("{other:?}"),
    }
    assert!(matches!(decode_nbt(NbtTagType::End, &[]), Ok(None)));
    assert!(matches!(decode_nbt(NbtTagType::Long, &[1]), Err(Error::SerSrc(_))));
}

#[test]
fn errors_other_than_shape_pass_unchanged() {
    assert!(matches!(reconcile(&[1], Error::VarIntTooBig), Error::VarIntTooBig));
}

#[test]
fn a_frame_with_a_negative_length_cannot_be_decoded() {
    assert!(!can_decode_login_play(&[0xff, 0xff, 0xff, 0xff, 0x0f, 0x28]));
    assert!(can_decode_login_play(&[]));
}
