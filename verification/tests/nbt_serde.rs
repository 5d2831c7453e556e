use oxcraft::error::{NbtError, NbtExpected};
use oxcraft::nbt::{Nbt, NbtCompound, NbtTagType};
use oxcraft::nbt_serde::{
    bool_of, char_of, compound_of, f32_bits_of, i16_of, i32_of, i8_of, key_of, list_of, nbt_of_bool,
    nbt_of_bytes, nbt_of_u16, nbt_of_u32, nbt_of_u64, nbt_of_u8, refused, str_of, u16_of, u32_of, u64_of, u8_of,
    variant_value, EntryCursor, NbtMapBuilder, NbtSeqBuilder, Refused,
};
use oxcraft::ser::Serialize;

fn out_of_bounds(e: NbtError) -> (String, &'static str, &'static str) {
    match e {
        NbtError::OutOfBounds { value, actual_type, type_for_nbt } => (value, actual_type, type_for_nbt),
        other => panic!("not out of bounds: {other:?}"),
    }
}

#[test]
fn unsigned_numbers_fit_or_are_refused() {
    assert!(matches!(nbt_of_u8(127), Ok(Nbt::Byte(127))));
    assert_eq!(out_of_bounds(nbt_of_u8(200).unwrap_err()), ("200u8".to_string(), "u8", "i8"));
    assert!(matches!(nbt_of_u16(0x7fff), Ok(Nbt::Short(0x7fff))));
    assert_eq!(out_of_bounds(nbt_of_u16(40000).unwrap_err()), ("40000u16".to_string(), "u16", "i16"));
    assert!(matches!(nbt_of_u32(5), Ok(Nbt::Int(5))));
    assert_eq!(
        out_of_bounds(nbt_of_u32(u32::MAX).unwrap_err()),
        ("4294967295u32".to_string(), "u32", "i32")
    );
    assert!(matches!(nbt_of_u64(i64::MAX as u64), Ok(Nbt::Long(i64::MAX))));
    assert_eq!(
        out_of_bounds(nbt_of_u64(u64::MAX).unwrap_err()),
        ("18446744073709551615u64".to_string(), "u64", "i64")
    );
}

#[test]
fn bools_are_bytes() {
    assert!(matches!(nbt_of_bool(true), Nbt::Byte(1)));
    assert!(matches!(nbt_of_bool(false), Nbt::Byte(0)));
    assert!(matches!(bool_of(&Nbt::Byte(1)), Ok(true)));
    assert!(matches!(bool_of(&Nbt::Byte(0)), Ok(false)));
    match bool_of(&Nbt::Byte(2)) {
        Err(NbtError::Expected { expected: NbtExpected::AnyOf(v), actual: Nbt::Byte(2) }) => {
            assert!(matches!(v[..], [Nbt::Byte(0), Nbt::Byte(1)]))
        }
        other => panic!("{other:?}"),
    }
}

#[test]
fn bytes_stop_at_the_first_too_large() {
    match nbt_of_bytes(&[1, 2, 3]) {
        Ok(Nbt::ByteArray(a)) => assert_eq!(a, vec![1, 2, 3]),
        other => panic!("{other:?}"),
    }
    assert_eq!(out_of_bounds(nbt_of_bytes(&[1, 130, 255]).unwrap_err()), ("130u8".to_string(), "u8", "i8"));
}

#[test]
fn keys_must_be_strings() {
    assert_eq!(key_of(Nbt::String("k".to_string())).unwrap(), "k");
    assert!(matches!(key_of(Nbt::Int(3)), Err(NbtError::InvalidKey(Nbt::Int(3)))));
}

#[test]
fn refusals_name_what_is_refused() {
    assert!(matches!(refused(Refused::I128), NbtError::UnsupportedType("i128", Some(_))));
    assert!(matches!(refused(Refused::Null), NbtError::UnsupportedType("null", Some("NBT does not support nulls"))));
    assert!(matches!(
        refused(Refused::Unit),
        NbtError::UnsupportedType("()", Some("NBT does not support nulls, nor unit types."))
    ));
    assert!(matches!(refused(Refused::ByteBuf), NbtError::UnsupportedType("Vec<u8>", Some(_))));
}

#[test]
fn maps_and_variants_become_compounds() {
    let mut m = NbtMapBuilder::new(None);
    assert!(matches!(m.take_key(), Err(NbtError::NoKeyInMap)));
    assert!(matches!(m.set_key(Nbt::Long(1)), Err(NbtError::InvalidKey(Nbt::Long(1)))));
    m.set_key(Nbt::String("a".to_string())).unwrap();
    let k = m.take_key().unwrap();
    m.insert(k, Nbt::Int(1));
    m.insert("b".to_string(), Nbt::Int(2));
    m.insert("a".to_string(), Nbt::Int(3));
    match m.end() {
        Nbt::Compound(c) => {
            assert_eq!(c.len(), 2);
            assert_eq!(c[0].0, "a");
            assert!(matches!(c[0].1, Nbt::Int(3)));
            assert_eq!(c[1].0, "b");
        }
        other => panic!("{other:?}"),
    }
    let mut v = NbtMapBuilder::new(Some("V".to_string()));
    v.insert("x".to_string(), Nbt::Byte(1));
    match v.end() {
        Nbt::Compound(c) => {
            assert_eq!(c.len(), 1);
            assert_eq!(c[0].0, "V");
            assert!(matches!(&c[0].1, Nbt::Compound(inner) if inner.len() == 1));
        }
        other => panic!("{other:?}"),
    }
    match variant_value("W".to_string(), Nbt::Short(4)) {
        Nbt::Compound(c) => {
            assert_eq!(c[0].0, "W");
            assert!(matches!(c[0].1, Nbt::Short(4)));
        }
        other => panic!("{other:?}"),
    }
}

#[test]
fn sequences_become_lists() {
    let mut s = NbtSeqBuilder::new(None);
    s.push(Nbt::Int(1));
    s.push(Nbt::Int(2));
    assert!(matches!(s.end(), Nbt::List(l) if l.len() == 2));
    let mut t = NbtSeqBuilder::new(Some("T".to_string()));
    t.push(Nbt::Byte(9));
    match t.end() {
        Nbt::Compound(c) => {
            assert_eq!(c[0].0, "T");
            assert!(matches!(&c[0].1, Nbt::List(l) if l.len() == 1));
        }
        other => panic!("{other:?}"),
    }
}

fn kind_expected<T: std::fmt::Debug>(r: Result<T, NbtError>, t: NbtTagType) {
    match r {
        Err(NbtError::Expected { expected: NbtExpected::Type(k), .. }) => assert_eq!(k, t),
        other => panic!("{other:?}"),
    }
}

#[test]
fn readers_take_their_kind() {
    assert_eq!(i8_of(&Nbt::Byte(-3)).unwrap(), -3);
    kind_expected(i8_of(&Nbt::Short(1)), NbtTagType::Byte);
    assert_eq!(i16_of(&Nbt::Short(-300)).unwrap(), -300);
    assert_eq!(i32_of(&Nbt::Int(7)).unwrap(), 7);
    kind_expected(i32_of(&Nbt::Long(7)), NbtTagType::Int);
    assert_eq!(f32_bits_of(&Nbt::Float(0x3f80_0000)).unwrap(), 0x3f80_0000);
    assert_eq!(u8_of(&Nbt::Byte(5)).unwrap(), 5);
    kind_expected(u8_of(&Nbt::Byte(-5)), NbtTagType::Byte);
    assert_eq!(u16_of(&Nbt::Short(5)).unwrap(), 5);
    assert_eq!(u32_of(&Nbt::Int(5)).unwrap(), 5);
    assert_eq!(u64_of(&Nbt::Long(5)).unwrap(), 5);
    kind_expected(u64_of(&Nbt::Long(-1)), NbtTagType::Long);
    assert_eq!(str_of(&Nbt::String("s".to_string())).unwrap(), "s");
    kind_expected(str_of(&Nbt::Int(1)), NbtTagType::String);
    assert_eq!(list_of(&Nbt::List(vec![Nbt::Int(1)])).unwrap().len(), 1);
    kind_expected(compound_of(&Nbt::List(vec![])), NbtTagType::Compound);
}

#[test]
fn chars_are_code_points() {
    assert_eq!(char_of(&Nbt::Int(65)).unwrap(), 'A');
    assert_eq!(out_of_bounds(char_of(&Nbt::Int(0xD800)).unwrap_err()), ("55296i32".to_string(), "i32", "char"));
    kind_expected(char_of(&Nbt::Int(-1)), NbtTagType::Int);
}

#[test]
fn entries_are_given_key_then_value() {
    let mut c = EntryCursor::new();
    assert!(matches!(c.take_value(), Err(NbtError::NoKeyInMap)));
    assert_eq!(c.next_key(2), Some(0));
    assert_eq!(c.take_value().unwrap(), 0);
    assert_eq!(c.next_entry(2), Some(1));
    assert_eq!(c.next_key(2), None);
}

#[test]
fn copies_and_writability() {
    let v = Nbt::Compound(vec![("l".to_string(), Nbt::List(vec![Nbt::Int(1), Nbt::Int(2)]))]);
    let c = v.duplicate();
    let mut a = Vec::new();
    v.serialize_value(&mut a);
    let mut b = Vec::new();
    c.serialize_value(&mut b);
    assert_eq!(a, b);
    assert!(v.writable());
    assert!(!Nbt::List(vec![Nbt::Int(1), Nbt::Byte(1)]).writable());
    assert!(NbtCompound(vec![]).can_serialize());
}
