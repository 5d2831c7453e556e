use vstd::prelude::*;

verus! {

/// Errors of decoding and encoding protocol data.
#[derive(Debug)]
pub enum Error {
    /// The bytes do not have the expected shape.
    Ser(SerializationError),
    /// Text does not have the expected shape.
    SerStr(StrError),
    /// A decoding error, with the bytes that were being decoded.
    SerSrc(WithSource),
    /// A packet id that the packet being decoded does not carry.
    InvalidPacketId(i32),
    /// A variable-length integer took more bytes than its type allows,
    /// or a length does not fit into a variable-length integer.
    VarIntTooBig,
    /// A handshake asked for a state other than Status (1) or Login (2).
    InvalidStateId(i32),
    /// Bytes that are not UTF-8 where a string was expected.
    InvalidUtf8,
    /// Bit flags with bits outside the known flags.
    InvalidBitFlags,
    /// The connection has ended.
    ConnectionEnded,
    /// An NBT error.
    Nbt(NbtError),
}

/// Errors of NBT and of turning values into NBT and back.
#[derive(Debug)]
pub enum NbtError {
    /// A kind of value that NBT cannot hold, with a hint.
    UnsupportedType(&'static str, Option<&'static str>),
    /// An error message from a value being turned into NBT or back.
    SerdeCustom(String),
    /// A number outside the range of the signed type that NBT holds it in.
    OutOfBounds { value: String, actual_type: &'static str, type_for_nbt: &'static str },
    /// A compound key that is not a string.
    InvalidKey(crate::nbt::Nbt),
    /// A value of another kind than expected.
    Expected { expected: NbtExpected, actual: crate::nbt::Nbt },
    /// A map value that was not preceded by its key.
    NoKeyInMap,
    /// The end tag where a value was required.
    ExpectedAnythingButEnd,
}

/// What was expected, for [`NbtError::Expected`].
#[derive(Debug)]
pub enum NbtExpected {
    AnyOf(Vec<crate::nbt::Nbt>),
    Type(crate::nbt::NbtTagType),
    NamedTag,
}

/// Shape errors of decoding.
#[derive(Debug, Clone, Copy, PartialEq, Eq)]
pub enum SerializationError {
    /// A byte was found where one of `low..=high` was required.
    Expected { low: u8, high: u8, found: u8 },
    /// The input ended before the value was complete.
    UnexpectedEof,
    /// Input was left where its end was expected.
    ExpectedEof { found: u8 },
    /// A byte failed the check that its kind of value places on it.
    Type { label: Label, found: u8 },
}

/// Shape errors of reading text.
#[derive(Debug, Clone, Copy, PartialEq, Eq)]
pub enum StrError {
    /// A character was found where another was required (the one required, if
    /// there was a single one).
    Expected { expected: Option<char>, found: char },
    /// The text ended before the value was complete.
    UnexpectedEof,
}

/// What a byte was checked to be, for [`SerializationError::Type`].
#[derive(Debug, Clone, Copy, PartialEq, Eq)]
pub enum Label {
    Difficulty,
    PreviousGameMode,
    NbtTagType,
}

/// Decoding errors together with the bytes they were found in.
#[derive(Debug)]
pub struct WithSource {
    pub src: BytesSource,
    pub errors: Vec<SerializationError>,
}

/// The text of bytes shown through `Debug`, as the source of decoding errors, with an optional file name.
#[derive(Debug, Clone)]
pub struct BytesSource(pub Vec<u8>, pub Option<String>);

} // verus!
