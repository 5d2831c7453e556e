//! The connection states and small enumerations of the protocol.
use crate::error::{Error, Label, SerializationError};
use crate::ser::{Deserialize, Serialize};
use vstd::prelude::*;

verus! {

/// The largest amount of data a packet may carry.
pub const MAX_PACKET_DATA: usize = 0x1FFFFF;

/// The protocol version spoken here (Minecraft 1.20.1).
pub const PROTOCOL_VERSION: i32 = 763;

/// The state of a connection, which decides how packet ids are read.
#[derive(Debug, Clone, Copy, PartialEq, Eq, Structural)]
pub enum State {
    Handshaking,
    Status,
    Login,
    Play,
}

impl DeepView for State {
    type V = State;

    open spec fn deep_view(&self) -> State {
        *self
    }
}

/// The difficulty of a world, written as one byte from 0 to 3.
#[derive(Debug, Clone, Copy, PartialEq, Eq, Structural)]
pub enum Difficulty {
    Peaceful,
    Easy,
    Normal,
    Hard,
}

impl Difficulty {
    /// The byte that a difficulty is written as.
    pub open spec fn spec_byte(self) -> u8 {
        match self {
            Difficulty::Peaceful => 0,
            Difficulty::Easy => 1,
            Difficulty::Normal => 2,
            Difficulty::Hard => 3,
        }
    }

    /// The difficulty that a byte from 0 to 3 stands for.
    pub open spec fn spec_from_byte(b: u8) -> Difficulty {
        if b == 0 {
            Difficulty::Peaceful
        } else if b == 1 {
            Difficulty::Easy
        } else if b == 2 {
            Difficulty::Normal
        } else {
            Difficulty::Hard
        }
    }
}

impl Default for Difficulty {
    fn default() -> (r: Difficulty)
        ensures
            r == Difficulty::Peaceful,
    {
        Difficulty::Peaceful
    }
}

impl DeepView for Difficulty {
    type V = Difficulty;

    open spec fn deep_view(&self) -> Difficulty {
        *self
    }
}

impl Serialize for Difficulty {
    open spec fn spec_can_serialize(&self) -> bool {
        true
    }

    fn can_serialize(&self) -> (r: bool) {
        true
    }

    open spec fn spec_serialize(&self) -> Result<Seq<u8>, Error> {
        Ok(seq![self.spec_byte()])
    }

    fn serialize_to(&self, buf: &mut Vec<u8>) -> (r: Result<(), Error>) {
        let b: u8 = match self {
            Difficulty::Peaceful => 0,
            Difficulty::Easy => 1,
            Difficulty::Normal => 2,
            Difficulty::Hard => 3,
        };
        buf.push(b);
        Ok(())
    }
}

impl Deserialize for Difficulty {
    type Context = ();

    open spec fn spec_can_deserialize(s: Seq<u8>, cx: ()) -> bool {
        true
    }

    fn can_deserialize(input: &[u8], pos: usize, cx: &()) -> (r: bool) {
        true
    }

    open spec fn spec_deserialize(s: Seq<u8>, cx: ()) -> Result<(Difficulty, nat), Error> {
        if s.len() == 0 {
            Err(Error::Ser(SerializationError::UnexpectedEof))
        } else if s[0] <= 3 {
            Ok((Difficulty::spec_from_byte(s[0]), 1))
        } else {
            Err(Error::Ser(SerializationError::Type { label: Label::Difficulty, found: s[0] }))
        }
    }

    fn deserialize(input: &[u8], pos: usize, cx: &()) -> (r: Result<(Difficulty, usize), Error>) {
        if pos >= input.len() {
            return Err(Error::Ser(SerializationError::UnexpectedEof));
        }
        let b = input[pos];
        if b == 0 {
            Ok((Difficulty::Peaceful, pos + 1))
        } else if b == 1 {
            Ok((Difficulty::Easy, pos + 1))
        } else if b == 2 {
            Ok((Difficulty::Normal, pos + 1))
        } else if b == 3 {
            Ok((Difficulty::Hard, pos + 1))
        } else {
            Err(Error::Ser(SerializationError::Type { label: Label::Difficulty, found: b }))
        }
    }
}

/// A game mode, written as one byte from 0 to 3.
#[derive(Debug, Clone, Copy, PartialEq, Eq, Structural)]
pub enum GameMode {
    Survival,
    Creative,
    Adventure,
    Spectator,
}

impl GameMode {
    /// The byte that a game mode is written as.
    pub open spec fn spec_byte(self) -> u8 {
        match self {
            GameMode::Survival => 0,
            GameMode::Creative => 1,
            GameMode::Adventure => 2,
            GameMode::Spectator => 3,
        }
    }

    /// The game mode that a byte from 0 to 3 stands for.
    pub open spec fn spec_from_byte(b: u8) -> GameMode {
        if b == 0 {
            GameMode::Survival
        } else if b == 1 {
            GameMode::Creative
        } else if b == 2 {
            GameMode::Adventure
        } else {
            GameMode::Spectator
        }
    }

    /// The byte that `self` is written as.
    pub fn byte(&self) -> (r: u8)
        ensures
            r == self.spec_byte(),
    {
        match self {
            GameMode::Survival => 0,
            GameMode::Creative => 1,
            GameMode::Adventure => 2,
            GameMode::Spectator => 3,
        }
    }

    /// The game mode of a byte from 0 to 3.
    pub fn from_byte(b: u8) -> (r: GameMode)
        requires
            b <= 3,
        ensures
            r == GameMode::spec_from_byte(b),
    {
        if b == 0 {
            GameMode::Survival
        } else if b == 1 {
            GameMode::Creative
        } else if b == 2 {
            GameMode::Adventure
        } else {
            GameMode::Spectator
        }
    }
}

impl DeepView for GameMode {
    type V = GameMode;

    open spec fn deep_view(&self) -> GameMode {
        *self
    }
}

impl Serialize for GameMode {
    open spec fn spec_can_serialize(&self) -> bool {
        true
    }

    fn can_serialize(&self) -> (r: bool) {
        true
    }

    open spec fn spec_serialize(&self) -> Result<Seq<u8>, Error> {
        Ok(seq![self.spec_byte()])
    }

    fn serialize_to(&self, buf: &mut Vec<u8>) -> (r: Result<(), Error>) {
        buf.push(self.byte());
        Ok(())
    }
}

impl Deserialize for GameMode {
    type Context = ();

    open spec fn spec_can_deserialize(s: Seq<u8>, cx: ()) -> bool {
        true
    }

    fn can_deserialize(input: &[u8], pos: usize, cx: &()) -> (r: bool) {
        true
    }

    open spec fn spec_deserialize(s: Seq<u8>, cx: ()) -> Result<(GameMode, nat), Error> {
        if s.len() == 0 {
            Err(Error::Ser(SerializationError::UnexpectedEof))
        } else if s[0] <= 3 {
            Ok((GameMode::spec_from_byte(s[0]), 1))
        } else {
            Err(Error::Ser(SerializationError::Expected { low: 0, high: 3, found: s[0] }))
        }
    }

    fn deserialize(input: &[u8], pos: usize, cx: &()) -> (r: Result<(GameMode, usize), Error>) {
        if pos >= input.len() {
            return Err(Error::Ser(SerializationError::UnexpectedEof));
        }
        let b = input[pos];
        if b <= 3 {
            Ok((GameMode::from_byte(b), pos + 1))
        } else {
            Err(Error::Ser(SerializationError::Expected { low: 0, high: 3, found: b }))
        }
    }
}

/// The game mode a player had before, written as one signed byte: -1 for none,
/// otherwise the byte of the game mode.
#[derive(Debug, Clone, Copy, PartialEq, Eq, Structural)]
pub enum PreviousGameMode {
    Undefined,
    Normal(GameMode),
}

impl PreviousGameMode {
    /// The byte that `self` is written as.
    pub open spec fn spec_byte(self) -> u8 {
        match self {
            PreviousGameMode::Undefined => 0xff,
            PreviousGameMode::Normal(g) => g.spec_byte(),
        }
    }
}

impl DeepView for PreviousGameMode {
    type V = PreviousGameMode;

    open spec fn deep_view(&self) -> PreviousGameMode {
        *self
    }
}

impl Serialize for PreviousGameMode {
    open spec fn spec_can_serialize(&self) -> bool {
        true
    }

    fn can_serialize(&self) -> (r: bool) {
        true
    }

    open spec fn spec_serialize(&self) -> Result<Seq<u8>, Error> {
        Ok(seq![self.spec_byte()])
    }

    fn serialize_to(&self, buf: &mut Vec<u8>) -> (r: Result<(), Error>) {
        let b: u8 = match self {
            PreviousGameMode::Undefined => 0xff,
            PreviousGameMode::Normal(g) => g.byte(),
        };
        buf.push(b);
        Ok(())
    }
}

impl Deserialize for PreviousGameMode {
    type Context = ();

    open spec fn spec_can_deserialize(s: Seq<u8>, cx: ()) -> bool {
        true
    }

    fn can_deserialize(input: &[u8], pos: usize, cx: &()) -> (r: bool) {
        true
    }

    open spec fn spec_deserialize(s: Seq<u8>, cx: ()) -> Result<(PreviousGameMode, nat), Error> {
        if s.len() == 0 {
            Err(Error::Ser(SerializationError::UnexpectedEof))
        } else if s[0] == 0xff {
            Ok((PreviousGameMode::Undefined, 1))
        } else if s[0] <= 3 {
            Ok((PreviousGameMode::Normal(GameMode::spec_from_byte(s[0])), 1))
        } else {
            Err(
                Error::Ser(SerializationError::Type { label: Label::PreviousGameMode, found: s[0] }),
            )
        }
    }

    fn deserialize(input: &[u8], pos: usize, cx: &()) -> (r: Result<(PreviousGameMode, usize), Error>) {
        if pos >= input.len() {
            return Err(Error::Ser(SerializationError::UnexpectedEof));
        }
        let b = input[pos];
        if b == 0xff {
            Ok((PreviousGameMode::Undefined, pos + 1))
        } else if b <= 3 {
            Ok((PreviousGameMode::Normal(GameMode::from_byte(b)), pos + 1))
        } else {
            Err(Error::Ser(SerializationError::Type { label: Label::PreviousGameMode, found: b }))
        }
    }
}

} // verus!
