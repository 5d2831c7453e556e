//! Packets of the Play state that the server sends when a player joins.
use crate::error::{Error, SerializationError};
use crate::model::{Difficulty, GameMode, PreviousGameMode, State};
use crate::nbt::{NbtCompound, NbtValue};
use crate::packets::{Packet, PacketContext};
use crate::ser::{then_bytes, Deserialize, Serialize};
use crate::types::{Array, Identifier, Json};
use crate::varint::VarInt;
use vstd::prelude::*;

verus! {

/// The server disconnects a player in the Play state, with a reason as JSON text.
#[derive(Debug)]
pub struct DisconnectPlay {
    pub reason: Json,
}

impl Packet for DisconnectPlay {
    open spec fn spec_id() -> i32 {
        0x1A
    }

    open spec fn spec_state() -> State {
        State::Play
    }

    fn id() -> (r: VarInt<i32>) {
        VarInt(0x1A)
    }

    fn state() -> (r: State) {
        State::Play
    }
}

impl Serialize for DisconnectPlay {
    open spec fn spec_can_serialize(&self) -> bool {
        self.reason.spec_can_serialize()
    }

    fn can_serialize(&self) -> (r: bool) {
        self.reason.can_serialize()
    }

    open spec fn spec_serialize(&self) -> Result<Seq<u8>, Error> {
        self.reason.spec_serialize()
    }

    fn serialize_to(&self, buf: &mut Vec<u8>) -> (r: Result<(), Error>) {
        self.reason.serialize_to(buf)
    }
}

/// The difficulty of the world, and whether it is locked.
#[derive(Debug, Clone)]
pub struct ChangeDifficulty {
    pub difficulty: Difficulty,
    pub difficulty_locked: bool,
}

impl DeepView for ChangeDifficulty {
    type V = (Difficulty, bool);

    open spec fn deep_view(&self) -> (Difficulty, bool) {
        (self.difficulty, self.difficulty_locked)
    }
}

impl Packet for ChangeDifficulty {
    open spec fn spec_id() -> i32 {
        0x0c
    }

    open spec fn spec_state() -> State {
        State::Play
    }

    fn id() -> (r: VarInt<i32>) {
        VarInt(0x0c)
    }

    fn state() -> (r: State) {
        State::Play
    }
}

impl Serialize for ChangeDifficulty {
    open spec fn spec_can_serialize(&self) -> bool {
        true
    }

    fn can_serialize(&self) -> (r: bool) {
        true
    }

    open spec fn spec_serialize(&self) -> Result<Seq<u8>, Error> {
        then_bytes(self.difficulty.spec_serialize(), self.difficulty_locked.spec_serialize())
    }

    fn serialize_to(&self, buf: &mut Vec<u8>) -> (r: Result<(), Error>) {
        (&self.difficulty, &self.difficulty_locked).serialize_to(buf)
    }
}

impl Deserialize for ChangeDifficulty {
    type Context = PacketContext;

    open spec fn spec_can_deserialize(s: Seq<u8>, cx: PacketContext) -> bool {
        true
    }

    fn can_deserialize(input: &[u8], pos: usize, cx: &PacketContext) -> (r: bool) {
        true
    }

    open spec fn spec_deserialize(s: Seq<u8>, cx: PacketContext) -> Result<((Difficulty, bool), nat), Error> {
        <(Difficulty, bool)>::spec_deserialize(s, ())
    }

    fn deserialize(input: &[u8], pos: usize, cx: &PacketContext) -> (r: Result<(ChangeDifficulty, usize), Error>) {
        let ((difficulty, difficulty_locked), p) = <(Difficulty, bool)>::deserialize(input, pos, &())?;
        Ok((ChangeDifficulty { difficulty, difficulty_locked }, p))
    }
}

/// The abilities of a player, as bit flags: invulnerable (`0x01`), flying
/// (`0x02`), allowed to fly (`0x04`), creative mode (`0x08`).
#[derive(Debug, Clone, Copy, PartialEq, Eq, Structural)]
pub struct Abilities {
    bits: u8,
}

/// The flags that abilities can have.
pub open spec fn known_flags(bits: u8) -> bool {
    bits & 0xF0 == 0
}

impl Abilities {
    #[verifier::type_invariant]
    closed spec fn known(&self) -> bool {
        known_flags(self.bits)
    }

    pub closed spec fn spec_bits(&self) -> u8 {
        self.bits
    }

    /// The bits of the flags.
    pub fn bits(&self) -> (r: u8)
        ensures
            r == self.spec_bits(),
            known_flags(r),
    {
        proof {
            use_type_invariant(self);
        }
        self.bits
    }

    /// The flags of `bits`, when it has no bits but the four known ones.
    pub fn from_bits(bits: u8) -> (r: Option<Abilities>)
        ensures
            r is Some <==> known_flags(bits),
            r matches Some(a) ==> a.spec_bits() == bits,
    {
        if bits & 0xF0 == 0 {
            Some(Abilities { bits })
        } else {
            None
        }
    }

    pub fn empty() -> (r: Abilities)
        ensures
            r.spec_bits() == 0,
    {
        assert(0u8 & 0xF0 == 0) by (bit_vector);
        Abilities { bits: 0 }
    }

    pub fn invulnerable() -> (r: Abilities)
        ensures
            r.spec_bits() == 0x01,
    {
        assert(0x01u8 & 0xF0 == 0) by (bit_vector);
        Abilities { bits: 0x01 }
    }

    pub fn flying() -> (r: Abilities)
        ensures
            r.spec_bits() == 0x02,
    {
        assert(0x02u8 & 0xF0 == 0) by (bit_vector);
        Abilities { bits: 0x02 }
    }

    pub fn allow_flying() -> (r: Abilities)
        ensures
            r.spec_bits() == 0x04,
    {
        assert(0x04u8 & 0xF0 == 0) by (bit_vector);
        Abilities { bits: 0x04 }
    }

    pub fn creative_mode() -> (r: Abilities)
        ensures
            r.spec_bits() == 0x08,
    {
        assert(0x08u8 & 0xF0 == 0) by (bit_vector);
        Abilities { bits: 0x08 }
    }

    /// The flags of both.
    pub fn union(&self, other: &Abilities) -> (r: Abilities)
        ensures
            r.spec_bits() == self.spec_bits() | other.spec_bits(),
    {
        proof {
            use_type_invariant(self);
            use_type_invariant(other);
        }
        let a = self.bits;
        let b = other.bits;
        assert(a & 0xF0 == 0 && b & 0xF0 == 0 ==> (a | b) & 0xF0 == 0) by (bit_vector);
        Abilities { bits: a | b }
    }

    /// Whether all flags of `other` are set.
    pub fn contains(&self, other: &Abilities) -> (r: bool)
        ensures
            r == (self.spec_bits() & other.spec_bits() == other.spec_bits()),
    {
        self.bits & other.bits == other.bits
    }
}

impl DeepView for Abilities {
    type V = u8;

    open spec fn deep_view(&self) -> u8 {
        self.spec_bits()
    }
}

impl Serialize for Abilities {
    open spec fn spec_can_serialize(&self) -> bool {
        true
    }

    fn can_serialize(&self) -> (r: bool) {
        true
    }

    /// The bits, as one byte.
    open spec fn spec_serialize(&self) -> Result<Seq<u8>, Error> {
        Ok(seq![self.spec_bits()])
    }

    fn serialize_to(&self, buf: &mut Vec<u8>) -> (r: Result<(), Error>) {
        buf.push(self.bits());
        Ok(())
    }
}

impl Deserialize for Abilities {
    type Context = ();

    open spec fn spec_can_deserialize(s: Seq<u8>, cx: ()) -> bool {
        true
    }

    fn can_deserialize(input: &[u8], pos: usize, cx: &()) -> (r: bool) {
        true
    }

    /// One byte, with no bits but the known flags.
    open spec fn spec_deserialize(s: Seq<u8>, cx: ()) -> Result<(u8, nat), Error> {
        if s.len() == 0 {
            Err(Error::Ser(SerializationError::UnexpectedEof))
        } else if known_flags(s[0]) {
            Ok((s[0], 1))
        } else {
            Err(Error::InvalidBitFlags)
        }
    }

    fn deserialize(input: &[u8], pos: usize, cx: &()) -> (r: Result<(Abilities, usize), Error>) {
        if pos >= input.len() {
            return Err(Error::Ser(SerializationError::UnexpectedEof));
        }
        match Abilities::from_bits(input[pos]) {
            Some(a) => Ok((a, pos + 1)),
            None => Err(Error::InvalidBitFlags),
        }
    }
}

/// The abilities of the player, its flying speed and its field of view modifier
/// (both `f32`, held as their IEEE 754 bits).
#[derive(Debug, Clone)]
pub struct PlayerAbilities {
    pub flags: Abilities,
    pub flying_speed: u32,
    pub fov_modifier: u32,
}

impl DeepView for PlayerAbilities {
    type V = (u8, (u32, u32));

    open spec fn deep_view(&self) -> (u8, (u32, u32)) {
        (self.flags.spec_bits(), (self.flying_speed, self.fov_modifier))
    }
}

impl Packet for PlayerAbilities {
    open spec fn spec_id() -> i32 {
        0x34
    }

    open spec fn spec_state() -> State {
        State::Play
    }

    fn id() -> (r: VarInt<i32>) {
        VarInt(0x34)
    }

    fn state() -> (r: State) {
        State::Play
    }
}

impl Serialize for PlayerAbilities {
    open spec fn spec_can_serialize(&self) -> bool {
        true
    }

    fn can_serialize(&self) -> (r: bool) {
        true
    }

    /// The flags, then the two numbers, big-endian.
    open spec fn spec_serialize(&self) -> Result<Seq<u8>, Error> {
        then_bytes(
            self.flags.spec_serialize(),
            then_bytes(self.flying_speed.spec_serialize(), self.fov_modifier.spec_serialize()),
        )
    }

    fn serialize_to(&self, buf: &mut Vec<u8>) -> (r: Result<(), Error>) {
        (&self.flags, (&self.flying_speed, &self.fov_modifier)).serialize_to(buf)
    }
}

impl Deserialize for PlayerAbilities {
    type Context = PacketContext;

    open spec fn spec_can_deserialize(s: Seq<u8>, cx: PacketContext) -> bool {
        true
    }

    fn can_deserialize(input: &[u8], pos: usize, cx: &PacketContext) -> (r: bool) {
        true
    }

    open spec fn spec_deserialize(s: Seq<u8>, cx: PacketContext) -> Result<((u8, (u32, u32)), nat), Error> {
        <(Abilities, (u32, u32))>::spec_deserialize(s, ())
    }

    fn deserialize(input: &[u8], pos: usize, cx: &PacketContext) -> (r: Result<(PlayerAbilities, usize), Error>) {
        let ((flags, (flying_speed, fov_modifier)), p) = <(Abilities, (u32, u32))>::deserialize(
            input,
            pos,
            &(),
        )?;
        Ok((PlayerAbilities { flags, flying_speed, fov_modifier }, p))
    }
}

} // verus!

verus! {

/// Where a player last died: the dimension, and the position packed into 64 bits
/// as the protocol writes it.
#[derive(Debug, Clone)]
pub struct DeathLocation {
    pub dimension: Identifier,
    pub location: i64,
}

impl DeepView for DeathLocation {
    type V = ((Option<Seq<char>>, Seq<char>), i64);

    open spec fn deep_view(&self) -> ((Option<Seq<char>>, Seq<char>), i64) {
        (self.dimension.deep_view(), self.location)
    }
}

impl Serialize for DeathLocation {
    open spec fn spec_can_serialize(&self) -> bool {
        self.dimension.spec_can_serialize()
    }

    fn can_serialize(&self) -> (r: bool) {
        self.dimension.can_serialize()
    }

    open spec fn spec_serialize(&self) -> Result<Seq<u8>, Error> {
        then_bytes(self.dimension.spec_serialize(), self.location.spec_serialize())
    }

    fn serialize_to(&self, buf: &mut Vec<u8>) -> (r: Result<(), Error>) {
        (&self.dimension, &self.location).serialize_to(buf)
    }
}

impl Deserialize for DeathLocation {
    type Context = ();

    open spec fn spec_can_deserialize(s: Seq<u8>, cx: ()) -> bool {
        <(Identifier, i64)>::spec_can_deserialize(s, ())
    }

    fn can_deserialize(input: &[u8], pos: usize, cx: &()) -> (r: bool) {
        <(Identifier, i64)>::can_deserialize(input, pos, &())
    }

    open spec fn spec_deserialize(s: Seq<u8>, cx: ()) -> Result<(((Option<Seq<char>>, Seq<char>), i64), nat), Error> {
        <(Identifier, i64)>::spec_deserialize(s, ())
    }

    fn deserialize(input: &[u8], pos: usize, cx: &()) -> (r: Result<(DeathLocation, usize), Error>) {
        let ((dimension, location), p) = <(Identifier, i64)>::deserialize(input, pos, &())?;
        Ok((DeathLocation { dimension, location }, p))
    }
}

/// The fields of [`LoginPlay`] in the order they are written, as nested pairs.
pub type LoginPlayFields = (
    i32,
    (
        bool,
        (
            GameMode,
            (
                PreviousGameMode,
                (
                    Array<Identifier>,
                    (
                        NbtCompound,
                        (
                            Identifier,
                            (
                                Identifier,
                                (
                                    i64,
                                    (
                                        VarInt<i32>,
                                        (
                                            VarInt<i32>,
                                            (
                                                VarInt<i32>,
                                                (
                                                    bool,
                                                    (bool, (bool, (bool, (Option<DeathLocation>, VarInt<i32>)))),
                                                ),
                                            ),
                                        ),
                                    ),
                                ),
                            ),
                        ),
                    ),
                ),
            ),
        ),
    ),
);

/// The mathematical form of the fields of [`LoginPlay`].
pub type LoginPlayView = <LoginPlayFields as DeepView>::V;

/// The player joins the world: its entity, game mode, the dimensions, the
/// registries, and the settings of the world.
#[derive(Debug)]
pub struct LoginPlay {
    pub entity_id: i32,
    pub is_hardcore: bool,
    pub game_mode: GameMode,
    pub prev_game_mode: PreviousGameMode,
    pub dimension_names: Array<Identifier>,
    pub registry_codec: NbtCompound,
    pub dimension_type: Identifier,
    pub dimension_name: Identifier,
    pub hashed_seed: i64,
    pub max_players: VarInt<i32>,
    pub view_distance: VarInt<i32>,
    pub simulation_distance: VarInt<i32>,
    pub reduced_debug_info: bool,
    pub enable_respawn_screen: bool,
    pub is_debug: bool,
    pub is_flat: bool,
    pub death_location: Option<DeathLocation>,
    pub portal_cooldown: VarInt<i32>,
}

impl LoginPlay {
    /// The fields in the order they are written.
    pub open spec fn fields(self) -> LoginPlayFields {
        (
            self.entity_id,
            (
                self.is_hardcore,
                (
                    self.game_mode,
                    (
                        self.prev_game_mode,
                        (
                            self.dimension_names,
                            (
                                self.registry_codec,
                                (
                                    self.dimension_type,
                                    (
                                        self.dimension_name,
                                        (
                                            self.hashed_seed,
                                            (
                                                self.max_players,
                                                (
                                                    self.view_distance,
                                                    (
                                                        self.simulation_distance,
                                                        (
                                                            self.reduced_debug_info,
                                                            (
                                                                self.enable_respawn_screen,
                                                                (
                                                                    self.is_debug,
                                                                    (
                                                                        self.is_flat,
                                                                        (
                                                                            self.death_location,
                                                                            self.portal_cooldown,
                                                                        ),
                                                                    ),
                                                                ),
                                                            ),
                                                        ),
                                                    ),
                                                ),
                                            ),
                                        ),
                                    ),
                                ),
                            ),
                        ),
                    ),
                ),
            ),
        )
    }
}

impl DeepView for LoginPlay {
    type V = LoginPlayView;

    open spec fn deep_view(&self) -> LoginPlayView {
        self.fields().deep_view()
    }
}

impl Packet for LoginPlay {
    open spec fn spec_id() -> i32 {
        0x28
    }

    open spec fn spec_state() -> State {
        State::Play
    }

    fn id() -> (r: VarInt<i32>) {
        VarInt(0x28)
    }

    fn state() -> (r: State) {
        State::Play
    }
}

impl Serialize for LoginPlay {
    open spec fn spec_can_serialize(&self) -> bool {
        self.fields().spec_can_serialize()
    }

    fn can_serialize(&self) -> (r: bool) {
        (
            &self.entity_id,
            (
                &self.is_hardcore,
                (
                    &self.game_mode,
                    (
                        &self.prev_game_mode,
                        (
                            &self.dimension_names,
                            (
                                &self.registry_codec,
                                (
                                    &self.dimension_type,
                                    (
                                        &self.dimension_name,
                                        (
                                            &self.hashed_seed,
                                            (
                                                &self.max_players,
                                                (
                                                    &self.view_distance,
                                                    (
                                                        &self.simulation_distance,
                                                        (
                                                            &self.reduced_debug_info,
                                                            (
                                                                &self.enable_respawn_screen,
                                                                (
                                                                    &self.is_debug,
                                                                    (
                                                                        &self.is_flat,
                                                                        (
                                                                            &self.death_location,
                                                                            &self.portal_cooldown,
                                                                        ),
                                                                    ),
                                                                ),
                                                            ),
                                                        ),
                                                    ),
                                                ),
                                            ),
                                        ),
                                    ),
                                ),
                            ),
                        ),
                    ),
                ),
            ),
        ).can_serialize()
    }

    /// The fields one after the other, in the order of the declaration.
    open spec fn spec_serialize(&self) -> Result<Seq<u8>, Error> {
        self.fields().spec_serialize()
    }

    fn serialize_to(&self, buf: &mut Vec<u8>) -> (r: Result<(), Error>) {
        (
            &self.entity_id,
            (
                &self.is_hardcore,
                (
                    &self.game_mode,
                    (
                        &self.prev_game_mode,
                        (
                            &self.dimension_names,
                            (
                                &self.registry_codec,
                                (
                                    &self.dimension_type,
                                    (
                                        &self.dimension_name,
                                        (
                                            &self.hashed_seed,
                                            (
                                                &self.max_players,
                                                (
                                                    &self.view_distance,
                                                    (
                                                        &self.simulation_distance,
                                                        (
                                                            &self.reduced_debug_info,
                                                            (
                                                                &self.enable_respawn_screen,
                                                                (
                                                                    &self.is_debug,
                                                                    (
                                                                        &self.is_flat,
                                                                        (
                                                                            &self.death_location,
                                                                            &self.portal_cooldown,
                                                                        ),
                                                                    ),
                                                                ),
                                                            ),
                                                        ),
                                                    ),
                                                ),
                                            ),
                                        ),
                                    ),
                                ),
                            ),
                        ),
                    ),
                ),
            ),
        ).serialize_to(buf)
    }
}

impl Deserialize for LoginPlay {
    type Context = PacketContext;

    open spec fn spec_can_deserialize(s: Seq<u8>, cx: PacketContext) -> bool {
        LoginPlayFields::spec_can_deserialize(s, ())
    }

    fn can_deserialize(input: &[u8], pos: usize, cx: &PacketContext) -> (r: bool) {
        LoginPlayFields::can_deserialize(input, pos, &())
    }

    /// The fields one after the other, in the order of the declaration.
    open spec fn spec_deserialize(s: Seq<u8>, cx: PacketContext) -> Result<(LoginPlayView, nat), Error> {
        LoginPlayFields::spec_deserialize(s, ())
    }

    fn deserialize(input: &[u8], pos: usize, cx: &PacketContext) -> (r: Result<(LoginPlay, usize), Error>) {
        let (
            (
                entity_id,
                (
                    is_hardcore,
                    (
                        game_mode,
                        (
                            prev_game_mode,
                            (
                                dimension_names,
                                (
                                    registry_codec,
                                    (
                                        dimension_type,
                                        (
                                            dimension_name,
                                            (
                                                hashed_seed,
                                                (
                                                    max_players,
                                                    (
                                                        view_distance,
                                                        (
                                                            simulation_distance,
                                                            (
                                                                reduced_debug_info,
                                                                (
                                                                    enable_respawn_screen,
                                                                    (
                                                                        is_debug,
                                                                        (is_flat, (death_location, portal_cooldown)),
                                                                    ),
                                                                ),
                                                            ),
                                                        ),
                                                    ),
                                                ),
                                            ),
                                        ),
                                    ),
                                ),
                            ),
                        ),
                    ),
                ),
            ),
            p,
        ) = LoginPlayFields::deserialize(input, pos, &())?;
        Ok(
            (
                LoginPlay {
                    entity_id,
                    is_hardcore,
                    game_mode,
                    prev_game_mode,
                    dimension_names,
                    registry_codec,
                    dimension_type,
                    dimension_name,
                    hashed_seed,
                    max_players,
                    view_distance,
                    simulation_distance,
                    reduced_debug_info,
                    enable_respawn_screen,
                    is_debug,
                    is_flat,
                    death_location,
                    portal_cooldown,
                },
                p,
            ),
        )
    }
}

} // verus!
