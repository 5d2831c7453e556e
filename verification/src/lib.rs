//! Wire formats and protocol logic of a Minecraft (Java edition, protocol 763) server:
//! variable-length integers, packet framing, the serialization of protocol types,
//! NBT, and the small helpers around them.

pub mod error;
pub mod chat;
pub mod varint;
pub mod ser;
pub mod bytes_be;
pub mod model;
pub mod packets;
pub mod nbt;
pub mod nbt_laws;
pub mod nbt_serde;
pub mod types;
pub mod server;
pub mod source;
pub mod cli;
pub mod nsfr;
pub mod logging;
pub mod registry;
pub mod codec;
pub mod laws;
pub mod numbers;
pub mod client;
pub mod tool;
