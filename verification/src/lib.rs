//! A client for the Source RCON protocol, without the network: the packet
//! and its wire format, the seam between values and bytes, and the
//! handshake that authenticates and runs one command.
//!
//! Nothing here does I/O. A caller that owns a connection reads and writes
//! the bytes and lets this library decide what they mean and what comes
//! next.

pub mod codec;
pub mod endian;
pub mod error;
pub mod extension;
pub mod laws;
pub mod packet;
pub mod primitive;
pub mod serialize;
pub mod session;
pub mod wire;

pub use error::{Error, ErrorKind};
pub use packet::{Packet, PacketType, RawBody};
pub use session::RconSession;
