//! A binary packet parser with verified contracts.
//!
//! A packet is a 16-byte header (magic number, version, type, flags, sequence number, payload
//! length and checksum) followed by its payload. The library builds packets, writes them as
//! bytes, parses them back with configurable checks, and keeps statistics of what it parsed.

pub mod cli;
pub mod error;
pub mod packet;
pub mod parser;
pub mod text;

pub use error::{PacketError, PacketResult};
pub use packet::{Packet, PacketFlags, PacketHeader, PacketType};
pub use parser::{PacketParser, ParseStats, ParserConfig, ParserConfigBuilder};

use vstd::prelude::*;

verus! {

/// Library version.
pub const VERSION: &'static str = "0.1.0";

/// Protocol magic number for quick reference.
pub const MAGIC: u32 = packet::PACKET_MAGIC;

/// Current protocol version.
pub const VERSION_NUM: u8 = packet::PROTOCOL_VERSION;

/// Header size in bytes.
pub const HEADER_SIZE: usize = packet::HEADER_SIZE;

} // verus!
