//! TFTP wire protocol: RFC 1350 plus the option-extension family
//! (RFC 2347, 2348, 2349, 7440).
pub mod opcode;
pub mod options;
pub mod packet;
pub mod text;

pub use opcode::{ErrorCode, Opcode};
pub use options::{Mode, OptionKind, OptionSet, OptionValue};
pub use packet::{decode, encode_into, Packet, PacketView};

use vstd::prelude::*;

verus! {

/// Default block size before any blksize negotiation.
pub const DEFAULT_BLOCK_SIZE: u16 = 512;

/// Minimum block size that may be negotiated (RFC 2348).
pub const MIN_BLOCK_SIZE: u16 = 8;

/// Maximum block size that may be negotiated (RFC 2348).
pub const MAX_BLOCK_SIZE: u16 = 65464;

/// Default per-packet retransmit timeout in seconds.
pub const DEFAULT_TIMEOUT_SECS: u8 = 5;

/// Default windowsize before any windowsize negotiation (RFC 7440).
pub const DEFAULT_WINDOW_SIZE: u16 = 1;

/// Size of the largest packet: a full data block behind its 4-byte header.
pub const MAX_PACKET_SIZE: usize = 65468;

} // verus!
