//! Core logic of a mesh networking node: the wire frame codec, chunking,
//! canonical CBOR metadata, the reliability layer (write-ahead log, dedup,
//! ACK/credit flow control), the link-state topology database with routing
//! table and ECMP selection, the session-manager decision logic, and the
//! message queue with retry and status tracking.

use vstd::prelude::*;

pub mod bytes_be;
pub mod checksum;
pub mod errors;
pub mod header;
pub mod meta;
pub mod frame;
pub mod codec;
pub mod chunk;
pub mod storage;
pub mod clock;
pub mod ids;
pub mod node_uri;
pub mod segment;
pub mod hops;
pub mod ecmp;
pub mod topo_msg;
pub mod topo_wire;
pub mod topology;
pub mod router;
pub mod table;
pub mod reliability;
pub mod keepalive;
pub mod handshake;
pub mod failure_tracker;
pub mod tracker;
pub mod manager;
pub mod delivery;
pub mod queue;
pub mod data;
pub mod config;
pub mod session;

pub use bytes_be::u16_to_be_bytes;
pub use bytes_be::u16_from_be_bytes;
pub use bytes_be::u32_to_be_bytes;
pub use bytes_be::u32_from_be_bytes;
pub use bytes_be::u64_to_be_bytes;
pub use bytes_be::u64_from_be_bytes;

verus! {

/// Wire protocol version carried in every fast header.
pub const WIRE_VERSION: u8 = 1;

/// Size of the fixed fast header in bytes.
pub const FAST_HEADER_SIZE: usize = 48;

} // verus!
