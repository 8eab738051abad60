//! Verified core of an mtr-style traceroute: the line protocol spoken between the client and
//! its probe helper, the helper's packet construction and reply parsing, and the per-hop
//! bookkeeping of the client.
use vstd::prelude::*;

pub mod backend;
pub mod cdecode;
pub mod command;
pub mod construct;
pub mod deconstruct;
pub mod engine;
pub mod error;
pub mod fields;
pub mod history;
pub mod hop;
pub mod ipaddr;
pub mod mpls;
pub mod probe_table;
pub mod replies;
pub mod request;
pub mod response;
pub mod sending;
pub mod sockets;
pub mod stats;
pub mod stream;
pub mod text;
pub mod tokenize;

verus! {

/// Most key/value pairs a protocol line may carry.
pub const MAX_ARGUMENTS: usize = 16;
/// Longest line the helper buffers, newline included.
pub const COMMAND_BUFFER_SIZE: usize = 4096;
/// MPLS labels kept per reply.
pub const MAX_LABELS: usize = 8;
/// Hop slots of the client, indexed by TTL - 1.
pub const MAX_HOST: usize = 256;
/// Distinct addresses remembered per hop.
pub const MAX_PATH: usize = 128;
/// Smallest and largest probe packet.
pub const MIN_PACKET: i32 = 28;
pub const MAX_PACKET: i32 = 65535;
/// The client's probe tokens live in `[MIN_SEQUENCE, MAX_SEQUENCE)`.
pub const MIN_SEQUENCE: u32 = 33000;
pub const MAX_SEQUENCE: u32 = 65536;
/// Pacing divisor before the first batch completes.
pub const DEFAULT_NUMHOSTS: u32 = 10;
/// Probes remembered per hop.
pub const HISTORY_LEN: usize = 1024;

} // verus!
