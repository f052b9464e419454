//! A verified implementation of the Stacks peer-to-peer wire codec: byte-exact
//! serialization and deserialization of the message envelope (preamble,
//! relayer chain, tagged payload), canonical signing and verification of
//! messages, and the attachments-inventory request aggregation object.
use vstd::prelude::*;

pub mod atlas;
pub mod codec;
pub mod crypto;
pub mod message;
pub mod message_id;
pub mod message_type;
pub mod neighbor;
pub mod payload;
pub mod peer;
pub mod preamble;
pub mod render;
pub mod types;

verus! {

/// Largest allowed total size of an encoded message, preamble included.
pub const MAX_MESSAGE_LEN: u32 = 1 + 2 * 1024 * 1024;

/// Largest allowed size of a block carried inside a `Blocks` payload.
pub const MAX_BLOCK_LEN: u32 = 2 * 1024 * 1024;

/// Encoded size of a `Preamble`, which is fixed.
pub const PREAMBLE_ENCODED_SIZE: u32 = 165;

/// Longest allowed relayer chain in a message envelope.
pub const MAX_RELAYERS_LEN: u32 = 16;

/// Most neighbor addresses a `Neighbors` payload may carry.
pub const MAX_NEIGHBORS_DATA_LEN: u32 = 128;

/// Most entries a `BlocksAvailable` or `MicroblocksAvailable` payload may carry.
pub const BLOCKS_AVAILABLE_MAX_LEN: u32 = 32;

/// Most blocks a `Blocks` payload may push.
pub const BLOCKS_PUSHED_MAX: u32 = 32;

/// Largest reward-cycle count a `GetPoxInv` may request, and the largest
/// bit length a `PoxInv` may carry.
pub const GETPOXINV_MAX_BITLEN: u64 = 64;

/// Encoded size of a `NeighborAddress`, which is fixed.
pub const NEIGHBOR_ADDRESS_ENCODED_SIZE: u32 = 38;

/// Encoded size of a recoverable message signature.
pub const MESSAGE_SIGNATURE_ENCODED_SIZE: u32 = 65;

/// The peer version advertised by testnet nodes.
pub const PEER_VERSION_TESTNET: u32 = 0xfacade01;

} // verus!
