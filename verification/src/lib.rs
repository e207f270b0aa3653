//! A partial BGP-4 speaker library: wire-protocol codec (message framing,
//! OPEN message and capability TLV encode/decode), the peer session state
//! machine, community-list parsing, and neighbor bookkeeping.

use vstd::prelude::*;

pub mod capability;
pub mod client;
pub mod communities;
pub mod error;
pub mod message;
pub mod neighbor;
pub mod neighbor_map;
pub mod netbuf;
pub mod wire;

verus! {

/// The well-known BGP TCP port.
pub const BGP_PORT: u16 = 179;

/// Every BGP message starts with a 19-byte header.
pub const BGP_HEADER_LEN: usize = 19;

} // verus!
