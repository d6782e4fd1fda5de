//! Verified core of a peer-to-peer LAN file-transfer agent.
//!
//! The library holds the protocol decisions: the deduplicated peer set that
//! discovery maintains, the edge-triggered liveness registry driven by a
//! TCP ping/pong heartbeat, the pending-request correlation table of the
//! transfer coordinator, collision-free destination naming for uploaded
//! files, and the progress arithmetic of the upload data plane. The I/O
//! that surrounds these decisions (mDNS, TLS, sockets, the filesystem)
//! lives outside the library and hands it plain values.

use vstd::prelude::*;

pub mod discovery;
pub mod fileinfo;
pub mod heartbeat;
pub mod net;
pub mod peers;
pub mod pending;
pub mod server;
pub mod storage;
pub mod text;
pub mod upload;

verus! {

/// TCP port of the plain-text heartbeat protocol.
pub const HEARTBEAT_PORT: u16 = 21112;

/// Default port of the TLS control-plane server.
pub const DEFAULT_CONTROL_PORT: u16 = 21212;

} // verus!
