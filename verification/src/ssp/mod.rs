//! The transport state machine: sequence numbers, acknowledgements,
//! retransmission on a smoothed round-trip time, and heartbeats.

use vstd::prelude::*;

pub mod laws;
pub mod model;
pub mod rtt;
pub mod session;

pub use session::{SspSession, SspStats};

verus! {

/// The longest silence before a heartbeat is due, in milliseconds.
pub const HEARTBEAT_INTERVAL_MS: u64 = 3000;

/// The smallest retransmission timeout, in milliseconds.
pub const RTO_MIN_MS: u64 = 50;

/// The largest retransmission timeout, in milliseconds.
pub const RTO_MAX_MS: u64 = 1000;

/// The retransmission timeout before any round trip was measured.
pub const RTO_INITIAL_MS: u64 = 1000;

} // verus!
