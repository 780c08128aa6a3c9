//! Defaults of the service: ports and timing.

use vstd::prelude::*;

verus! {

/// Port of the control channel.
pub const PORT_TCP: u16 = 7000;

/// Port of the datagram channel.
pub const PORT_UDP: u16 = 7001;

/// Seconds between two quote snapshots.
pub const DURATION_TICKERS_GENERATE_SEC: u64 = 1;

/// Seconds without a keep-alive after which a subscriber is stale.
pub const DURATION_PING_TIMEOUT_SEC: u64 = 5;

/// Seconds between two keep-alives of a subscriber.
pub const DURATION_PING_DELAY_SEC: u64 = 1;

/// Seconds a control session waits for a line before it checks its
/// subscriber's liveness again.
pub const DURATION_READ_TIMEOUT_SEC: u64 = 1;

} // verus!
