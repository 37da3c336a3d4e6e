use vstd::prelude::*;

use crate::addr::IpAddress;

verus! {

/// Largest TCP port number.
pub const MAX_PORT: u16 = 65535;

/// Immutable, validated scan parameters, shared read-only by every worker.
#[derive(Clone, Copy, PartialEq, Eq, Structural, Debug)]
pub struct ScanConfig {
    pub target: IpAddress,
    pub start_port: u16,
    pub end_port: u16,
    pub worker_count: u16,
}

/// Why a candidate configuration was rejected.
#[derive(Clone, Copy, PartialEq, Eq, Structural, Debug)]
pub enum ConfigError {
    PortRangeOutOfBounds,
    ZeroWorkerCount,
}

impl ScanConfig {
    /// The configuration invariant: a non-empty port range within
    /// `[1, MAX_PORT]` and at least one worker. The port bounds are 16-bit
    /// values, so `end_port <= MAX_PORT` holds by type alone.
    pub open spec fn valid(self) -> bool {
        1 <= self.start_port && self.start_port <= self.end_port && self.worker_count >= 1
    }

    /// Validating constructor. A zero or inverted port range and a zero worker
    /// count are rejected before any scanning can begin; every accepted
    /// configuration satisfies `valid`.
    pub fn new(target: IpAddress, start_port: u16, end_port: u16, worker_count: u16) -> (r:
        Result<ScanConfig, ConfigError>)
        ensures
            match r {
                Ok(c) => c.valid() && c.target == target && c.start_port == start_port
                    && c.end_port == end_port && c.worker_count == worker_count,
                Err(e) => !(1 <= start_port && start_port <= end_port && worker_count >= 1) && (e
                    == ConfigError::PortRangeOutOfBounds <==> (start_port == 0 || start_port
                    > end_port)) && (e == ConfigError::ZeroWorkerCount <==> (1 <= start_port
                    && start_port <= end_port && worker_count == 0)),
            },
    {
        if start_port == 0 || start_port > end_port {
            Err(ConfigError::PortRangeOutOfBounds)
        } else if worker_count == 0 {
            Err(ConfigError::ZeroWorkerCount)
        } else {
            Ok(ScanConfig { target, start_port, end_port, worker_count })
        }
    }
}

} // verus!
