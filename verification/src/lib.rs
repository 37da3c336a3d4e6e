//! Verified core of a multi-worker TCP connect scanner.
//!
//! The library holds the pure logic of the scanner: validating the scan
//! configuration, parsing command-line arguments, partitioning the port range
//! across workers by striding, the per-worker probe state machine, and the
//! collector that sorts the reported open ports into the final result. The
//! surrounding binary performs the actual connection attempts, threading and
//! printing, and feeds the outcomes of its probes into these functions.

pub mod addr;
pub mod args;
pub mod collector;
pub mod config;
pub mod dispatcher;
pub mod scan;
pub mod stride;
pub mod worker;
