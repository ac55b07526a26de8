//! Verified core of a power-telemetry monitor: configuration parsing,
//! sensor naming, persisted counters, cluster bookkeeping and the
//! encrypted datagram framing of the peer mesh.

pub mod text;
pub mod p2p;
pub mod config;
pub mod sensors;
pub mod state;
pub mod tui;
pub mod report;
pub mod mqtt;
