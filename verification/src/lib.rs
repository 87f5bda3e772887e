//! Verified core of a two-tier monitoring fleet.
//!
//! Agents run health checks on a schedule, turn results into status deltas,
//! and stream them to a gateway, buffering while offline.  Gateways keep a
//! registry of live agents and route backend commands to them.  This crate
//! holds the decision logic of both processes — scheduling, change detection,
//! buffering, wire framing, registry and routing — with machine-checked
//! contracts.  Network, process and file effects live outside the crate.

pub mod agent_config;
pub mod buffer;
pub mod codec;
pub mod executor;
pub mod gateway_config;
pub mod native;
pub mod registry;
pub mod router;
pub mod scheduler;
pub mod session;
pub mod shims;
pub mod text;
pub mod wire;

pub use buffer::OfflineBuffer;
