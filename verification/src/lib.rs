//! Device-session management for enabling JIT compilation on mobile devices
//! over a local network: a registry of paired devices with access control and
//! pairing-code flow, a heartbeat supervisor that keeps at most one keep-alive
//! loop per device, a developer-disk-image provisioner, and the debug-protocol
//! command engine that launches or attaches to a process and immediately
//! detaches, leaving the elevated memory permission in effect.

pub mod apps;
pub mod config;
pub mod heartbeat;
pub mod messages;
pub mod mounts;
pub mod netmuxd;
pub mod packets;
pub mod protocol;
pub mod provision;
pub mod registry;
pub mod session;
pub mod storage;
pub mod subnet;
