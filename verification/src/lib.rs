//! Verified core of a host-telemetry backend: snapshot assembly, the
//! platform network-detail parser, and window-registry decisions.
pub mod netinfo;
pub mod telemetry;
pub mod text;
pub mod windows;
