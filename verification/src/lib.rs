//! Administrative control-plane surface for a stateful server: runtime
//! introspection (telemetry snapshots, flat metrics text), operational control
//! (a global write-lock flag with an attached reason, dynamic log-level
//! reconfiguration) and constant liveness probes, together with the uniform
//! timed response envelope that every operation is reported in.

pub mod api;
pub mod lock;
pub mod logger;
pub mod metrics;
pub mod telemetry;
pub mod text;
