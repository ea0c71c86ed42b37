//! Telemetry for a two-line character display: the display's bus protocol,
//! the CPU load gauge derived from kernel tick counters, and line formatting.

pub mod utils;
pub mod system_resources;
pub mod proc_stat;
pub mod lcd;
