//! Host and container resource telemetry: samples, the container metrics
//! adapter, the sampling collector's per-tick decisions and the time-series
//! store with its queries.

pub mod collector;
pub mod command;
pub mod container;
pub mod guarantees;
pub mod store;
pub mod types;
