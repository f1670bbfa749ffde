//! In-process telemetry read back for a dashboard: series folded from metric
//! samples, rates of the topology's edges, traces, logs and span groups.
//!
//! Metric values are carried as the bits of the floating-point number they
//! are; what is computed from them is named here and computed outside.

pub mod config;
pub mod edges;
pub mod series;
pub mod traces;
