//! Core of a stateful telemetry aggregation engine.
//!
//! Domain monitors (CPU, memory, disk, network, process, GPU, sensors) turn
//! raw cumulative counters and attribute readings into point-in-time
//! snapshots with derived metrics: per-second rates, delta-based utilization,
//! percentage roll-ups, cross-process grouping, and time-boxed caching of
//! expensive probes. All I/O (kernel counter files, vendor libraries,
//! diagnostic utilities) stays outside this crate; callers hand in the raw
//! readings as plain values and receive owned snapshot values back.
//!
//! Fractional quantities (usages, percentages, rates) are carried as scaled
//! integers: percentages in hundredths of a percent, rates in whole units
//! per second, temperatures in hundredths of a degree.

pub mod arith;
pub mod cache;
pub mod cpu;
pub mod disk;
pub mod error;
pub mod gpu;
pub mod lazy;
pub mod memory;
pub mod network;
pub mod process;
pub mod rate;
pub mod sensors;
pub mod system;
pub mod text;
