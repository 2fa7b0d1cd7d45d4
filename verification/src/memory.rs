//! Memory snapshots: RAM and swap usage with guarded percentage roll-ups.

use vstd::prelude::*;
use crate::arith::{percent_hundredths, percent_hundredths_spec};

verus! {

/// Memory statistics in bytes; percentages in hundredths of a percent.
#[derive(Debug, Clone)]
pub struct MemoryInfo {
    pub total_memory: u64,
    pub used_memory: u64,
    pub available_memory: u64,
    pub total_swap: u64,
    pub used_swap: u64,
    pub memory_usage_percent: u32,
    pub swap_usage_percent: u32,
}

/// Assemble a memory snapshot from raw byte counts; a zero total reads as
/// zero percent rather than dividing by zero.
pub fn build_memory_info(
    total_memory: u64,
    used_memory: u64,
    available_memory: u64,
    total_swap: u64,
    used_swap: u64,
) -> (r: MemoryInfo)
    ensures
        r.total_memory == total_memory,
        r.used_memory == used_memory,
        r.available_memory == available_memory,
        r.total_swap == total_swap,
        r.used_swap == used_swap,
        r.memory_usage_percent == percent_hundredths_spec(used_memory, total_memory),
        r.swap_usage_percent == percent_hundredths_spec(used_swap, total_swap),
{
    MemoryInfo {
        total_memory,
        used_memory,
        available_memory,
        total_swap,
        used_swap,
        memory_usage_percent: percent_hundredths(used_memory, total_memory),
        swap_usage_percent: percent_hundredths(used_swap, total_swap),
    }
}

} // verus!
