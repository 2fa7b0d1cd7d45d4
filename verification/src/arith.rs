//! Saturating arithmetic and percentage roll-ups used across the monitors.
//!
//! Totals over arbitrary counter readings saturate instead of wrapping, and
//! percentages guard division by zero by reporting zero. Percentages are
//! carried in hundredths of a percent.

use vstd::prelude::*;

verus! {

/// Saturating 64-bit addition.
pub open spec fn sat_add_u64(a: u64, b: u64) -> u64 {
    if a + b > u64::MAX {
        u64::MAX
    } else {
        (a + b) as u64
    }
}

/// Saturating 32-bit addition.
pub open spec fn sat_add_u32(a: u32, b: u32) -> u32 {
    if a + b > u32::MAX {
        u32::MAX
    } else {
        (a + b) as u32
    }
}

/// `part` as a share of `total`, in hundredths of a percent, rounded down;
/// zero when the total is zero, saturated when the share does not fit.
pub open spec fn percent_hundredths_spec(part: u64, total: u64) -> u32 {
    if total == 0 {
        0u32
    } else {
        let q = part * 10000 / (total as int);
        if q > u32::MAX {
            u32::MAX
        } else {
            q as u32
        }
    }
}

/// Saturating 64-bit addition.
pub fn sat_add64(a: u64, b: u64) -> (r: u64)
    ensures
        r == sat_add_u64(a, b),
{
    if a > u64::MAX - b {
        u64::MAX
    } else {
        a + b
    }
}

/// Saturating 32-bit addition.
pub fn sat_add32(a: u32, b: u32) -> (r: u32)
    ensures
        r == sat_add_u32(a, b),
{
    if a > u32::MAX - b {
        u32::MAX
    } else {
        a + b
    }
}

/// Percentage of `part` in `total`, in hundredths of a percent.
pub fn percent_hundredths(part: u64, total: u64) -> (r: u32)
    ensures
        r == percent_hundredths_spec(part, total),
{
    if total == 0 {
        0
    } else {
        let q: u128 = (part as u128) * 10000 / (total as u128);
        if q > u32::MAX as u128 {
            u32::MAX
        } else {
            q as u32
        }
    }
}

} // verus!
