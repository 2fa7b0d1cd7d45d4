//! CPU snapshots: per-core usage and frequency, with the global usage as
//! the mean over the cores.

use vstd::prelude::*;

verus! {

/// One core's reading; usage in hundredths of a percent.
#[derive(Debug, Clone)]
pub struct CpuCore {
    pub name: String,
    pub usage: u32,
    pub frequency: u64,
}

/// Overall CPU snapshot; global usage in hundredths of a percent.
#[derive(Debug, Clone)]
pub struct CpuInfo {
    pub name: String,
    pub vendor: String,
    pub brand: String,
    pub physical_cores: usize,
    pub logical_cores: usize,
    pub global_usage: u32,
    pub cores: Vec<CpuCore>,
}

/// Total usage over the cores, unbounded.
pub open spec fn sum_usage(cs: Seq<CpuCore>) -> int
    decreases cs.len(),
{
    if cs.len() == 0 {
        0
    } else {
        sum_usage(cs.drop_last()) + cs.last().usage
    }
}

/// The mean core usage, zero over no cores.
pub open spec fn global_usage_spec(cs: Seq<CpuCore>) -> u32 {
    if cs.len() == 0 {
        0u32
    } else {
        (sum_usage(cs) / (cs.len() as int)) as u32
    }
}

proof fn lemma_sum_usage_bound(cs: Seq<CpuCore>)
    ensures
        0 <= sum_usage(cs) <= cs.len() * (u32::MAX as int),
    decreases cs.len(),
{
    if cs.len() > 0 {
        lemma_sum_usage_bound(cs.drop_last());
        assert((cs.len() - 1) * (u32::MAX as int) + (u32::MAX as int) == cs.len() * (
        u32::MAX as int)) by (nonlinear_arith);
    }
}

/// Assemble a CPU snapshot: the logical core count is the number of per-core
/// readings and the global usage is their mean, zero when there are none.
pub fn build_cpu_info(
    name: String,
    vendor: String,
    brand: String,
    physical_cores: usize,
    cores: Vec<CpuCore>,
) -> (r: CpuInfo)
    ensures
        r.name == name,
        r.vendor == vendor,
        r.brand == brand,
        r.physical_cores == physical_cores,
        r.logical_cores == cores@.len(),
        r.global_usage == global_usage_spec(cores@),
        r.cores == cores,
{
    let mut sum: u128 = 0;
    let mut i: usize = 0;
    let n = cores.len();
    proof {
        assert(n == cores@.len());
        lemma_sum_usage_bound(cores@);
    }
    while i < cores.len()
        invariant
            i <= cores@.len(),
            cores@.len() <= usize::MAX,
            sum == sum_usage(cores@.take(i as int)),
            sum <= (i as int) * (u32::MAX as int),
        decreases cores@.len() - i,
    {
        proof {
            assert(cores@.take(i + 1).drop_last() =~= cores@.take(i as int));
            assert(cores@.take(i + 1).last() == cores@[i as int]);
            lemma_sum_usage_bound(cores@.take(i + 1));
            assert((i as int) * (u32::MAX as int) + (u32::MAX as int) == (i + 1) * (
            u32::MAX as int)) by (nonlinear_arith);
        }
        sum = sum + cores[i].usage as u128;
        i += 1;
    }
    proof {
        assert(cores@.take(cores@.len() as int) =~= cores@);
    }
    let global_usage = if cores.len() == 0 {
        0
    } else {
        let q = sum / (cores.len() as u128);
        proof {
            assert(sum <= (cores@.len() as int) * (u32::MAX as int));
            assert((sum as int) / (cores@.len() as int) <= u32::MAX as int) by (nonlinear_arith)
                requires
                    cores@.len() > 0,
                    (sum as int) <= (cores@.len() as int) * (u32::MAX as int),
            ;
        }
        q as u32
    };
    let logical_cores = cores.len();
    CpuInfo { name, vendor, brand, physical_cores, logical_cores, global_usage, cores }
}

} // verus!
