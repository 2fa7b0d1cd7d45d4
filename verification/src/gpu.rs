//! GPU snapshots across a closed set of vendors.
//!
//! Each vendor probe enumerates devices independently; a probe's failure
//! never aborts the others. Unsupported metrics stay absent where absence
//! is meaningful (fan speed, encoder/decoder load) and default to zero
//! where zero is a plausible idle reading (utilization, clocks). Intel
//! utilization is derived from cumulative idle-residency deltas, with the
//! same first-observation-returns-zero discipline as the rate tracker.

use vstd::prelude::*;
use vstd::string::StringExecFns;
use crate::text::{
    ascii_bytes, ascii_seq, bytes_eq, contains_bytes, contains_sub, copy_range, dec_str,
    lines_of, lower_seq, parse_u32_bytes, parse_u32_spec, split_lines, split_ws_tokens,
    tokens_of, trim_bytes, trim_chars, trim_spec, trim_str, views_of,
};

verus! {

/// GPU vendor tag.
#[derive(Debug, Clone, Copy, PartialEq, Eq, Structural)]
pub enum GpuVendor {
    Nvidia,
    Amd,
    Intel,
    Unknown,
}

/// One device's snapshot row. Utilizations and fan speed are whole
/// percents; power in milliwatts; clocks in MHz; memory in bytes.
#[derive(Debug, Clone)]
pub struct GpuInfo {
    pub index: u32,
    pub name: String,
    pub vendor: GpuVendor,
    pub uuid: String,
    pub utilization_gpu: u32,
    pub utilization_memory: u32,
    pub memory_total: u64,
    pub memory_used: u64,
    pub memory_free: u64,
    pub temperature: u32,
    pub power_usage: u32,
    pub power_limit: u32,
    pub fan_speed: Option<u32>,
    pub clock_graphics: u32,
    pub clock_memory: u32,
    pub encoder_utilization: Option<u32>,
    pub decoder_utilization: Option<u32>,
}

/// Merged snapshot over all vendors, with per-vendor availability flags
/// and the diagnostics gathered along the way.
#[derive(Debug, Clone)]
pub struct GpusInfo {
    pub gpus: Vec<GpuInfo>,
    pub nvidia_available: bool,
    pub amd_available: bool,
    pub intel_available: bool,
    pub driver_version: Option<String>,
    pub errors: Vec<String>,
}

/// Whether a device-tree vendor tag names this vendor id, after trimming
/// and ASCII case folding.
pub open spec fn vendor_tag_matches(tag: Seq<u8>, id: Seq<char>) -> bool {
    lower_seq(trim_spec(tag)) == lower_seq(ascii_seq(id))
}

/// Check a vendor tag read from the device tree against the AMD id.
pub fn is_amd_vendor_tag(tag: &[u8]) -> (r: bool)
    ensures
        r == vendor_tag_matches(tag@, "0x1002"@),
{
    proof {
        reveal_strlit("0x1002");
    }
    let pat = ascii_bytes("0x1002");
    let trimmed = trim_bytes(tag);
    crate::text::eq_ignore_ascii_case(trimmed.as_slice(), pat.as_slice())
}

/// Check a vendor tag read from the device tree against the Intel id.
pub fn is_intel_vendor_tag(tag: &[u8]) -> (r: bool)
    ensures
        r == vendor_tag_matches(tag@, "0x8086"@),
{
    proof {
        reveal_strlit("0x8086");
    }
    let pat = ascii_bytes("0x8086");
    let trimmed = trim_bytes(tag);
    crate::text::eq_ignore_ascii_case(trimmed.as_slice(), pat.as_slice())
}

/// The marketing name for an AMD device id.
pub open spec fn amd_name_spec(id: Option<Seq<char>>) -> Seq<char> {
    match id {
        None => "AMD Radeon Graphics"@,
        Some(s) => if trim_chars(s) == "0x1638"@ {
            "AMD Radeon Graphics (Ryzen 5000 Series iGPU)"@
        } else if trim_chars(s) == "0x1506"@ {
            "AMD Radeon Graphics (Ryzen 7000 Series iGPU)"@
        } else {
            "AMD Radeon Graphics (Device "@ + trim_chars(s) + ")"@
        },
    }
}

/// Name an AMD device from its device-tree id, if one could be read.
pub fn amd_device_name(id: Option<&String>) -> (r: String)
    ensures
        r@ == amd_name_spec(match id {
            Some(s) => Some(s@),
            None => None,
        }),
{
    match id {
        None => String::from_str("AMD Radeon Graphics"),
        Some(s) => {
            let t = trim_str(s.as_str());
            if t.eq(&String::from_str("0x1638")) {
                String::from_str("AMD Radeon Graphics (Ryzen 5000 Series iGPU)")
            } else if t.eq(&String::from_str("0x1506")) {
                String::from_str("AMD Radeon Graphics (Ryzen 7000 Series iGPU)")
            } else {
                let mut r = String::from_str("AMD Radeon Graphics (Device ");
                r.append(t.as_str());
                r.append(")");
                r
            }
        },
    }
}

/// A device-tree value scaled down by one thousand (millidegrees to
/// degrees, microwatts to milliwatts); absent when unparsable.
pub open spec fn scaled_value_spec(content: Seq<u8>) -> Option<u32> {
    match parse_u32_spec(trim_spec(content)) {
        Some(v) => Some((v / 1000) as u32),
        None => None,
    }
}

/// Parse a device-tree attribute value and scale it down by a thousand.
pub fn parse_scaled_value(content: &[u8]) -> (r: Option<u32>)
    ensures
        r == scaled_value_spec(content@),
{
    let trimmed = trim_bytes(content);
    match parse_u32_bytes(trimmed.as_slice()) {
        Some(v) => Some(v / 1000),
        None => None,
    }
}

/// The token with its megahertz suffix removed, if it carries one.
pub open spec fn strip_mhz(t: Seq<u8>) -> Option<Seq<u8>> {
    if t.len() >= 3 && (t.skip(t.len() - 3) == ascii_seq("Mhz"@) || t.skip(t.len() - 3)
        == ascii_seq("MHz"@)) {
        Some(t.take(t.len() - 3))
    } else {
        None
    }
}

/// What one line of the clock table contributes: `None` to keep searching,
/// `Some(outcome)` when the line holds the selected level (a `*`), a
/// second column, and a megahertz suffix.
pub open spec fn clock_candidate(l: Seq<u8>) -> Option<Option<u32>> {
    if !contains_sub(l, seq![0x2au8]) {
        None
    } else if tokens_of(l).len() < 2 {
        None
    } else {
        match strip_mhz(tokens_of(l)[1]) {
            None => None,
            Some(num) => Some(parse_u32_spec(num)),
        }
    }
}

/// The selected clock level of a frequency table: the first line marked
/// with `*` whose second column parses as megahertz.
pub open spec fn clock_spec(lines: Seq<Seq<u8>>) -> Option<u32>
    decreases lines.len(),
{
    if lines.len() == 0 {
        None
    } else {
        match clock_candidate(lines[0]) {
            Some(v) => v,
            None => clock_spec(lines.drop_first()),
        }
    }
}

/// Find the selected clock in a device frequency table.
pub fn find_selected_clock(content: &[u8]) -> (r: Option<u32>)
    ensures
        r == clock_spec(lines_of(content@)),
{
    proof {
        reveal_strlit("*");
        reveal_strlit("Mhz");
        reveal_strlit("MHz");
    }
    let star = ascii_bytes("*");
    let mhz_a = ascii_bytes("Mhz");
    let mhz_b = ascii_bytes("MHz");
    proof {
        assert(star@ =~= seq![0x2au8]);
    }
    let lines = split_lines(content);
    let mut i: usize = 0;
    proof {
        assert(views_of(lines@).skip(0) =~= views_of(lines@));
    }
    while i < lines.len()
        invariant
            i <= lines@.len(),
            star@ == seq![0x2au8],
            mhz_a@ == ascii_seq("Mhz"@),
            mhz_b@ == ascii_seq("MHz"@),
            views_of(lines@) == lines_of(content@),
            clock_spec(lines_of(content@)) == clock_spec(views_of(lines@).skip(i as int)),
        decreases lines@.len() - i,
    {
        proof {
            assert(views_of(lines@).skip(i as int)[0] == lines@[i as int]@);
            assert(views_of(lines@).skip(i as int).drop_first() =~= views_of(lines@).skip(i + 1));
        }
        let line = &lines[i];
        if contains_bytes(line.as_slice(), star.as_slice()) {
            let toks = split_ws_tokens(line.as_slice());
            if toks.len() >= 2 {
                proof {
                    assert(views_of(toks@)[1] == toks@[1]@);
                }
                let t = &toks[1];
                if t.len() >= 3 {
                    let tail = copy_range(t.as_slice(), t.len() - 3, t.len());
                    proof {
                        assert(tail@ =~= t@.skip(t@.len() - 3));
                    }
                    if bytes_eq(tail.as_slice(), mhz_a.as_slice()) || bytes_eq(
                        tail.as_slice(),
                        mhz_b.as_slice(),
                    ) {
                        let num = copy_range(t.as_slice(), 0, t.len() - 3);
                        proof {
                            assert(num@ =~= t@.take(t@.len() - 3));
                        }
                        return parse_u32_bytes(num.as_slice());
                    }
                }
            }
        }
        i += 1;
    }
    proof {
        assert(views_of(lines@).skip(i as int).len() == 0);
    }
    None
}

/// Used memory as a whole percent of the total, floor, zero on a zero
/// total, saturated when out of range.
pub open spec fn whole_percent_spec(part: u64, total: u64) -> u32 {
    if total == 0 {
        0u32
    } else {
        let q = part * 100 / (total as int);
        if q > u32::MAX {
            u32::MAX
        } else {
            q as u32
        }
    }
}

/// Whole-percent share, for vendors that report utilization that way.
pub fn whole_percent(part: u64, total: u64) -> (r: u32)
    ensures
        r == whole_percent_spec(part, total),
{
    if total == 0 {
        0
    } else {
        let q: u128 = (part as u128) * 100 / (total as u128);
        if q > u32::MAX as u128 {
            u32::MAX
        } else {
            q as u32
        }
    }
}

/// The synthesized id for a device that reports none: the vendor prefix
/// and the device index.
pub open spec fn synth_uuid(prefix: Seq<char>, index: u32) -> Seq<char> {
    prefix + dec_str(index as nat)
}

fn make_synth_uuid(prefix: &str, index: u32) -> (r: String)
    ensures
        r@ == synth_uuid(prefix@, index),
{
    let mut r = String::from_str(prefix);
    let digits = crate::text::u64_to_dec_string(index as u64);
    r.append(digits.as_str());
    r
}

/// Assemble one NVIDIA device row from the management library's per-metric
/// outcomes. Absent metrics default to zero, except the fan and codec
/// loads, which stay absent; an absent id is synthesized from the index.
pub fn build_nvidia_gpu(
    index: u32,
    name: Option<String>,
    uuid: Option<String>,
    utilization: Option<(u32, u32)>,
    memory: Option<(u64, u64, u64)>,
    temperature: Option<u32>,
    power_usage: Option<u32>,
    power_limit: Option<u32>,
    fan_speed: Option<u32>,
    clock_graphics: Option<u32>,
    clock_memory: Option<u32>,
    encoder_utilization: Option<u32>,
    decoder_utilization: Option<u32>,
) -> (r: GpuInfo)
    ensures
        r.index == index,
        r.vendor == GpuVendor::Nvidia,
        (match name {
            Some(n) => r.name == n,
            None => r.name@ == "Unknown NVIDIA GPU"@,
        }),
        (match uuid {
            Some(u) => r.uuid == u,
            None => r.uuid@ == synth_uuid("nvidia-"@, index),
        }),
        r.utilization_gpu == (match utilization {
            Some(u) => u.0,
            None => 0u32,
        }),
        r.utilization_memory == (match utilization {
            Some(u) => u.1,
            None => 0u32,
        }),
        r.memory_total == (match memory {
            Some(m) => m.0,
            None => 0u64,
        }),
        r.memory_used == (match memory {
            Some(m) => m.1,
            None => 0u64,
        }),
        r.memory_free == (match memory {
            Some(m) => m.2,
            None => 0u64,
        }),
        r.temperature == temperature.unwrap_or(0),
        r.power_usage == power_usage.unwrap_or(0),
        r.power_limit == power_limit.unwrap_or(0),
        r.fan_speed == fan_speed,
        r.clock_graphics == clock_graphics.unwrap_or(0),
        r.clock_memory == clock_memory.unwrap_or(0),
        r.encoder_utilization == encoder_utilization,
        r.decoder_utilization == decoder_utilization,
{
    proof {
        reveal_strlit("nvidia-");
    }
    let name = match name {
        Some(n) => n,
        None => String::from_str("Unknown NVIDIA GPU"),
    };
    let uuid = match uuid {
        Some(u) => u,
        None => make_synth_uuid("nvidia-", index),
    };
    let (utilization_gpu, utilization_memory) = match utilization {
        Some(u) => u,
        None => (0, 0),
    };
    let (memory_total, memory_used, memory_free) = match memory {
        Some(m) => m,
        None => (0, 0, 0),
    };
    GpuInfo {
        index,
        name,
        vendor: GpuVendor::Nvidia,
        uuid,
        utilization_gpu,
        utilization_memory,
        memory_total,
        memory_used,
        memory_free,
        temperature: temperature.unwrap_or(0),
        power_usage: power_usage.unwrap_or(0),
        power_limit: power_limit.unwrap_or(0),
        fan_speed,
        clock_graphics: clock_graphics.unwrap_or(0),
        clock_memory: clock_memory.unwrap_or(0),
        encoder_utilization,
        decoder_utilization,
    }
}

/// Assemble one AMD device row from device-tree readings. Memory
/// utilization is derived from the VRAM counters; the power limit and fan
/// speed are not exposed and read zero and absent respectively.
pub fn build_amd_gpu(
    index: u32,
    name: String,
    utilization_gpu: u32,
    memory_total: u64,
    memory_used: u64,
    temperature: Option<u32>,
    power_usage: Option<u32>,
    clock_graphics: Option<u32>,
    clock_memory: Option<u32>,
) -> (r: GpuInfo)
    ensures
        r.index == index,
        r.name == name,
        r.vendor == GpuVendor::Amd,
        r.uuid@ == synth_uuid("amd-"@, index),
        r.utilization_gpu == utilization_gpu,
        r.utilization_memory == whole_percent_spec(memory_used, memory_total),
        r.memory_total == memory_total,
        r.memory_used == memory_used,
        r.memory_free == (if memory_used > memory_total {
            0u64
        } else {
            (memory_total - memory_used) as u64
        }),
        r.temperature == temperature.unwrap_or(0),
        r.power_usage == power_usage.unwrap_or(0),
        r.power_limit == 0,
        r.fan_speed is None,
        r.clock_graphics == clock_graphics.unwrap_or(0),
        r.clock_memory == clock_memory.unwrap_or(0),
        r.encoder_utilization is None,
        r.decoder_utilization is None,
{
    proof {
        reveal_strlit("amd-");
    }
    let memory_free = if memory_used > memory_total {
        0
    } else {
        memory_total - memory_used
    };
    GpuInfo {
        index,
        name,
        vendor: GpuVendor::Amd,
        uuid: make_synth_uuid("amd-", index),
        utilization_gpu,
        utilization_memory: whole_percent(memory_used, memory_total),
        memory_total,
        memory_used,
        memory_free,
        temperature: temperature.unwrap_or(0),
        power_usage: power_usage.unwrap_or(0),
        power_limit: 0,
        fan_speed: None,
        clock_graphics: clock_graphics.unwrap_or(0),
        clock_memory: clock_memory.unwrap_or(0),
        encoder_utilization: None,
        decoder_utilization: None,
    }
}

/// Assemble one Intel device row: only the current frequency and the
/// residency-derived utilization are exposed; everything else reads zero
/// or absent.
pub fn build_intel_gpu(index: u32, utilization_gpu: u32, clock_graphics: Option<u32>) -> (r:
    GpuInfo)
    ensures
        r.index == index,
        r.name@ == "Intel Integrated GPU"@,
        r.vendor == GpuVendor::Intel,
        r.uuid@ == synth_uuid("intel-"@, index),
        r.utilization_gpu == utilization_gpu,
        r.utilization_memory == 0,
        r.memory_total == 0,
        r.memory_used == 0,
        r.memory_free == 0,
        r.temperature == 0,
        r.power_usage == 0,
        r.power_limit == 0,
        r.fan_speed is None,
        r.clock_graphics == clock_graphics.unwrap_or(0),
        r.clock_memory == 0,
        r.encoder_utilization is None,
        r.decoder_utilization is None,
{
    proof {
        reveal_strlit("intel-");
    }
    GpuInfo {
        index,
        name: String::from_str("Intel Integrated GPU"),
        vendor: GpuVendor::Intel,
        uuid: make_synth_uuid("intel-", index),
        utilization_gpu,
        utilization_memory: 0,
        memory_total: 0,
        memory_used: 0,
        memory_free: 0,
        temperature: 0,
        power_usage: 0,
        power_limit: 0,
        fan_speed: None,
        clock_graphics: clock_graphics.unwrap_or(0),
        clock_memory: 0,
        encoder_utilization: None,
        decoder_utilization: None,
    }
}

/// Merge the per-vendor probe results into one snapshot. The AMD and Intel
/// flags are set when a device of that vendor was enumerated; the NVIDIA
/// flag is deliberately broader and is set when any identified device at
/// all was enumerated.
pub fn merge_gpu_results(
    nvidia: Vec<GpuInfo>,
    amd: Vec<GpuInfo>,
    intel: Vec<GpuInfo>,
    driver_version: Option<String>,
    errors: Vec<String>,
) -> (r: GpusInfo)
    ensures
        r.gpus@ == nvidia@ + amd@ + intel@,
        r.nvidia_available == exists|i: int|
            0 <= i < r.gpus@.len() && !((#[trigger] r.gpus@[i]).vendor is Unknown),
        r.amd_available == exists|i: int|
            0 <= i < r.gpus@.len() && (#[trigger] r.gpus@[i]).vendor is Amd,
        r.intel_available == exists|i: int|
            0 <= i < r.gpus@.len() && (#[trigger] r.gpus@[i]).vendor is Intel,
        r.driver_version == driver_version,
        r.errors == errors,
{
    let mut gpus = nvidia;
    let mut amd = amd;
    let mut intel = intel;
    gpus.append(&mut amd);
    gpus.append(&mut intel);
    let mut nvidia_available = false;
    let mut amd_available = false;
    let mut intel_available = false;
    let mut i: usize = 0;
    while i < gpus.len()
        invariant
            i <= gpus@.len(),
            nvidia_available == exists|k: int|
                0 <= k < i && !((#[trigger] gpus@[k]).vendor is Unknown),
            amd_available == exists|k: int| 0 <= k < i && (#[trigger] gpus@[k]).vendor is Amd,
            intel_available == exists|k: int| 0 <= k < i && (#[trigger] gpus@[k]).vendor is Intel,
        decreases gpus@.len() - i,
    {
        if !matches!(gpus[i].vendor, GpuVendor::Unknown) {
            nvidia_available = true;
        }
        if matches!(gpus[i].vendor, GpuVendor::Amd) {
            amd_available = true;
        }
        if matches!(gpus[i].vendor, GpuVendor::Intel) {
            intel_available = true;
        }
        i += 1;
    }
    GpusInfo { gpus, nvidia_available, amd_available, intel_available, driver_version, errors }
}

/// The residency-derived utilization for one device, against the stored
/// sample: zero on first sight, on a stale clock, and when the idle share
/// covers the whole interval.
pub open spec fn residency_util(m: Map<u32, (u64, u64)>, idx: u32, now_ms: u64, rc6_ms: u64) -> u32 {
    if !m.contains_key(idx) {
        0u32
    } else {
        let prior = m[idx];
        if now_ms <= prior.1 {
            0u32
        } else {
            let dr: int = if rc6_ms <= prior.0 {
                0
            } else {
                rc6_ms - prior.0
            };
            let idle = dr * 100 / (now_ms - prior.1);
            if idle >= 100 {
                0u32
            } else {
                (100 - idle) as u32
            }
        }
    }
}

/// The stored samples after one observation; a stale clock does not move
/// the baseline backwards.
pub open spec fn residency_update(
    m: Map<u32, (u64, u64)>,
    idx: u32,
    now_ms: u64,
    rc6_ms: u64,
) -> Map<u32, (u64, u64)> {
    if m.contains_key(idx) && now_ms < m[idx].1 {
        m
    } else {
        m.insert(idx, (rc6_ms, now_ms))
    }
}

/// Per-device idle-residency store; at most one sample per device index.
pub struct ResidencyTracker {
    entries: Vec<(u32, (u64, u64))>,
}

spec fn res_model(s: Seq<(u32, (u64, u64))>) -> Map<u32, (u64, u64)>
    decreases s.len(),
{
    if s.len() == 0 {
        Map::empty()
    } else {
        res_model(s.drop_last()).insert(s.last().0, s.last().1)
    }
}

spec fn res_distinct(s: Seq<(u32, (u64, u64))>) -> bool {
    forall|i: int, j: int| 0 <= i < j < s.len() ==> s[i].0 != s[j].0
}

proof fn lemma_res_model_char(s: Seq<(u32, (u64, u64))>, k: u32)
    ensures
        res_model(s).contains_key(k) <==> exists|i: int| 0 <= i < s.len() && s[i].0 == k,
        res_distinct(s) ==> forall|i: int|
            0 <= i < s.len() && s[i].0 == k ==> res_model(s)[k] == s[i].1,
    decreases s.len(),
{
    if s.len() > 0 {
        lemma_res_model_char(s.drop_last(), k);
        assert(forall|i: int| 0 <= i < s.len() - 1 ==> s.drop_last()[i] == s[i]);
        if s.last().0 == k {
            assert(s[s.len() - 1].0 == k);
        }
    }
}

proof fn lemma_res_model_remove(s: Seq<(u32, (u64, u64))>, i: int)
    requires
        0 <= i < s.len(),
        res_distinct(s),
    ensures
        res_distinct(s.remove(i)),
        res_model(s.remove(i)) == res_model(s).remove(s[i].0),
    decreases s.len(),
{
    assert(res_distinct(s.remove(i))) by {
        assert(forall|a: int, b: int|
            0 <= a < b < s.len() - 1 ==> (s.remove(i)[a] == (if a < i {
                s[a]
            } else {
                s[a + 1]
            }) && s.remove(i)[b] == (if b < i {
                s[b]
            } else {
                s[b + 1]
            })));
    }
    if i == s.len() - 1 {
        assert(s.remove(i) =~= s.drop_last());
        lemma_res_model_char(s.drop_last(), s[i].0);
        assert(!res_model(s.drop_last()).contains_key(s[i].0));
        assert(res_model(s).remove(s[i].0) =~= res_model(s.drop_last()));
    } else {
        let t = s.drop_last();
        lemma_res_model_remove(t, i);
        assert(s.remove(i).drop_last() =~= t.remove(i));
        assert(s.remove(i).last() == s.last());
        assert(s[i].0 != s.last().0);
        assert(res_model(t.remove(i)).insert(s.last().0, s.last().1) =~= res_model(s).remove(
            s[i].0,
        ));
    }
}

impl ResidencyTracker {
    /// Well-formed: one sample per device index.
    pub closed spec fn wf(&self) -> bool {
        res_distinct(self.entries@)
    }

    /// The stored samples: device index to (residency, timestamp).
    pub closed spec fn model(&self) -> Map<u32, (u64, u64)> {
        res_model(self.entries@)
    }

    /// An empty tracker.
    pub fn new() -> (r: ResidencyTracker)
        ensures
            r.wf(),
            r.model() == Map::<u32, (u64, u64)>::empty(),
    {
        ResidencyTracker { entries: Vec::new() }
    }

    fn find(&self, idx: u32) -> (r: Option<usize>)
        ensures
            match r {
                Some(i) => i < self.entries@.len() && self.entries@[i as int].0 == idx,
                None => forall|i: int| 0 <= i < self.entries@.len() ==> self.entries@[i].0 != idx,
            },
    {
        let mut i: usize = 0;
        while i < self.entries.len()
            invariant
                i <= self.entries@.len(),
                forall|k: int| 0 <= k < i ==> self.entries@[k].0 != idx,
            decreases self.entries@.len() - i,
        {
            if self.entries[i].0 == idx {
                return Some(i);
            }
            i += 1;
        }
        None
    }

    /// Record one idle-residency observation for a device and return the
    /// derived utilization percent: zero on the first observation, and the
    /// clamped busy share of the elapsed interval afterwards.
    pub fn observe(&mut self, idx: u32, now_ms: u64, rc6_ms: u64) -> (util: u32)
        requires
            old(self).wf(),
        ensures
            final(self).wf(),
            util == residency_util(old(self).model(), idx, now_ms, rc6_ms),
            final(self).model() == residency_update(old(self).model(), idx, now_ms, rc6_ms),
            util <= 100,
    {
        proof {
            lemma_res_model_char(self.entries@, idx);
        }
        match self.find(idx) {
            None => {
                let ghost pre = self.entries@;
                self.entries.push((idx, (rc6_ms, now_ms)));
                proof {
                    assert(self.entries@.drop_last() =~= pre);
                    assert(forall|i: int| 0 <= i < pre.len() ==> pre[i].0 != idx);
                }
                0
            },
            Some(i) => {
                let (last_rc6, last_ts) = self.entries[i].1;
                if now_ms < last_ts {
                    proof {
                        assert(residency_update(self.model(), idx, now_ms, rc6_ms) == self.model());
                    }
                    return 0;
                }
                let util = if now_ms == last_ts {
                    0
                } else {
                    let dr: u64 = if rc6_ms <= last_rc6 {
                        0
                    } else {
                        rc6_ms - last_rc6
                    };
                    let dt = now_ms - last_ts;
                    let idle: u128 = (dr as u128) * 100 / (dt as u128);
                    if idle >= 100 {
                        0
                    } else {
                        100 - (idle as u32)
                    }
                };
                let ghost pre = self.entries@;
                let pair = self.entries.remove(i);
                self.entries.push((pair.0, (rc6_ms, now_ms)));
                proof {
                    lemma_res_model_remove(pre, i as int);
                    assert(self.entries@.drop_last() =~= pre.remove(i as int));
                    lemma_res_model_char(pre.remove(i as int), idx);
                    assert(forall|a: int|
                        0 <= a < pre.remove(i as int).len() ==> pre.remove(i as int)[a] == (if a
                            < i {
                            pre[a]
                        } else {
                            pre[a + 1]
                        }));
                    assert(forall|a: int|
                        0 <= a < pre.remove(i as int).len() ==> pre.remove(i as int)[a].0 != idx);
                    assert(self.model() =~= res_model(pre).insert(idx, (rc6_ms, now_ms)));
                }
                util
            },
        }
    }
}

/// Guarded per-domain state for GPU refreshes: the Intel residency store.
pub struct GpuMonitor {
    rc6: ResidencyTracker,
}

impl GpuMonitor {
    /// Well-formed residency store.
    pub closed spec fn wf(&self) -> bool {
        self.rc6.wf()
    }

    /// The stored residency samples.
    pub closed spec fn rc6_model(&self) -> Map<u32, (u64, u64)> {
        self.rc6.model()
    }

    /// A monitor with no residency samples yet.
    pub fn new() -> (r: GpuMonitor)
        ensures
            r.wf(),
            r.rc6_model() == Map::<u32, (u64, u64)>::empty(),
    {
        GpuMonitor { rc6: ResidencyTracker::new() }
    }

    /// Observe one Intel idle-residency reading and get the utilization.
    pub fn intel_utilization(&mut self, index: u32, now_ms: u64, rc6_ms: u64) -> (util: u32)
        requires
            old(self).wf(),
        ensures
            final(self).wf(),
            util == residency_util(old(self).rc6_model(), index, now_ms, rc6_ms),
            final(self).rc6_model() == residency_update(old(self).rc6_model(), index, now_ms, rc6_ms),
            util <= 100,
    {
        self.rc6.observe(index, now_ms, rc6_ms)
    }
}

impl Default for GpuMonitor {
    fn default() -> (r: GpuMonitor)
        ensures
            r.wf(),
            r.rc6_model() == Map::<u32, (u64, u64)>::empty(),
    {
        GpuMonitor::new()
    }
}

} // verus!
