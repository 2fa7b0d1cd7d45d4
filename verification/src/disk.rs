//! Disk snapshots: usage roll-ups, per-device I/O counters from the kernel
//! counter table, and SMART health parsed from diagnostic-utility output,
//! cached for a minute per device.
//!
//! The diagnostic utility and the counter table reach this module as plain
//! bytes; running the utility and reading the table are the caller's
//! business.

use vstd::prelude::*;
use crate::arith::percent_hundredths_spec;
use crate::cache::{EntryModel, TtlCache, lookup_fresh};
use crate::text::{
    ascii_bytes, ascii_seq, contains_bytes, contains_sub, copy_range, is_digit, lines_of,
    parse_u32_spec, parse_u64_spec, split_lines, split_ws_tokens, str_bytes, str_to_bytes,
    tokens_of, views_of,
};

verus! {

/// SMART health verdict.
#[derive(Debug, Clone, Copy, PartialEq, Eq)]
pub enum SmartHealth {
    Passed,
    Failed,
    Unknown,
}

/// SMART readings for one device; absent attributes stay absent.
#[derive(Debug, Clone, Copy, PartialEq, Eq)]
pub struct SmartInfo {
    pub health: SmartHealth,
    pub temperature: Option<u32>,
    pub power_on_hours: Option<u64>,
    pub power_cycle_count: Option<u64>,
}

/// One disk row of a snapshot. `usage_percent` is in hundredths of a
/// percent.
#[derive(Debug, Clone)]
pub struct DiskInfo {
    pub name: String,
    pub mount_point: String,
    pub file_system: String,
    pub total_space: u64,
    pub available_space: u64,
    pub used_space: u64,
    pub usage_percent: u32,
    pub is_removable: bool,
    pub read_bytes: u64,
    pub written_bytes: u64,
    pub smart: Option<SmartInfo>,
}

/// Whole-disk snapshot with saturating totals.
#[derive(Debug, Clone)]
pub struct DisksInfo {
    pub disks: Vec<DiskInfo>,
    pub total_space: u64,
    pub total_used: u64,
    pub total_available: u64,
}

/// Raw per-disk reading handed in by the caller.
#[derive(Debug, Clone)]
pub struct DiskReading {
    pub name: String,
    pub mount_point: String,
    pub file_system: String,
    pub total_space: u64,
    pub available_space: u64,
    pub is_removable: bool,
}

/// One row of the kernel I/O counter table: device name and byte counts.
#[derive(Debug, Clone)]
pub struct DiskIoEntry {
    pub name: Vec<u8>,
    pub read_bytes: u64,
    pub written_bytes: u64,
}

/// SMART data is slow-changing; probe at most once a minute per device.
pub const SMART_CACHE_TTL_MS: u64 = 60000;

/// Health verdict read from the diagnostic output.
pub open spec fn smart_health_spec(s: Seq<u8>) -> SmartHealth {
    if contains_sub(s, ascii_seq("PASSED"@)) {
        SmartHealth::Passed
    } else if contains_sub(s, ascii_seq("FAILED"@)) {
        SmartHealth::Failed
    } else {
        SmartHealth::Unknown
    }
}

/// The tenth column of the first line containing either pattern, as a
/// 64-bit attribute value.
pub open spec fn attr_u64(lines: Seq<Seq<u8>>, pa: Seq<u8>, pb: Seq<u8>) -> Option<u64>
    decreases lines.len(),
{
    if lines.len() == 0 {
        None
    } else if contains_sub(lines[0], pa) || contains_sub(lines[0], pb) {
        if tokens_of(lines[0]).len() > 9 {
            parse_u64_spec(tokens_of(lines[0])[9])
        } else {
            None
        }
    } else {
        attr_u64(lines.drop_first(), pa, pb)
    }
}

/// As `attr_u64`, parsed into 32 bits.
pub open spec fn attr_u32(lines: Seq<Seq<u8>>, pa: Seq<u8>, pb: Seq<u8>) -> Option<u32>
    decreases lines.len(),
{
    if lines.len() == 0 {
        None
    } else if contains_sub(lines[0], pa) || contains_sub(lines[0], pb) {
        if tokens_of(lines[0]).len() > 9 {
            parse_u32_spec(tokens_of(lines[0])[9])
        } else {
            None
        }
    } else {
        attr_u32(lines.drop_first(), pa, pb)
    }
}

fn find_attr_u64(lines: &Vec<Vec<u8>>, pa: &Vec<u8>, pb: &Vec<u8>) -> (r: Option<u64>)
    ensures
        r == attr_u64(views_of(lines@), pa@, pb@),
{
    let mut i: usize = 0;
    proof {
        assert(views_of(lines@).skip(0) =~= views_of(lines@));
    }
    while i < lines.len()
        invariant
            i <= lines@.len(),
            attr_u64(views_of(lines@), pa@, pb@) == attr_u64(
                views_of(lines@).skip(i as int),
                pa@,
                pb@,
            ),
        decreases lines@.len() - i,
    {
        proof {
            assert(views_of(lines@).skip(i as int)[0] == lines@[i as int]@);
        }
        let line = &lines[i];
        if contains_bytes(line.as_slice(), pa.as_slice()) || contains_bytes(
            line.as_slice(),
            pb.as_slice(),
        ) {
            let toks = split_ws_tokens(line.as_slice());
            if toks.len() > 9 {
                let r = crate::text::parse_u64_bytes(toks[9].as_slice());
                proof {
                    assert(views_of(toks@)[9] == toks@[9]@);
                }
                return r;
            }
            return None;
        }
        proof {
            assert(views_of(lines@).skip(i as int).drop_first() =~= views_of(lines@).skip(i + 1));
        }
        i += 1;
    }
    proof {
        assert(views_of(lines@).skip(i as int).len() == 0);
    }
    None
}

fn find_attr_u32(lines: &Vec<Vec<u8>>, pa: &Vec<u8>, pb: &Vec<u8>) -> (r: Option<u32>)
    ensures
        r == attr_u32(views_of(lines@), pa@, pb@),
{
    let mut i: usize = 0;
    proof {
        assert(views_of(lines@).skip(0) =~= views_of(lines@));
    }
    while i < lines.len()
        invariant
            i <= lines@.len(),
            attr_u32(views_of(lines@), pa@, pb@) == attr_u32(
                views_of(lines@).skip(i as int),
                pa@,
                pb@,
            ),
        decreases lines@.len() - i,
    {
        proof {
            assert(views_of(lines@).skip(i as int)[0] == lines@[i as int]@);
        }
        let line = &lines[i];
        if contains_bytes(line.as_slice(), pa.as_slice()) || contains_bytes(
            line.as_slice(),
            pb.as_slice(),
        ) {
            let toks = split_ws_tokens(line.as_slice());
            if toks.len() > 9 {
                let r = crate::text::parse_u32_bytes(toks[9].as_slice());
                proof {
                    assert(views_of(toks@)[9] == toks@[9]@);
                }
                return r;
            }
            return None;
        }
        proof {
            assert(views_of(lines@).skip(i as int).drop_first() =~= views_of(lines@).skip(i + 1));
        }
        i += 1;
    }
    proof {
        assert(views_of(lines@).skip(i as int).len() == 0);
    }
    None
}

/// Parse the free-text output of the SMART diagnostic utility: overall
/// health, temperature, power-on hours and power-cycle count, each read
/// from the tenth column of the first line naming the attribute.
pub fn parse_smart_output(out: &[u8]) -> (r: SmartInfo)
    ensures
        r.health == smart_health_spec(out@),
        r.temperature == attr_u32(
            lines_of(out@),
            ascii_seq("Temperature_Celsius"@),
            ascii_seq("Airflow_Temperature"@),
        ),
        r.power_on_hours == attr_u64(
            lines_of(out@),
            ascii_seq("Power_On_Hours"@),
            ascii_seq("Power_On_Hours"@),
        ),
        r.power_cycle_count == attr_u64(
            lines_of(out@),
            ascii_seq("Power_Cycle_Count"@),
            ascii_seq("Power_Cycle_Count"@),
        ),
{
    proof {
        reveal_strlit("PASSED");
        reveal_strlit("FAILED");
        reveal_strlit("Temperature_Celsius");
        reveal_strlit("Airflow_Temperature");
        reveal_strlit("Power_On_Hours");
        reveal_strlit("Power_Cycle_Count");
    }
    let passed = ascii_bytes("PASSED");
    let failed = ascii_bytes("FAILED");
    let health = if contains_bytes(out, passed.as_slice()) {
        SmartHealth::Passed
    } else if contains_bytes(out, failed.as_slice()) {
        SmartHealth::Failed
    } else {
        SmartHealth::Unknown
    };
    let lines = split_lines(out);
    let temp_a = ascii_bytes("Temperature_Celsius");
    let temp_b = ascii_bytes("Airflow_Temperature");
    let hours = ascii_bytes("Power_On_Hours");
    let cycles = ascii_bytes("Power_Cycle_Count");
    let temperature = find_attr_u32(&lines, &temp_a, &temp_b);
    let power_on_hours = find_attr_u64(&lines, &hours, &hours);
    let power_cycle_count = find_attr_u64(&lines, &cycles, &cycles);
    SmartInfo { health, temperature, power_on_hours, power_cycle_count }
}

/// Trailing ASCII digits removed.
pub open spec fn trim_end_digits(s: Seq<u8>) -> Seq<u8>
    decreases s.len(),
{
    if s.len() > 0 && is_digit(s.last()) {
        trim_end_digits(s.drop_last())
    } else {
        s
    }
}

/// Trailing `p` bytes removed.
pub open spec fn trim_end_p(s: Seq<u8>) -> Seq<u8>
    decreases s.len(),
{
    if s.len() > 0 && s.last() == 0x70 {
        trim_end_p(s.drop_last())
    } else {
        s
    }
}

/// The device path a partition name probes: only absolute device paths
/// qualify, with the partition suffix (digits, then `p`) stripped.
pub open spec fn device_base_spec(s: Seq<u8>) -> Option<Seq<u8>> {
    if s.len() >= 5 && s.take(5) == ascii_seq("/dev/"@) {
        Some(trim_end_p(trim_end_digits(s)))
    } else {
        None
    }
}

proof fn lemma_trim_end_digits_take(s: Seq<u8>, j: int)
    requires
        0 <= j <= s.len(),
        forall|k: int| j <= k < s.len() ==> is_digit(s[k]),
        j > 0 ==> !is_digit(s[j - 1]),
    ensures
        trim_end_digits(s) == s.take(j),
    decreases s.len() - j,
{
    if j == s.len() {
        assert(s.take(j) =~= s);
    } else {
        lemma_trim_end_digits_take(s.drop_last(), j);
        assert(s.drop_last().take(j) =~= s.take(j));
    }
}

proof fn lemma_trim_end_p_take(s: Seq<u8>, j: int)
    requires
        0 <= j <= s.len(),
        forall|k: int| j <= k < s.len() ==> s[k] == 0x70,
        j > 0 ==> s[j - 1] != 0x70,
    ensures
        trim_end_p(s) == s.take(j),
    decreases s.len() - j,
{
    if j == s.len() {
        assert(s.take(j) =~= s);
    } else {
        lemma_trim_end_p_take(s.drop_last(), j);
        assert(s.drop_last().take(j) =~= s.take(j));
    }
}

/// Resolve a partition name to the device path worth probing.
pub fn smart_device_base(name: &[u8]) -> (r: Option<Vec<u8>>)
    ensures
        match r {
            Some(v) => device_base_spec(name@) == Some(v@),
            None => device_base_spec(name@) is None,
        },
{
    proof {
        reveal_strlit("/dev/");
    }
    let dev = ascii_bytes("/dev/");
    if name.len() < 5 {
        proof {
            assert(device_base_spec(name@) is None);
        }
        return None;
    }
    let head = copy_range(name, 0, 5);
    if !crate::text::bytes_eq(head.as_slice(), dev.as_slice()) {
        proof {
            assert(name@.take(5) =~= name@.subrange(0, 5));
        }
        return None;
    }
    proof {
        assert(name@.take(5) =~= name@.subrange(0, 5));
    }
    let mut j: usize = name.len();
    while j > 0 && name[j - 1] >= 0x30 && name[j - 1] <= 0x39
        invariant
            j <= name@.len(),
            forall|k: int| j <= k < name@.len() ==> is_digit(name@[k]),
        decreases j,
    {
        j -= 1;
    }
    proof {
        lemma_trim_end_digits_take(name@, j as int);
    }
    let mut j2: usize = j;
    while j2 > 0 && name[j2 - 1] == 0x70
        invariant
            j2 <= j <= name@.len(),
            forall|k: int| j2 <= k < j ==> name@[k] == 0x70,
        decreases j2,
    {
        j2 -= 1;
    }
    proof {
        assert(forall|k: int| j2 <= k < j ==> name@.take(j as int)[k] == 0x70);
        lemma_trim_end_p_take(name@.take(j as int), j2 as int);
        assert(name@.take(j as int).take(j2 as int) =~= name@.subrange(0, j2 as int));
    }
    Some(copy_range(name, 0, j2))
}

/// One parsed counter row as a plain tuple of views.
pub open spec fn io_entry_views(r: Seq<DiskIoEntry>) -> Seq<(Seq<u8>, u64, u64)> {
    r.map_values(|e: DiskIoEntry| (e.name@, e.read_bytes, e.written_bytes))
}

/// Sector counts arrive in 512-byte units; saturate on overflow, and treat
/// an unparsable count as zero.
pub open spec fn sectors_to_bytes(o: Option<u64>) -> u64 {
    match o {
        Some(v) => if v * 512 > u64::MAX {
            u64::MAX
        } else {
            (v * 512) as u64
        },
        None => 0u64,
    }
}

/// The counter rows of the kernel table: every line with at least 14
/// columns yields (device name, bytes read, bytes written).
pub open spec fn diskstats_spec(lines: Seq<Seq<u8>>) -> Seq<(Seq<u8>, u64, u64)>
    decreases lines.len(),
{
    if lines.len() == 0 {
        Seq::empty()
    } else {
        let rest = diskstats_spec(lines.drop_first());
        if tokens_of(lines[0]).len() >= 14 {
            seq![
                (
                    tokens_of(lines[0])[2],
                    sectors_to_bytes(parse_u64_spec(tokens_of(lines[0])[5])),
                    sectors_to_bytes(parse_u64_spec(tokens_of(lines[0])[9])),
                ),
            ] + rest
        } else {
            rest
        }
    }
}

fn sectors_value(tok: &Vec<u8>) -> (r: u64)
    ensures
        r == sectors_to_bytes(parse_u64_spec(tok@)),
{
    match crate::text::parse_u64_bytes(tok.as_slice()) {
        Some(v) => {
            if v > u64::MAX / 512 {
                u64::MAX
            } else {
                v * 512
            }
        },
        None => 0,
    }
}

/// Parse the whole-system I/O counter table, one batch read for all disks.
pub fn parse_diskstats(content: &[u8]) -> (r: Vec<DiskIoEntry>)
    ensures
        io_entry_views(r@) == diskstats_spec(lines_of(content@)),
{
    let lines = split_lines(content);
    let mut out: Vec<DiskIoEntry> = Vec::new();
    let mut i: usize = 0;
    proof {
        assert(views_of(lines@).skip(0) =~= views_of(lines@));
        assert(io_entry_views(out@) =~= Seq::<(Seq<u8>, u64, u64)>::empty());
    }
    while i < lines.len()
        invariant
            i <= lines@.len(),
            views_of(lines@) == lines_of(content@),
            diskstats_spec(lines_of(content@)) == io_entry_views(out@) + diskstats_spec(
                views_of(lines@).skip(i as int),
            ),
        decreases lines@.len() - i,
    {
        proof {
            assert(views_of(lines@).skip(i as int)[0] == lines@[i as int]@);
            assert(views_of(lines@).skip(i as int).drop_first() =~= views_of(lines@).skip(i + 1));
        }
        let toks = split_ws_tokens(lines[i].as_slice());
        if toks.len() >= 14 {
            let name = crate::text::copy_range(toks[2].as_slice(), 0, toks[2].len());
            let read_bytes = sectors_value(&toks[5]);
            let written_bytes = sectors_value(&toks[9]);
            let ghost pre = out@;
            out.push(DiskIoEntry { name, read_bytes, written_bytes });
            proof {
                assert(name@ =~= toks@[2]@);
                assert(views_of(toks@)[2] == toks@[2]@);
                assert(views_of(toks@)[5] == toks@[5]@);
                assert(views_of(toks@)[9] == toks@[9]@);
                assert(forall|q: int| 0 <= q < pre.len() ==> pre.push(out@.last())[q] == pre[q]);
                assert(io_entry_views(out@) =~= io_entry_views(pre).push(
                    (out@.last().name@, out@.last().read_bytes, out@.last().written_bytes),
                ));
                assert(io_entry_views(out@) + diskstats_spec(views_of(lines@).skip(i + 1))
                    =~= diskstats_spec(lines_of(content@)));
            }
        }
        i += 1;
    }
    proof {
        assert(views_of(lines@).skip(i as int).len() == 0);
        assert(io_entry_views(out@) =~= diskstats_spec(lines_of(content@)));
    }
    out
}

/// Guarded per-domain state for disk refreshes: the SMART probe cache.
pub struct DiskMonitor {
    smart_cache: TtlCache<Option<SmartInfo>>,
}

impl DiskMonitor {
    /// Well-formed: one cache entry per device.
    pub closed spec fn wf(&self) -> bool {
        self.smart_cache.wf()
    }

    /// The cached probe outcomes, keyed by device name.
    pub closed spec fn smart_model(&self) -> Map<Seq<char>, EntryModel<Option<SmartInfo>>> {
        self.smart_cache.model()
    }

    /// A monitor with an empty SMART cache.
    pub fn new() -> (r: DiskMonitor)
        ensures
            r.wf(),
            r.smart_model() == Map::<Seq<char>, EntryModel<Option<SmartInfo>>>::empty(),
    {
        DiskMonitor { smart_cache: TtlCache::new() }
    }

    /// Read-only fast path: the cached probe outcome for a device, if it is
    /// still fresh. Never mutates the cache, so callers may hold shared
    /// access.
    pub fn smart_cached(&self, device: &String, now_ms: u64) -> (r: Option<&Option<SmartInfo>>)
        requires
            self.wf(),
        ensures
            match r {
                Some(v) => lookup_fresh(self.smart_model(), device@, now_ms, SMART_CACHE_TTL_MS)
                    == Some(*v),
                None => lookup_fresh(self.smart_model(), device@, now_ms, SMART_CACHE_TTL_MS)
                    is None,
            },
    {
        self.smart_cache.get_fresh(device, now_ms, SMART_CACHE_TTL_MS)
    }

    /// Serve the cached SMART outcome for a device, or run the probe and
    /// cache what it returned — a failed probe too, so an unreadable device
    /// is probed at most once per TTL window.
    pub fn smart_get_or_probe<F: FnOnce() -> Option<SmartInfo>>(
        &mut self,
        device: &String,
        now_ms: u64,
        probe: F,
    ) -> (r: &Option<SmartInfo>)
        requires
            old(self).wf(),
            call_requires(probe, ()),
        ensures
            final(self).wf(),
            lookup_fresh(old(self).smart_model(), device@, now_ms, SMART_CACHE_TTL_MS) matches Some(
                v,
            ) ==> *r == v && final(self).smart_model() == old(self).smart_model(),
            lookup_fresh(old(self).smart_model(), device@, now_ms, SMART_CACHE_TTL_MS) is None
                ==> call_ensures(probe, (), *r) && final(self).smart_model() == old(
                self,
            ).smart_model().insert(device@, EntryModel { value: *r, recorded_at: now_ms }),
    {
        self.smart_cache.get_or_compute(device, now_ms, SMART_CACHE_TTL_MS, probe)
    }
}

impl Default for DiskMonitor {
    fn default() -> (r: DiskMonitor)
        ensures
            r.wf(),
            r.smart_model() == Map::<Seq<char>, EntryModel<Option<SmartInfo>>>::empty(),
    {
        DiskMonitor::new()
    }
}

/// Used space of one reading, clamped at zero.
pub open spec fn used_space_of(rd: DiskReading) -> u64 {
    if rd.available_space > rd.total_space {
        0u64
    } else {
        (rd.total_space - rd.available_space) as u64
    }
}

/// Saturating total capacity over the readings.
pub open spec fn sum_total_space(rs: Seq<DiskReading>) -> u64
    decreases rs.len(),
{
    if rs.len() == 0 {
        0u64
    } else {
        crate::arith::sat_add_u64(sum_total_space(rs.drop_last()), rs.last().total_space)
    }
}

/// Saturating total available space over the readings.
pub open spec fn sum_available_space(rs: Seq<DiskReading>) -> u64
    decreases rs.len(),
{
    if rs.len() == 0 {
        0u64
    } else {
        crate::arith::sat_add_u64(sum_available_space(rs.drop_last()), rs.last().available_space)
    }
}

/// Saturating total used space over the readings.
pub open spec fn sum_used_space(rs: Seq<DiskReading>) -> u64
    decreases rs.len(),
{
    if rs.len() == 0 {
        0u64
    } else {
        crate::arith::sat_add_u64(sum_used_space(rs.drop_last()), used_space_of(rs.last()))
    }
}

/// One snapshot row realizes its reading: identity fields verbatim, used
/// space clamped, usage in hundredths of a percent, byte counts looked up
/// by exact device-name match in the counter table, and the SMART outcome
/// attached unchanged.
pub open spec fn disk_row_matches(
    d: DiskInfo,
    rd: DiskReading,
    io: Seq<(Seq<u8>, u64, u64)>,
    sm: Option<SmartInfo>,
) -> bool {
    &&& d.name == rd.name
    &&& d.mount_point == rd.mount_point
    &&& d.file_system == rd.file_system
    &&& d.total_space == rd.total_space
    &&& d.available_space == rd.available_space
    &&& d.used_space == used_space_of(rd)
    &&& d.usage_percent == percent_hundredths_spec(used_space_of(rd), rd.total_space)
    &&& d.is_removable == rd.is_removable
    &&& (d.read_bytes, d.written_bytes) == io_lookup(io, str_bytes(rd.name@))
    &&& d.smart == sm
}

/// Assemble the disk snapshot from the raw readings, the parsed counter
/// table, and the per-disk SMART outcomes (one per reading, in order).
pub fn build_disks_info(
    readings: Vec<DiskReading>,
    io_stats: &Vec<DiskIoEntry>,
    smart: Vec<Option<SmartInfo>>,
) -> (r: DisksInfo)
    requires
        smart@.len() == readings@.len(),
    ensures
        r.disks@.len() == readings@.len(),
        forall|i: int|
            0 <= i < readings@.len() ==> disk_row_matches(
                #[trigger] r.disks@[i],
                readings@[i],
                io_entry_views(io_stats@),
                smart@[i],
            ),
        r.total_space == sum_total_space(readings@),
        r.total_available == sum_available_space(readings@),
        r.total_used == sum_used_space(readings@),
{
    let ghost orig = readings@;
    let ghost smart_orig = smart@;
    let mut rest = readings;
    let mut rest_smart = smart;
    let mut disks: Vec<DiskInfo> = Vec::new();
    let mut total_space: u64 = 0;
    let mut total_used: u64 = 0;
    let mut total_available: u64 = 0;
    while rest.len() > 0
        invariant
            rest@.len() <= orig.len(),
            rest@ == orig.skip(orig.len() - rest@.len()),
            rest_smart@.len() == rest@.len(),
            rest_smart@ == smart_orig.skip(orig.len() - rest@.len()),
            smart_orig.len() == orig.len(),
            disks@.len() == orig.len() - rest@.len(),
            forall|i: int|
                0 <= i < disks@.len() ==> disk_row_matches(
                    #[trigger] disks@[i],
                    orig[i],
                    io_entry_views(io_stats@),
                    smart_orig[i],
                ),
            total_space == sum_total_space(orig.take(orig.len() - rest@.len())),
            total_available == sum_available_space(orig.take(orig.len() - rest@.len())),
            total_used == sum_used_space(orig.take(orig.len() - rest@.len())),
        decreases rest@.len(),
    {
        let ghost done = orig.len() - rest@.len();
        let rd = rest.remove(0);
        let sm = rest_smart.remove(0);
        proof {
            assert(rd == orig[done]);
            assert(sm == smart_orig[done]);
            assert(rest@ =~= orig.skip(done + 1));
            assert(rest_smart@ =~= smart_orig.skip(done + 1));
            assert(orig.take(done + 1).drop_last() =~= orig.take(done));
        }
        let used = if rd.available_space > rd.total_space {
            0
        } else {
            rd.total_space - rd.available_space
        };
        let usage_percent = crate::arith::percent_hundredths(used, rd.total_space);
        let name_bytes = str_to_bytes(rd.name.as_str());
        let io = io_for_device(io_stats, name_bytes.as_slice());
        total_space = crate::arith::sat_add64(total_space, rd.total_space);
        total_available = crate::arith::sat_add64(total_available, rd.available_space);
        total_used = crate::arith::sat_add64(total_used, used);
        disks.push(
            DiskInfo {
                name: rd.name,
                mount_point: rd.mount_point,
                file_system: rd.file_system,
                total_space: rd.total_space,
                available_space: rd.available_space,
                used_space: used,
                usage_percent,
                is_removable: rd.is_removable,
                read_bytes: io.0,
                written_bytes: io.1,
                smart: sm,
            },
        );
        proof {
            assert(disk_row_matches(
                disks@.last(),
                orig[done],
                io_entry_views(io_stats@),
                smart_orig[done],
            ));
            assert(forall|i: int| 0 <= i < disks@.len() - 1 ==> disks@[i] == disks@.drop_last()[i]);
        }
    }
    proof {
        assert(orig.take(orig.len() as int) =~= orig);
    }
    DisksInfo { disks, total_space, total_used, total_available }
}

/// What the counter table reports for a device name: the last matching row
/// wins, and an absent device reads as zero.
pub open spec fn io_lookup(entries: Seq<(Seq<u8>, u64, u64)>, key: Seq<u8>) -> (u64, u64)
    decreases entries.len(),
{
    if entries.len() == 0 {
        (0u64, 0u64)
    } else if entries.last().0 == key {
        (entries.last().1, entries.last().2)
    } else {
        io_lookup(entries.drop_last(), key)
    }
}

/// Look a device's byte counts up in the parsed counter table.
pub fn io_for_device(stats: &Vec<DiskIoEntry>, key: &[u8]) -> (r: (u64, u64))
    ensures
        r == io_lookup(io_entry_views(stats@), key@),
{
    let mut i: usize = stats.len();
    proof {
        assert(io_entry_views(stats@).take(i as int) =~= io_entry_views(stats@));
    }
    while i > 0
        invariant
            i <= stats@.len(),
            io_lookup(io_entry_views(stats@), key@) == io_lookup(
                io_entry_views(stats@).take(i as int),
                key@,
            ),
        decreases i,
    {
        proof {
            assert(io_entry_views(stats@).take(i as int).last() == io_entry_views(
                stats@,
            )[i - 1]);
            assert(io_entry_views(stats@)[i - 1] == (
                stats@[i - 1].name@,
                stats@[i - 1].read_bytes,
                stats@[i - 1].written_bytes,
            ));
        }
        if crate::text::bytes_eq(stats[i - 1].name.as_slice(), key) {
            return (stats[i - 1].read_bytes, stats[i - 1].written_bytes);
        }
        proof {
            assert(io_entry_views(stats@).take(i as int).drop_last() =~= io_entry_views(
                stats@,
            ).take(i - 1));
        }
        i -= 1;
    }
    proof {
        assert(io_entry_views(stats@).take(0).len() == 0);
    }
    (0, 0)
}

} // verus!
