//! Sensor snapshots: temperature readings with CPU/GPU identification by
//! label, and a time-boxed cache so the full sensor tree is rescanned at
//! most every couple of seconds.
//!
//! Values are carried in hundredths of a unit (centi-degrees Celsius).

use vstd::prelude::*;
use vstd::string::StringExecFns;
use crate::cache::{EntryModel, TtlCache, lookup_fresh};
use crate::text::{ascii_seq, contains_sub, lower_seq, str_bytes};

verus! {

/// Kind of sensor reading.
#[derive(Debug, Clone, Copy, PartialEq, Eq, Structural)]
pub enum SensorType {
    Temperature,
    Fan,
    Voltage,
    Power,
    Unknown,
}

/// One sensor reading; values in hundredths of a unit.
#[derive(Debug, Clone)]
pub struct SensorReading {
    pub label: String,
    pub sensor_type: SensorType,
    pub value: i64,
    pub max_value: Option<i64>,
    pub critical_value: Option<i64>,
    pub unit: String,
}

/// Whole-sensor snapshot with the identified CPU and GPU temperatures.
#[derive(Debug, Clone)]
pub struct SensorsInfo {
    pub sensors: Vec<SensorReading>,
    pub cpu_temp: Option<i64>,
    pub gpu_temp: Option<i64>,
}

/// Raw component reading handed in by the caller; temperatures in
/// hundredths of a degree.
#[derive(Debug, Clone)]
pub struct ComponentReading {
    pub label: String,
    pub temperature: i64,
    pub max: i64,
    pub critical: Option<i64>,
}

/// A full sensor-tree rescan happens at most every two seconds.
pub const SENSOR_REFRESH_TTL_MS: u64 = 2000;

/// Whether a lowercased label names a CPU temperature sensor.
pub open spec fn is_cpu_label(b: Seq<u8>) -> bool {
    ||| contains_sub(lower_seq(b), ascii_seq("cpu"@))
    ||| contains_sub(lower_seq(b), ascii_seq("core"@))
    ||| contains_sub(lower_seq(b), ascii_seq("tctl"@))
    ||| contains_sub(lower_seq(b), ascii_seq("tdie"@))
    ||| contains_sub(lower_seq(b), ascii_seq("package"@))
}

/// Whether a lowercased label names a GPU temperature sensor.
pub open spec fn is_gpu_label(b: Seq<u8>) -> bool {
    ||| contains_sub(lower_seq(b), ascii_seq("gpu"@))
    ||| contains_sub(lower_seq(b), ascii_seq("edge"@))
    ||| contains_sub(lower_seq(b), ascii_seq("junction"@))
    ||| contains_sub(lower_seq(b), ascii_seq("radeon"@))
    ||| contains_sub(lower_seq(b), ascii_seq("nvidia"@))
    ||| contains_sub(lower_seq(b), ascii_seq("amdgpu"@))
}

/// The first reading whose label names a CPU sensor, if any.
pub open spec fn first_cpu_temp(rs: Seq<ComponentReading>) -> Option<i64>
    decreases rs.len(),
{
    if rs.len() == 0 {
        None
    } else if is_cpu_label(str_bytes(rs[0].label@)) {
        Some(rs[0].temperature)
    } else {
        first_cpu_temp(rs.drop_first())
    }
}

/// The first reading whose label names a GPU sensor, if any.
pub open spec fn first_gpu_temp(rs: Seq<ComponentReading>) -> Option<i64>
    decreases rs.len(),
{
    if rs.len() == 0 {
        None
    } else if is_gpu_label(str_bytes(rs[0].label@)) {
        Some(rs[0].temperature)
    } else {
        first_gpu_temp(rs.drop_first())
    }
}

fn label_is_cpu(label: &String) -> (r: bool)
    ensures
        r == is_cpu_label(str_bytes(label@)),
{
    proof {
        reveal_strlit("cpu");
        reveal_strlit("core");
        reveal_strlit("tctl");
        reveal_strlit("tdie");
        reveal_strlit("package");
    }
    let lower = crate::text::to_lower_bytes(label.as_str().as_bytes());
    let a = crate::text::ascii_bytes("cpu");
    let b = crate::text::ascii_bytes("core");
    let c = crate::text::ascii_bytes("tctl");
    let d = crate::text::ascii_bytes("tdie");
    let e = crate::text::ascii_bytes("package");
    crate::text::contains_bytes(lower.as_slice(), a.as_slice()) || crate::text::contains_bytes(
        lower.as_slice(),
        b.as_slice(),
    ) || crate::text::contains_bytes(lower.as_slice(), c.as_slice())
        || crate::text::contains_bytes(lower.as_slice(), d.as_slice())
        || crate::text::contains_bytes(lower.as_slice(), e.as_slice())
}

fn label_is_gpu(label: &String) -> (r: bool)
    ensures
        r == is_gpu_label(str_bytes(label@)),
{
    proof {
        reveal_strlit("gpu");
        reveal_strlit("edge");
        reveal_strlit("junction");
        reveal_strlit("radeon");
        reveal_strlit("nvidia");
        reveal_strlit("amdgpu");
    }
    let lower = crate::text::to_lower_bytes(label.as_str().as_bytes());
    let a = crate::text::ascii_bytes("gpu");
    let b = crate::text::ascii_bytes("edge");
    let c = crate::text::ascii_bytes("junction");
    let d = crate::text::ascii_bytes("radeon");
    let e = crate::text::ascii_bytes("nvidia");
    let f = crate::text::ascii_bytes("amdgpu");
    crate::text::contains_bytes(lower.as_slice(), a.as_slice()) || crate::text::contains_bytes(
        lower.as_slice(),
        b.as_slice(),
    ) || crate::text::contains_bytes(lower.as_slice(), c.as_slice())
        || crate::text::contains_bytes(lower.as_slice(), d.as_slice())
        || crate::text::contains_bytes(lower.as_slice(), e.as_slice())
        || crate::text::contains_bytes(lower.as_slice(), f.as_slice())
}

/// One snapshot row realizes its component reading.
pub open spec fn sensor_row_matches(row: SensorReading, c: ComponentReading) -> bool {
    &&& row.label == c.label
    &&& row.sensor_type == SensorType::Temperature
    &&& row.value == c.temperature
    &&& row.max_value == Some(c.max)
    &&& row.critical_value == c.critical
    &&& row.unit@ == "C"@
}

/// Assemble a sensor snapshot from component readings: one temperature row
/// per component, and the CPU and GPU temperatures identified by the first
/// matching label.
pub fn build_sensors_info(readings: Vec<ComponentReading>) -> (r: SensorsInfo)
    ensures
        r.sensors@.len() == readings@.len(),
        forall|i: int|
            0 <= i < readings@.len() ==> sensor_row_matches(#[trigger] r.sensors@[i], readings@[i]),
        r.cpu_temp == first_cpu_temp(readings@),
        r.gpu_temp == first_gpu_temp(readings@),
{
    let ghost orig = readings@;
    let mut rest = readings;
    let mut sensors: Vec<SensorReading> = Vec::new();
    let mut cpu_temp: Option<i64> = None;
    let mut gpu_temp: Option<i64> = None;
    proof {
        assert(orig.skip(0) =~= orig);
    }
    while rest.len() > 0
        invariant
            rest@.len() <= orig.len(),
            rest@ == orig.skip(orig.len() - rest@.len()),
            sensors@.len() == orig.len() - rest@.len(),
            forall|i: int|
                0 <= i < sensors@.len() ==> sensor_row_matches(#[trigger] sensors@[i], orig[i]),
            first_cpu_temp(orig) == (match cpu_temp {
                Some(t) => Some(t),
                None => first_cpu_temp(orig.skip(orig.len() - rest@.len())),
            }),
            first_gpu_temp(orig) == (match gpu_temp {
                Some(t) => Some(t),
                None => first_gpu_temp(orig.skip(orig.len() - rest@.len())),
            }),
        decreases rest@.len(),
    {
        let ghost done = orig.len() - rest@.len();
        let c = rest.remove(0);
        proof {
            assert(c == orig[done]);
            assert(rest@ =~= orig.skip(done + 1));
            assert(orig.skip(done).drop_first() =~= orig.skip(done + 1));
            assert(orig.skip(done)[0] == orig[done]);
        }
        if cpu_temp.is_none() && label_is_cpu(&c.label) {
            cpu_temp = Some(c.temperature);
        }
        if gpu_temp.is_none() && label_is_gpu(&c.label) {
            gpu_temp = Some(c.temperature);
        }
        sensors.push(
            SensorReading {
                label: c.label,
                sensor_type: SensorType::Temperature,
                value: c.temperature,
                max_value: Some(c.max),
                critical_value: c.critical,
                unit: String::from_str("C"),
            },
        );
        proof {
            assert(sensor_row_matches(sensors@.last(), orig[done]));
            assert(forall|i: int|
                0 <= i < sensors@.len() - 1 ==> sensors@[i] == sensors@.drop_last()[i]);
        }
    }
    proof {
        assert(orig.skip(orig.len() as int).len() == 0);
    }
    SensorsInfo { sensors, cpu_temp, gpu_temp }
}

/// Guarded per-domain state for sensor refreshes: the rescan cache.
pub struct SensorsMonitor {
    cache: TtlCache<SensorsInfo>,
}

impl SensorsMonitor {
    /// Well-formed cache.
    pub closed spec fn wf(&self) -> bool {
        self.cache.wf()
    }

    /// The cached snapshot store.
    pub closed spec fn model(&self) -> Map<Seq<char>, EntryModel<SensorsInfo>> {
        self.cache.model()
    }

    /// The single key the snapshot is cached under.
    pub open spec fn cache_key() -> Seq<char> {
        "sensors"@
    }

    /// A monitor with an empty cache.
    pub fn new() -> (r: SensorsMonitor)
        ensures
            r.wf(),
            r.model() == Map::<Seq<char>, EntryModel<SensorsInfo>>::empty(),
    {
        SensorsMonitor { cache: TtlCache::new() }
    }

    /// Read-only fast path: the cached snapshot if it is still fresh.
    pub fn cached(&self, now_ms: u64) -> (r: Option<&SensorsInfo>)
        requires
            self.wf(),
        ensures
            match r {
                Some(v) => lookup_fresh(self.model(), Self::cache_key(), now_ms, SENSOR_REFRESH_TTL_MS)
                    == Some(*v),
                None => lookup_fresh(self.model(), Self::cache_key(), now_ms, SENSOR_REFRESH_TTL_MS)
                    is None,
            },
    {
        let key = String::from_str("sensors");
        self.cache.get_fresh(&key, now_ms, SENSOR_REFRESH_TTL_MS)
    }

    /// Serve the cached snapshot, or run the rescan and cache its result
    /// for the next two seconds.
    pub fn get_or_rescan<F: FnOnce() -> SensorsInfo>(&mut self, now_ms: u64, rescan: F) -> (r:
        &SensorsInfo)
        requires
            old(self).wf(),
            call_requires(rescan, ()),
        ensures
            final(self).wf(),
            lookup_fresh(old(self).model(), Self::cache_key(), now_ms, SENSOR_REFRESH_TTL_MS)
                matches Some(v) ==> *r == v && final(self).model() == old(self).model(),
            lookup_fresh(old(self).model(), Self::cache_key(), now_ms, SENSOR_REFRESH_TTL_MS)
                is None ==> call_ensures(rescan, (), *r) && final(self).model() == old(
                self,
            ).model().insert(Self::cache_key(), EntryModel { value: *r, recorded_at: now_ms }),
    {
        let key = String::from_str("sensors");
        self.cache.get_or_compute(&key, now_ms, SENSOR_REFRESH_TTL_MS, rescan)
    }
}

impl Default for SensorsMonitor {
    fn default() -> (r: SensorsMonitor)
        ensures
            r.wf(),
            r.model() == Map::<Seq<char>, EntryModel<SensorsInfo>>::empty(),
    {
        SensorsMonitor::new()
    }
}

} // verus!
