//! Network snapshots: per-interface counters with real-time rates derived
//! from the previous refresh, plus saturating totals.

use vstd::prelude::*;
use crate::rate::{
    RateTracker, SampleModel, observe_rates, observe_update,
};

verus! {

/// Raw cumulative counters for one interface, handed in by the caller.
#[derive(Debug, Clone)]
pub struct InterfaceCounters {
    pub name: String,
    pub mac_address: String,
    pub received_bytes: u64,
    pub transmitted_bytes: u64,
    pub received_packets: u64,
    pub transmitted_packets: u64,
    pub errors_in: u64,
    pub errors_out: u64,
}

/// One interface row of a snapshot; rates are in bytes per second.
#[derive(Debug, Clone)]
pub struct NetworkInterface {
    pub name: String,
    pub mac_address: String,
    pub received_bytes: u64,
    pub transmitted_bytes: u64,
    pub received_packets: u64,
    pub transmitted_packets: u64,
    pub errors_in: u64,
    pub errors_out: u64,
    pub download_rate_bps: u64,
    pub upload_rate_bps: u64,
}

/// Whole-network snapshot with saturating totals.
#[derive(Debug, Clone)]
pub struct NetworkInfo {
    pub interfaces: Vec<NetworkInterface>,
    pub total_received: u64,
    pub total_transmitted: u64,
    pub total_download_rate: u64,
    pub total_upload_rate: u64,
}

/// The cumulative counters of one reading, in tracker order:
/// received, then transmitted.
pub open spec fn counter_values(c: InterfaceCounters) -> Seq<u64> {
    seq![c.received_bytes, c.transmitted_bytes]
}

/// The tracker store after folding in a sequence of readings at one time.
pub open spec fn net_update(
    m: Map<Seq<char>, SampleModel>,
    rs: Seq<InterfaceCounters>,
    now_ms: u64,
) -> Map<Seq<char>, SampleModel>
    decreases rs.len(),
{
    if rs.len() == 0 {
        m
    } else {
        observe_update(
            net_update(m, rs.drop_last(), now_ms),
            rs.last().name@,
            now_ms,
            counter_values(rs.last()),
        )
    }
}

/// No two readings name the same interface.
pub open spec fn distinct_iface_names(rs: Seq<InterfaceCounters>) -> bool {
    forall|i: int, j: int| 0 <= i < j < rs.len() ==> rs[i].name@ != rs[j].name@
}

/// Folding other interfaces' readings leaves a key's sample untouched.
proof fn lemma_net_update_other(
    m: Map<Seq<char>, SampleModel>,
    rs: Seq<InterfaceCounters>,
    now_ms: u64,
    k: Seq<char>,
)
    requires
        forall|i: int| 0 <= i < rs.len() ==> rs[i].name@ != k,
    ensures
        net_update(m, rs, now_ms).contains_key(k) == m.contains_key(k),
        m.contains_key(k) ==> net_update(m, rs, now_ms)[k] == m[k],
    decreases rs.len(),
{
    if rs.len() > 0 {
        lemma_net_update_other(m, rs.drop_last(), now_ms, k);
        assert(forall|i: int| 0 <= i < rs.len() - 1 ==> rs.drop_last()[i] == rs[i]);
        assert(rs.last().name@ != k);
    }
}

/// One snapshot row realizes its reading against the tracker store as it
/// stood before the refresh.
pub open spec fn net_row_matches(
    row: NetworkInterface,
    c: InterfaceCounters,
    m0: Map<Seq<char>, SampleModel>,
    now_ms: u64,
) -> bool {
    &&& row.name == c.name
    &&& row.mac_address == c.mac_address
    &&& row.received_bytes == c.received_bytes
    &&& row.transmitted_bytes == c.transmitted_bytes
    &&& row.received_packets == c.received_packets
    &&& row.transmitted_packets == c.transmitted_packets
    &&& row.errors_in == c.errors_in
    &&& row.errors_out == c.errors_out
    &&& row.download_rate_bps == observe_rates(m0, c.name@, now_ms, counter_values(c))[0]
    &&& row.upload_rate_bps == observe_rates(m0, c.name@, now_ms, counter_values(c))[1]
}

/// Saturating total of received bytes over the readings.
pub open spec fn sum_received(rs: Seq<InterfaceCounters>) -> u64
    decreases rs.len(),
{
    if rs.len() == 0 {
        0u64
    } else {
        crate::arith::sat_add_u64(sum_received(rs.drop_last()), rs.last().received_bytes)
    }
}

/// Saturating total of transmitted bytes over the readings.
pub open spec fn sum_transmitted(rs: Seq<InterfaceCounters>) -> u64
    decreases rs.len(),
{
    if rs.len() == 0 {
        0u64
    } else {
        crate::arith::sat_add_u64(sum_transmitted(rs.drop_last()), rs.last().transmitted_bytes)
    }
}

/// Saturating total of download rates over the readings.
pub open spec fn sum_download_rate(
    m0: Map<Seq<char>, SampleModel>,
    rs: Seq<InterfaceCounters>,
    now_ms: u64,
) -> u64
    decreases rs.len(),
{
    if rs.len() == 0 {
        0u64
    } else {
        crate::arith::sat_add_u64(
            sum_download_rate(m0, rs.drop_last(), now_ms),
            observe_rates(m0, rs.last().name@, now_ms, counter_values(rs.last()))[0],
        )
    }
}

/// Saturating total of upload rates over the readings.
pub open spec fn sum_upload_rate(
    m0: Map<Seq<char>, SampleModel>,
    rs: Seq<InterfaceCounters>,
    now_ms: u64,
) -> u64
    decreases rs.len(),
{
    if rs.len() == 0 {
        0u64
    } else {
        crate::arith::sat_add_u64(
            sum_upload_rate(m0, rs.drop_last(), now_ms),
            observe_rates(m0, rs.last().name@, now_ms, counter_values(rs.last()))[1],
        )
    }
}

/// Guarded per-domain state for network refreshes: the rate tracker.
pub struct NetworkMonitor {
    tracker: RateTracker,
}

impl NetworkMonitor {
    /// Well-formed: one sample per interface.
    pub closed spec fn wf(&self) -> bool {
        self.tracker.wf()
    }

    /// The stored samples, keyed by interface name.
    pub closed spec fn model(&self) -> Map<Seq<char>, SampleModel> {
        self.tracker.model()
    }

    /// A monitor with no samples yet.
    pub fn new() -> (r: NetworkMonitor)
        ensures
            r.wf(),
            r.model() == Map::<Seq<char>, SampleModel>::empty(),
    {
        NetworkMonitor { tracker: RateTracker::new() }
    }

    /// Turn one batch of per-interface readings, all taken at `now_ms`,
    /// into a snapshot: every row carries its counters and the per-second
    /// rates against the previous sample for that interface (zero on first
    /// sight, on a stale clock, and on counter resets), and the stored
    /// samples advance to this batch.
    pub fn refresh(&mut self, now_ms: u64, readings: Vec<InterfaceCounters>) -> (r: NetworkInfo)
        requires
            old(self).wf(),
            distinct_iface_names(readings@),
        ensures
            final(self).wf(),
            final(self).model() == net_update(old(self).model(), readings@, now_ms),
            r.interfaces@.len() == readings@.len(),
            forall|i: int|
                0 <= i < readings@.len() ==> net_row_matches(
                    #[trigger] r.interfaces@[i],
                    readings@[i],
                    old(self).model(),
                    now_ms,
                ),
            r.total_received == sum_received(readings@),
            r.total_transmitted == sum_transmitted(readings@),
            r.total_download_rate == sum_download_rate(old(self).model(), readings@, now_ms),
            r.total_upload_rate == sum_upload_rate(old(self).model(), readings@, now_ms),
    {
        let ghost m0 = self.tracker.model();
        let ghost orig = readings@;
        let mut rest = readings;
        let mut interfaces: Vec<NetworkInterface> = Vec::new();
        let mut total_received: u64 = 0;
        let mut total_transmitted: u64 = 0;
        let mut total_download_rate: u64 = 0;
        let mut total_upload_rate: u64 = 0;
        while rest.len() > 0
            invariant
                self.tracker.wf(),
                rest@.len() <= orig.len(),
                rest@ == orig.skip(orig.len() - rest@.len()),
                distinct_iface_names(orig),
                self.tracker.model() == net_update(m0, orig.take(orig.len() - rest@.len()), now_ms),
                interfaces@.len() == orig.len() - rest@.len(),
                forall|i: int|
                    0 <= i < interfaces@.len() ==> net_row_matches(
                        #[trigger] interfaces@[i],
                        orig[i],
                        m0,
                        now_ms,
                    ),
                total_received == sum_received(orig.take(orig.len() - rest@.len())),
                total_transmitted == sum_transmitted(orig.take(orig.len() - rest@.len())),
                total_download_rate == sum_download_rate(
                    m0,
                    orig.take(orig.len() - rest@.len()),
                    now_ms,
                ),
                total_upload_rate == sum_upload_rate(
                    m0,
                    orig.take(orig.len() - rest@.len()),
                    now_ms,
                ),
            decreases rest@.len(),
        {
            let ghost done = orig.len() - rest@.len();
            let c = rest.remove(0);
            proof {
                assert(c == orig[done]);
                assert(rest@ =~= orig.skip(done + 1));
                assert(orig.take(done + 1).drop_last() =~= orig.take(done));
                assert(orig.take(done + 1).last() == orig[done]);
                assert(forall|i: int| 0 <= i < done ==> orig.take(done)[i].name@ != orig[done].name@);
                lemma_net_update_other(m0, orig.take(done), now_ms, orig[done].name@);
            }
            let mut values: Vec<u64> = Vec::new();
            values.push(c.received_bytes);
            values.push(c.transmitted_bytes);
            proof {
                assert(values@ =~= counter_values(orig[done]));
            }
            let rates = self.tracker.observe(&c.name, now_ms, values);
            proof {
                assert(rates@ == observe_rates(m0, orig[done].name@, now_ms, counter_values(orig[done])));
                assert(rates@.len() == 2);
            }
            let download_rate_bps = rates[0];
            let upload_rate_bps = rates[1];
            total_received = crate::arith::sat_add64(total_received, c.received_bytes);
            total_transmitted = crate::arith::sat_add64(total_transmitted, c.transmitted_bytes);
            total_download_rate = crate::arith::sat_add64(total_download_rate, download_rate_bps);
            total_upload_rate = crate::arith::sat_add64(total_upload_rate, upload_rate_bps);
            interfaces.push(
                NetworkInterface {
                    name: c.name,
                    mac_address: c.mac_address,
                    received_bytes: c.received_bytes,
                    transmitted_bytes: c.transmitted_bytes,
                    received_packets: c.received_packets,
                    transmitted_packets: c.transmitted_packets,
                    errors_in: c.errors_in,
                    errors_out: c.errors_out,
                    download_rate_bps,
                    upload_rate_bps,
                },
            );
            proof {
                assert(net_row_matches(interfaces@.last(), orig[done], m0, now_ms));
                assert(forall|i: int|
                    0 <= i < interfaces@.len() - 1 ==> interfaces@[i]
                        == interfaces@.drop_last()[i]);
            }
        }
        proof {
            assert(orig.take(orig.len() as int) =~= orig);
        }
        NetworkInfo {
            interfaces,
            total_received,
            total_transmitted,
            total_download_rate,
            total_upload_rate,
        }
    }
}

impl Default for NetworkMonitor {
    fn default() -> (r: NetworkMonitor)
        ensures
            r.wf(),
            r.model() == Map::<Seq<char>, SampleModel>::empty(),
    {
        NetworkMonitor::new()
    }
}

} // verus!
