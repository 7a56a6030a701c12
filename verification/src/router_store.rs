//! The series that the router exporter collects for each network interface, and
//! the recording of one poll of the queueing disciplines.

use vstd::prelude::*;
use crate::import_format::{MetricDataToImport, all_cleared, deref_all};
use crate::metric_data_format::{MetricDataFormat, pushed};
use crate::qdisc::QdiscInterfaceStatistics;

verus! {

/// The dualpi2 series of one interface.
pub struct MetricDataStore {
    pub qdisc_bytes: MetricDataFormat,
    pub qdisc_packets: MetricDataFormat,
    pub qdisc_qlen: MetricDataFormat,
    pub qdisc_backlog: MetricDataFormat,
    pub qdisc_drops: MetricDataFormat,
    pub qdisc_requeues: MetricDataFormat,
    pub qdisc_overlimits: MetricDataFormat,
    pub qdisc_prob: MetricDataFormat,
    pub qdisc_delay_c: MetricDataFormat,
    pub qdisc_delay_l: MetricDataFormat,
    pub qdisc_packets_in_c: MetricDataFormat,
    pub qdisc_packets_in_l: MetricDataFormat,
    pub qdisc_maxq: MetricDataFormat,
    pub qdisc_ecn_mark: MetricDataFormat,
    pub qdisc_number_of_samples: MetricDataFormat,
}

impl MetricDataStore {
    /// Empty series, each named after its field and labelled with `host`.
    pub fn new(host: &str) -> (res: Self)
        ensures
            res.qdisc_bytes.name_view() == "qdisc_bytes"@,
            res.qdisc_packets.name_view() == "qdisc_packets"@,
            res.qdisc_qlen.name_view() == "qdisc_qlen"@,
            res.qdisc_backlog.name_view() == "qdisc_backlog"@,
            res.qdisc_drops.name_view() == "qdisc_drops"@,
            res.qdisc_requeues.name_view() == "qdisc_requeues"@,
            res.qdisc_overlimits.name_view() == "qdisc_overlimits"@,
            res.qdisc_prob.name_view() == "qdisc_prob"@,
            res.qdisc_delay_c.name_view() == "qdisc_delay_c"@,
            res.qdisc_delay_l.name_view() == "qdisc_delay_l"@,
            res.qdisc_packets_in_c.name_view() == "qdisc_packets_in_c"@,
            res.qdisc_packets_in_l.name_view() == "qdisc_packets_in_l"@,
            res.qdisc_maxq.name_view() == "qdisc_maxq"@,
            res.qdisc_ecn_mark.name_view() == "qdisc_ecn_mark"@,
            res.qdisc_number_of_samples.name_view() == "qdisc_number_of_samples"@,
            forall|i: int| 0 <= i < res.series().len() ==> (#[trigger] res.series()[i]).host_view() == host@
                && res.series()[i].sample_seq().len() == 0,
    {
        MetricDataStore {
            qdisc_bytes: MetricDataFormat::new("qdisc_bytes", host),
            qdisc_packets: MetricDataFormat::new("qdisc_packets", host),
            qdisc_qlen: MetricDataFormat::new("qdisc_qlen", host),
            qdisc_backlog: MetricDataFormat::new("qdisc_backlog", host),
            qdisc_drops: MetricDataFormat::new("qdisc_drops", host),
            qdisc_requeues: MetricDataFormat::new("qdisc_requeues", host),
            qdisc_overlimits: MetricDataFormat::new("qdisc_overlimits", host),
            qdisc_prob: MetricDataFormat::new("qdisc_prob", host),
            qdisc_delay_c: MetricDataFormat::new("qdisc_delay_c", host),
            qdisc_delay_l: MetricDataFormat::new("qdisc_delay_l", host),
            qdisc_packets_in_c: MetricDataFormat::new("qdisc_packets_in_c", host),
            qdisc_packets_in_l: MetricDataFormat::new("qdisc_packets_in_l", host),
            qdisc_maxq: MetricDataFormat::new("qdisc_maxq", host),
            qdisc_ecn_mark: MetricDataFormat::new("qdisc_ecn_mark", host),
            qdisc_number_of_samples: MetricDataFormat::new("qdisc_number_of_samples", host),
        }
    }
}

impl MetricDataToImport for MetricDataStore {
    open spec fn series(&self) -> Seq<MetricDataFormat> {
        seq![self.qdisc_bytes, self.qdisc_packets, self.qdisc_qlen, self.qdisc_backlog, self.qdisc_drops, self.qdisc_requeues, self.qdisc_overlimits, self.qdisc_prob, self.qdisc_delay_c, self.qdisc_delay_l, self.qdisc_packets_in_c, self.qdisc_packets_in_l, self.qdisc_maxq, self.qdisc_ecn_mark, self.qdisc_number_of_samples]
    }

    fn metrics(&self) -> (res: Vec<&MetricDataFormat>) {
        let res = vec![&self.qdisc_bytes, &self.qdisc_packets, &self.qdisc_qlen, &self.qdisc_backlog, &self.qdisc_drops, &self.qdisc_requeues, &self.qdisc_overlimits, &self.qdisc_prob, &self.qdisc_delay_c, &self.qdisc_delay_l, &self.qdisc_packets_in_c, &self.qdisc_packets_in_l, &self.qdisc_maxq, &self.qdisc_ecn_mark, &self.qdisc_number_of_samples];
        assert(deref_all(res@) =~= self.series());
        res
    }

    fn clear(&mut self) {
        self.qdisc_bytes.clear();
        self.qdisc_packets.clear();
        self.qdisc_qlen.clear();
        self.qdisc_backlog.clear();
        self.qdisc_drops.clear();
        self.qdisc_requeues.clear();
        self.qdisc_overlimits.clear();
        self.qdisc_prob.clear();
        self.qdisc_delay_c.clear();
        self.qdisc_delay_l.clear();
        self.qdisc_packets_in_c.clear();
        self.qdisc_packets_in_l.clear();
        self.qdisc_maxq.clear();
        self.qdisc_ecn_mark.clear();
        self.qdisc_number_of_samples.clear();
        assert(all_cleared(old(self).series(), self.series()));
    }
}

/// A 32-bit reading as a 64-bit one.
pub open spec fn widen(v: Option<u32>) -> Option<u64> {
    match v {
        Some(x) => Some(x as u64),
        None => None,
    }
}

/// `value`, when present, is recorded in `data_format` at `now`.
pub fn push_metric_u64(data_format: &mut MetricDataFormat, now: u128, value: Option<u64>)
    ensures
        final(data_format).name_view() == old(data_format).name_view(),
        final(data_format).host_view() == old(data_format).host_view(),
        final(data_format).sample_seq() == match value {
            Some(v) => pushed(old(data_format).sample_seq(), now, v),
            None => old(data_format).sample_seq(),
        },
{
    if let Some(value) = value {
        data_format.push(now, value);
    }
}

/// `value`, when present, is recorded (widened) in `data_format` at `now`.
pub fn push_metric_u32(data_format: &mut MetricDataFormat, now: u128, value: Option<u32>)
    ensures
        final(data_format).name_view() == old(data_format).name_view(),
        final(data_format).host_view() == old(data_format).host_view(),
        final(data_format).sample_seq() == match widen(value) {
            Some(v) => pushed(old(data_format).sample_seq(), now, v),
            None => old(data_format).sample_seq(),
        },
{
    if let Some(value) = value {
        data_format.push(now, value as u64);
    }
}

/// The reading that feeds series `k` of an interface's store (the fourteen
/// statistics in declaration order, then the sample counter `n`).
pub open spec fn router_value(s: QdiscInterfaceStatistics, k: int, n: u64) -> Option<u64> {
    if k == 0 {
        s.bytes
    } else if k == 1 {
        widen(s.packets)
    } else if k == 2 {
        widen(s.qlen)
    } else if k == 3 {
        widen(s.backlog)
    } else if k == 4 {
        widen(s.drops)
    } else if k == 5 {
        widen(s.requeues)
    } else if k == 6 {
        widen(s.overlimits)
    } else if k == 7 {
        widen(s.prob)
    } else if k == 8 {
        widen(s.delay_c)
    } else if k == 9 {
        widen(s.delay_l)
    } else if k == 10 {
        widen(s.packets_in_c)
    } else if k == 11 {
        widen(s.packets_in_l)
    } else if k == 12 {
        widen(s.maxq)
    } else if k == 13 {
        widen(s.ecn_mark)
    } else {
        Some(n)
    }
}

/// Each series of an interface's store records the statistic it is named
/// after, widened to 64 bits, and the last one the sample counter.
pub proof fn law_router_series_fed_by_name(store: MetricDataStore, s: QdiscInterfaceStatistics, n: u64)
    ensures
        store.series()[0] == store.qdisc_bytes && router_value(s, 0, n) == s.bytes,
        store.series()[1] == store.qdisc_packets && router_value(s, 1, n) == widen(s.packets),
        store.series()[2] == store.qdisc_qlen && router_value(s, 2, n) == widen(s.qlen),
        store.series()[3] == store.qdisc_backlog && router_value(s, 3, n) == widen(s.backlog),
        store.series()[4] == store.qdisc_drops && router_value(s, 4, n) == widen(s.drops),
        store.series()[5] == store.qdisc_requeues && router_value(s, 5, n) == widen(s.requeues),
        store.series()[6] == store.qdisc_overlimits && router_value(s, 6, n) == widen(s.overlimits),
        store.series()[7] == store.qdisc_prob && router_value(s, 7, n) == widen(s.prob),
        store.series()[8] == store.qdisc_delay_c && router_value(s, 8, n) == widen(s.delay_c),
        store.series()[9] == store.qdisc_delay_l && router_value(s, 9, n) == widen(s.delay_l),
        store.series()[10] == store.qdisc_packets_in_c && router_value(s, 10, n) == widen(s.packets_in_c),
        store.series()[11] == store.qdisc_packets_in_l && router_value(s, 11, n) == widen(s.packets_in_l),
        store.series()[12] == store.qdisc_maxq && router_value(s, 12, n) == widen(s.maxq),
        store.series()[13] == store.qdisc_ecn_mark && router_value(s, 13, n) == widen(s.ecn_mark),
        store.series()[14] == store.qdisc_number_of_samples && router_value(s, 14, n) == Some(n),
        forall|x: Option<u32>| #[trigger] widen(x) == match x { Some(v) => Some(v as u64), None => None::<u64> },
{
}

/// Series `k` of the interface at position `p` after recording `stats` at `now`
/// as sample `n`: every statistics entry for that interface offers its reading.
pub open spec fn router_series_after(
    samples: Seq<(u128, u64)>,
    stats: Seq<QdiscInterfaceStatistics>,
    p: int,
    k: int,
    now: u128,
    n: u64,
) -> Seq<(u128, u64)>
    decreases stats.len(),
{
    if stats.len() == 0 {
        samples
    } else {
        let prev = router_series_after(samples, stats.drop_last(), p, k, now, n);
        if stats.last().index == p {
            match router_value(stats.last(), k, n) {
                Some(v) => pushed(prev, now, v),
                None => prev,
            }
        } else {
            prev
        }
    }
}

/// Records one poll of the queueing disciplines, taken at `now` as sample
/// `number_of_samples`: the statistics of the interface with index `i` go to
/// `storage[i]`; statistics for an index without a store are dropped.
pub fn record_qdisc_sample(
    storage: &mut Vec<MetricDataStore>,
    stats: &Vec<QdiscInterfaceStatistics>,
    now: u128,
    number_of_samples: u64,
)
    ensures
        final(storage)@.len() == old(storage)@.len(),
        forall|p: int, k: int|
            0 <= p < final(storage)@.len() && 0 <= k < 15 ==> {
                &&& (#[trigger] final(storage)@[p].series()[k]).name_view() == old(storage)@[p].series()[k].name_view()
                &&& final(storage)@[p].series()[k].host_view() == old(storage)@[p].series()[k].host_view()
                &&& final(storage)@[p].series()[k].sample_seq() == router_series_after(
                    old(storage)@[p].series()[k].sample_seq(),
                    stats@,
                    p,
                    k,
                    now,
                    number_of_samples,
                )
            },
{
    let ghost before = storage@;
    let mut i: usize = 0;
    while i < stats.len()
        invariant
            i <= stats@.len(),
            storage@.len() == before.len(),
            forall|p: int, k: int|
                0 <= p < storage@.len() && 0 <= k < 15 ==> {
                    &&& (#[trigger] storage@[p].series()[k]).name_view() == before[p].series()[k].name_view()
                    &&& storage@[p].series()[k].host_view() == before[p].series()[k].host_view()
                    &&& storage@[p].series()[k].sample_seq() == router_series_after(
                        before[p].series()[k].sample_seq(),
                        stats@.take(i as int),
                        p,
                        k,
                        now,
                        number_of_samples,
                    )
                },
        decreases stats@.len() - i,
    {
        assert(stats@.take(i + 1).drop_last() == stats@.take(i as int));
        let if_stats = &stats[i];
        let idx = if_stats.index;
        if idx < storage.len() {
            let ghost prior = storage@;
            let entry = &mut storage[idx];
            record_interface(entry, if_stats, now, number_of_samples);
            assert forall|p: int, k: int| 0 <= p < storage@.len() && 0 <= k < 15 implies {
                &&& (#[trigger] storage@[p].series()[k]).name_view() == before[p].series()[k].name_view()
                &&& storage@[p].series()[k].host_view() == before[p].series()[k].host_view()
                &&& storage@[p].series()[k].sample_seq() == router_series_after(
                    before[p].series()[k].sample_seq(),
                    stats@.take(i + 1),
                    p,
                    k,
                    now,
                    number_of_samples,
                )
            } by {
                if p != idx {
                    assert(storage@[p] == prior[p]);
                }
            }
        }
        i = i + 1;
    }
    assert(stats@.take(i as int) == stats@);
}

/// Records one interface's statistics as sample `number_of_samples` at `now`.
pub fn record_interface(
    entry: &mut MetricDataStore,
    if_stats: &QdiscInterfaceStatistics,
    now: u128,
    number_of_samples: u64,
)
    ensures
        forall|k: int|
            0 <= k < 15 ==> {
                &&& (#[trigger] final(entry).series()[k]).name_view() == old(entry).series()[k].name_view()
                &&& final(entry).series()[k].host_view() == old(entry).series()[k].host_view()
                &&& final(entry).series()[k].sample_seq() == match router_value(*if_stats, k, number_of_samples) {
                    Some(v) => pushed(old(entry).series()[k].sample_seq(), now, v),
                    None => old(entry).series()[k].sample_seq(),
                }
            },
{
    let ghost e0 = *entry;
    push_metric_u64(&mut entry.qdisc_bytes, now, if_stats.bytes);
    push_metric_u32(&mut entry.qdisc_packets, now, if_stats.packets);
    push_metric_u32(&mut entry.qdisc_qlen, now, if_stats.qlen);
    push_metric_u32(&mut entry.qdisc_backlog, now, if_stats.backlog);
    push_metric_u32(&mut entry.qdisc_drops, now, if_stats.drops);
    push_metric_u32(&mut entry.qdisc_requeues, now, if_stats.requeues);
    push_metric_u32(&mut entry.qdisc_overlimits, now, if_stats.overlimits);
    push_metric_u32(&mut entry.qdisc_prob, now, if_stats.prob);
    push_metric_u32(&mut entry.qdisc_delay_c, now, if_stats.delay_c);
    push_metric_u32(&mut entry.qdisc_delay_l, now, if_stats.delay_l);
    push_metric_u32(&mut entry.qdisc_packets_in_c, now, if_stats.packets_in_c);
    push_metric_u32(&mut entry.qdisc_packets_in_l, now, if_stats.packets_in_l);
    push_metric_u32(&mut entry.qdisc_maxq, now, if_stats.maxq);
    push_metric_u32(&mut entry.qdisc_ecn_mark, now, if_stats.ecn_mark);
    entry.qdisc_number_of_samples.push(now, number_of_samples);
    assert forall|k: int| 0 <= k < 15 implies {
        &&& (#[trigger] entry.series()[k]).name_view() == e0.series()[k].name_view()
        &&& entry.series()[k].host_view() == e0.series()[k].host_view()
        &&& entry.series()[k].sample_seq() == match router_value(*if_stats, k, number_of_samples) {
            Some(v) => pushed(e0.series()[k].sample_seq(), now, v),
            None => e0.series()[k].sample_seq(),
        }
    } by {
        if k == 0 {} else if k == 1 {} else if k == 2 {} else if k == 3 {} else if k == 4 {} else if k == 5 {}
        else if k == 6 {} else if k == 7 {} else if k == 8 {} else if k == 9 {} else if k == 10 {} else if k == 11 {}
        else if k == 12 {} else if k == 13 {} else {}
    }
}

} // verus!
