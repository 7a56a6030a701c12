//! The series that the socket-statistics exporter collects for one client.

use vstd::prelude::*;
use crate::import_format::{MetricDataToImport, deref_all, all_cleared};
use crate::metric_data_format::{MetricDataFormat, pushed};
use crate::socket_stats::{SockStatError, TcpInfo};

verus! {

/// The socket-statistics and iperf3 series of one client.
pub struct MetricDataStore {
    /// Instantaneous congestion window size
    pub ss_snd_cwnd: MetricDataFormat,
    /// Slow start threshold
    pub ss_snd_ssthresh: MetricDataFormat,
    /// Total number of bytes sent (including retransmissions)
    pub ss_bytes_sent: MetricDataFormat,
    /// Total number of retransmitted bytes
    pub ss_bytes_retrans: MetricDataFormat,
    /// Total number of bytes for which cumulative acknowledgments have been received
    pub ss_bytes_acked: MetricDataFormat,
    /// Instantaneous throughput in bytes per second
    pub ss_delivery_rate: MetricDataFormat,
    /// Instantaneous round-trip time in microseconds
    pub ss_rtt: MetricDataFormat,
    /// Instantaneous round-trip time variation in microseconds
    pub ss_rttvar: MetricDataFormat,
    /// Number of socket samples taken so far
    pub ss_number_of_samples: MetricDataFormat,
    /// Bytes sent in an iperf3 interval
    pub iperf_bytes: MetricDataFormat,
    /// Throughput of an iperf3 interval
    pub iperf_bits_per_second: MetricDataFormat,
    /// Retransmissions in an iperf3 interval
    pub iperf_retransmits: MetricDataFormat,
    /// Congestion window reported by iperf3
    pub iperf_snd_cwnd: MetricDataFormat,
    /// Send window reported by iperf3
    pub iperf_snd_wnd: MetricDataFormat,
    /// Round-trip time reported by iperf3
    pub iperf_rtt: MetricDataFormat,
    /// Round-trip time variation reported by iperf3
    pub iperf_rttvar: MetricDataFormat,
    /// Path MTU reported by iperf3
    pub iperf_pmtu: MetricDataFormat,
    /// Number of iperf3 benchmarks started so far
    pub hfe_number_of_benchmarks: MetricDataFormat,
}

impl MetricDataStore {
    /// Empty series, each named after its field and labelled with `host`.
    pub fn new(host: &str) -> (res: Self)
        ensures
            res.ss_snd_cwnd.name_view() == "ss_snd_cwnd"@,
            res.ss_snd_ssthresh.name_view() == "ss_snd_ssthresh"@,
            res.ss_bytes_sent.name_view() == "ss_bytes_sent"@,
            res.ss_bytes_retrans.name_view() == "ss_bytes_retrans"@,
            res.ss_bytes_acked.name_view() == "ss_bytes_acked"@,
            res.ss_delivery_rate.name_view() == "ss_delivery_rate"@,
            res.ss_rtt.name_view() == "ss_rtt"@,
            res.ss_rttvar.name_view() == "ss_rttvar"@,
            res.ss_number_of_samples.name_view() == "ss_number_of_samples"@,
            res.iperf_bytes.name_view() == "iperf_bytes"@,
            res.iperf_bits_per_second.name_view() == "iperf_bits_per_second"@,
            res.iperf_retransmits.name_view() == "iperf_retransmits"@,
            res.iperf_snd_cwnd.name_view() == "iperf_snd_cwnd"@,
            res.iperf_snd_wnd.name_view() == "iperf_snd_wnd"@,
            res.iperf_rtt.name_view() == "iperf_rtt"@,
            res.iperf_rttvar.name_view() == "iperf_rttvar"@,
            res.iperf_pmtu.name_view() == "iperf_pmtu"@,
            res.hfe_number_of_benchmarks.name_view() == "hfe_number_of_benchmarks"@,
            forall|i: int| 0 <= i < res.series().len() ==> (#[trigger] res.series()[i]).host_view() == host@
                && res.series()[i].sample_seq().len() == 0,
    {
        MetricDataStore {
            ss_snd_cwnd: MetricDataFormat::new("ss_snd_cwnd", host),
            ss_snd_ssthresh: MetricDataFormat::new("ss_snd_ssthresh", host),
            ss_bytes_sent: MetricDataFormat::new("ss_bytes_sent", host),
            ss_bytes_retrans: MetricDataFormat::new("ss_bytes_retrans", host),
            ss_bytes_acked: MetricDataFormat::new("ss_bytes_acked", host),
            ss_delivery_rate: MetricDataFormat::new("ss_delivery_rate", host),
            ss_rtt: MetricDataFormat::new("ss_rtt", host),
            ss_rttvar: MetricDataFormat::new("ss_rttvar", host),
            ss_number_of_samples: MetricDataFormat::new("ss_number_of_samples", host),
            iperf_bytes: MetricDataFormat::new("iperf_bytes", host),
            iperf_bits_per_second: MetricDataFormat::new("iperf_bits_per_second", host),
            iperf_retransmits: MetricDataFormat::new("iperf_retransmits", host),
            iperf_snd_cwnd: MetricDataFormat::new("iperf_snd_cwnd", host),
            iperf_snd_wnd: MetricDataFormat::new("iperf_snd_wnd", host),
            iperf_rtt: MetricDataFormat::new("iperf_rtt", host),
            iperf_rttvar: MetricDataFormat::new("iperf_rttvar", host),
            iperf_pmtu: MetricDataFormat::new("iperf_pmtu", host),
            hfe_number_of_benchmarks: MetricDataFormat::new("hfe_number_of_benchmarks", host),
        }
    }
}

/// `after` keeps every series of `before` except those at positions in `changed`,
/// and keeps the labels of all.
pub open spec fn same_except(before: Seq<MetricDataFormat>, after: Seq<MetricDataFormat>, changed: Set<int>) -> bool {
    &&& after.len() == before.len()
    &&& forall|j: int|
        0 <= j < before.len() ==> {
            &&& (#[trigger] after[j]).name_view() == before[j].name_view()
            &&& after[j].host_view() == before[j].host_view()
            &&& !changed.contains(j) ==> after[j] == before[j]
        }
}

/// Positions of the series that one socket sample feeds: congestion window,
/// bytes sent, round-trip time, its variation, and the sample counter.
pub open spec fn socket_sample_series() -> Set<int> {
    set![0int, 2int, 6int, 7int, 8int]
}

impl MetricDataStore {
    /// Records one reading of the socket's statistics taken at `now`
    /// (milliseconds since the epoch), with the number of readings taken before.
    pub fn record_socket_sample(&mut self, info: &TcpInfo, now: u128, number_of_samples: u64)
        ensures
            same_except(old(self).series(), final(self).series(), socket_sample_series()),
            final(self).ss_snd_cwnd.sample_seq() == pushed(
                old(self).ss_snd_cwnd.sample_seq(),
                now,
                info.tcpi_snd_cwnd as u64,
            ),
            final(self).ss_bytes_sent.sample_seq() == pushed(
                old(self).ss_bytes_sent.sample_seq(),
                now,
                info.tcpi_bytes_sent,
            ),
            final(self).ss_rtt.sample_seq() == pushed(old(self).ss_rtt.sample_seq(), now, info.tcpi_rtt as u64),
            final(self).ss_rttvar.sample_seq() == pushed(
                old(self).ss_rttvar.sample_seq(),
                now,
                info.tcpi_rttvar as u64,
            ),
            final(self).ss_number_of_samples.sample_seq() == pushed(
                old(self).ss_number_of_samples.sample_seq(),
                now,
                number_of_samples,
            ),
    {
        self.ss_snd_cwnd.push(now, info.tcpi_snd_cwnd as u64);
        self.ss_bytes_sent.push(now, info.tcpi_bytes_sent);
        self.ss_rtt.push(now, info.tcpi_rtt as u64);
        self.ss_rttvar.push(now, info.tcpi_rttvar as u64);
        self.ss_number_of_samples.push(now, number_of_samples);
    }

    /// Handles one attempt of the gathering loop at `now`: a reading is recorded
    /// and counted, a missing socket (expected while no benchmark runs) changes
    /// nothing silently, and any other error changes nothing but is to be
    /// reported. Returns the new count of readings and whether to report.
    pub fn record_gathering_outcome(
        &mut self,
        outcome: &Result<TcpInfo, SockStatError>,
        now: u128,
        number_of_samples: u64,
    ) -> (res: (u64, bool))
        requires
            outcome is Ok ==> number_of_samples < u64::MAX,
        ensures
            match outcome {
                Ok(info) => {
                    &&& same_except(old(self).series(), final(self).series(), socket_sample_series())
                    &&& final(self).ss_number_of_samples.sample_seq() == pushed(
                        old(self).ss_number_of_samples.sample_seq(),
                        now,
                        number_of_samples,
                    )
                    &&& final(self).ss_snd_cwnd.sample_seq() == pushed(
                        old(self).ss_snd_cwnd.sample_seq(),
                        now,
                        info.tcpi_snd_cwnd as u64,
                    )
                    &&& final(self).ss_bytes_sent.sample_seq() == pushed(
                        old(self).ss_bytes_sent.sample_seq(),
                        now,
                        info.tcpi_bytes_sent,
                    )
                    &&& final(self).ss_rtt.sample_seq() == pushed(
                        old(self).ss_rtt.sample_seq(),
                        now,
                        info.tcpi_rtt as u64,
                    )
                    &&& final(self).ss_rttvar.sample_seq() == pushed(
                        old(self).ss_rttvar.sample_seq(),
                        now,
                        info.tcpi_rttvar as u64,
                    )
                    &&& res.0 == number_of_samples + 1
                    &&& !res.1
                },
                Err(SockStatError::NoMatchingSocket(_)) => {
                    &&& final(self).series() == old(self).series()
                    &&& res == (number_of_samples, false)
                },
                Err(_) => {
                    &&& final(self).series() == old(self).series()
                    &&& res == (number_of_samples, true)
                },
            },
    {
        match outcome {
            Ok(info) => {
                self.record_socket_sample(info, now, number_of_samples);
                (number_of_samples + 1, false)
            },
            Err(SockStatError::NoMatchingSocket(_)) => (number_of_samples, false),
            Err(_) => (number_of_samples, true),
        }
    }

    /// Starts benchmark round `number_of_benchmarks + 1` at `now`: records the new
    /// count and returns it.
    pub fn start_benchmark_round(&mut self, now: u128, number_of_benchmarks: u64) -> (res: u64)
        requires
            number_of_benchmarks < u64::MAX,
        ensures
            res == number_of_benchmarks + 1,
            same_except(old(self).series(), final(self).series(), set![17int]),
            final(self).hfe_number_of_benchmarks.sample_seq() == pushed(
                old(self).hfe_number_of_benchmarks.sample_seq(),
                now,
                res,
            ),
    {
        let n = number_of_benchmarks + 1;
        self.hfe_number_of_benchmarks.push(now, n);
        n
    }
}

impl MetricDataToImport for MetricDataStore {
    open spec fn series(&self) -> Seq<MetricDataFormat> {
        seq![self.ss_snd_cwnd, self.ss_snd_ssthresh, self.ss_bytes_sent, self.ss_bytes_retrans, self.ss_bytes_acked, self.ss_delivery_rate, self.ss_rtt, self.ss_rttvar, self.ss_number_of_samples, self.iperf_bytes, self.iperf_bits_per_second, self.iperf_retransmits, self.iperf_snd_cwnd, self.iperf_snd_wnd, self.iperf_rtt, self.iperf_rttvar, self.iperf_pmtu, self.hfe_number_of_benchmarks]
    }

    fn metrics(&self) -> (res: Vec<&MetricDataFormat>) {
        let res = vec![&self.ss_snd_cwnd, &self.ss_snd_ssthresh, &self.ss_bytes_sent, &self.ss_bytes_retrans, &self.ss_bytes_acked, &self.ss_delivery_rate, &self.ss_rtt, &self.ss_rttvar, &self.ss_number_of_samples, &self.iperf_bytes, &self.iperf_bits_per_second, &self.iperf_retransmits, &self.iperf_snd_cwnd, &self.iperf_snd_wnd, &self.iperf_rtt, &self.iperf_rttvar, &self.iperf_pmtu, &self.hfe_number_of_benchmarks];
        assert(deref_all(res@) =~= self.series());
        res
    }

    fn clear(&mut self) {
        self.ss_snd_cwnd.clear();
        self.ss_snd_ssthresh.clear();
        self.ss_bytes_sent.clear();
        self.ss_bytes_retrans.clear();
        self.ss_bytes_acked.clear();
        self.ss_delivery_rate.clear();
        self.ss_rtt.clear();
        self.ss_rttvar.clear();
        self.ss_number_of_samples.clear();
        self.iperf_bytes.clear();
        self.iperf_bits_per_second.clear();
        self.iperf_retransmits.clear();
        self.iperf_snd_cwnd.clear();
        self.iperf_snd_wnd.clear();
        self.iperf_rtt.clear();
        self.iperf_rttvar.clear();
        self.iperf_pmtu.clear();
        self.hfe_number_of_benchmarks.clear();
        assert(all_cleared(old(self).series(), self.series()));
    }
}

} // verus!
