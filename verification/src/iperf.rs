//! Recording of iperf3 results and scheduling of iperf3 runs.

use vstd::prelude::*;
use crate::exporter_store::{MetricDataStore, same_except};
use crate::import_format::MetricDataToImport;
use crate::metric_data_format::{MetricDataFormat, pushed};
use crate::text::decimal_string;

verus! {

/// Where an iperf3 benchmark sends its traffic from and to.
pub struct Iperf3Config {
    pub sender_port: u16,
    pub destination_address: String,
    pub destination_port: u16,
}

/// Duration of each iperf3 benchmark, in seconds.
pub const DURATION_IPERF_SECS: u64 = 10;

/// Interval between the starts of two iperf3 benchmarks, in microseconds.
pub const INTERVAL_IPERF_MICROS: u128 = 15_000_000;

/// The first stream of one interval of an iperf3 JSON report: the interval's
/// length in nanoseconds and the statistics it reports (`None` where the report
/// lacks the entry or holds it in another form).
pub struct IperfStreamSample {
    pub seconds_nanos: Option<u128>,
    pub bytes: Option<u64>,
    pub bits_per_second: Option<u64>,
    pub retransmits: Option<u64>,
    pub snd_cwnd: Option<u64>,
    pub snd_wnd: Option<u64>,
    pub rtt: Option<u64>,
    pub rttvar: Option<u64>,
    pub pmtu: Option<u64>,
}

/// The statistic that feeds iperf3 series `k` (0: bytes, 1: bits per second,
/// 2: retransmits, 3: congestion window, 4: send window, 5: round-trip time,
/// 6: its variation, 7: path MTU).
pub open spec fn stream_value(s: IperfStreamSample, k: int) -> Option<u64> {
    if k == 0 {
        s.bytes
    } else if k == 1 {
        s.bits_per_second
    } else if k == 2 {
        s.retransmits
    } else if k == 3 {
        s.snd_cwnd
    } else if k == 4 {
        s.snd_wnd
    } else if k == 5 {
        s.rtt
    } else if k == 6 {
        s.rttvar
    } else {
        s.pmtu
    }
}

/// Time covered by the intervals that carry a stream with a length, in
/// nanoseconds.
pub open spec fn elapsed(intervals: Seq<Option<IperfStreamSample>>) -> nat
    decreases intervals.len(),
{
    if intervals.len() == 0 {
        0
    } else {
        elapsed(intervals.drop_last()) + match intervals.last() {
            Some(s) => match s.seconds_nanos {
                Some(d) => d as nat,
                None => 0,
            },
            None => 0,
        }
    }
}

/// Series `k`'s samples after the intervals are recorded: each interval with a
/// stream and a length ends at `t0` plus the lengths so far, and offers its
/// statistic (if any) at that time in milliseconds.
pub open spec fn series_after(
    samples: Seq<(u128, u64)>,
    t0: nat,
    intervals: Seq<Option<IperfStreamSample>>,
    k: int,
) -> Seq<(u128, u64)>
    decreases intervals.len(),
{
    if intervals.len() == 0 {
        samples
    } else {
        let prev = series_after(samples, t0, intervals.drop_last(), k);
        match intervals.last() {
            Some(s) => match s.seconds_nanos {
                Some(_) => match stream_value(s, k) {
                    Some(v) => pushed(prev, ((t0 + elapsed(intervals)) / 1_000_000) as u128, v),
                    None => prev,
                },
                None => prev,
            },
            None => prev,
        }
    }
}

/// Each iperf3 series of a store is fed by the report statistic it is named
/// after: bytes, bits per second, retransmits, congestion window, send window,
/// round-trip time, its variation and path MTU, at store positions 9 to 16.
pub proof fn law_iperf_series_fed_by_name(store: MetricDataStore, s: IperfStreamSample)
    ensures
        store.series()[9] == store.iperf_bytes && stream_value(s, 0) == s.bytes,
        store.series()[10] == store.iperf_bits_per_second && stream_value(s, 1) == s.bits_per_second,
        store.series()[11] == store.iperf_retransmits && stream_value(s, 2) == s.retransmits,
        store.series()[12] == store.iperf_snd_cwnd && stream_value(s, 3) == s.snd_cwnd,
        store.series()[13] == store.iperf_snd_wnd && stream_value(s, 4) == s.snd_wnd,
        store.series()[14] == store.iperf_rtt && stream_value(s, 5) == s.rtt,
        store.series()[15] == store.iperf_rttvar && stream_value(s, 6) == s.rttvar,
        store.series()[16] == store.iperf_pmtu && stream_value(s, 7) == s.pmtu,
{
}

/// The positions of the iperf3 series in the store.
pub open spec fn iperf_series() -> Set<int> {
    Set::new(|j: int| 9 <= j < 17)
}

/// `value`, when present, is recorded in `data_format` at `now`.
pub fn push_metric(data_format: &mut MetricDataFormat, now: u128, value: Option<u64>)
    ensures
        final(data_format).name_view() == old(data_format).name_view(),
        final(data_format).host_view() == old(data_format).host_view(),
        final(data_format).sample_seq() == match value {
            Some(v) => pushed(old(data_format).sample_seq(), now, v),
            None => old(data_format).sample_seq(),
        },
{
    if let Some(value) = value {
        data_format.push(now, value);
    }
}

/// Records an iperf3 report's intervals, the benchmark having started at `t0`
/// (nanoseconds since the epoch).
pub fn push_results(storage: &mut MetricDataStore, t0: u128, intervals: &Vec<Option<IperfStreamSample>>)
    requires
        t0 + elapsed(intervals@) <= u128::MAX,
    ensures
        same_except(old(storage).series(), final(storage).series(), iperf_series()),
        forall|k: int|
            0 <= k < 8 ==> (#[trigger] final(storage).series()[9 + k]).sample_seq() == series_after(
                old(storage).series()[9 + k].sample_seq(),
                t0 as nat,
                intervals@,
                k,
            ),
        final(storage).iperf_snd_cwnd.sample_seq() == series_after(
            old(storage).iperf_snd_cwnd.sample_seq(),
            t0 as nat,
            intervals@,
            3,
        ),
        final(storage).iperf_snd_wnd.sample_seq() == series_after(
            old(storage).iperf_snd_wnd.sample_seq(),
            t0 as nat,
            intervals@,
            4,
        ),
{
    let ghost before = storage.series();
    let mut t: u128 = t0;
    let mut i: usize = 0;
    while i < intervals.len()
        invariant
            i <= intervals@.len(),
            t0 + elapsed(intervals@) <= u128::MAX,
            t == t0 + elapsed(intervals@.take(i as int)),
            same_except(before, storage.series(), iperf_series()),
            forall|k: int|
                0 <= k < 8 ==> (#[trigger] storage.series()[9 + k]).sample_seq() == series_after(
                    before[9 + k].sample_seq(),
                    t0 as nat,
                    intervals@.take(i as int),
                    k,
                ),
        decreases intervals@.len() - i,
    {
        proof {
            assert(intervals@.take(i + 1).drop_last() == intervals@.take(i as int));
            lemma_elapsed_prefix(intervals@, i as int + 1);
        }
        if let Some(data) = &intervals[i] {
            if let Some(seconds) = data.seconds_nanos {
                t = t + seconds;
                let now: u128 = t / 1_000_000;
                push_metric(&mut storage.iperf_bytes, now, data.bytes);
                push_metric(&mut storage.iperf_bits_per_second, now, data.bits_per_second);
                push_metric(&mut storage.iperf_retransmits, now, data.retransmits);
                push_metric(&mut storage.iperf_snd_cwnd, now, data.snd_cwnd);
                push_metric(&mut storage.iperf_snd_wnd, now, data.snd_wnd);
                push_metric(&mut storage.iperf_rtt, now, data.rtt);
                push_metric(&mut storage.iperf_rttvar, now, data.rttvar);
                push_metric(&mut storage.iperf_pmtu, now, data.pmtu);
            }
        }
        i = i + 1;
        assert(same_except(before, storage.series(), iperf_series()));
    }
    assert(intervals@.take(i as int) == intervals@);
    assert(storage.series()[9 + 3int] == storage.iperf_snd_cwnd);
    assert(storage.series()[9 + 4int] == storage.iperf_snd_wnd);
}

/// Whether the intervals, added to `t0`, still end within the range of
/// timestamps.
pub fn elapsed_fits(t0: u128, intervals: &Vec<Option<IperfStreamSample>>) -> (res: bool)
    ensures
        res == (t0 + elapsed(intervals@) <= u128::MAX),
{
    let mut t: u128 = t0;
    let mut i: usize = 0;
    while i < intervals.len()
        invariant
            i <= intervals@.len(),
            t == t0 + elapsed(intervals@.take(i as int)),
        decreases intervals@.len() - i,
    {
        proof {
            assert(intervals@.take(i + 1).drop_last() == intervals@.take(i as int));
        }
        if let Some(data) = &intervals[i] {
            if let Some(seconds) = data.seconds_nanos {
                if seconds > u128::MAX - t {
                    proof {
                        lemma_elapsed_prefix(intervals@, i + 1);
                    }
                    return false;
                }
                t = t + seconds;
            }
        }
        i = i + 1;
    }
    assert(intervals@.take(i as int) == intervals@);
    true
}

/// The time covered by a prefix never exceeds that of the whole.
pub proof fn lemma_elapsed_prefix(intervals: Seq<Option<IperfStreamSample>>, n: int)
    requires
        0 <= n <= intervals.len(),
    ensures
        elapsed(intervals.take(n)) <= elapsed(intervals),
    decreases intervals.len(),
{
    if n < intervals.len() {
        assert(intervals.drop_last().take(n) == intervals.take(n));
        lemma_elapsed_prefix(intervals.drop_last(), n);
    } else {
        assert(intervals.take(n) == intervals);
    }
}

/// Microseconds from `now` (microseconds since the epoch) to the next start of
/// an iperf3 benchmark, starts falling on multiples of the interval.
pub fn get_duration_to_next_run(now: u128) -> (res: u64)
    ensures
        res == INTERVAL_IPERF_MICROS - now % INTERVAL_IPERF_MICROS,
        0 < res <= INTERVAL_IPERF_MICROS,
        (now + res) % (INTERVAL_IPERF_MICROS as int) == 0,
{
    let r = INTERVAL_IPERF_MICROS - now % INTERVAL_IPERF_MICROS;
    proof {
        vstd::arithmetic::div_mod::lemma_fundamental_div_mod(now as int, INTERVAL_IPERF_MICROS as int);
        vstd::arithmetic::div_mod::lemma_mod_multiples_basic(
            now as int / INTERVAL_IPERF_MICROS as int + 1,
            INTERVAL_IPERF_MICROS as int,
        );
        assert((now + r) == (now as int / INTERVAL_IPERF_MICROS as int + 1) * INTERVAL_IPERF_MICROS)
            by (nonlinear_arith)
            requires
                now as int == (now as int / INTERVAL_IPERF_MICROS as int) * INTERVAL_IPERF_MICROS + now
                    % INTERVAL_IPERF_MICROS,
                r == INTERVAL_IPERF_MICROS - now % INTERVAL_IPERF_MICROS,
        ;
    }
    r as u64
}

/// The arguments of the `iperf3` command that runs one benchmark of
/// `duration_secs` seconds: client mode from the sender port to the
/// destination, with a JSON report.
pub fn iperf3_arguments(config: &Iperf3Config, duration_secs: u64) -> (res: Vec<String>)
    ensures
        res@.len() == 9,
        res@[0]@ == "--cport"@,
        res@[1]@ == crate::text::decimal(config.sender_port as nat),
        res@[2]@ == "--client"@,
        res@[3]@ == config.destination_address@,
        res@[4]@ == "--port"@,
        res@[5]@ == crate::text::decimal(config.destination_port as nat),
        res@[6]@ == "--time"@,
        res@[7]@ == crate::text::decimal(duration_secs as nat),
        res@[8]@ == "--json"@,
{
    let mut args: Vec<String> = Vec::new();
    args.push("--cport".to_owned());
    args.push(decimal_string(config.sender_port as u128));
    args.push("--client".to_owned());
    args.push(config.destination_address.clone());
    args.push("--port".to_owned());
    args.push(decimal_string(config.destination_port as u128));
    args.push("--time".to_owned());
    args.push(decimal_string(duration_secs as u128));
    args.push("--json".to_owned());
    args
}

} // verus!
