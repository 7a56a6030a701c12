use l4s_bench::exporter_store::MetricDataStore;
use l4s_bench::import_format::MetricDataToImport;
use l4s_bench::iperf::{
    elapsed_fits, get_duration_to_next_run, iperf3_arguments, push_metric, push_results, Iperf3Config,
    IperfStreamSample, DURATION_IPERF_SECS, INTERVAL_IPERF_MICROS,
};
use l4s_bench::metric_data_format::MetricDataFormat;
use l4s_bench::socket_stats::{SockStatError, TcpInfo};

fn sample(seconds_nanos: Option<u128>, bytes: Option<u64>, rtt: Option<u64>) -> IperfStreamSample {
    IperfStreamSample {
        seconds_nanos,
        bytes,
        bits_per_second: None,
        retransmits: Some(0),
        snd_cwnd: None,
        snd_wnd: None,
        rtt,
        rttvar: None,
        pmtu: None,
    }
}

#[test]
fn store_series_are_named_after_fields() {
    let store = MetricDataStore::new("client1");
    let metrics = store.metrics();
    let names: Vec<&str> = metrics.iter().map(|m| m.metric_name()).collect();
    assert_eq!(
        names,
        vec![
            "ss_snd_cwnd", "ss_snd_ssthresh", "ss_bytes_sent", "ss_bytes_retrans", "ss_bytes_acked",
            "ss_delivery_rate", "ss_rtt", "ss_rttvar", "ss_number_of_samples", "iperf_bytes",
            "iperf_bits_per_second", "iperf_retransmits", "iperf_snd_cwnd", "iperf_snd_wnd",
            "iperf_rtt", "iperf_rttvar", "iperf_pmtu", "hfe_number_of_benchmarks",
        ]
    );
    assert!(store.metrics().iter().all(|m| m.host() == "client1" && m.is_empty()));
}

#[test]
fn socket_sample_feeds_its_series() {
    let mut store = MetricDataStore::new("h");
    let mut info = TcpInfo::default();
    info.tcpi_snd_cwnd = 10;
    info.tcpi_bytes_sent = 1000;
    info.tcpi_rtt = 250;
    info.tcpi_rttvar = 30;
    info.tcpi_snd_ssthresh = 99;
    let (count, report) = store.record_gathering_outcome(&Ok(info), 7, 0);
    assert_eq!((count, report), (1, false));
    assert_eq!(store.ss_snd_cwnd.values(), vec![10]);
    assert_eq!(store.ss_bytes_sent.values(), vec![1000]);
    assert_eq!(store.ss_rtt.values(), vec![250]);
    assert_eq!(store.ss_rttvar.values(), vec![30]);
    assert_eq!(store.ss_number_of_samples.values(), vec![0]);
    assert_eq!(store.ss_snd_cwnd.timestamps(), vec![7]);
    assert!(store.ss_snd_ssthresh.is_empty());
    assert!(store.iperf_bytes.is_empty());
}

#[test]
fn gathering_errors_change_nothing() {
    let mut store = MetricDataStore::new("h");
    let missing: Result<TcpInfo, SockStatError> = Err(SockStatError::NoMatchingSocket("gone".to_string()));
    assert_eq!(store.record_gathering_outcome(&missing, 1, 5), (5, false));
    let other: Result<TcpInfo, SockStatError> = Err(SockStatError::SocketNotEstablished(4));
    assert_eq!(store.record_gathering_outcome(&other, 1, 5), (5, true));
    assert!(store.metrics().iter().all(|m| m.is_empty()));
}

#[test]
fn benchmark_rounds_are_counted() {
    let mut store = MetricDataStore::new("h");
    assert_eq!(store.start_benchmark_round(100, 0), 1);
    assert_eq!(store.start_benchmark_round(200, 1), 2);
    assert_eq!(store.hfe_number_of_benchmarks.values(), vec![1, 2]);
    assert_eq!(store.hfe_number_of_benchmarks.timestamps(), vec![100, 200]);
}

#[test]
fn clearing_the_store_empties_every_series() {
    let mut store = MetricDataStore::new("h");
    store.start_benchmark_round(100, 0);
    store.ss_rtt.push(1, 1);
    store.clear();
    assert!(store.metrics().iter().all(|m| m.is_empty()));
    assert_eq!(store.ss_rtt.metric_name(), "ss_rtt");
}

#[test]
fn push_metric_records_present_values() {
    let mut m = MetricDataFormat::new("x", "h");
    push_metric(&mut m, 1, Some(3));
    push_metric(&mut m, 2, None);
    push_metric(&mut m, 3, Some(4));
    assert_eq!(m.timestamps(), vec![1, 3]);
    assert_eq!(m.values(), vec![3, 4]);
}

#[test]
fn iperf_intervals_end_at_cumulated_times() {
    let mut store = MetricDataStore::new("h");
    let t0: u128 = 1_000_000_000_000_000_000; // nanoseconds
    let intervals = vec![
        Some(sample(Some(1_000_000_000), Some(100), Some(20))),
        None,
        Some(sample(None, Some(999), Some(999))),
        Some(sample(Some(500_000_000), Some(200), None)),
    ];
    push_results(&mut store, t0, &intervals);
    let first = t0 / 1_000_000 + 1000;
    let second = t0 / 1_000_000 + 1500;
    assert_eq!(store.iperf_bytes.values(), vec![100, 200]);
    assert_eq!(store.iperf_bytes.timestamps(), vec![first, second]);
    assert_eq!(store.iperf_rtt.values(), vec![20]);
    assert_eq!(store.iperf_retransmits.values(), vec![0]);
    assert_eq!(store.iperf_retransmits.timestamps(), vec![first]);
    assert!(store.iperf_pmtu.is_empty());
    assert!(store.ss_rtt.is_empty());
}

#[test]
fn next_run_falls_on_interval_multiples() {
    assert_eq!(INTERVAL_IPERF_MICROS, 15_000_000);
    assert_eq!(get_duration_to_next_run(0), 15_000_000);
    assert_eq!(get_duration_to_next_run(15_000_001), 14_999_999);
    assert_eq!(get_duration_to_next_run(29_999_999), 1);
    for now in [1u128, 7_500_000, 1_700_000_000_123_456] {
        let d = get_duration_to_next_run(now) as u128;
        assert!(d > 0 && d <= 15_000_000);
        assert_eq!((now + d) % 15_000_000, 0);
    }
}

#[test]
fn iperf3_command_arguments() {
    let config = Iperf3Config {
        sender_port: 5000,
        destination_address: "10.0.0.2".to_string(),
        destination_port: 5201,
    };
    assert_eq!(
        iperf3_arguments(&config, DURATION_IPERF_SECS),
        vec!["--cport", "5000", "--client", "10.0.0.2", "--port", "5201", "--time", "10", "--json"]
    );
    assert_eq!(iperf3_arguments(&config, 5)[7], "5");
}

#[test]
fn elapsed_time_overflow_is_detected() {
    let intervals = vec![Some(sample(Some(10), None, None)), None, Some(sample(Some(5), None, None))];
    assert!(elapsed_fits(0, &intervals));
    assert!(elapsed_fits(u128::MAX - 15, &intervals));
    assert!(!elapsed_fits(u128::MAX - 14, &intervals));
}

#[test]
fn store_payload_holds_non_empty_series() {
    let mut store = MetricDataStore::new("h");
    store.ss_rtt.push(1, 5);
    let n = store.metrics().len();
    let records: Vec<String> = (0..n).map(|i| format!("r{}", i)).collect();
    assert_eq!(store.to_import_format(&records), "r6\n");
}
