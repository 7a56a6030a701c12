use l4s_bench::import_format::MetricDataToImport;
use l4s_bench::ss_exporter::{
    gathering_failure_report, get_date_next_run, get_socket_statistics, ss_arguments, MetricDataStore,
    SockStatError, SocketStatistics, INTERVAL_IPERF_SECS,
};

const LINE: &str = "ESTAB 0      12     10.0.0.1:5000 10.0.0.2:5201 cubic wscale:7,7 rto:204 rtt:0.5/0.25 cwnd:10 bytes_sent:1234 pacing_rate 123bps";

fn lookup<'a>(s: &'a SocketStatistics, key: &str) -> Option<&'a str> {
    s.statistics.iter().find(|(k, _)| k == key).map(|(_, v)| v.as_str())
}

#[test]
fn parses_one_socket_line() {
    let stats = get_socket_statistics(LINE).ok().unwrap();
    assert_eq!(stats.recv_q, 0);
    assert_eq!(stats.send_q, 12);
    assert_eq!(lookup(&stats, "cwnd"), Some("10"));
    assert_eq!(lookup(&stats, "bytes_sent"), Some("1234"));
    assert_eq!(lookup(&stats, "rtt"), Some("0.5/0.25"));
    assert_eq!(lookup(&stats, "wscale"), Some("7,7"));
    assert_eq!(lookup(&stats, "pacing_rate"), None);
    assert_eq!(lookup(&stats, "cubic"), None);
    assert_eq!(stats.statistics.len(), 5);
}

#[test]
fn surrounding_whitespace_is_ignored() {
    let padded = format!("\n  {}  \n", LINE);
    let stats = get_socket_statistics(&padded).ok().unwrap();
    assert_eq!(stats.send_q, 12);
}

#[test]
fn empty_output_means_no_socket() {
    assert!(matches!(get_socket_statistics(""), Err(SockStatError::NoMatchingSocket)));
    assert!(matches!(get_socket_statistics("  \n "), Err(SockStatError::NoMatchingSocket)));
}

#[test]
fn two_lines_mean_too_many_sockets() {
    let two = format!("{}\n{}", LINE, LINE);
    assert!(matches!(get_socket_statistics(&two), Err(SockStatError::TooManyMatchingSockets)));
}

#[test]
fn short_line_is_a_parsing_error() {
    match get_socket_statistics("ESTAB 0 0 a") {
        Err(SockStatError::ParsingError(m)) => assert_eq!(m, "Unexpected output format from ss command"),
        _ => panic!("expected a parsing error"),
    }
}

#[test]
fn five_fields_give_no_statistics() {
    let stats = get_socket_statistics("ESTAB 3 4 a b").ok().unwrap();
    assert_eq!(stats.recv_q, 3);
    assert_eq!(stats.send_q, 4);
    assert!(stats.statistics.is_empty());
}

#[test]
fn bad_queue_is_another_error() {
    match get_socket_statistics("ESTAB x 0 a b") {
        Err(SockStatError::Other(m)) => assert_eq!(m, "invalid digit found in string"),
        _ => panic!("expected another error"),
    }
    match get_socket_statistics("ESTAB 0 99999999999999999999 a b") {
        Err(SockStatError::Other(m)) => assert_eq!(m, "number too large to fit in target type"),
        _ => panic!("expected another error"),
    }
}

#[test]
fn last_field_with_a_key_wins() {
    let stats = get_socket_statistics("ESTAB 0 0 a b cwnd:10 rtt:1 cwnd:20").ok().unwrap();
    assert_eq!(stats.statistics.len(), 2);
    assert_eq!(stats.get_u64_statistic("cwnd").ok(), Some(20));
}

#[test]
fn value_keeps_text_after_first_colon() {
    let stats = get_socket_statistics("ESTAB 0 0 a b k:v:w").ok().unwrap();
    assert_eq!(lookup(&stats, "k"), Some("v:w"));
}

#[test]
fn u64_statistic_lookup() {
    let stats = get_socket_statistics(LINE).ok().unwrap();
    assert_eq!(stats.get_u64_statistic("cwnd").ok(), Some(10));
    assert_eq!(stats.get_u64_statistic("bytes_sent").ok(), Some(1234));
    match stats.get_u64_statistic("bytes_acked") {
        Err(SockStatError::ParsingError(m)) => assert_eq!(m, "Statistic 'bytes_acked' not found"),
        _ => panic!("expected a parsing error"),
    }
    match stats.get_u64_statistic("rtt") {
        Err(SockStatError::Other(m)) => assert_eq!(m, "invalid digit found in string"),
        _ => panic!("expected another error"),
    }
}

#[test]
fn error_messages() {
    assert_eq!(SockStatError::NoMatchingSocket.message(), "No matching socket found");
    assert_eq!(SockStatError::TooManyMatchingSockets.message(), "Multiple matching sockets found");
    assert_eq!(SockStatError::ParsingError("p".to_string()).message(), "Parsing error: p");
    assert_eq!(SockStatError::Other("o".to_string()).message(), "Other error: o");
}

#[test]
fn failures_reported_by_the_gathering_loop() {
    assert!(gathering_failure_report(&SockStatError::NoMatchingSocket).is_none());
    assert_eq!(
        gathering_failure_report(&SockStatError::TooManyMatchingSockets),
        Some(" > Socket statistics failed: Multiple matching sockets found".to_string())
    );
}

#[test]
fn next_iperf_run_is_aligned() {
    assert_eq!(INTERVAL_IPERF_SECS, 8);
    assert_eq!(get_date_next_run(16), 8);
    assert_eq!(get_date_next_run(17), 7);
    assert_eq!(get_date_next_run(23), 1);
    assert_eq!(get_date_next_run(0), 8);
    for now in 0..100u64 {
        let d = get_date_next_run(now);
        assert!(d >= 1 && d <= 8);
        assert_eq!((now + d) % 8, 0);
    }
}

#[test]
fn store_records_cwnd_and_bytes_sent() {
    let mut store = MetricDataStore::new("client");
    assert_eq!(store.cwnd.metric_name(), "cwnd");
    assert_eq!(store.bytes_sent.metric_name(), "bytes_sent");
    assert_eq!(store.bytes_received.metric_name(), "bytes_received");
    assert_eq!(store.cwnd.host(), "client");
    let stats = get_socket_statistics(LINE).ok().unwrap();
    let reports = store.record_statistics(&stats, 1000);
    assert!(reports.is_empty());
    assert_eq!(store.cwnd.values(), vec![10]);
    assert_eq!(store.cwnd.timestamps(), vec![1000]);
    assert_eq!(store.bytes_sent.values(), vec![1234]);
    assert!(store.bytes_received.is_empty());
}

#[test]
fn store_reports_missing_statistics() {
    let mut store = MetricDataStore::new("client");
    let stats = get_socket_statistics("ESTAB 0 0 a b cwnd:x").ok().unwrap();
    let reports = store.record_statistics(&stats, 5);
    assert_eq!(
        reports,
        vec![
            " > Socket statistics failed (cwnd): Other error: invalid digit found in string".to_string(),
            " > Socket statistics failed (bytes_sent): Parsing error: Statistic 'bytes_sent' not found"
                .to_string(),
        ]
    );
    assert!(store.cwnd.is_empty());
    assert!(store.bytes_sent.is_empty());
}

#[test]
fn ss_command_arguments() {
    assert_eq!(
        ss_arguments(5000, 5201),
        vec!["--info", "--tcp", "--numeric", "--no-header", "--oneline", "sport = :5000 and dport = :5201"]
    );
}
