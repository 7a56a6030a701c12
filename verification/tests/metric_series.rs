use l4s_bench::import_format::{frame_all_records, frame_import_format, MetricDataToImport};
use l4s_bench::metric_data_format::MetricDataFormat;
use l4s_bench::victoria_series::{
    generate_fake_metrics, MetricDataFormat as TestSeries, MetricDataStore as TestStore,
    VictoriaMetricsFormat, NUM_SAMPLES,
};

#[test]
fn new_series_is_empty_and_labelled() {
    let m = MetricDataFormat::new("ss_rtt", "client1");
    assert!(m.is_empty());
    assert_eq!(m.metric_name(), "ss_rtt");
    assert_eq!(m.host(), "client1");
    assert!(m.timestamps().is_empty());
    assert!(m.values().is_empty());
}

#[test]
fn push_skips_a_repeated_value() {
    let mut m = MetricDataFormat::new("cwnd", "h");
    m.push(1, 5);
    m.push(2, 5);
    m.push(3, 6);
    m.push(4, 5);
    assert_eq!(m.timestamps(), vec![1, 3, 4]);
    assert_eq!(m.values(), vec![5, 6, 5]);
    m.samples_never_repeat();
}

#[test]
fn repeated_push_keeps_a_single_sample() {
    let mut once = MetricDataFormat::new("x", "h");
    once.push(10, 42);
    let mut twice = MetricDataFormat::new("x", "h");
    twice.push(10, 42);
    twice.push(11, 42);
    assert_eq!(once.timestamps(), twice.timestamps());
    assert_eq!(once.values(), twice.values());
}

#[test]
fn pushed_value_is_the_last_value() {
    let mut m = MetricDataFormat::new("x", "h");
    m.push(1, 7);
    m.push(2, 8);
    assert_eq!(*m.values().last().unwrap(), 8);
    assert_eq!(*m.timestamps().last().unwrap(), 2);
    assert_eq!(m.values()[0], 7);
}

#[test]
fn clear_empties_but_keeps_labels() {
    let mut m = MetricDataFormat::new("x", "host-a");
    m.push(1, 1);
    m.push(2, 2);
    assert!(!m.is_empty());
    m.clear();
    assert!(m.is_empty());
    assert_eq!(m.metric_name(), "x");
    assert_eq!(m.host(), "host-a");
    m.push(3, 2);
    assert_eq!(m.values(), vec![2]);
}

#[test]
fn import_payload_skips_empty_series() {
    let mut a = MetricDataFormat::new("a", "h");
    let b = MetricDataFormat::new("b", "h");
    let mut c = MetricDataFormat::new("c", "h");
    a.push(1, 1);
    c.push(2, 2);
    let metrics = vec![&a, &b, &c];
    let records = vec!["{A}".to_string(), "{B}".to_string(), "{C}".to_string()];
    assert_eq!(frame_import_format(&metrics, &records), "{A}\n{C}\n");
}

#[test]
fn import_payload_of_cleared_store_is_empty() {
    let mut store = l4s_bench::ss_exporter::MetricDataStore::new("h");
    store.cwnd.push(1, 10);
    store.bytes_sent.push(1, 100);
    store.clear();
    let metrics = store.metrics();
    let records = vec!["{1}".to_string(), "{2}".to_string(), "{3}".to_string()];
    assert_eq!(frame_import_format(&metrics, &records), "");
}

#[test]
fn all_records_payload_has_one_line_per_record() {
    let records = vec!["x".to_string(), "".to_string(), "y".to_string()];
    assert_eq!(frame_all_records(&records), "x\n\ny\n");
    assert_eq!(frame_all_records(&Vec::new()), "");
}

#[test]
fn test_series_push_and_labels() {
    let mut m = TestSeries::new("test", "value1", "value2");
    m.push(5, 1);
    m.push(6, 1);
    m.push(7, 2);
    assert_eq!(m.metric_name(), "test");
    assert_eq!(m.label1(), "value1");
    assert_eq!(m.label2(), "value2");
    assert_eq!(m.timestamps(), vec![5, 7]);
    assert_eq!(m.values(), vec![1, 2]);
}

#[test]
fn test_store_series_and_payload() {
    let store = TestStore::new();
    let metrics = store.metrics();
    assert_eq!(metrics.len(), 3);
    assert_eq!(metrics[0].metric_name(), "cwnd");
    assert_eq!(metrics[1].metric_name(), "bytes_sent");
    assert_eq!(metrics[2].metric_name(), "bytes_received");
    for m in &metrics {
        assert_eq!(m.label1(), "value1");
        assert_eq!(m.label2(), "value2");
        assert!(m.values().is_empty());
    }
    let records = vec!["r1".to_string(), "r2".to_string(), "r3".to_string()];
    assert_eq!(store.to_import_format(&records), "r1\nr2\nr3\n");
}

#[test]
fn fake_metrics_timestamps_and_values() {
    let n = NUM_SAMPLES as usize;
    let sinus: Vec<u64> = (0..n as u64).collect();
    let cosinus: Vec<u64> = vec![1000; n];
    let metrics = generate_fake_metrics(5000, &sinus, &cosinus);
    assert_eq!(metrics.len(), 2);
    assert_eq!(metrics[0].metric_name(), "test_sinus");
    assert_eq!(metrics[0].label1(), "value1");
    assert_eq!(metrics[0].label2(), "value2");
    assert_eq!(metrics[1].metric_name(), "test_cosinus");
    assert_eq!(metrics[1].label1(), "value2");
    assert_eq!(metrics[1].label2(), "value2");
    let ts = metrics[0].timestamps();
    assert_eq!(ts.len(), n);
    assert_eq!(ts[0], 4000);
    assert_eq!(ts[n - 1], 4999);
    assert_eq!(metrics[0].values(), sinus);
    // a constant wave keeps its first sample only
    assert_eq!(metrics[1].timestamps(), vec![4000]);
    assert_eq!(metrics[1].values(), vec![1000]);
}
