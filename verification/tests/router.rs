use l4s_bench::qdisc::{
    interface_names, interface_table_fits, process_qdisc_message, DualPi2XStats, QdiscInterfaceStatistics, QdiscMessage,
    TcAttr, TcStat, DUALPI2_XSTATS_SIZE,
};
use l4s_bench::router_store::{push_metric_u32, push_metric_u64, record_qdisc_sample, MetricDataStore};
use l4s_bench::metric_data_format::MetricDataFormat;

fn xstats_bytes(fields: [u32; 9]) -> Vec<u8> {
    let mut raw = Vec::new();
    for f in fields {
        raw.extend_from_slice(&f.to_ne_bytes());
    }
    raw
}

fn empty_stats(index: usize) -> QdiscInterfaceStatistics {
    QdiscInterfaceStatistics {
        index,
        bytes: None,
        packets: None,
        qlen: None,
        backlog: None,
        drops: None,
        requeues: None,
        overlimits: None,
        prob: None,
        delay_c: None,
        delay_l: None,
        packets_in_c: None,
        packets_in_l: None,
        maxq: None,
        ecn_mark: None,
    }
}

#[test]
fn dualpi2_xstats_decoding() {
    let raw = xstats_bytes([1, 2, 3, 4, 5, 6, 7, (-8i32) as u32, 9]);
    assert_eq!(raw.len(), DUALPI2_XSTATS_SIZE);
    let d = DualPi2XStats::from_bytes(&raw).unwrap();
    assert_eq!(
        (d.prob, d.delay_c, d.delay_l, d.packets_in_c, d.packets_in_l, d.maxq, d.ecn_mark, d.credit, d.step_marks),
        (1, 2, 3, 4, 5, 6, 7, -8, 9)
    );
    assert!(DualPi2XStats::from_bytes(&raw[..35]).is_none());
    let mut longer = raw.clone();
    longer.extend_from_slice(&[0xff; 4]);
    assert_eq!(DualPi2XStats::from_bytes(&longer).unwrap().step_marks, 9);
}

#[test]
fn dualpi2_message_is_read() {
    let message = QdiscMessage {
        index: 3,
        attributes: vec![
            TcAttr::Other,
            TcAttr::Kind("dualpi2".to_string()),
            TcAttr::Stats2(vec![
                TcStat::Basic { bytes: 1000, packets: 10 },
                TcStat::Queue { qlen: 1, backlog: 2, drops: 3, requeues: 4, overlimits: 5 },
                TcStat::Other,
            ]),
            TcAttr::XstatsOther(vec![1, 2, 3]),
            TcAttr::XstatsOther(xstats_bytes([11, 12, 13, 14, 15, 16, 17, 18, 19])),
        ],
    };
    let s = process_qdisc_message(&message).unwrap();
    assert_eq!(s.index, 3);
    assert_eq!((s.bytes, s.packets), (Some(1000), Some(10)));
    assert_eq!(
        (s.qlen, s.backlog, s.drops, s.requeues, s.overlimits),
        (Some(1), Some(2), Some(3), Some(4), Some(5))
    );
    assert_eq!(
        (s.prob, s.delay_c, s.delay_l, s.packets_in_c, s.packets_in_l, s.maxq, s.ecn_mark),
        (Some(11), Some(12), Some(13), Some(14), Some(15), Some(16), Some(17))
    );
}

#[test]
fn other_disciplines_are_ignored() {
    let message = QdiscMessage {
        index: 1,
        attributes: vec![TcAttr::Kind("fq_codel".to_string()), TcAttr::Stats2(vec![TcStat::Basic { bytes: 1, packets: 1 }])],
    };
    assert!(process_qdisc_message(&message).is_none());
    let no_kind = QdiscMessage { index: 1, attributes: vec![] };
    assert!(process_qdisc_message(&no_kind).is_none());
}

#[test]
fn dualpi2_message_without_statistics() {
    let message = QdiscMessage { index: 2, attributes: vec![TcAttr::Kind("dualpi2".to_string())] };
    let s = process_qdisc_message(&message).unwrap();
    assert_eq!(s.index, 2);
    assert!(s.bytes.is_none() && s.qlen.is_none() && s.prob.is_none());
}

#[test]
fn interface_name_table() {
    let links = vec![
        (Some("lo".to_string()), 1),
        (None, 5),
        (Some("eth0".to_string()), 3),
        (Some("eth1".to_string()), 3),
    ];
    assert_eq!(interface_names(&links), vec!["?", "lo", "?", "eth1"]);
    assert_eq!(interface_names(&Vec::new()), vec!["?"]);
}

#[test]
fn push_metric_variants() {
    let mut m = MetricDataFormat::new("x", "h");
    push_metric_u64(&mut m, 1, Some(u64::MAX));
    push_metric_u32(&mut m, 2, Some(7));
    push_metric_u32(&mut m, 3, None);
    assert_eq!(m.values(), vec![u64::MAX, 7]);
    assert_eq!(m.timestamps(), vec![1, 2]);
}

#[test]
fn samples_go_to_their_interface() {
    let mut storage = vec![MetricDataStore::new("router"), MetricDataStore::new("router")];
    let mut s1 = empty_stats(1);
    s1.bytes = Some(500);
    s1.qlen = Some(3);
    let mut far = empty_stats(9);
    far.bytes = Some(1);
    record_qdisc_sample(&mut storage, &vec![s1, far], 42, 7);
    assert!(storage[0].qdisc_bytes.is_empty());
    assert!(storage[0].qdisc_number_of_samples.is_empty());
    assert_eq!(storage[1].qdisc_bytes.values(), vec![500]);
    assert_eq!(storage[1].qdisc_qlen.values(), vec![3]);
    assert_eq!(storage[1].qdisc_number_of_samples.values(), vec![7]);
    assert_eq!(storage[1].qdisc_bytes.timestamps(), vec![42]);
    assert!(storage[1].qdisc_prob.is_empty());
    assert_eq!(storage[1].qdisc_ecn_mark.metric_name(), "qdisc_ecn_mark");
    assert_eq!(storage[1].qdisc_ecn_mark.host(), "router");
}

#[test]
fn interface_table_always_fits_on_this_machine() {
    assert!(interface_table_fits(&vec![(Some("eth0".to_string()), u32::MAX)]));
    assert!(interface_table_fits(&Vec::new()));
}
