//! Test series for a VictoriaMetrics server: a metric with two test labels,
//! a store of three such series, and a generated pair of wave-shaped series.

use vstd::prelude::*;
use crate::import_format::{all_records_payload, frame_all_records};
use crate::metric_data_format::{no_consecutive_repeat, pushed};

verus! {

/// The labels of a test series.
pub struct TestLabels {
    name: String,
    label_test1: String,
    label_test2: String,
}

/// A metric series with two test labels and its samples; a sample that repeats
/// the last kept value is not kept.
pub struct MetricDataFormat {
    metric: TestLabels,
    samples: Vec<(u128, u64)>,
}

impl MetricDataFormat {
    /// The metric's name.
    pub closed spec fn name_view(&self) -> Seq<char> {
        self.metric.name@
    }

    /// The first test label.
    pub closed spec fn label1_view(&self) -> Seq<char> {
        self.metric.label_test1@
    }

    /// The second test label.
    pub closed spec fn label2_view(&self) -> Seq<char> {
        self.metric.label_test2@
    }

    /// The kept samples, oldest first, as `(timestamp, value)` pairs.
    pub closed spec fn sample_seq(&self) -> Seq<(u128, u64)> {
        self.samples@
    }

    #[verifier::type_invariant]
    closed spec fn inv(self) -> bool {
        no_consecutive_repeat(self.samples@)
    }

    /// An empty series with the given name and labels.
    pub fn new(metric_name: &str, label1: &str, label2: &str) -> (res: Self)
        ensures
            res.name_view() == metric_name@,
            res.label1_view() == label1@,
            res.label2_view() == label2@,
            res.sample_seq() == Seq::<(u128, u64)>::empty(),
    {
        MetricDataFormat {
            metric: TestLabels {
                name: metric_name.to_owned(),
                label_test1: label1.to_owned(),
                label_test2: label2.to_owned(),
            },
            samples: Vec::new(),
        }
    }

    /// Records `value` at `timestamp`, unless it repeats the last recorded value.
    pub fn push(&mut self, timestamp: u128, value: u64)
        ensures
            final(self).name_view() == old(self).name_view(),
            final(self).label1_view() == old(self).label1_view(),
            final(self).label2_view() == old(self).label2_view(),
            final(self).sample_seq() == pushed(old(self).sample_seq(), timestamp, value),
            no_consecutive_repeat(final(self).sample_seq()),
    {
        proof {
            use_type_invariant(&*self);
        }
        let n = self.samples.len();
        if n > 0 && self.samples[n - 1].1 == value {
            return;
        }
        let mut kept: Vec<(u128, u64)> = Vec::new();
        std::mem::swap(&mut kept, &mut self.samples);
        kept.push((timestamp, value));
        self.samples = kept;
    }

    /// The metric's name.
    pub fn metric_name(&self) -> (res: &str)
        ensures
            res@ == self.name_view(),
    {
        self.metric.name.as_str()
    }

    /// The first test label.
    pub fn label1(&self) -> (res: &str)
        ensures
            res@ == self.label1_view(),
    {
        self.metric.label_test1.as_str()
    }

    /// The second test label.
    pub fn label2(&self) -> (res: &str)
        ensures
            res@ == self.label2_view(),
    {
        self.metric.label_test2.as_str()
    }

    /// The timestamps of the kept samples, oldest first.
    pub fn timestamps(&self) -> (res: Vec<u128>)
        ensures
            res@ == self.sample_seq().map_values(|s: (u128, u64)| s.0),
    {
        let mut res: Vec<u128> = Vec::new();
        let mut i: usize = 0;
        while i < self.samples.len()
            invariant
                i <= self.samples@.len(),
                res@ == self.samples@.take(i as int).map_values(|s: (u128, u64)| s.0),
            decreases self.samples@.len() - i,
        {
            res.push(self.samples[i].0);
            assert(self.samples@.take(i + 1) == self.samples@.take(i as int).push(self.samples@[i as int]));
            i = i + 1;
        }
        assert(self.samples@.take(i as int) == self.samples@);
        res
    }

    /// The values of the kept samples, oldest first.
    pub fn values(&self) -> (res: Vec<u64>)
        ensures
            res@ == self.sample_seq().map_values(|s: (u128, u64)| s.1),
    {
        let mut res: Vec<u64> = Vec::new();
        let mut i: usize = 0;
        while i < self.samples.len()
            invariant
                i <= self.samples@.len(),
                res@ == self.samples@.take(i as int).map_values(|s: (u128, u64)| s.1),
            decreases self.samples@.len() - i,
        {
            res.push(self.samples[i].1);
            assert(self.samples@.take(i + 1) == self.samples@.take(i as int).push(self.samples@[i as int]));
            i = i + 1;
        }
        assert(self.samples@.take(i as int) == self.samples@);
        res
    }
}

/// The series behind a vector of references.
pub open spec fn deref_series(ms: Seq<&MetricDataFormat>) -> Seq<MetricDataFormat> {
    ms.map_values(|m: &MetricDataFormat| *m)
}

/// A set of test series that can be sent to the server in the import format.
pub trait VictoriaMetricsFormat {
    /// The series, in declaration order.
    spec fn series(&self) -> Seq<MetricDataFormat>;

    /// References to the series, in declaration order.
    fn metrics(&self) -> (res: Vec<&MetricDataFormat>)
        ensures
            deref_series(res@) == self.series(),
    ;

    /// The import payload: the JSON record of each series (`records[i]` is the
    /// record of the `i`-th series), each followed by a line feed.
    fn to_import_format(&self, records: &Vec<String>) -> (res: String)
        requires
            records@.len() == self.series().len(),
        ensures
            res@ == all_records_payload(records@.map_values(|r: String| r@)),
    {
        frame_all_records(records)
    }
}

/// Three test series of one socket.
pub struct MetricDataStore {
    pub cwnd: MetricDataFormat,
    pub bytes_sent: MetricDataFormat,
    pub bytes_received: MetricDataFormat,
}

/// Whether a series is empty, is named `name` and carries the labels `value1`
/// and `value2`.
pub open spec fn fresh_test_series(m: MetricDataFormat, name: Seq<char>) -> bool {
    &&& m.name_view() == name
    &&& m.label1_view() == "value1"@
    &&& m.label2_view() == "value2"@
    &&& m.sample_seq().len() == 0
}

impl MetricDataStore {
    /// Empty series, each named after its field.
    pub fn new() -> (res: Self)
        ensures
            fresh_test_series(res.cwnd, "cwnd"@),
            fresh_test_series(res.bytes_sent, "bytes_sent"@),
            fresh_test_series(res.bytes_received, "bytes_received"@),
    {
        MetricDataStore {
            cwnd: MetricDataFormat::new("cwnd", "value1", "value2"),
            bytes_sent: MetricDataFormat::new("bytes_sent", "value1", "value2"),
            bytes_received: MetricDataFormat::new("bytes_received", "value1", "value2"),
        }
    }
}

impl VictoriaMetricsFormat for MetricDataStore {
    open spec fn series(&self) -> Seq<MetricDataFormat> {
        seq![self.cwnd, self.bytes_sent, self.bytes_received]
    }

    fn metrics(&self) -> (res: Vec<&MetricDataFormat>) {
        let res = vec![&self.cwnd, &self.bytes_sent, &self.bytes_received];
        assert(deref_series(res@) =~= self.series());
        res
    }
}

/// Number of samples in each generated series.
pub const NUM_SAMPLES: u64 = 1000;

/// The samples after offering `values[i]` at timestamp `start + i` to
/// `samples`, for each `i` in order.
pub open spec fn pushed_run(samples: Seq<(u128, u64)>, start: int, values: Seq<u64>) -> Seq<(u128, u64)>
    decreases values.len(),
{
    if values.len() == 0 {
        samples
    } else {
        pushed(
            pushed_run(samples, start, values.drop_last()),
            (start + values.len() - 1) as u128,
            values.last(),
        )
    }
}

/// Two generated series over the `NUM_SAMPLES` milliseconds that end at
/// `now_millis`: `test_sinus` (labels `value1`, `value2`) fed with `sinus` and
/// `test_cosinus` (labels `value2`, `value2`) fed with `cosinus`, the `i`-th
/// value at timestamp `now_millis - NUM_SAMPLES + i`.
pub fn generate_fake_metrics(now_millis: u128, sinus: &Vec<u64>, cosinus: &Vec<u64>) -> (res: Vec<MetricDataFormat>)
    requires
        now_millis >= NUM_SAMPLES,
        sinus@.len() == NUM_SAMPLES,
        cosinus@.len() == NUM_SAMPLES,
    ensures
        res@.len() == 2,
        res@[0].name_view() == "test_sinus"@,
        res@[0].label1_view() == "value1"@,
        res@[0].label2_view() == "value2"@,
        res@[0].sample_seq() == pushed_run(Seq::empty(), now_millis - NUM_SAMPLES, sinus@),
        res@[1].name_view() == "test_cosinus"@,
        res@[1].label1_view() == "value2"@,
        res@[1].label2_view() == "value2"@,
        res@[1].sample_seq() == pushed_run(Seq::empty(), now_millis - NUM_SAMPLES, cosinus@),
{
    let start: u128 = now_millis - 1000;
    let mut metric1 = MetricDataFormat::new("test_sinus", "value1", "value2");
    let mut metric2 = MetricDataFormat::new("test_cosinus", "value2", "value2");
    let mut i: usize = 0;
    while i < 1000
        invariant
            i <= 1000,
            start == now_millis - NUM_SAMPLES,
            sinus@.len() == NUM_SAMPLES,
            cosinus@.len() == NUM_SAMPLES,
            metric1.name_view() == "test_sinus"@,
            metric1.label1_view() == "value1"@,
            metric1.label2_view() == "value2"@,
            metric1.sample_seq() == pushed_run(Seq::empty(), start as int, sinus@.take(i as int)),
            metric2.name_view() == "test_cosinus"@,
            metric2.label1_view() == "value2"@,
            metric2.label2_view() == "value2"@,
            metric2.sample_seq() == pushed_run(Seq::empty(), start as int, cosinus@.take(i as int)),
        decreases 1000 - i,
    {
        let timestamp: u128 = start + i as u128;
        assert(sinus@.take(i + 1).drop_last() == sinus@.take(i as int));
        assert(cosinus@.take(i + 1).drop_last() == cosinus@.take(i as int));
        metric1.push(timestamp, sinus[i]);
        metric2.push(timestamp, cosinus[i]);
        i = i + 1;
    }
    assert(sinus@.take(1000) == sinus@);
    assert(cosinus@.take(1000) == cosinus@);
    vec![metric1, metric2]
}

} // verus!
