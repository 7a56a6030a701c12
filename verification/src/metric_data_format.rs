//! One metric series in the VictoriaMetrics JSON-line import format: labels plus
//! timestamped samples, where a sample that repeats the previous value is not kept.

use vstd::prelude::*;

verus! {

/// No two consecutive samples carry the same value.
pub open spec fn no_consecutive_repeat(samples: Seq<(u128, u64)>) -> bool {
    forall|i: int| 0 <= i < samples.len() - 1 ==> #[trigger] samples[i].1 != samples[i + 1].1
}

/// The samples after offering `(timestamp, value)`: unchanged when `value` repeats
/// the last kept value, extended by the sample otherwise.
pub open spec fn pushed(samples: Seq<(u128, u64)>, timestamp: u128, value: u64) -> Seq<(u128, u64)> {
    if samples.len() > 0 && samples.last().1 == value {
        samples
    } else {
        samples.push((timestamp, value))
    }
}

/// Offering a value that repeats the last kept one leaves the samples as they
/// are: two pushes of one value in a row keep a single sample.
pub proof fn law_repeat_push_dropped(samples: Seq<(u128, u64)>, t1: u128, t2: u128, value: u64)
    ensures
        pushed(pushed(samples, t1, value), t2, value) == pushed(samples, t1, value),
{
}

/// A push never loses a kept sample, and afterwards the pushed value is the
/// last kept value.
pub proof fn law_push_keeps_history(samples: Seq<(u128, u64)>, timestamp: u128, value: u64)
    ensures
        pushed(samples, timestamp, value).len() > 0,
        pushed(samples, timestamp, value).last().1 == value,
        samples.is_prefix_of(pushed(samples, timestamp, value)),
        pushed(samples, timestamp, value).len() <= samples.len() + 1,
{
    assert(samples.is_prefix_of(samples));
    assert(samples.is_prefix_of(samples.push((timestamp, value))));
}

/// Pushing keeps a series free of consecutive repeated values.
pub proof fn law_push_keeps_no_repeat(samples: Seq<(u128, u64)>, timestamp: u128, value: u64)
    requires
        no_consecutive_repeat(samples),
    ensures
        no_consecutive_repeat(pushed(samples, timestamp, value)),
{
    let r = pushed(samples, timestamp, value);
    assert forall|i: int| 0 <= i < r.len() - 1 implies #[trigger] r[i].1 != r[i + 1].1 by {
        if i < samples.len() - 1 {
            assert(r[i] == samples[i] && r[i + 1] == samples[i + 1]);
        }
    }
}

/// The labels of a metric series.
pub struct MetricLabels {
    name: String,
    host: String,
}

/// A metric series: its name, the host it comes from, and its samples.
pub struct MetricDataFormat {
    metric: MetricLabels,
    samples: Vec<(u128, u64)>,
}

impl MetricDataFormat {
    /// The metric's name.
    pub closed spec fn name_view(&self) -> Seq<char> {
        self.metric.name@
    }

    /// The host label.
    pub closed spec fn host_view(&self) -> Seq<char> {
        self.metric.host@
    }

    /// The kept samples, oldest first, as `(timestamp, value)` pairs.
    pub closed spec fn sample_seq(&self) -> Seq<(u128, u64)> {
        self.samples@
    }

    #[verifier::type_invariant]
    closed spec fn inv(self) -> bool {
        no_consecutive_repeat(self.samples@)
    }

    /// An empty series with the given name and host label.
    pub fn new(metric_name: &str, host: &str) -> (res: Self)
        ensures
            res.name_view() == metric_name@,
            res.host_view() == host@,
            res.sample_seq() == Seq::<(u128, u64)>::empty(),
    {
        MetricDataFormat {
            metric: MetricLabels { name: metric_name.to_owned(), host: host.to_owned() },
            samples: Vec::new(),
        }
    }

    /// Records `value` at `timestamp`, unless it repeats the last recorded value.
    pub fn push(&mut self, timestamp: u128, value: u64)
        ensures
            final(self).name_view() == old(self).name_view(),
            final(self).host_view() == old(self).host_view(),
            final(self).sample_seq() == pushed(old(self).sample_seq(), timestamp, value),
            no_consecutive_repeat(final(self).sample_seq()),
    {
        proof {
            use_type_invariant(&*self);
        }
        let n = self.samples.len();
        if n > 0 && self.samples[n - 1].1 == value {
            return;
        }
        let mut kept: Vec<(u128, u64)> = Vec::new();
        std::mem::swap(&mut kept, &mut self.samples);
        kept.push((timestamp, value));
        self.samples = kept;
    }

    /// Drops every sample; the labels stay.
    pub fn clear(&mut self)
        ensures
            final(self).name_view() == old(self).name_view(),
            final(self).host_view() == old(self).host_view(),
            final(self).sample_seq() == Seq::<(u128, u64)>::empty(),
    {
        self.samples = Vec::new();
    }

    /// Whether the series holds no sample.
    pub fn is_empty(&self) -> (res: bool)
        ensures
            res == (self.sample_seq().len() == 0),
    {
        self.samples.len() == 0
    }

    /// Every kept series has no two consecutive samples with the same value.
    pub fn samples_never_repeat(&self)
        ensures
            no_consecutive_repeat(self.sample_seq()),
    {
        proof {
            use_type_invariant(self);
        }
    }

    /// The metric's name.
    pub fn metric_name(&self) -> (res: &str)
        ensures
            res@ == self.name_view(),
    {
        self.metric.name.as_str()
    }

    /// The host label.
    pub fn host(&self) -> (res: &str)
        ensures
            res@ == self.host_view(),
    {
        self.metric.host.as_str()
    }

    /// The timestamps of the kept samples, oldest first.
    pub fn timestamps(&self) -> (res: Vec<u128>)
        ensures
            res@ == self.sample_seq().map_values(|s: (u128, u64)| s.0),
    {
        let mut res: Vec<u128> = Vec::new();
        let mut i: usize = 0;
        while i < self.samples.len()
            invariant
                i <= self.samples@.len(),
                res@ == self.samples@.take(i as int).map_values(|s: (u128, u64)| s.0),
            decreases self.samples@.len() - i,
        {
            res.push(self.samples[i].0);
            assert(self.samples@.take(i + 1) == self.samples@.take(i as int).push(self.samples@[i as int]));
            i = i + 1;
        }
        assert(self.samples@.take(i as int) == self.samples@);
        res
    }

    /// The values of the kept samples, oldest first.
    pub fn values(&self) -> (res: Vec<u64>)
        ensures
            res@ == self.sample_seq().map_values(|s: (u128, u64)| s.1),
    {
        let mut res: Vec<u64> = Vec::new();
        let mut i: usize = 0;
        while i < self.samples.len()
            invariant
                i <= self.samples@.len(),
                res@ == self.samples@.take(i as int).map_values(|s: (u128, u64)| s.1),
            decreases self.samples@.len() - i,
        {
            res.push(self.samples[i].1);
            assert(self.samples@.take(i + 1) == self.samples@.take(i as int).push(self.samples@[i as int]));
            i = i + 1;
        }
        assert(self.samples@.take(i as int) == self.samples@);
        res
    }
}

} // verus!
