//! The VictoriaMetrics JSON-line import payload of a set of metric series: one
//! line per series that holds samples, each line the series' JSON record.

use vstd::prelude::*;
use crate::metric_data_format::MetricDataFormat;
use crate::text::{append_str, push_char};

verus! {

/// The series behind a vector of references.
pub open spec fn deref_all(ms: Seq<&MetricDataFormat>) -> Seq<MetricDataFormat> {
    ms.map_values(|m: &MetricDataFormat| *m)
}

/// `after` is `before` with every series emptied and every label kept.
pub open spec fn all_cleared(before: Seq<MetricDataFormat>, after: Seq<MetricDataFormat>) -> bool {
    &&& after.len() == before.len()
    &&& forall|i: int|
        0 <= i < after.len() ==> {
            &&& (#[trigger] after[i]).name_view() == before[i].name_view()
            &&& after[i].host_view() == before[i].host_view()
            &&& after[i].sample_seq().len() == 0
        }
}

/// A store of metric series that can be exported and then emptied.
pub trait MetricDataToImport {
    /// The store's series, in declaration order.
    spec fn series(&self) -> Seq<MetricDataFormat>;

    /// References to the store's series, in declaration order.
    fn metrics(&self) -> (res: Vec<&MetricDataFormat>)
        ensures
            deref_all(res@) == self.series(),
    ;

    /// Empties every series of the store.
    fn clear(&mut self)
        ensures
            all_cleared(old(self).series(), final(self).series()),
    ;

    /// The import payload of the store, given the JSON record of each of its
    /// series (`records[i]` is the record of the `i`-th series).
    fn to_import_format(&self, records: &Vec<String>) -> (res: String)
        requires
            records@.len() == self.series().len(),
        ensures
            res@ == import_payload(self.series(), records@.map_values(|r: String| r@)),
    {
        let metrics = self.metrics();
        frame_import_format(&metrics, records)
    }
}

/// The import payload: for each series that holds samples, in order, its
/// record followed by a line feed (`records[i]` is the JSON record of
/// `series[i]`).
pub open spec fn import_payload(series: Seq<MetricDataFormat>, records: Seq<Seq<char>>) -> Seq<char>
    decreases series.len(),
{
    if series.len() == 0 {
        Seq::empty()
    } else {
        import_payload(series.drop_last(), records.drop_last()) + if series.last().sample_seq().len()
            == 0 {
            Seq::<char>::empty()
        } else {
            records.last().push('\n')
        }
    }
}

/// Once a store is cleared, its import payload is empty until a new sample
/// comes: no series contributes a line, whatever its record.
pub proof fn law_cleared_payload_empty(
    before: Seq<MetricDataFormat>,
    after: Seq<MetricDataFormat>,
    records: Seq<Seq<char>>,
)
    requires
        all_cleared(before, after),
    ensures
        import_payload(after, records) == Seq::<char>::empty(),
    decreases after.len(),
{
    if after.len() > 0 {
        let b = before.drop_last();
        let a = after.drop_last();
        assert(all_cleared(b, a)) by {
            assert forall|i: int| 0 <= i < a.len() implies (#[trigger] a[i]).name_view() == b[i].name_view()
                && a[i].host_view() == b[i].host_view() && a[i].sample_seq().len() == 0 by {
                assert(a[i] == after[i] && b[i] == before[i]);
            }
        }
        law_cleared_payload_empty(b, a, records.drop_last());
        assert(after.last() == after[after.len() - 1]);
    }
}

/// Builds the import payload of the given series from their JSON records.
pub fn frame_import_format(metrics: &Vec<&MetricDataFormat>, records: &Vec<String>) -> (res: String)
    requires
        metrics@.len() == records@.len(),
    ensures
        res@ == import_payload(deref_all(metrics@), records@.map_values(|r: String| r@)),
{
    let ghost ser = deref_all(metrics@);
    let ghost recs = records@.map_values(|r: String| r@);
    let mut res = String::new();
    let mut i: usize = 0;
    while i < metrics.len()
        invariant
            metrics@.len() == records@.len(),
            ser == deref_all(metrics@),
            recs == records@.map_values(|r: String| r@),
            i <= metrics@.len(),
            res@ == import_payload(ser.take(i as int), recs.take(i as int)),
        decreases metrics@.len() - i,
    {
        proof {
            assert(ser.take(i + 1).drop_last() == ser.take(i as int));
            assert(recs.take(i + 1).drop_last() == recs.take(i as int));
        }
        if !metrics[i].is_empty() {
            append_str(&mut res, records[i].as_str());
            push_char(&mut res, '\n');
        }
        i = i + 1;
    }
    assert(ser.take(i as int) == ser);
    assert(recs.take(i as int) == recs);
    res
}

/// Every record followed by a line feed, whether or not its series holds
/// samples.
pub open spec fn all_records_payload(records: Seq<Seq<char>>) -> Seq<char>
    decreases records.len(),
{
    if records.len() == 0 {
        Seq::empty()
    } else {
        all_records_payload(records.drop_last()) + records.last().push('\n')
    }
}

/// Builds a payload that holds every record, each followed by a line feed.
pub fn frame_all_records(records: &Vec<String>) -> (res: String)
    ensures
        res@ == all_records_payload(records@.map_values(|r: String| r@)),
{
    let ghost recs = records@.map_values(|r: String| r@);
    let mut res = String::new();
    let mut i: usize = 0;
    while i < records.len()
        invariant
            recs == records@.map_values(|r: String| r@),
            i <= records@.len(),
            res@ == all_records_payload(recs.take(i as int)),
        decreases records@.len() - i,
    {
        assert(recs.take(i + 1).drop_last() == recs.take(i as int));
        append_str(&mut res, records[i].as_str());
        push_char(&mut res, '\n');
        i = i + 1;
    }
    assert(recs.take(i as int) == recs);
    res
}

} // verus!
