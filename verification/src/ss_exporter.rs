//! The exporter that reads one socket's statistics from the one-line output of
//! `ss --info --tcp --numeric --no-header --oneline`, and the schedule of its
//! iperf3 runs.

use vstd::prelude::*;
use crate::import_format::{MetricDataToImport, all_cleared, deref_all};
use crate::metric_data_format::{MetricDataFormat, pushed};
use crate::scenario::{find_key, insert_entry, law_insert_entry_read_back, keys_of, lemma_find_key, set_entry, string_keys, unique_keys};
use crate::text::{
    append_str, chars_eq, chars_of, contains_char, decimal, decimal_string, int_error_message, int_error_text, parse_u64, parse_unsigned,
    split_once, split_once_chars, split_whitespace, split_whitespace_chars, string_from_chars, trim,
    trim_chars, views,
};

verus! {

/// Interval between two sendings of the collected series, in microseconds.
pub const INTERVAL_SENDING_MICROS: u64 = 10_000_000;

/// Interval between two readings of the socket's statistics, in microseconds.
pub const INTERVAL_GATHERING_MICROS: u64 = 1_000;

/// Interval between the starts of two iperf3 benchmarks, in seconds.
pub const INTERVAL_IPERF_SECS: u64 = 8;

/// Duration of each iperf3 benchmark, in seconds; less than `INTERVAL_IPERF_SECS`.
pub const DURATION_IPERF_SECS: u64 = 5;

/// The arguments of the `ss` command that lists, one per line and without a
/// header, the TCP sockets from `sender_port` to `destination_port` with their
/// internal information in numeric form.
pub fn ss_arguments(sender_port: u16, destination_port: u16) -> (res: Vec<String>)
    ensures
        res@.len() == 6,
        res@[0]@ == "--info"@,
        res@[1]@ == "--tcp"@,
        res@[2]@ == "--numeric"@,
        res@[3]@ == "--no-header"@,
        res@[4]@ == "--oneline"@,
        res@[5]@ == "sport = :"@ + decimal(sender_port as nat) + " and dport = :"@ + decimal(
            destination_port as nat,
        ),
{
    let mut filter = "sport = :".to_owned();
    let s = decimal_string(sender_port as u128);
    append_str(&mut filter, s.as_str());
    append_str(&mut filter, " and dport = :");
    let d = decimal_string(destination_port as u128);
    append_str(&mut filter, d.as_str());
    let mut args: Vec<String> = Vec::new();
    args.push("--info".to_owned());
    args.push("--tcp".to_owned());
    args.push("--numeric".to_owned());
    args.push("--no-header".to_owned());
    args.push("--oneline".to_owned());
    args.push(filter);
    args
}

/// The statistics of one socket as `ss` reports them: the receive and send
/// queues, and each `key:value` entry of its information part.
pub struct SocketStatistics {
    pub recv_q: u64,
    pub send_q: u64,
    pub statistics: Vec<(String, String)>,
}

/// Why the statistics of the socket could not be had.
#[derive(Debug)]
pub enum SockStatError {
    /// `ss` lists no matching socket.
    NoMatchingSocket,
    /// `ss` lists more than one matching socket.
    TooManyMatchingSockets,
    /// The output does not have the expected shape; the payload says how.
    ParsingError(String),
    /// Any other failure, described.
    Other(String),
}

/// The message that describes an error.
pub open spec fn ss_error_message(e: SockStatError) -> Seq<char> {
    match e {
        SockStatError::NoMatchingSocket => "No matching socket found"@,
        SockStatError::TooManyMatchingSockets => "Multiple matching sockets found"@,
        SockStatError::ParsingError(msg) => "Parsing error: "@ + msg@,
        SockStatError::Other(err) => "Other error: "@ + err@,
    }
}

impl SockStatError {
    /// The message that describes the error.
    pub fn message(&self) -> (res: String)
        ensures
            res@ == ss_error_message(*self),
    {
        match self {
            SockStatError::NoMatchingSocket => "No matching socket found".to_owned(),
            SockStatError::TooManyMatchingSockets => "Multiple matching sockets found".to_owned(),
            SockStatError::ParsingError(msg) => {
                let mut s = "Parsing error: ".to_owned();
                append_str(&mut s, msg.as_str());
                s
            },
            SockStatError::Other(err) => {
                let mut s = "Other error: ".to_owned();
                append_str(&mut s, err.as_str());
                s
            },
        }
    }
}

/// The whitespace-separated fields of the output's trimmed text.
pub open spec fn ss_fields(output: Seq<char>) -> Seq<Seq<char>> {
    split_whitespace(trim(output))
}

/// Whether the output is one line of at least five fields.
pub open spec fn is_socket_line(output: Seq<char>) -> bool {
    &&& trim(output).len() > 0
    &&& !trim(output).contains('\n')
    &&& ss_fields(output).len() >= 5
}

/// The statistics entries of the given fields: each field with a `:` sets the
/// key before its first `:` to the text after it (a later field with the same
/// key replaces the value); a field without `:` is left out.
pub open spec fn statistic_entries(parts: Seq<Seq<char>>) -> Seq<(Seq<char>, Seq<char>)>
    decreases parts.len(),
{
    if parts.len() == 0 {
        Seq::empty()
    } else {
        let prev = statistic_entries(parts.drop_last());
        match split_once(parts.last(), ':') {
            Some((k, v)) => insert_entry(prev, k, v),
            None => prev,
        }
    }
}

/// The last `key:value` field that names a key decides what the key reads,
/// whatever fields came before it.
pub proof fn law_last_field_wins(parts: Seq<Seq<char>>, field: Seq<char>, key: Seq<char>, value: Seq<char>)
    requires
        split_once(field, ':') == Some((key, value)),
    ensures
        ({
            let entries = statistic_entries(parts.push(field));
            find_key(keys_of(entries), key) matches Some(j) && 0 <= j < entries.len() && entries[j].1 == value
        }),
{
    assert(parts.push(field).drop_last() =~= parts);
    law_insert_entry_read_back(statistic_entries(parts), key, value);
}

/// The character sequences of a list of string pairs.
pub open spec fn entry_views(entries: Seq<(String, String)>) -> Seq<(Seq<char>, Seq<char>)> {
    entries.map_values(|e: (String, String)| (e.0@, e.1@))
}

/// Setting a key in string entries sets it in their views.
proof fn lemma_set_entry_views(before: Seq<(String, String)>, after: Seq<(String, String)>, key: String, value: String)
    requires
        after == match find_key(string_keys(before), key@) {
            Some(j) => before.update(j, (before[j].0, value)),
            None => before.push((key, value)),
        },
    ensures
        entry_views(after) == insert_entry(entry_views(before), key@, value@),
{
    assert(keys_of(entry_views(before)) =~= string_keys(before));
    lemma_find_key(string_keys(before), key@);
    match find_key(string_keys(before), key@) {
        Some(j) => {
            assert(entry_views(after) =~= entry_views(before).update(j, (key@, value@)));
        },
        None => {
            assert(entry_views(after) =~= entry_views(before).push((key@, value@)));
        },
    }
}

/// The statistics entries of `parts[from..]`.
fn collect_statistics(parts: &Vec<Vec<char>>, from: usize) -> (res: Vec<(String, String)>)
    requires
        from <= parts@.len(),
    ensures
        entry_views(res@) == statistic_entries(views(parts@).skip(from as int)),
        unique_keys(string_keys(res@)),
{
    let ghost ps = views(parts@).skip(from as int);
    let mut res: Vec<(String, String)> = Vec::new();
    let mut i: usize = from;
    assert(entry_views(res@) =~= Seq::<(Seq<char>, Seq<char>)>::empty());
    assert(ps.take(0) =~= Seq::<Seq<char>>::empty());
    while i < parts.len()
        invariant
            from <= i <= parts@.len(),
            ps == views(parts@).skip(from as int),
            entry_views(res@) == statistic_entries(ps.take(i - from)),
            unique_keys(string_keys(res@)),
        decreases parts@.len() - i,
    {
        assert(ps.take(i + 1 - from).drop_last() =~= ps.take(i - from));
        assert(ps.take(i + 1 - from).last() == parts@[i as int]@);
        match split_once_chars(parts[i].as_slice(), ':') {
            Some((k, v)) => {
                let key = string_from_chars(k.as_slice());
                let value = string_from_chars(v.as_slice());
                let ghost before = res@;
                set_entry(&mut res, key, value);
                proof {
                    lemma_set_entry_views(before, res@, key, value);
                }
            },
            None => {},
        }
        i = i + 1;
    }
    assert(ps.take(i - from) =~= ps);
    res
}

/// Reads the statistics of the one socket that `output` (the text `ss` printed)
/// lists: its receive queue (second field), send queue (third field) and the
/// `key:value` entries among the fields after the fifth.
pub fn get_socket_statistics(output: &str) -> (res: Result<SocketStatistics, SockStatError>)
    ensures
        trim(output@).len() == 0 ==> res matches Err(SockStatError::NoMatchingSocket),
        trim(output@).len() > 0 && trim(output@).contains('\n') ==> res matches Err(
            SockStatError::TooManyMatchingSockets,
        ),
        trim(output@).len() > 0 && !trim(output@).contains('\n') && ss_fields(output@).len() < 5
            ==> (res matches Err(SockStatError::ParsingError(m)) && m@
            == "Unexpected output format from ss command"@),
        is_socket_line(output@) ==> match parse_unsigned(ss_fields(output@)[1], 10, u64::MAX as nat) {
            Err(e) => (res matches Err(SockStatError::Other(m)) && m@ == int_error_message(e)),
            Ok(recv_q) => match parse_unsigned(ss_fields(output@)[2], 10, u64::MAX as nat) {
                Err(e) => (res matches Err(SockStatError::Other(m)) && m@ == int_error_message(e)),
                Ok(send_q) => (res matches Ok(st) && st.recv_q == recv_q && st.send_q == send_q
                    && entry_views(st.statistics@) == statistic_entries(ss_fields(output@).skip(5))
                    && unique_keys(string_keys(st.statistics@))),
            },
        },
{
    let cs = chars_of(output);
    let line = trim_chars(cs.as_slice());
    if line.len() == 0 {
        return Err(SockStatError::NoMatchingSocket);
    }
    if contains_char(line.as_slice(), '\n') {
        return Err(SockStatError::TooManyMatchingSockets);
    }
    let parts = split_whitespace_chars(line.as_slice());
    if parts.len() < 5 {
        return Err(SockStatError::ParsingError("Unexpected output format from ss command".to_owned()));
    }
    assert(views(parts@)[1] == parts@[1]@);
    assert(views(parts@)[2] == parts@[2]@);
    let statistics = collect_statistics(&parts, 5);
    let recv_q = match parse_u64(parts[1].as_slice()) {
        Ok(v) => v,
        Err(e) => {
            return Err(SockStatError::Other(int_error_text(e)));
        },
    };
    let send_q = match parse_u64(parts[2].as_slice()) {
        Ok(v) => v,
        Err(e) => {
            return Err(SockStatError::Other(int_error_text(e)));
        },
    };
    Ok(SocketStatistics { recv_q, send_q, statistics })
}

impl SocketStatistics {
    /// The statistic `key` read as a decimal `u64`; an absent key is a parsing
    /// error, a value that is no `u64` another error.
    pub fn get_u64_statistic(&self, key: &str) -> (res: Result<u64, SockStatError>)
        ensures
            match find_key(string_keys(self.statistics@), key@) {
                None => (res matches Err(SockStatError::ParsingError(m)) && m@ == "Statistic '"@ + key@
                    + "' not found"@),
                Some(j) => match parse_unsigned(self.statistics@[j].1@, 10, u64::MAX as nat) {
                    Ok(v) => (res matches Ok(r) && r == v),
                    Err(e) => (res matches Err(SockStatError::Other(m)) && m@ == int_error_message(e)),
                },
            },
    {
        let ghost ks = string_keys(self.statistics@);
        let k = chars_of(key);
        let mut i: usize = self.statistics.len();
        assert(ks.take(i as int) =~= ks);
        while i > 0
            invariant
                i <= self.statistics@.len(),
                ks == string_keys(self.statistics@),
                k@ == key@,
                find_key(ks, key@) == find_key(ks.take(i as int), key@),
            decreases i,
        {
            let entry_key = chars_of(self.statistics[i - 1].0.as_str());
            assert(ks.take(i as int).last() == self.statistics@[i - 1].0@);
            if chars_eq(entry_key.as_slice(), k.as_slice()) {
                let value = chars_of(self.statistics[i - 1].1.as_str());
                return match parse_u64(value.as_slice()) {
                    Ok(v) => Ok(v),
                    Err(e) => Err(SockStatError::Other(int_error_text(e))),
                };
            }
            assert(ks.take(i as int).drop_last() =~= ks.take(i - 1));
            i = i - 1;
        }
        let mut m = "Statistic '".to_owned();
        append_str(&mut m, key);
        append_str(&mut m, "' not found");
        Err(SockStatError::ParsingError(m))
    }
}

/// The value of statistic `key` among `entries`, when it is there and reads as
/// a decimal `u64`.
pub open spec fn statistic_value(entries: Seq<(String, String)>, key: Seq<char>) -> Option<nat> {
    match find_key(string_keys(entries), key) {
        None => None,
        Some(j) => match parse_unsigned(entries[j].1@, 10, u64::MAX as nat) {
            Ok(v) => Some(v),
            Err(_) => None,
        },
    }
}

/// The message of the error met when statistic `key` cannot be read from
/// `entries`, if it cannot.
pub open spec fn statistic_failure(entries: Seq<(String, String)>, key: Seq<char>) -> Option<Seq<char>> {
    match find_key(string_keys(entries), key) {
        None => Some("Parsing error: "@ + ("Statistic '"@ + key + "' not found"@)),
        Some(j) => match parse_unsigned(entries[j].1@, 10, u64::MAX as nat) {
            Ok(_) => None,
            Err(e) => Some("Other error: "@ + int_error_message(e)),
        },
    }
}

/// The samples after offering an optional value: unchanged when there is none.
pub open spec fn pushed_if_some(samples: Seq<(u128, u64)>, now: u128, value: Option<nat>) -> Seq<(u128, u64)> {
    match value {
        Some(v) => pushed(samples, now, v as u64),
        None => samples,
    }
}

/// The report of a failed reading of `what`, if the reading failed.
pub open spec fn failure_report(what: Seq<char>, failure: Option<Seq<char>>) -> Seq<Seq<char>> {
    match failure {
        Some(m) => seq![" > Socket statistics failed ("@ + what + "): "@ + m],
        None => Seq::empty(),
    }
}

/// The series that the `ss`-based exporter collects for one client.
pub struct MetricDataStore {
    pub cwnd: MetricDataFormat,
    pub bytes_sent: MetricDataFormat,
    pub bytes_received: MetricDataFormat,
}

impl MetricDataStore {
    /// Empty series, each named after its field and labelled with `host`.
    pub fn new(host: &str) -> (res: Self)
        ensures
            res.cwnd.name_view() == "cwnd"@,
            res.bytes_sent.name_view() == "bytes_sent"@,
            res.bytes_received.name_view() == "bytes_received"@,
            forall|i: int| 0 <= i < res.series().len() ==> (#[trigger] res.series()[i]).host_view() == host@
                && res.series()[i].sample_seq().len() == 0,
    {
        MetricDataStore {
            cwnd: MetricDataFormat::new("cwnd", host),
            bytes_sent: MetricDataFormat::new("bytes_sent", host),
            bytes_received: MetricDataFormat::new("bytes_received", host),
        }
    }

    /// Records the congestion window and the bytes sent of one reading taken at
    /// `now` (milliseconds since the epoch); returns the reports of those of the
    /// two that could not be read, congestion window first.
    pub fn record_statistics(&mut self, stats: &SocketStatistics, now: u128) -> (res: Vec<String>)
        ensures
            final(self).cwnd.name_view() == old(self).cwnd.name_view(),
            final(self).cwnd.host_view() == old(self).cwnd.host_view(),
            final(self).cwnd.sample_seq() == pushed_if_some(
                old(self).cwnd.sample_seq(),
                now,
                statistic_value(stats.statistics@, "cwnd"@),
            ),
            final(self).bytes_sent.name_view() == old(self).bytes_sent.name_view(),
            final(self).bytes_sent.host_view() == old(self).bytes_sent.host_view(),
            final(self).bytes_sent.sample_seq() == pushed_if_some(
                old(self).bytes_sent.sample_seq(),
                now,
                statistic_value(stats.statistics@, "bytes_sent"@),
            ),
            final(self).bytes_received == old(self).bytes_received,
            res@.map_values(|m: String| m@) == failure_report("cwnd"@, statistic_failure(stats.statistics@, "cwnd"@))
                + failure_report("bytes_sent"@, statistic_failure(stats.statistics@, "bytes_sent"@)),
    {
        let mut reports: Vec<String> = Vec::new();
        match stats.get_u64_statistic("cwnd") {
            Ok(cwnd) => self.cwnd.push(now, cwnd),
            Err(err) => reports.push(failure_text("cwnd", &err)),
        }
        let ghost first = reports@.map_values(|m: String| m@);
        match stats.get_u64_statistic("bytes_sent") {
            Ok(bytes_sent) => self.bytes_sent.push(now, bytes_sent),
            Err(err) => reports.push(failure_text("bytes_sent", &err)),
        }
        proof {
            let rest = failure_report("bytes_sent"@, statistic_failure(stats.statistics@, "bytes_sent"@));
            assert(reports@.map_values(|m: String| m@) =~= first + rest);
        }
        reports
    }
}

/// The report of a failed reading of `what`.
fn failure_text(what: &str, err: &SockStatError) -> (res: String)
    ensures
        res@ == " > Socket statistics failed ("@ + what@ + "): "@ + ss_error_message(*err),
{
    let mut s = " > Socket statistics failed (".to_owned();
    append_str(&mut s, what);
    append_str(&mut s, "): ");
    let m = err.message();
    append_str(&mut s, m.as_str());
    s
}

/// What the gathering loop reports when reading the socket fails: nothing for a
/// missing socket (expected between two benchmarks), the error's message
/// otherwise.
pub fn gathering_failure_report(err: &SockStatError) -> (res: Option<String>)
    ensures
        match err {
            SockStatError::NoMatchingSocket => res is None,
            _ => (res matches Some(m) && m@ == " > Socket statistics failed: "@ + ss_error_message(*err)),
        },
{
    match err {
        SockStatError::NoMatchingSocket => None,
        _ => {
            let mut s = " > Socket statistics failed: ".to_owned();
            let m = err.message();
            append_str(&mut s, m.as_str());
            Some(s)
        },
    }
}

impl MetricDataToImport for MetricDataStore {
    open spec fn series(&self) -> Seq<MetricDataFormat> {
        seq![self.cwnd, self.bytes_sent, self.bytes_received]
    }

    fn metrics(&self) -> (res: Vec<&MetricDataFormat>) {
        let res = vec![&self.cwnd, &self.bytes_sent, &self.bytes_received];
        assert(deref_all(res@) =~= self.series());
        res
    }

    fn clear(&mut self) {
        self.cwnd.clear();
        self.bytes_sent.clear();
        self.bytes_received.clear();
        assert(all_cleared(old(self).series(), self.series()));
    }
}

/// Seconds from `now_secs` (seconds since the epoch) to the next multiple of
/// `INTERVAL_IPERF_SECS`, a full interval when `now_secs` is one.
pub fn get_date_next_run(now_secs: u64) -> (res: u64)
    ensures
        res == INTERVAL_IPERF_SECS - now_secs % INTERVAL_IPERF_SECS,
        1 <= res <= INTERVAL_IPERF_SECS,
        (now_secs + res) % (INTERVAL_IPERF_SECS as int) == 0,
{
    INTERVAL_IPERF_SECS - now_secs % INTERVAL_IPERF_SECS
}

} // verus!
