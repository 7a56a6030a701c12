//! Statistics of the router's dualpi2 queueing disciplines: decoding of the
//! traffic-control messages that the kernel reports, and the table of
//! interface names.

use vstd::prelude::*;
use crate::text::{chars_eq, chars_of};

verus! {

/// Little-endian value of four bytes.
pub open spec fn le_u32(b0: u8, b1: u8, b2: u8, b3: u8) -> nat {
    b0 as nat + 256 * (b1 as nat) + 65536 * (b2 as nat) + 16777216 * (b3 as nat)
}

/// Value of four bytes in the byte order of the machine that runs the code.
pub open spec fn ne_u32(b0: u8, b1: u8, b2: u8, b3: u8) -> u32 {
    match vstd::endian::endianness() {
        vstd::endian::Endian::Little => le_u32(b0, b1, b2, b3) as u32,
        vstd::endian::Endian::Big => le_u32(b3, b2, b1, b0) as u32,
    }
}

/// `u32::from_ne_bytes`: the four bytes read in the machine's byte order.
#[verifier::external_body]
fn u32_from_ne_bytes(b0: u8, b1: u8, b2: u8, b3: u8) -> (res: u32)
    ensures
        res == ne_u32(b0, b1, b2, b3),
{
    u32::from_ne_bytes([b0, b1, b2, b3])
}

/// The extended statistics of a dualpi2 queueing discipline (`struct
/// tc_dualpi2_xstats` of the L4S kernel).
#[derive(Debug, Clone, Copy)]
pub struct DualPi2XStats {
    pub prob: u32,
    pub delay_c: u32,
    pub delay_l: u32,
    pub packets_in_c: u32,
    pub packets_in_l: u32,
    pub maxq: u32,
    pub ecn_mark: u32,
    pub credit: i32,
    pub step_marks: u32,
}

/// Size in bytes of the kernel's dualpi2 extended statistics.
pub const DUALPI2_XSTATS_SIZE: usize = 36;

/// The 32-bit word at byte offset `4 * k` of `b`, in the machine's byte order.
pub open spec fn word(b: Seq<u8>, k: int) -> u32 {
    ne_u32(b[4 * k], b[4 * k + 1], b[4 * k + 2], b[4 * k + 3])
}

/// The dualpi2 statistics that `bytes` holds: `None` when shorter than the
/// structure, otherwise its nine 32-bit fields in order from the start.
pub open spec fn decode_dualpi2(bytes: Seq<u8>) -> Option<DualPi2XStats> {
    if bytes.len() < 36 {
        None
    } else {
        Some(
            DualPi2XStats {
                prob: word(bytes, 0),
                delay_c: word(bytes, 1),
                delay_l: word(bytes, 2),
                packets_in_c: word(bytes, 3),
                packets_in_l: word(bytes, 4),
                maxq: word(bytes, 5),
                ecn_mark: word(bytes, 6),
                credit: word(bytes, 7) as i32,
                step_marks: word(bytes, 8),
            },
        )
    }
}

impl DualPi2XStats {
    /// Reads the statistics from the start of a raw extended-statistics payload.
    pub fn from_bytes(bytes: &[u8]) -> (res: Option<Self>)
        ensures
            res == decode_dualpi2(bytes@),
    {
        if bytes.len() < DUALPI2_XSTATS_SIZE {
            return None;
        }
        let credit = u32_from_ne_bytes(bytes[28], bytes[29], bytes[30], bytes[31]);
        Some(
            DualPi2XStats {
                prob: u32_from_ne_bytes(bytes[0], bytes[1], bytes[2], bytes[3]),
                delay_c: u32_from_ne_bytes(bytes[4], bytes[5], bytes[6], bytes[7]),
                delay_l: u32_from_ne_bytes(bytes[8], bytes[9], bytes[10], bytes[11]),
                packets_in_c: u32_from_ne_bytes(bytes[12], bytes[13], bytes[14], bytes[15]),
                packets_in_l: u32_from_ne_bytes(bytes[16], bytes[17], bytes[18], bytes[19]),
                maxq: u32_from_ne_bytes(bytes[20], bytes[21], bytes[22], bytes[23]),
                ecn_mark: u32_from_ne_bytes(bytes[24], bytes[25], bytes[26], bytes[27]),
                credit: credit as i32,
                step_marks: u32_from_ne_bytes(bytes[32], bytes[33], bytes[34], bytes[35]),
            },
        )
    }
}

/// One entry of a traffic-control statistics attribute.
pub enum TcStat {
    /// Byte and packet counters.
    Basic { bytes: u64, packets: u32 },
    /// Queue counters.
    Queue { qlen: u32, backlog: u32, drops: u32, requeues: u32, overlimits: u32 },
    /// Anything else.
    Other,
}

/// One attribute of a traffic-control message.
pub enum TcAttr {
    /// The discipline's kind, such as `dualpi2`.
    Kind(String),
    /// The statistics entries.
    Stats2(Vec<TcStat>),
    /// Discipline-specific statistics, raw.
    XstatsOther(Vec<u8>),
    /// Anything else.
    Other,
}

/// A traffic-control message about one queueing discipline.
pub struct QdiscMessage {
    /// The index of the interface the discipline is attached to.
    pub index: i32,
    pub attributes: Vec<TcAttr>,
}

/// Statistics of the dualpi2 discipline on one interface.
#[derive(Debug)]
pub struct QdiscInterfaceStatistics {
    pub index: usize,
    /// number of seen bytes
    pub bytes: Option<u64>,
    /// number of seen packets
    pub packets: Option<u32>,
    /// queue length
    pub qlen: Option<u32>,
    /// backlog size of queue
    pub backlog: Option<u32>,
    /// number of dropped packets
    pub drops: Option<u32>,
    /// number of requeues
    pub requeues: Option<u32>,
    /// number of enqueues over the limit
    pub overlimits: Option<u32>,
    /// current PI2 probability
    pub prob: Option<u32>,
    /// current delay in C queue
    pub delay_c: Option<u32>,
    /// current delay in L queue
    pub delay_l: Option<u32>,
    /// number of packets enqueued in C queue
    pub packets_in_c: Option<u32>,
    /// number of packets enqueued in L queue
    pub packets_in_l: Option<u32>,
    /// maximum queue size reached
    pub maxq: Option<u32>,
    /// packets marked with ecn
    pub ecn_mark: Option<u32>,
}

/// The kind named by the last `Kind` attribute.
pub open spec fn last_kind(attrs: Seq<TcAttr>) -> Option<Seq<char>>
    decreases attrs.len(),
{
    if attrs.len() == 0 {
        None
    } else {
        match attrs.last() {
            TcAttr::Kind(name) => Some(name@),
            _ => last_kind(attrs.drop_last()),
        }
    }
}

/// The last basic counters among statistics entries.
pub open spec fn stats_basic(stats: Seq<TcStat>) -> Option<(u64, u32)>
    decreases stats.len(),
{
    if stats.len() == 0 {
        None
    } else {
        match stats.last() {
            TcStat::Basic { bytes, packets } => Some((bytes, packets)),
            _ => stats_basic(stats.drop_last()),
        }
    }
}

/// The last queue counters among statistics entries.
pub open spec fn stats_queue(stats: Seq<TcStat>) -> Option<(u32, u32, u32, u32, u32)>
    decreases stats.len(),
{
    if stats.len() == 0 {
        None
    } else {
        match stats.last() {
            TcStat::Queue { qlen, backlog, drops, requeues, overlimits } => Some(
                (qlen, backlog, drops, requeues, overlimits),
            ),
            _ => stats_queue(stats.drop_last()),
        }
    }
}

/// The last basic counters of a message's statistics attributes.
pub open spec fn last_basic(attrs: Seq<TcAttr>) -> Option<(u64, u32)>
    decreases attrs.len(),
{
    if attrs.len() == 0 {
        None
    } else {
        match attrs.last() {
            TcAttr::Stats2(stats) => match stats_basic(stats@) {
                Some(b) => Some(b),
                None => last_basic(attrs.drop_last()),
            },
            _ => last_basic(attrs.drop_last()),
        }
    }
}

/// The last queue counters of a message's statistics attributes.
pub open spec fn last_queue(attrs: Seq<TcAttr>) -> Option<(u32, u32, u32, u32, u32)>
    decreases attrs.len(),
{
    if attrs.len() == 0 {
        None
    } else {
        match attrs.last() {
            TcAttr::Stats2(stats) => match stats_queue(stats@) {
                Some(q) => Some(q),
                None => last_queue(attrs.drop_last()),
            },
            _ => last_queue(attrs.drop_last()),
        }
    }
}

/// The dualpi2 statistics of the last raw extended-statistics attribute long
/// enough to hold them.
pub open spec fn last_dualpi2(attrs: Seq<TcAttr>) -> Option<DualPi2XStats>
    decreases attrs.len(),
{
    if attrs.len() == 0 {
        None
    } else {
        match attrs.last() {
            TcAttr::XstatsOther(raw) => match decode_dualpi2(raw@) {
                Some(d) => Some(d),
                None => last_dualpi2(attrs.drop_last()),
            },
            _ => last_dualpi2(attrs.drop_last()),
        }
    }
}

/// The statistics that a message reports: none unless its kind is `dualpi2`,
/// otherwise the last counters of each group it carries.
pub open spec fn qdisc_statistics(index: i32, attrs: Seq<TcAttr>) -> Option<QdiscInterfaceStatistics> {
    if last_kind(attrs) != Some("dualpi2"@) {
        None
    } else {
        let b = last_basic(attrs);
        let q = last_queue(attrs);
        let d = last_dualpi2(attrs);
        Some(
            QdiscInterfaceStatistics {
                index: index as usize,
                bytes: match b { Some(x) => Some(x.0), None => None },
                packets: match b { Some(x) => Some(x.1), None => None },
                qlen: match q { Some(x) => Some(x.0), None => None },
                backlog: match q { Some(x) => Some(x.1), None => None },
                drops: match q { Some(x) => Some(x.2), None => None },
                requeues: match q { Some(x) => Some(x.3), None => None },
                overlimits: match q { Some(x) => Some(x.4), None => None },
                prob: match d { Some(x) => Some(x.prob), None => None },
                delay_c: match d { Some(x) => Some(x.delay_c), None => None },
                delay_l: match d { Some(x) => Some(x.delay_l), None => None },
                packets_in_c: match d { Some(x) => Some(x.packets_in_c), None => None },
                packets_in_l: match d { Some(x) => Some(x.packets_in_l), None => None },
                maxq: match d { Some(x) => Some(x.maxq), None => None },
                ecn_mark: match d { Some(x) => Some(x.ecn_mark), None => None },
            },
        )
    }
}

/// Reads the statistics of a dualpi2 discipline from a traffic-control message;
/// `None` for a discipline of another kind.
pub fn process_qdisc_message(message: &QdiscMessage) -> (res: Option<QdiscInterfaceStatistics>)
    ensures
        res == qdisc_statistics(message.index, message.attributes@),
{
    let attrs = &message.attributes;
    let mut kind: Option<&String> = None;
    let mut basic: Option<(u64, u32)> = None;
    let mut queue: Option<(u32, u32, u32, u32, u32)> = None;
    let mut dualpi2: Option<DualPi2XStats> = None;
    let mut i: usize = 0;
    while i < attrs.len()
        invariant
            i <= attrs@.len(),
            match kind {
                Some(k) => last_kind(attrs@.take(i as int)) == Some(k@),
                None => last_kind(attrs@.take(i as int)) is None,
            },
            basic == last_basic(attrs@.take(i as int)),
            queue == last_queue(attrs@.take(i as int)),
            dualpi2 == last_dualpi2(attrs@.take(i as int)),
        decreases attrs@.len() - i,
    {
        assert(attrs@.take(i + 1).drop_last() == attrs@.take(i as int));
        match &attrs[i] {
            TcAttr::Kind(name) => {
                kind = Some(name);
            },
            TcAttr::Stats2(stats) => {
                let mut j: usize = 0;
                let mut b: Option<(u64, u32)> = None;
                let mut q: Option<(u32, u32, u32, u32, u32)> = None;
                while j < stats.len()
                    invariant
                        j <= stats@.len(),
                        b == stats_basic(stats@.take(j as int)),
                        q == stats_queue(stats@.take(j as int)),
                    decreases stats@.len() - j,
                {
                    assert(stats@.take(j + 1).drop_last() == stats@.take(j as int));
                    match &stats[j] {
                        TcStat::Basic { bytes, packets } => {
                            b = Some((*bytes, *packets));
                        },
                        TcStat::Queue { qlen, backlog, drops, requeues, overlimits } => {
                            q = Some((*qlen, *backlog, *drops, *requeues, *overlimits));
                        },
                        TcStat::Other => {},
                    }
                    j = j + 1;
                }
                assert(stats@.take(j as int) == stats@);
                if b.is_some() {
                    basic = b;
                }
                if q.is_some() {
                    queue = q;
                }
            },
            TcAttr::XstatsOther(raw) => {
                let d = DualPi2XStats::from_bytes(raw.as_slice());
                if d.is_some() {
                    dualpi2 = d;
                }
            },
            TcAttr::Other => {},
        }
        i = i + 1;
    }
    assert(attrs@.take(i as int) == attrs@);
    let is_dualpi2 = match kind {
        Some(k) => {
            let a = chars_of(k.as_str());
            let b = chars_of("dualpi2");
            chars_eq(a.as_slice(), b.as_slice())
        },
        None => false,
    };
    if !is_dualpi2 {
        return None;
    }
    let index = message.index as usize;
    Some(
        QdiscInterfaceStatistics {
            index,
            bytes: match basic { Some(x) => Some(x.0), None => None },
            packets: match basic { Some(x) => Some(x.1), None => None },
            qlen: match queue { Some(x) => Some(x.0), None => None },
            backlog: match queue { Some(x) => Some(x.1), None => None },
            drops: match queue { Some(x) => Some(x.2), None => None },
            requeues: match queue { Some(x) => Some(x.3), None => None },
            overlimits: match queue { Some(x) => Some(x.4), None => None },
            prob: match dualpi2 { Some(x) => Some(x.prob), None => None },
            delay_c: match dualpi2 { Some(x) => Some(x.delay_c), None => None },
            delay_l: match dualpi2 { Some(x) => Some(x.delay_l), None => None },
            packets_in_c: match dualpi2 { Some(x) => Some(x.packets_in_c), None => None },
            packets_in_l: match dualpi2 { Some(x) => Some(x.packets_in_l), None => None },
            maxq: match dualpi2 { Some(x) => Some(x.maxq), None => None },
            ecn_mark: match dualpi2 { Some(x) => Some(x.ecn_mark), None => None },
        },
    )
}


/// The largest index among the links that have a name (0 when none has).
pub open spec fn max_named_index(links: Seq<(Option<String>, u32)>) -> nat
    decreases links.len(),
{
    if links.len() == 0 {
        0
    } else {
        let m = max_named_index(links.drop_last());
        match links.last().0 {
            Some(_) => if links.last().1 > m {
                links.last().1 as nat
            } else {
                m
            },
            None => m,
        }
    }
}

/// The name of the last named link with index `i`, `?` when there is none.
pub open spec fn name_at(links: Seq<(Option<String>, u32)>, i: int) -> Seq<char>
    decreases links.len(),
{
    if links.len() == 0 {
        "?"@
    } else {
        match links.last().0 {
            Some(n) => if links.last().1 == i {
                n@
            } else {
                name_at(links.drop_last(), i)
            },
            None => name_at(links.drop_last(), i),
        }
    }
}

/// Whether a table indexed up to the largest named index fits in memory
/// indices.
pub fn interface_table_fits(links: &Vec<(Option<String>, u32)>) -> (res: bool)
    ensures
        res == (max_named_index(links@) < usize::MAX),
{
    let mut max_index: u32 = 0;
    let mut i: usize = 0;
    while i < links.len()
        invariant
            i <= links@.len(),
            max_index == max_named_index(links@.take(i as int)),
        decreases links@.len() - i,
    {
        assert(links@.take(i + 1).drop_last() == links@.take(i as int));
        if links[i].0.is_some() && links[i].1 > max_index {
            max_index = links[i].1;
        }
        i = i + 1;
    }
    assert(links@.take(i as int) == links@);
    (max_index as usize) < usize::MAX
}

/// The table of interface names, indexed by interface index, from the links'
/// names and indices: every index up to the largest named one has an entry,
/// `?` for an index that no named link has.
pub fn interface_names(links: &Vec<(Option<String>, u32)>) -> (res: Vec<String>)
    requires
        max_named_index(links@) < usize::MAX,
    ensures
        res@.len() == max_named_index(links@) + 1,
        forall|i: int| 0 <= i < res@.len() ==> (#[trigger] res@[i])@ == name_at(links@, i),
{
    let mut max_index: u32 = 0;
    let mut i: usize = 0;
    while i < links.len()
        invariant
            i <= links@.len(),
            max_index == max_named_index(links@.take(i as int)),
        decreases links@.len() - i,
    {
        assert(links@.take(i + 1).drop_last() == links@.take(i as int));
        if links[i].0.is_some() && links[i].1 > max_index {
            max_index = links[i].1;
        }
        i = i + 1;
    }
    assert(links@.take(i as int) == links@);
    assert(max_index < usize::MAX);
    let size: usize = max_index as usize + 1;
    let mut res: Vec<String> = Vec::new();
    while res.len() < size
        invariant
            res@.len() <= size,
            forall|j: int| 0 <= j < res@.len() ==> (#[trigger] res@[j])@ == "?"@,
        decreases size - res@.len(),
    {
        res.push("?".to_owned());
    }
    let mut k: usize = 0;
    assert(links@.take(0) =~= Seq::<(Option<String>, u32)>::empty());
    while k < links.len()
        invariant
            k <= links@.len(),
            res@.len() == size,
            size == max_named_index(links@) + 1,
            forall|j: int| 0 <= j < res@.len() ==> (#[trigger] res@[j])@ == name_at(links@.take(k as int), j),
        decreases links@.len() - k,
    {
        assert(links@.take(k + 1).drop_last() == links@.take(k as int));
        if let Some(name) = &links[k].0 {
            proof {
                lemma_named_index_bounded(links@, k as int);
            }
            let idx = links[k].1 as usize;
            res[idx] = name.clone();
        }
        k = k + 1;
    }
    assert(links@.take(k as int) == links@);
    res
}

/// Every named link's index is at most the largest named index.
pub proof fn lemma_named_index_bounded(links: Seq<(Option<String>, u32)>, k: int)
    requires
        0 <= k < links.len(),
        links[k].0 is Some,
    ensures
        links[k].1 <= max_named_index(links),
    decreases links.len(),
{
    if k < links.len() - 1 {
        lemma_named_index_bounded(links.drop_last(), k);
    }
}

} // verus!
