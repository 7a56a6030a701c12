//! Decoding of the kernel's TCP socket statistics and of the `/proc` tables used
//! to find the socket that a given pair of ports identifies.

use vstd::prelude::*;
use vstd::string::*;
use crate::text::{
    append_str, chars_eq, chars_of, decimal, decimal_string, lines, lines_of, parse_hex_u16, parse_i32,
    parse_signed, parse_u64, parse_unsigned, split_by, split_by_char, split_whitespace,
    split_whitespace_chars, trim, trim_chars, views,
};

verus! {

/// The kernel's `struct tcp_info` (linux/tcp.h), field for field.
#[derive(Debug, Default, Clone, Copy)]
pub struct TcpInfo {
    pub tcpi_state: u8,
    pub tcpi_ca_state: u8,
    pub tcpi_retransmits: u8,
    pub tcpi_probes: u8,
    pub tcpi_backoff: u8,
    pub tcpi_options: u8,
    pub tcpi_snd_rcv_wscale: u8,
    pub tcpi_rto: u32,
    pub tcpi_ato: u32,
    pub tcpi_snd_mss: u32,
    pub tcpi_rcv_mss: u32,
    pub tcpi_unacked: u32,
    pub tcpi_sacked: u32,
    pub tcpi_lost: u32,
    pub tcpi_retrans: u32,
    pub tcpi_fackets: u32,
    pub tcpi_last_data_sent: u32,
    pub tcpi_last_ack_sent: u32,
    pub tcpi_last_data_recv: u32,
    pub tcpi_last_ack_recv: u32,
    pub tcpi_pmtu: u32,
    pub tcpi_rcv_ssthresh: u32,
    pub tcpi_rtt: u32,
    pub tcpi_rttvar: u32,
    pub tcpi_snd_ssthresh: u32,
    pub tcpi_snd_cwnd: u32,
    pub tcpi_advmss: u32,
    pub tcpi_reordering: u32,
    pub tcpi_rcv_rtt: u32,
    pub tcpi_rcv_space: u32,
    pub tcpi_total_retrans: u32,
    pub tcpi_pacing_rate: u64,
    pub tcpi_max_pacing_rate: u64,
    pub tcpi_bytes_acked: u64,
    pub tcpi_bytes_received: u64,
    pub tcpi_segs_out: u32,
    pub tcpi_segs_in: u32,
    pub tcpi_notsent_bytes: u32,
    pub tcpi_min_rtt: u32,
    pub tcpi_data_segs_in: u32,
    pub tcpi_data_segs_out: u32,
    pub tcpi_delivery_rate: u64,
    pub tcpi_busy_time: u64,
    pub tcpi_rwnd_limited: u64,
    pub tcpi_sndbuf_limited: u64,
    pub tcpi_delivered: u32,
    pub tcpi_delivered_ce: u32,
    pub tcpi_bytes_sent: u64,
    pub tcpi_bytes_retrans: u64,
    pub tcpi_dsack_dups: u32,
    pub tcpi_reord_seen: u32,
    pub tcpi_rcv_ooopack: u32,
    pub tcpi_snd_wnd: u32,
    pub tcpi_rcv_wnd: u32,
    pub tcpi_rehash: u32,
    pub tcpi_total_rto: u16,
    pub tcpi_total_rto_recoveries: u16,
    pub tcpi_total_rto_time: u32,
    pub tcpi_received_ce: u32,
    pub tcpi_delivered_e1_bytes: u32,
    pub tcpi_delivered_e0_bytes: u32,
    pub tcpi_delivered_ce_bytes: u32,
    pub tcpi_received_e1_bytes: u32,
    pub tcpi_received_e0_bytes: u32,
    pub tcpi_received_ce_bytes: u32,
    pub tcpi_accecn_fail_mode: u16,
    pub tcpi_accecn_opt_seen: u16,
}

/// Why socket statistics could not be read.
#[derive(Debug)]
pub enum SockStatError {
    /// The socket exists but is not established; the payload is its TCP state.
    SocketNotEstablished(u8),
    /// No socket, or no process holding it, matches; the payload says which.
    NoMatchingSocket(String),
    /// Any other failure, described.
    Other(String),
}

/// The text of an error message: a fixed prefix followed by details.
pub open spec fn sock_stat_message(e: SockStatError) -> Seq<char> {
    match e {
        SockStatError::NoMatchingSocket(info) => "No matching socket found: "@ + info@,
        SockStatError::SocketNotEstablished(state) => "Socket is not in ESTABLISHED state, current state: "@
            + decimal(state as nat),
        SockStatError::Other(err) => "Other error: "@ + err@,
    }
}

impl SockStatError {
    /// The message that describes the error.
    pub fn message(&self) -> (res: String)
        ensures
            res@ == sock_stat_message(*self),
    {
        match self {
            SockStatError::NoMatchingSocket(info) => {
                let mut s = "No matching socket found: ".to_owned();
                append_str(&mut s, info.as_str());
                s
            },
            SockStatError::SocketNotEstablished(state) => {
                let mut s = "Socket is not in ESTABLISHED state, current state: ".to_owned();
                let d = decimal_string(*state as u128);
                append_str(&mut s, d.as_str());
                s
            },
            SockStatError::Other(err) => {
                let mut s = "Other error: ".to_owned();
                append_str(&mut s, err.as_str());
                s
            },
        }
    }
}

/// TCP states in which statistics are read: established (1) or SYN sent (2).
pub open spec fn is_readable_state(state: u8) -> bool {
    state == 1 || state == 2
}

/// TCP states that mean the socket is gone for good: close (7) or close-wait (8).
pub open spec fn is_closed_state(state: u8) -> bool {
    state == 7 || state == 8
}

/// What reading `TCP_INFO` leads to: `Ok(state)` when the `getsockopt` call
/// succeeded and the socket is in TCP state `state`, `Err(reason)` when it failed.
/// Returns the outcome and whether the cached descriptor may be kept.
pub fn assess_tcp_info(read: Result<u8, String>) -> (res: (Result<(), SockStatError>, bool))
    ensures
        match read {
            Err(reason) => res.0 matches Err(SockStatError::Other(m)) && m@
                == "getsockopt TCP_INFO failed: "@ + reason@,
            Ok(state) => if is_closed_state(state) {
                res.0 matches Err(SockStatError::SocketNotEstablished(s)) && s == state
            } else if !is_readable_state(state) {
                res.0 matches Err(SockStatError::SocketNotEstablished(s)) && s == state
            } else {
                res.0 is Ok
            },
        },
        res.1 == (read matches Ok(state) && !is_closed_state(state)),
{
    match read {
        Err(reason) => {
            let mut m = "getsockopt TCP_INFO failed: ".to_owned();
            append_str(&mut m, reason.as_str());
            (Err(SockStatError::Other(m)), false)
        },
        Ok(state) => {
            if state == 7 || state == 8 {
                (Err(SockStatError::SocketNotEstablished(state)), false)
            } else if state != 1 && state != 2 {
                (Err(SockStatError::SocketNotEstablished(state)), true)
            } else {
                (Ok(()), true)
            }
        },
    }
}


/// The port of an `address:port` column of `/proc/net/tcp`, the port written in
/// hexadecimal; `None` unless the column has exactly one `:`.
pub open spec fn port_of(col: Seq<char>) -> Option<u16> {
    let parts = split_by(col, ':');
    if parts.len() != 2 {
        None
    } else {
        match parse_unsigned(parts[1], 16, u16::MAX as nat) {
            Ok(v) => Some(v as u16),
            Err(_) => None,
        }
    }
}

/// Whether a socket with these local and remote ports links the two given ports,
/// in either direction.
pub open spec fn ports_match(local: u16, remote: u16, source_port: u16, destination_port: u16) -> bool {
    (local == source_port && remote == destination_port) || (local == destination_port && remote
        == source_port)
}

/// The inode of the first row of a `/proc/net/tcp` table, after its header,
/// whose socket links the two ports. Rows with fewer than ten columns, whose
/// inode column is not a positive integer, or whose port columns do not read
/// as ports, are passed over.
pub open spec fn scan_rows(rows: Seq<Seq<char>>, source_port: u16, destination_port: u16) -> Option<u64>
    decreases rows.len(),
{
    if rows.len() == 0 {
        None
    } else {
        let cols = split_whitespace(rows[0]);
        let rest = scan_rows(rows.drop_first(), source_port, destination_port);
        if cols.len() < 10 {
            rest
        } else {
            match parse_unsigned(cols[9], 10, u64::MAX as nat) {
                Err(_) => rest,
                Ok(inode) => if inode == 0 {
                    rest
                } else {
                    match (port_of(cols[1]), port_of(cols[2])) {
                        (Some(l), Some(r)) => if ports_match(l, r, source_port, destination_port) {
                            Some(inode as u64)
                        } else {
                            rest
                        },
                        _ => rest,
                    }
                },
            }
        }
    }
}

/// The inode that `content`, a `/proc/net/tcp` or `/proc/net/tcp6` table, gives
/// for the socket between the two ports.
pub open spec fn table_inode(content: Seq<char>, source_port: u16, destination_port: u16) -> Option<u64> {
    let rows = lines(content);
    if rows.len() == 0 {
        None
    } else {
        scan_rows(rows.skip(1), source_port, destination_port)
    }
}

/// The inode of one table row, when the row is the socket between the two
/// ports: it has at least ten columns, its tenth column is a positive integer
/// (the inode), and its second and third columns are `address:port` columns
/// whose ports link the two ports, in either direction.
pub open spec fn row_inode(row: Seq<char>, source_port: u16, destination_port: u16) -> Option<u64> {
    let cols = split_whitespace(row);
    if cols.len() < 10 {
        None
    } else {
        match parse_unsigned(cols[9], 10, u64::MAX as nat) {
            Ok(inode) => if inode > 0 {
                match (port_of(cols[1]), port_of(cols[2])) {
                    (Some(l), Some(r)) => if ports_match(l, r, source_port, destination_port) {
                        Some(inode as u64)
                    } else {
                        None
                    },
                    _ => None,
                }
            } else {
                None
            },
            Err(_) => None,
        }
    }
}

proof fn lemma_scan_rows_first(rows: Seq<Seq<char>>, source_port: u16, destination_port: u16, k: int)
    requires
        0 <= k < rows.len(),
        row_inode(rows[k], source_port, destination_port) is Some,
        forall|j: int| 0 <= j < k ==> row_inode(#[trigger] rows[j], source_port, destination_port) is None,
    ensures
        scan_rows(rows, source_port, destination_port) == row_inode(rows[k], source_port, destination_port),
    decreases k,
{
    if k > 0 {
        assert(row_inode(rows[0], source_port, destination_port) is None);
        assert forall|j: int| 0 <= j < k - 1 implies row_inode(
            #[trigger] rows.drop_first()[j],
            source_port,
            destination_port,
        ) is None by {
            assert(rows.drop_first()[j] == rows[j + 1]);
        }
        lemma_scan_rows_first(rows.drop_first(), source_port, destination_port, k - 1);
    }
}

proof fn lemma_scan_rows_none(rows: Seq<Seq<char>>, source_port: u16, destination_port: u16)
    requires
        forall|j: int| 0 <= j < rows.len() ==> row_inode(#[trigger] rows[j], source_port, destination_port) is None,
    ensures
        scan_rows(rows, source_port, destination_port) is None,
    decreases rows.len(),
{
    if rows.len() > 0 {
        assert(row_inode(rows[0], source_port, destination_port) is None);
        assert forall|j: int| 0 <= j < rows.len() - 1 implies row_inode(
            #[trigger] rows.drop_first()[j],
            source_port,
            destination_port,
        ) is None by {
            assert(rows.drop_first()[j] == rows[j + 1]);
        }
        lemma_scan_rows_none(rows.drop_first(), source_port, destination_port);
    }
}

/// Every line after the first (the header) is a candidate: the table gives the
/// inode of the first such line that is the socket between the two ports.
pub proof fn law_first_matching_row(content: Seq<char>, source_port: u16, destination_port: u16, k: int)
    requires
        1 <= k < lines(content).len(),
        row_inode(lines(content)[k], source_port, destination_port) is Some,
        forall|j: int|
            1 <= j < k ==> row_inode(#[trigger] lines(content)[j], source_port, destination_port) is None,
    ensures
        table_inode(content, source_port, destination_port) == row_inode(
            lines(content)[k],
            source_port,
            destination_port,
        ),
{
    let rows = lines(content).skip(1);
    assert forall|j: int| 0 <= j < k - 1 implies row_inode(#[trigger] rows[j], source_port, destination_port)
        is None by {
        assert(rows[j] == lines(content)[j + 1]);
    }
    assert(rows[k - 1] == lines(content)[k]);
    lemma_scan_rows_first(rows, source_port, destination_port, k - 1);
}

/// A table with no line after the header that is the socket between the two
/// ports gives no inode.
pub proof fn law_no_matching_row(content: Seq<char>, source_port: u16, destination_port: u16)
    requires
        forall|j: int|
            1 <= j < lines(content).len() ==> row_inode(#[trigger] lines(content)[j], source_port, destination_port)
                is None,
    ensures
        table_inode(content, source_port, destination_port) is None,
{
    if lines(content).len() > 0 {
        let rows = lines(content).skip(1);
        assert forall|j: int| 0 <= j < rows.len() implies row_inode(#[trigger] rows[j], source_port, destination_port)
            is None by {
            assert(rows[j] == lines(content)[j + 1]);
        }
        lemma_scan_rows_none(rows, source_port, destination_port);
    }
}

/// Reads the port of an `address:port` column.
pub fn parse_port(col: &[char]) -> (res: Option<u16>)
    ensures
        res == port_of(col@),
{
    let parts = split_by_char(col, ':');
    if parts.len() != 2 {
        return None;
    }
    assert(parts@[1]@ == split_by(col@, ':')[1]);
    match parse_hex_u16(parts[1].as_slice()) {
        Ok(v) => Some(v),
        Err(_) => None,
    }
}

/// Searches a `/proc/net/tcp` (or `tcp6`) table for the socket between the two
/// ports and returns its inode.
pub fn find_inode_in_table(content: &str, source_port: u16, destination_port: u16) -> (res: Option<u64>)
    ensures
        res == table_inode(content@, source_port, destination_port),
{
    let cs = chars_of(content);
    let rows = lines_of(cs.as_slice());
    let mut i: usize = 1;
    if rows.len() == 0 {
        return None;
    }
    let ghost all = views(rows@);
    assert(all.skip(1) == all.skip(i as int));
    while i < rows.len()
        invariant
            1 <= i <= rows@.len(),
            all == views(rows@),
            all == lines(cs@),
            cs@ == content@,
            scan_rows(all.skip(1), source_port, destination_port) == scan_rows(
                all.skip(i as int),
                source_port,
                destination_port,
            ),
        decreases rows@.len() - i,
    {
        assert(all.skip(i as int).drop_first() == all.skip(i + 1));
        assert(all.skip(i as int)[0] == rows@[i as int]@);
        let cols = split_whitespace_chars(rows[i].as_slice());
        if cols.len() >= 10 {
            assert(views(cols@)[9] == cols@[9]@);
            match parse_u64(cols[9].as_slice()) {
                Err(_) => {},
                Ok(inode) => {
                    if inode != 0 {
                        assert(views(cols@)[1] == cols@[1]@);
                        assert(views(cols@)[2] == cols@[2]@);
                        let local = parse_port(cols[1].as_slice());
                        let remote = parse_port(cols[2].as_slice());
                        match (local, remote) {
                            (Some(l), Some(r)) => {
                                if (l == source_port && r == destination_port) || (l
                                    == destination_port && r == source_port) {
                                    return Some(inode);
                                }
                            },
                            _ => {},
                        }
                    }
                },
            }
        }
        i = i + 1;
    }
    None
}

/// The outcome of looking for the socket's inode in the IPv4 table, then in the
/// IPv6 table (a table that could not be read is `None`).
pub open spec fn socket_inode_outcome(
    tcp: Option<Seq<char>>,
    tcp6: Option<Seq<char>>,
    source_port: u16,
    destination_port: u16,
) -> Option<u64> {
    match (match tcp {
        Some(t) => table_inode(t, source_port, destination_port),
        None => None,
    }) {
        Some(i) => Some(i),
        None => match tcp6 {
            Some(t) => table_inode(t, source_port, destination_port),
            None => None,
        },
    }
}

/// Finds the inode of the socket between the two ports in `/proc/net/tcp`, then
/// in `/proc/net/tcp6`, given the tables' contents (`None` for a table that could
/// not be read).
pub fn find_socket_inode(
    tcp: Option<&str>,
    tcp6: Option<&str>,
    source_port: u16,
    destination_port: u16,
) -> (res: Result<u64, SockStatError>)
    ensures
        match socket_inode_outcome(
            match tcp { Some(t) => Some(t@), None => None },
            match tcp6 { Some(t) => Some(t@), None => None },
            source_port,
            destination_port,
        ) {
            Some(i) => res == Ok::<u64, SockStatError>(i),
            None => res matches Err(SockStatError::NoMatchingSocket(m)) && m@
                == "No matching socket inode found in /proc/net/tcp or /proc/net/tcp6"@,
        },
{
    let first = match tcp {
        Some(t) => find_inode_in_table(t, source_port, destination_port),
        None => None,
    };
    if let Some(i) = first {
        return Ok(i);
    }
    let second = match tcp6 {
        Some(t) => find_inode_in_table(t, source_port, destination_port),
        None => None,
    };
    match second {
        Some(i) => Ok(i),
        None => Err(
            SockStatError::NoMatchingSocket(
                "No matching socket inode found in /proc/net/tcp or /proc/net/tcp6".to_owned(),
            ),
        ),
    }
}

/// Whether a process's `comm` names the watched process (surrounding
/// whitespace aside).
pub fn comm_matches(comm: &str, process_name: &str) -> (res: bool)
    ensures
        res == (trim(comm@) == process_name@),
{
    let cs = chars_of(comm);
    let t = trim_chars(cs.as_slice());
    let p = chars_of(process_name);
    chars_eq(t.as_slice(), p.as_slice())
}

/// The link target of a descriptor that refers to the socket with this inode.
pub open spec fn socket_link(inode: u64) -> Seq<char> {
    "socket:["@ + decimal(inode as nat) + "]"@
}

/// Whether a descriptor's link target refers to the socket with this inode.
pub fn is_socket_link(target: &str, inode: u64) -> (res: bool)
    ensures
        res == (target@ == socket_link(inode)),
{
    let mut expected = "socket:[".to_owned();
    let d = decimal_string(inode as u128);
    append_str(&mut expected, d.as_str());
    append_str(&mut expected, "]");
    let a = chars_of(target);
    let b = chars_of(expected.as_str());
    chars_eq(a.as_slice(), b.as_slice())
}

/// The descriptor number that the first entry refers to the socket with this
/// inode and whose name reads as an `i32`: entries are `(name, link target)`,
/// the target `None` when the link could not be read.
pub open spec fn first_socket_fd(entries: Seq<(Seq<char>, Option<Seq<char>>)>, inode: u64) -> Option<i32>
    decreases entries.len(),
{
    if entries.len() == 0 {
        None
    } else {
        let (name, target) = entries[0];
        let rest = first_socket_fd(entries.drop_first(), inode);
        match target {
            Some(t) => if t == socket_link(inode) {
                match parse_signed(name, 10, i32::MAX as nat, 0x8000_0000) {
                    Ok(v) => Some(v as i32),
                    Err(_) => rest,
                }
            } else {
                rest
            },
            None => rest,
        }
    }
}

/// The entries' names and targets as character sequences.
pub open spec fn fd_entry_views(entries: Seq<(String, Option<String>)>) -> Seq<(Seq<char>, Option<Seq<char>>)> {
    entries.map_values(
        |e: (String, Option<String>)|
            (e.0@, match e.1 { Some(t) => Some(t@), None => None }),
    )
}

/// Among a process's descriptor entries, finds the one that refers to the
/// socket with this inode.
pub fn find_socket_fd(entries: &Vec<(String, Option<String>)>, inode: u64) -> (res: Option<i32>)
    ensures
        res == first_socket_fd(fd_entry_views(entries@), inode),
{
    let ghost all = fd_entry_views(entries@);
    let mut i: usize = 0;
    assert(all.skip(0) == all);
    while i < entries.len()
        invariant
            i <= entries@.len(),
            all == fd_entry_views(entries@),
            first_socket_fd(all, inode) == first_socket_fd(all.skip(i as int), inode),
        decreases entries@.len() - i,
    {
        assert(all.skip(i as int).drop_first() == all.skip(i + 1));
        assert(all.skip(i as int)[0] == all[i as int]);
        let entry = &entries[i];
        if let Some(target) = &entry.1 {
            if is_socket_link(target.as_str(), inode) {
                let name = chars_of(entry.0.as_str());
                match parse_i32(name.as_slice()) {
                    Ok(fd) => {
                        return Some(fd);
                    },
                    Err(_) => {},
                }
            }
        }
        i = i + 1;
    }
    None
}

/// The error for a search through the processes that found no descriptor.
pub fn no_process_error(process_name: &str, inode: u64) -> (res: SockStatError)
    ensures
        res matches SockStatError::NoMatchingSocket(m) && m@ == "No process named '"@
            + process_name@ + "' with socket inode "@ + decimal(inode as nat) + " found"@,
{
    let mut m = "No process named '".to_owned();
    append_str(&mut m, process_name);
    append_str(&mut m, "' with socket inode ");
    let d = decimal_string(inode as u128);
    append_str(&mut m, d.as_str());
    append_str(&mut m, " found");
    SockStatError::NoMatchingSocket(m)
}

} // verus!
