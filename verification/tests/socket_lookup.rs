use l4s_bench::socket_stats::{
    assess_tcp_info, comm_matches, find_inode_in_table, find_socket_fd, find_socket_inode,
    is_socket_link, no_process_error, parse_port, SockStatError,
};

const TABLE: &str = "  sl  local_address rem_address   st tx_queue rx_queue tr tm->when retrnsmt   uid  timeout inode
   0: 0100007F:0016 00000000:0000 0A 00000000:00000000 00:00000000 00000000     0        0 0 1 0000000000000000 100 0 0 10 0
   1: 0100007F:1F90 0100007F:C350 01 00000000:00000000 00:00000000 00000000  1000        0 12345 1 0000000000000000 20 4 30 10 -1
   2: 0100007F:1F91 0100007F:C351 01 00000000:00000000 00:00000000 00000000  1000        0 777 1 0000000000000000 20 4 30 10 -1
";

#[test]
fn port_of_address_column() {
    assert_eq!(parse_port(&"0100007F:1F90".chars().collect::<Vec<char>>()), Some(8080));
    assert_eq!(parse_port(&"0100007F".chars().collect::<Vec<char>>()), None);
    assert_eq!(parse_port(&"a:b:c".chars().collect::<Vec<char>>()), None);
    assert_eq!(parse_port(&"0100007F:ZZ".chars().collect::<Vec<char>>()), None);
}

#[test]
fn inode_found_in_either_direction() {
    assert_eq!(find_inode_in_table(TABLE, 8080, 50000), Some(12345));
    assert_eq!(find_inode_in_table(TABLE, 50000, 8080), Some(12345));
    assert_eq!(find_inode_in_table(TABLE, 8081, 50001), Some(777));
    assert_eq!(find_inode_in_table(TABLE, 1, 2), None);
}

#[test]
fn header_only_or_empty_table_has_no_inode() {
    assert_eq!(find_inode_in_table("", 8080, 50000), None);
    assert_eq!(find_inode_in_table("0: 0100007F:1F90 0100007F:C350 01 a b c d e 12345", 8080, 50000), None);
}

#[test]
fn zero_inode_rows_are_passed_over() {
    // the listening row (inode 0) matches port 22 but carries no inode
    assert_eq!(find_inode_in_table(TABLE, 22, 0), None);
}

#[test]
fn rows_with_unreadable_ports_are_passed_over() {
    let table = "header\n 0: 0100007F:ZZZZZ 0100007F:C350 01 a b c d e 5\n 1: 0100007F:1F90 0100007F:C350 01 a b c d e 6\n";
    assert_eq!(find_inode_in_table(table, 8080, 50000), Some(6));
    let table = "hdr\n0: X Y 0 0 0 0 0 0 111\n1: 0100007F:1389 0100007F:1451 01 0 0 0 0 0 222\n";
    assert_eq!(find_inode_in_table(table, 5001, 5201), Some(222));
}

#[test]
fn inode_falls_back_to_ipv6_table() {
    assert_eq!(find_socket_inode(Some("header\n"), Some(TABLE), 8080, 50000).ok(), Some(12345));
    assert_eq!(find_socket_inode(None, Some(TABLE), 8080, 50000).ok(), Some(12345));
    assert_eq!(find_socket_inode(Some(TABLE), None, 8081, 50001).ok(), Some(777));
    match find_socket_inode(None, None, 8080, 50000) {
        Err(SockStatError::NoMatchingSocket(m)) => {
            assert_eq!(m, "No matching socket inode found in /proc/net/tcp or /proc/net/tcp6")
        }
        _ => panic!("expected no matching socket"),
    }
}

#[test]
fn tcp_info_assessment() {
    let (r, keep) = assess_tcp_info(Ok(1));
    assert!(r.is_ok() && keep);
    let (r, keep) = assess_tcp_info(Ok(2));
    assert!(r.is_ok() && keep);
    let (r, keep) = assess_tcp_info(Ok(7));
    assert!(matches!(r, Err(SockStatError::SocketNotEstablished(7))) && !keep);
    let (r, keep) = assess_tcp_info(Ok(8));
    assert!(matches!(r, Err(SockStatError::SocketNotEstablished(8))) && !keep);
    let (r, keep) = assess_tcp_info(Ok(4));
    assert!(matches!(r, Err(SockStatError::SocketNotEstablished(4))) && keep);
    let (r, keep) = assess_tcp_info(Err("boom".to_string()));
    match r {
        Err(SockStatError::Other(m)) => assert_eq!(m, "getsockopt TCP_INFO failed: boom"),
        _ => panic!("expected another error"),
    }
    assert!(!keep);
}

#[test]
fn sock_stat_error_messages() {
    assert_eq!(
        SockStatError::SocketNotEstablished(4).message(),
        "Socket is not in ESTABLISHED state, current state: 4"
    );
    assert_eq!(SockStatError::NoMatchingSocket("x".to_string()).message(), "No matching socket found: x");
    assert_eq!(SockStatError::Other("y".to_string()).message(), "Other error: y");
}

#[test]
fn process_name_and_link_checks() {
    assert!(comm_matches("iperf3\n", "iperf3"));
    assert!(!comm_matches("iperf", "iperf3"));
    assert!(is_socket_link("socket:[12345]", 12345));
    assert!(!is_socket_link("socket:[1234]", 12345));
    assert!(!is_socket_link("pipe:[12345]", 12345));
}

#[test]
fn descriptor_of_the_socket() {
    let entries = vec![
        ("0".to_string(), Some("/dev/null".to_string())),
        ("x".to_string(), Some("socket:[42]".to_string())),
        ("3".to_string(), None),
        ("5".to_string(), Some("socket:[42]".to_string())),
        ("6".to_string(), Some("socket:[42]".to_string())),
    ];
    assert_eq!(find_socket_fd(&entries, 42), Some(5));
    assert_eq!(find_socket_fd(&entries, 43), None);
    assert_eq!(find_socket_fd(&Vec::new(), 42), None);
}

#[test]
fn no_process_error_text() {
    match no_process_error("iperf3", 99) {
        SockStatError::NoMatchingSocket(m) => assert_eq!(m, "No process named 'iperf3' with socket inode 99 found"),
        _ => panic!("expected no matching socket"),
    }
}
