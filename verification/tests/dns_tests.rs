use rustp2p::dns::{
    a_records, aaaa_records, build_dns_query, check_labels, combine_addrs, effective_name_servers,
    parse_dns_reply, parse_port, split_host_port, txt_records, DnsError, QueryKind,
};
use rustp2p::node::SockAddr;

/// A DNS response datagram: given header flags and raw answer records
/// as (record type, rdata) pairs, all owned by the root name.
fn response(flags: [u8; 2], answers: &[(u16, Vec<u8>)]) -> Vec<u8> {
    let mut v = vec![
        0x00,
        0x01,
        flags[0],
        flags[1],
        0x00,
        0x00, // no questions
        0x00,
        answers.len() as u8,
        0x00,
        0x00,
        0x00,
        0x00,
    ];
    for (rtype, rdata) in answers {
        v.push(0x00); // root name
        v.extend_from_slice(&rtype.to_be_bytes());
        v.extend_from_slice(&[0x00, 0x01]); // class IN
        v.extend_from_slice(&[0x00, 0x00, 0x00, 0x3c]); // ttl
        v.extend_from_slice(&(rdata.len() as u16).to_be_bytes());
        v.extend_from_slice(rdata);
    }
    v
}

const NO_ERROR: [u8; 2] = [0x81, 0x80];
const NX_DOMAIN: [u8; 2] = [0x81, 0x83];

#[test]
fn parse_reply_with_one_a_record() {
    let data = response(NO_ERROR, &[(1, vec![93, 184, 216, 34])]);
    let reply = parse_dns_reply(&data).unwrap();
    assert!(reply.no_error);
    assert_eq!(a_records(&reply), vec![[93, 184, 216, 34]]);
    assert!(aaaa_records(&reply).is_empty());
    assert!(txt_records(&reply).is_empty());
}

#[test]
fn parse_reply_with_aaaa_and_a_records() {
    let v6 = [0x20, 0x01, 0x0d, 0xb8, 0, 0, 0, 0, 0, 0, 0, 0, 0, 0, 0, 1];
    let data = response(NO_ERROR, &[(28, v6.to_vec()), (1, vec![10, 0, 0, 1])]);
    let reply = parse_dns_reply(&data).unwrap();
    assert_eq!(aaaa_records(&reply), vec![v6]);
    assert_eq!(a_records(&reply), vec![[10, 0, 0, 1]]);
}

#[test]
fn parse_reply_with_txt_chunks() {
    // Two TXT records: one with two chunks, one with one.
    let rdata1 = vec![2, b'a', b'b', 3, b'c', b'd', b'e'];
    let rdata2 = vec![1, b'z'];
    let data = response(NO_ERROR, &[(16, rdata1), (16, rdata2)]);
    let reply = parse_dns_reply(&data).unwrap();
    assert_eq!(
        txt_records(&reply),
        vec![b"ab".to_vec(), b"cde".to_vec(), b"z".to_vec()]
    );
}

#[test]
fn parse_reply_keeps_record_order() {
    let data = response(
        NO_ERROR,
        &[
            (1, vec![1, 1, 1, 1]),
            (16, vec![1, b'x']),
            (1, vec![2, 2, 2, 2]),
        ],
    );
    let reply = parse_dns_reply(&data).unwrap();
    assert_eq!(a_records(&reply), vec![[1, 1, 1, 1], [2, 2, 2, 2]]);
    assert_eq!(txt_records(&reply), vec![b"x".to_vec()]);
}

#[test]
fn parse_reply_rejects_garbage() {
    assert_eq!(parse_dns_reply(&[1, 2, 3]), Err(DnsError::MalformedPacket));
}

#[test]
fn parse_reply_rejects_error_response_code() {
    let data = response(NX_DOMAIN, &[(1, vec![9, 9, 9, 9])]);
    assert_eq!(parse_dns_reply(&data), Err(DnsError::ResponseCode));
}

#[test]
fn parse_reply_rejects_empty_answer_section() {
    let data = response(NO_ERROR, &[]);
    assert_eq!(parse_dns_reply(&data), Err(DnsError::NoRecords));
}

#[test]
fn build_query_matches_the_wire_encoder() {
    let built = build_dns_query("example.com", QueryKind::A).unwrap();
    let mut reference = dns_parser::Builder::new_query(1, true);
    reference.add_question(
        "example.com",
        false,
        dns_parser::QueryType::A,
        dns_parser::QueryClass::IN,
    );
    assert_eq!(built, reference.build().unwrap());
}

#[test]
fn build_query_kinds_differ() {
    let a = build_dns_query("example.com", QueryKind::A).unwrap();
    let aaaa = build_dns_query("example.com", QueryKind::Aaaa).unwrap();
    let txt = build_dns_query("example.com", QueryKind::Txt).unwrap();
    assert_ne!(a, aaaa);
    assert_ne!(a, txt);
    assert_ne!(aaaa, txt);
}

#[test]
fn build_query_refuses_an_oversize_label() {
    let long_label = "a".repeat(63);
    assert_eq!(
        build_dns_query(&long_label, QueryKind::A),
        Err(DnsError::NameTooLong)
    );
    let ok_label = "a".repeat(62);
    assert!(build_dns_query(&ok_label, QueryKind::A).is_ok());
}

#[test]
fn check_labels_counts_per_label() {
    assert!(check_labels(b"example.com"));
    assert!(check_labels(b""));
    assert!(check_labels(format!("{}.{}", "a".repeat(62), "b".repeat(62)).as_bytes()));
    assert!(!check_labels("a".repeat(63).as_bytes()));
    assert!(!check_labels(format!("ok.{}", "b".repeat(63)).as_bytes()));
}

#[test]
fn parse_port_reads_decimal() {
    assert_eq!(parse_port(b"80"), Some(80));
    assert_eq!(parse_port(b"65535"), Some(65535));
    assert_eq!(parse_port(b"0"), Some(0));
    assert_eq!(parse_port(b"0080"), Some(80));
}

#[test]
fn parse_port_accepts_a_leading_plus() {
    assert_eq!(parse_port(b"+443"), Some(443));
}

#[test]
fn parse_port_rejects_bad_text() {
    assert_eq!(parse_port(b""), None);
    assert_eq!(parse_port(b"+"), None);
    assert_eq!(parse_port(b"65536"), None);
    assert_eq!(parse_port(b"99999999999999999999"), None);
    assert_eq!(parse_port(b"12a"), None);
    assert_eq!(parse_port(b"-1"), None);
    assert_eq!(parse_port(b" 80"), None);
}

#[test]
fn split_host_port_at_the_last_colon() {
    let (host, port) = split_host_port(b"stun.example.net:3478").unwrap();
    assert_eq!(host, b"stun.example.net".to_vec());
    assert_eq!(port, 3478);
    // The last colon wins, as in bracketless IPv6-ish text.
    let (host, port) = split_host_port(b"a:b:90").unwrap();
    assert_eq!(host, b"a:b".to_vec());
    assert_eq!(port, 90);
}

#[test]
fn split_host_port_needs_a_port() {
    assert_eq!(split_host_port(b"no-colon"), None);
    assert_eq!(split_host_port(b"host:"), None);
    assert_eq!(split_host_port(b"host:99999"), None);
    assert_eq!(split_host_port(b"host:x"), None);
}

#[test]
fn effective_name_servers_fills_defaults() {
    let mut empty: Vec<String> = Vec::new();
    effective_name_servers(&mut empty);
    assert_eq!(
        empty,
        vec!["223.5.5.5:53".to_string(), "114.114.114.114:53".to_string()]
    );
    let mut given = vec!["9.9.9.9:53".to_string()];
    effective_name_servers(&mut given);
    assert_eq!(given, vec!["9.9.9.9:53".to_string()]);
}

#[test]
fn combine_addrs_orders_v4_before_v6() {
    let v4 = vec![[1, 2, 3, 4], [5, 6, 7, 8]];
    let v6 = vec![[9u8; 16]];
    let out = combine_addrs(&v4, &v6, 7777);
    assert_eq!(
        out,
        vec![
            SockAddr::V4 { ip: [1, 2, 3, 4], port: 7777 },
            SockAddr::V4 { ip: [5, 6, 7, 8], port: 7777 },
            SockAddr::V6 { ip: [9; 16], port: 7777 },
        ]
    );
}

#[test]
fn combine_addrs_of_nothing_is_empty() {
    assert!(combine_addrs(&Vec::new(), &Vec::new(), 1).is_empty());
}
