use pfctl::addr::{Address, AddrFamily, TransportSelector};
use pfctl::error::PfError;
use pfctl::state::{
    decode_state_entry, decode_state_table, direction, protocol_name, Direction, StateEntry,
    STATE_LEN,
};
use pfctl::timeout::TimeoutState;

fn put(record: &mut [u8], offset: usize, bytes: &[u8]) {
    record[offset..offset + bytes.len()].copy_from_slice(bytes);
}

fn put_endpoint(record: &mut [u8], offset: usize, addr: [u8; 4], port: u16) {
    put(record, offset, &addr);
    put(record, offset + 16, &port.to_be_bytes());
}

/// A TCP record on interface `ALL` with both sides established.
fn tcp_record(
    lan: ([u8; 4], u16),
    gwy: ([u8; 4], u16),
    ext: ([u8; 4], u16),
    dir: u8,
) -> Vec<u8> {
    let mut r = vec![0u8; STATE_LEN];
    put(&mut r, 0, &0x0102_0304_0506_0708u64.to_be_bytes());
    put(&mut r, 8, b"ALL");
    put_endpoint(&mut r, 24, lan.0, lan.1);
    put_endpoint(&mut r, 48, gwy.0, gwy.1);
    put_endpoint(&mut r, 72, ext.0, ext.1);
    put_endpoint(&mut r, 96, ext.0, ext.1);
    r[144] = 2;
    r[176] = 2;
    put(&mut r, 216, &7u32.to_be_bytes());
    put(&mut r, 220, &3u32.to_be_bytes());
    put(&mut r, 224, &9u32.to_be_bytes());
    put(&mut r, 228, &1000u64.to_be_bytes());
    put(&mut r, 236, &86400u64.to_be_bytes());
    put(&mut r, 244, &1u32.to_be_bytes());
    put(&mut r, 248, &2u32.to_be_bytes());
    put(&mut r, 252, &3u32.to_be_bytes());
    put(&mut r, 256, &4u32.to_be_bytes());
    put(&mut r, 260, &100u32.to_be_bytes());
    put(&mut r, 264, &200u32.to_be_bytes());
    put(&mut r, 268, &300u32.to_be_bytes());
    put(&mut r, 272, &400u32.to_be_bytes());
    r[282] = 2;
    r[283] = 2;
    r[284] = 6;
    r[285] = dir;
    r
}

fn scenario_a() -> Vec<u8> {
    tcp_record(
        ([120, 204, 94, 42], 17832),
        ([120, 204, 94, 42], 17832),
        ([172, 20, 10, 2], 54607),
        1,
    )
}

fn scenario_b() -> Vec<u8> {
    tcp_record(
        ([172, 20, 10, 2], 54607),
        ([10, 114, 73, 55], 35365),
        ([120, 204, 94, 42], 17832),
        2,
    )
}

fn table(records: &[Vec<u8>], declared: u32) -> Vec<u8> {
    let mut buf = declared.to_be_bytes().to_vec();
    for r in records {
        buf.extend_from_slice(r);
    }
    buf
}

#[test]
fn inbound_state_without_translation_formats_on_one_segment() {
    let entry = decode_state_entry(&scenario_a()).unwrap();
    assert_eq!(
        entry.format(),
        "ALL tcp 120.204.94.42:17832 <- 172.20.10.2:54607 ESTABLISHED:ESTABLISHED"
    );
    assert!(!entry.shows_gateway());
}

#[test]
fn translated_state_formats_with_gateway_segment() {
    let entry = decode_state_entry(&scenario_b()).unwrap();
    assert_eq!(
        entry.format(),
        "ALL tcp 172.20.10.2:54607 -> 10.114.73.55:35365 -> 120.204.94.42:17832 ESTABLISHED:ESTABLISHED"
    );
    assert!(entry.shows_gateway());
}

#[test]
fn gateway_segment_shows_when_only_the_port_differs() {
    let r = tcp_record(
        ([10, 0, 0, 1], 1000),
        ([10, 0, 0, 1], 2000),
        ([10, 0, 0, 9], 80),
        2,
    );
    let entry = decode_state_entry(&r).unwrap();
    assert_eq!(
        entry.format(),
        "ALL tcp 10.0.0.1:1000 -> 10.0.0.1:2000 -> 10.0.0.9:80 ESTABLISHED:ESTABLISHED"
    );
}

#[test]
fn decoded_entry_holds_every_field() {
    let entry: StateEntry = decode_state_entry(&scenario_b()).unwrap();
    assert_eq!(entry.id, 0x0102_0304_0506_0708);
    assert_eq!(entry.ifname, "ALL");
    assert_eq!(entry.proto, 6);
    assert_eq!(entry.direction, Direction::Out);
    assert_eq!(entry.lan.addr, Address::V4(0xac14_0a02));
    assert_eq!(entry.lan.xport, TransportSelector::Port(54607));
    assert_eq!(entry.lan.family, AddrFamily::Ipv4);
    assert_eq!(entry.gwy.addr, Address::V4(0x0a72_4937));
    assert_eq!(entry.gwy.xport, TransportSelector::Port(35365));
    assert_eq!(entry.ext_lan.addr, Address::V4(0x78cc_5e2a));
    assert_eq!(entry.ext_gwy.xport, TransportSelector::Port(17832));
    assert_eq!(entry.src_state, TimeoutState::TcpEstablished);
    assert_eq!(entry.dst_state, TimeoutState::TcpEstablished);
    assert_eq!(entry.packets, 10);
    assert_eq!(entry.bytes, 1000);
    assert_eq!(entry.creation, 1000);
    assert_eq!(entry.expire, 86400);
    assert_eq!(entry.rule, 7);
    assert_eq!(entry.anchor, 3);
    assert_eq!(entry.nat_rule, 9);
}

#[test]
fn counters_add_up_without_wrapping() {
    let mut r = scenario_a();
    for k in 0..4 {
        put(&mut r, 244 + 4 * k, &u32::MAX.to_be_bytes());
    }
    let entry = decode_state_entry(&r).unwrap();
    assert_eq!(entry.packets, 4 * (u32::MAX as u64));
}

#[test]
fn short_record_is_truncated() {
    let r = scenario_a();
    assert_eq!(decode_state_entry(&r[..STATE_LEN - 1]), Err(PfError::TruncatedBuffer));
    assert_eq!(decode_state_entry(&[]), Err(PfError::TruncatedBuffer));
}

#[test]
fn bytes_after_the_record_are_ignored() {
    let mut r = scenario_a();
    let expected = decode_state_entry(&r).unwrap();
    r.extend_from_slice(&[0xff; 10]);
    assert_eq!(decode_state_entry(&r), Ok(expected));
}

#[test]
fn unknown_family_tag_is_malformed() {
    let mut r = scenario_a();
    r[282] = 10;
    assert_eq!(decode_state_entry(&r), Err(PfError::MalformedRecord));
    let mut r = scenario_a();
    r[283] = 0;
    assert_eq!(decode_state_entry(&r), Err(PfError::MalformedRecord));
}

#[test]
fn out_of_range_state_byte_is_reported() {
    let mut r = scenario_a();
    r[144] = 29;
    assert_eq!(decode_state_entry(&r), Err(PfError::UnknownTimeoutState));
    let mut r = scenario_a();
    r[176] = 255;
    assert_eq!(decode_state_entry(&r), Err(PfError::UnknownTimeoutState));
}

#[test]
fn bad_family_is_reported_before_bad_state() {
    let mut r = scenario_a();
    r[282] = 7;
    r[144] = 200;
    assert_eq!(decode_state_entry(&r), Err(PfError::MalformedRecord));
}

#[test]
fn interface_name_loses_only_trailing_padding() {
    let mut r = scenario_a();
    put(&mut r, 8, b"bridge100\0\0\0\0\0\0\0");
    assert_eq!(decode_state_entry(&r).unwrap().ifname, "bridge100");
    put(&mut r, 8, b"0123456789abcdef");
    assert_eq!(decode_state_entry(&r).unwrap().ifname, "0123456789abcdef");
    put(&mut r, 8, &[0u8; 16]);
    assert_eq!(decode_state_entry(&r).unwrap().ifname, "");
    put(&mut r, 8, b"a\0b\0\0\0\0\0\0\0\0\0\0\0\0\0");
    assert_eq!(decode_state_entry(&r).unwrap().ifname, "a\0b");
}

#[test]
fn ipv6_udp_state_formats_with_compressed_addresses() {
    let mut r = scenario_a();
    let lan: [u8; 16] = [
        0x24, 0x09, 0x89, 0x20, 0x0e, 0x20, 0xc5, 0xb3, 0xc0, 0x5e, 0xd0, 0xea, 0x4c, 0x11, 0xa7,
        0x36,
    ];
    let ext: [u8; 16] = [0x24, 0x09, 0x80, 0x20, 0x20, 0, 0, 0, 0, 0, 0, 0, 0, 0, 0, 6];
    put(&mut r, 24, &lan);
    put(&mut r, 40, &56973u16.to_be_bytes());
    put(&mut r, 48, &lan);
    put(&mut r, 64, &56973u16.to_be_bytes());
    put(&mut r, 72, &ext);
    put(&mut r, 88, &53u16.to_be_bytes());
    put(&mut r, 96, &ext);
    put(&mut r, 112, &53u16.to_be_bytes());
    r[282] = 30;
    r[283] = 30;
    r[284] = 17;
    r[144] = 6;
    r[176] = 7;
    let entry = decode_state_entry(&r).unwrap();
    assert_eq!(entry.lan.family, AddrFamily::Ipv6);
    assert_eq!(
        entry.format(),
        "ALL udp 2409:8920:e20:c5b3:c05e:d0ea:4c11:a736:56973 <- 2409:8020:2000::6:53 FIRST_PACKET:SINGLE"
    );
}

#[test]
fn zero_port_is_left_out() {
    let mut r = tcp_record(([10, 0, 0, 1], 0), ([10, 0, 0, 1], 0), ([10, 0, 0, 2], 0), 0);
    r[284] = 89;
    let entry = decode_state_entry(&r).unwrap();
    assert_eq!(entry.format(), "ALL ospf 10.0.0.1 -- 10.0.0.2 ESTABLISHED:ESTABLISHED");
}

#[test]
fn protocol_names_follow_the_table() {
    let known = [
        (1u8, "icmp"),
        (2, "igmp"),
        (6, "tcp"),
        (17, "udp"),
        (47, "gre"),
        (50, "esp"),
        (51, "ah"),
        (58, "icmpv6"),
        (89, "ospf"),
        (132, "sctp"),
    ];
    for p in 0..=255u8 {
        let expected = known.iter().find(|(n, _)| *n == p).map(|(_, s)| *s).unwrap_or("unknown");
        assert_eq!(protocol_name(p), expected);
    }
}

#[test]
fn direction_arrows() {
    assert_eq!(direction(1), "<-");
    assert_eq!(direction(2), "->");
    assert_eq!(direction(0), "--");
    assert_eq!(direction(3), "--");
    assert_eq!(direction(255), "--");
    assert_eq!(Direction::from_u8(1), Direction::In);
    assert_eq!(Direction::from_u8(2), Direction::Out);
    assert_eq!(Direction::from_u8(0), Direction::Unknown);
    assert_eq!(Direction::In.as_str(), "<-");
}

#[test]
fn table_with_declared_count_beyond_its_bytes_is_truncated() {
    let buf = table(&[scenario_a()], 2);
    assert_eq!(decode_state_table(&buf), Err(PfError::TruncatedBuffer));
    let mut short = table(&[scenario_a(), scenario_b()], 2);
    short.pop();
    assert_eq!(decode_state_table(&short), Err(PfError::TruncatedBuffer));
}

#[test]
fn table_with_bytes_beyond_its_count_is_refused() {
    let buf = table(&[scenario_a(), scenario_b()], 1);
    assert_eq!(decode_state_table(&buf), Err(PfError::TruncatedBuffer));
}

#[test]
fn table_without_a_whole_header_is_truncated() {
    assert_eq!(decode_state_table(&[]), Err(PfError::TruncatedBuffer));
    assert_eq!(decode_state_table(&[0, 0, 0]), Err(PfError::TruncatedBuffer));
}

#[test]
fn empty_table_decodes_to_no_entries() {
    assert_eq!(decode_state_table(&[0, 0, 0, 0]), Ok(vec![]));
}

#[test]
fn table_decodes_every_record_in_order() {
    let buf = table(&[scenario_a(), scenario_b()], 2);
    let entries = decode_state_table(&buf).unwrap();
    assert_eq!(entries.len(), 2);
    assert_eq!(entries[0], decode_state_entry(&scenario_a()));
    assert_eq!(entries[1], decode_state_entry(&scenario_b()));
}

#[test]
fn one_bad_record_does_not_hide_the_others() {
    let mut bad_state = scenario_a();
    bad_state[144] = 99;
    let mut bad_family = scenario_b();
    bad_family[283] = 1;
    let buf = table(&[scenario_a(), bad_state, bad_family, scenario_b()], 4);
    let entries = decode_state_table(&buf).unwrap();
    assert_eq!(entries.len(), 4);
    assert!(entries[0].is_ok());
    assert_eq!(entries[1], Err(PfError::UnknownTimeoutState));
    assert_eq!(entries[2], Err(PfError::MalformedRecord));
    assert_eq!(
        entries[3].as_ref().unwrap().format(),
        "ALL tcp 172.20.10.2:54607 -> 10.114.73.55:35365 -> 120.204.94.42:17832 ESTABLISHED:ESTABLISHED"
    );
}

#[test]
fn encoded_table_decodes_to_its_records() {
    let records = vec![scenario_a(), scenario_b()];
    let buf = pfctl::state::encode_state_table(&records);
    assert_eq!(buf, table(&records, 2));
    let entries = decode_state_table(&buf).unwrap();
    assert_eq!(entries.len(), 2);
    assert_eq!(entries[0], decode_state_entry(&records[0]));
    assert_eq!(entries[1], decode_state_entry(&records[1]));
    assert_eq!(pfctl::state::encode_state_table(&Vec::new()), vec![0, 0, 0, 0]);
}
