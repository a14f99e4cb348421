use port_detection::table::{
    parse_tcp_table_v4, parse_tcp_table_v6, parse_udp_table_v4, parse_udp_table_v6,
};
use port_detection::{ConnectionState, Protocol};

fn push_u32_le(buf: &mut Vec<u8>, x: u32) {
    buf.push((x & 0xff) as u8);
    buf.push(((x >> 8) & 0xff) as u8);
    buf.push(((x >> 16) & 0xff) as u8);
    buf.push(((x >> 24) & 0xff) as u8);
}

fn push_port(buf: &mut Vec<u8>, port: u16) {
    buf.push((port >> 8) as u8);
    buf.push((port & 0xff) as u8);
    buf.push(0);
    buf.push(0);
}

#[test]
fn tcp_v4_round_trip_two_rows() {
    let mut buf: Vec<u8> = Vec::new();
    push_u32_le(&mut buf, 2);
    // row 1: LISTEN on 0.0.0.0:8080, pid 1234
    push_u32_le(&mut buf, 2);
    buf.extend_from_slice(&[0, 0, 0, 0]);
    push_port(&mut buf, 8080);
    buf.extend_from_slice(&[0, 0, 0, 0]);
    push_port(&mut buf, 0);
    push_u32_le(&mut buf, 1234);
    // row 2: ESTABLISHED 192.168.1.10:443 -> 10.0.0.1:51000, pid 77
    push_u32_le(&mut buf, 5);
    buf.extend_from_slice(&[192, 168, 1, 10]);
    push_port(&mut buf, 443);
    buf.extend_from_slice(&[10, 0, 0, 1]);
    push_port(&mut buf, 51000);
    push_u32_le(&mut buf, 77);

    let rows = parse_tcp_table_v4(&buf);
    assert_eq!(rows.len(), 2);
    assert_eq!(rows[0].port, 8080);
    assert_eq!(rows[0].protocol, Protocol::TCP);
    assert_eq!(rows[0].local_addr, "0.0.0.0");
    assert_eq!(rows[0].state, ConnectionState::Listen);
    assert_eq!(rows[0].pid, 1234);
    assert_eq!(rows[1].port, 443);
    assert_eq!(rows[1].local_addr, "192.168.1.10");
    assert_eq!(rows[1].remote_addr.as_deref(), Some("10.0.0.1"));
    assert_eq!(rows[1].remote_port, Some(51000));
    assert_eq!(rows[1].state, ConnectionState::Established);
    assert_eq!(rows[1].pid, 77);
}

#[test]
fn tcp_v4_unknown_state_code_is_preserved() {
    let mut buf: Vec<u8> = Vec::new();
    push_u32_le(&mut buf, 1);
    push_u32_le(&mut buf, 99);
    buf.extend_from_slice(&[127, 0, 0, 1]);
    push_port(&mut buf, 80);
    buf.extend_from_slice(&[0, 0, 0, 0]);
    push_port(&mut buf, 0);
    push_u32_le(&mut buf, 1);
    let rows = parse_tcp_table_v4(&buf);
    assert_eq!(rows.len(), 1);
    assert_eq!(rows[0].state, ConnectionState::Unknown(99));
    assert_eq!(rows[0].local_addr, "127.0.0.1");
}

#[test]
fn tcp_v4_truncated_buffer_reads_only_whole_rows() {
    let mut buf: Vec<u8> = Vec::new();
    push_u32_le(&mut buf, 5);
    push_u32_le(&mut buf, 2);
    buf.extend_from_slice(&[1, 2, 3, 4]);
    push_port(&mut buf, 22);
    buf.extend_from_slice(&[0, 0, 0, 0]);
    push_port(&mut buf, 0);
    push_u32_le(&mut buf, 9);
    // claims five rows, holds one
    let rows = parse_tcp_table_v4(&buf);
    assert_eq!(rows.len(), 1);
    assert_eq!(rows[0].port, 22);
    assert_eq!(rows[0].local_addr, "1.2.3.4");
}

#[test]
fn tcp_v4_empty_and_short_buffers_yield_nothing() {
    assert!(parse_tcp_table_v4(&[]).is_empty());
    assert!(parse_tcp_table_v4(&[1, 0]).is_empty());
    let mut buf: Vec<u8> = Vec::new();
    push_u32_le(&mut buf, 0);
    assert!(parse_tcp_table_v4(&buf).is_empty());
}

#[test]
fn udp_v4_rows_are_bound_without_remote() {
    let mut buf: Vec<u8> = Vec::new();
    push_u32_le(&mut buf, 1);
    buf.extend_from_slice(&[0, 0, 0, 0]);
    push_port(&mut buf, 53);
    push_u32_le(&mut buf, 400);
    let rows = parse_udp_table_v4(&buf);
    assert_eq!(rows.len(), 1);
    assert_eq!(rows[0].port, 53);
    assert_eq!(rows[0].protocol, Protocol::UDP);
    assert_eq!(rows[0].state, ConnectionState::Bound);
    assert!(rows[0].remote_addr.is_none());
    assert!(rows[0].remote_port.is_none());
    assert_eq!(rows[0].pid, 400);
}

#[test]
fn tcp_v6_round_trip_with_compression() {
    let mut buf: Vec<u8> = Vec::new();
    push_u32_le(&mut buf, 1);
    // local: 2001:db8::1, scope 0, port 443
    buf.extend_from_slice(&[0x20, 0x01, 0x0d, 0xb8, 0, 0, 0, 0, 0, 0, 0, 0, 0, 0, 0, 1]);
    push_u32_le(&mut buf, 0);
    push_port(&mut buf, 443);
    // remote: ::, scope 0, port 0
    buf.extend_from_slice(&[0; 16]);
    push_u32_le(&mut buf, 0);
    push_port(&mut buf, 0);
    push_u32_le(&mut buf, 2);
    push_u32_le(&mut buf, 900);
    let rows = parse_tcp_table_v6(&buf);
    assert_eq!(rows.len(), 1);
    assert_eq!(rows[0].port, 443);
    assert_eq!(rows[0].local_addr, "[2001:db8::1]");
    assert_eq!(rows[0].remote_addr.as_deref(), Some("[::]"));
    assert_eq!(rows[0].state, ConnectionState::Listen);
    assert_eq!(rows[0].pid, 900);
}

#[test]
fn udp_v6_loopback_and_mapped_addresses() {
    let mut buf: Vec<u8> = Vec::new();
    push_u32_le(&mut buf, 2);
    // ::1
    buf.extend_from_slice(&[0, 0, 0, 0, 0, 0, 0, 0, 0, 0, 0, 0, 0, 0, 0, 1]);
    push_u32_le(&mut buf, 0);
    push_port(&mut buf, 5353);
    push_u32_le(&mut buf, 10);
    // ::ffff:1.2.3.4
    buf.extend_from_slice(&[0, 0, 0, 0, 0, 0, 0, 0, 0, 0, 0xff, 0xff, 1, 2, 3, 4]);
    push_u32_le(&mut buf, 0);
    push_port(&mut buf, 68);
    push_u32_le(&mut buf, 11);
    let rows = parse_udp_table_v6(&buf);
    assert_eq!(rows.len(), 2);
    assert_eq!(rows[0].local_addr, "[::1]");
    assert_eq!(rows[0].port, 5353);
    assert_eq!(rows[0].state, ConnectionState::Bound);
    assert_eq!(rows[1].local_addr, "[::ffff:1.2.3.4]");
    assert_eq!(rows[1].port, 68);
}

#[test]
fn tcp_v6_leftmost_longest_zero_run_wins() {
    let mut buf: Vec<u8> = Vec::new();
    push_u32_le(&mut buf, 1);
    // groups 1:0:0:1:0:0:0:1
    buf.extend_from_slice(&[0, 1, 0, 0, 0, 0, 0, 1, 0, 0, 0, 0, 0, 0, 0, 1]);
    push_u32_le(&mut buf, 0);
    push_port(&mut buf, 1);
    buf.extend_from_slice(&[0; 16]);
    push_u32_le(&mut buf, 0);
    push_port(&mut buf, 0);
    push_u32_le(&mut buf, 1);
    push_u32_le(&mut buf, 1);
    let rows = parse_tcp_table_v6(&buf);
    assert_eq!(rows[0].local_addr, "[1:0:0:1::1]");
}
